[package]
name = "ml_rust"
version = "0.1.0"
edition = "2021"
publish = false

[dependencies]
axum = "0.7"
bincode = "1"
env_logger = "0.11"
futures = "0.3"
linfa = { version = "0.7", features = ["serde"] }
linfa-bayes = { version = "0.7", features = ["serde"] }
log = "0.4"
ndarray = { version = "0.15", features = ["serde"] }
polars = { version = "0.41", default-features = false, features = ["csv"] }
redis = { version = "0.25", features = ["tokio-comp", "aio"] }
regex = "1"
serde = { version = "1", features = ["derive"] }
serde_json = "1"
tokio = { version = "1", features = ["macros", "rt-multi-thread", "net"] }
tower-http = { version = "0.5", features = ["cors"] }
