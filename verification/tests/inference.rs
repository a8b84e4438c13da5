use ml_rust::api::{respond, PredictionRequest};
use ml_rust::error::ErrorKind;
use ml_rust::inference::{label_name, message_counts};
use ml_rust::vocabulary::Vocabulary;

#[test]
fn label_name_of_each_class() {
    assert_eq!(label_name(1), "SPAM");
    assert_eq!(label_name(0), "HAM");
    assert_eq!(label_name(2), "HAM");
}

#[test]
fn message_counts_normalise_the_message() {
    let mut v = Vocabulary::new();
    v.insert("free");
    v.insert("money");
    v.insert("now");
    assert_eq!(message_counts(&v, "FREE money, free!"), vec![2, 1, 0]);
    assert_eq!(message_counts(&v, ""), vec![0, 0, 0]);
    assert_eq!(message_counts(&v, "call me later"), vec![0, 0, 0]);
}

#[test]
fn respond_carries_the_label() {
    let request = PredictionRequest { message: "free money".to_string() };
    let response = respond(request, Ok("SPAM".to_string()));
    assert_eq!(response.message, "free money");
    assert_eq!(response.prediction, "SPAM");
}

#[test]
fn respond_describes_a_failure() {
    let request = PredictionRequest { message: "hello".to_string() };
    let response = respond(request, Err("model.bin is missing".to_string()));
    assert_eq!(response.message, "hello");
    assert_eq!(response.prediction, "Error: model.bin is missing");
}

#[test]
fn every_error_kind_has_its_description() {
    assert_eq!(ErrorKind::DataLoad.describe(), "failed to load the training data");
    assert_eq!(ErrorKind::ArtifactNotFound.describe(), "artifact not found");
    assert_eq!(ErrorKind::ArtifactCorrupt.describe(), "artifact is corrupt");
    assert_eq!(ErrorKind::DimensionMismatch.describe(), "dimension mismatch");
    assert_eq!(ErrorKind::Fit.describe(), "degenerate training data");
}
