//! Feature extraction for a spam filter: text normalisation, whitespace
//! tokenisation, vocabulary construction, document frequencies and raw
//! term counts, together with the integer bookkeeping around training,
//! splitting and evaluating a binary classifier.

pub mod api;
pub mod dataset;
pub mod error;
pub mod evaluation;
pub mod events;
pub mod inference;
pub mod text;
pub mod vectorizer;
pub mod vocabulary;
