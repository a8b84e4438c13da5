//! What classifying one message needs beside the classifier itself: the
//! term counts of the message, and the name of the class that was found.

use crate::text::{clean_text, tokenize};
use crate::vectorizer::{count_row, count_terms, message_tokens, row_view};
use crate::vocabulary::Vocabulary;
use vstd::prelude::*;

verus! {

/// The name of a class: `SPAM` for class 1, `HAM` for any other.
pub open spec fn label_text(class: usize) -> Seq<char> {
    if class == 1 {
        "SPAM"@
    } else {
        "HAM"@
    }
}

/// The name of a class, as shown to the user.
pub fn label_name(class: usize) -> (name: String)
    ensures
        name@ == label_text(class),
{
    if class == 1 {
        "SPAM".to_owned()
    } else {
        "HAM".to_owned()
    }
}

/// How often each token of `vocabulary` occurs in `message`, once the
/// message is normalised and split at whitespace. The row is as wide as
/// the vocabulary, whatever the message holds.
pub fn message_counts(vocabulary: &Vocabulary, message: &str) -> (row: Vec<usize>)
    requires
        vocabulary.wf(),
    ensures
        row_view(row@) == count_row(vocabulary@, message_tokens(message@)),
        row.len() == vocabulary@.len(),
{
    let cleaned = clean_text(message);
    let tokens = tokenize(cleaned.as_str());
    let row = count_terms(vocabulary, &tokens);
    assert(row@.len() == row_view(row@).len());
    row
}

} // verus!
