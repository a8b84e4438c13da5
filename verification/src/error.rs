//! The kinds of failure that the library reports.

use vstd::prelude::*;

verus! {

/// Why an operation failed.
#[derive(Clone, Copy, Debug, PartialEq, Eq, Structural)]
pub enum ErrorKind {
    /// The training data could not be read or has the wrong shape.
    DataLoad,
    /// A stored model or vectorizer is missing.
    ArtifactNotFound,
    /// A stored model or vectorizer could not be decoded, or what was
    /// decoded is not a vocabulary.
    ArtifactCorrupt,
    /// Two things that must have the same width or length do not.
    DimensionMismatch,
    /// The training data is degenerate: empty, or without examples of one
    /// class.
    Fit,
}

impl ErrorKind {
    /// The words that describe this kind of failure.
    pub open spec fn description(self) -> Seq<char> {
        match self {
            ErrorKind::DataLoad => "failed to load the training data"@,
            ErrorKind::ArtifactNotFound => "artifact not found"@,
            ErrorKind::ArtifactCorrupt => "artifact is corrupt"@,
            ErrorKind::DimensionMismatch => "dimension mismatch"@,
            ErrorKind::Fit => "degenerate training data"@,
        }
    }

    /// A description of the failure, for messages to the user.
    pub fn describe(&self) -> (text: String)
        ensures
            text@ == self.description(),
    {
        match self {
            ErrorKind::DataLoad => "failed to load the training data".to_owned(),
            ErrorKind::ArtifactNotFound => "artifact not found".to_owned(),
            ErrorKind::ArtifactCorrupt => "artifact is corrupt".to_owned(),
            ErrorKind::DimensionMismatch => "dimension mismatch".to_owned(),
            ErrorKind::Fit => "degenerate training data".to_owned(),
        }
    }
}

} // verus!
