//! The request and the response of the serving boundary.

use vstd::prelude::*;
use vstd::string::*;

verus! {

/// A message to classify.
#[derive(Clone, Debug)]
pub struct PredictionRequest {
    pub message: String,
}

/// The message that was sent, with what was found out about it: the name
/// of its class, or a description of what went wrong.
#[derive(Clone, Debug)]
pub struct PredictionResponse {
    pub message: String,
    pub prediction: String,
}

/// The text that reports the outcome of a classification: the class name,
/// or the failure after the words `Error: `.
pub open spec fn prediction_text(outcome: Result<Seq<char>, Seq<char>>) -> Seq<char> {
    match outcome {
        Ok(label) => label,
        Err(failure) => "Error: "@ + failure,
    }
}

/// The characters of an outcome.
pub open spec fn outcome_text(outcome: Result<String, String>) -> Result<Seq<char>, Seq<char>> {
    match outcome {
        Ok(label) => Ok(label@),
        Err(failure) => Err(failure@),
    }
}

/// Answers a request. A failed classification still gets a response: its
/// prediction describes the failure.
pub fn respond(request: PredictionRequest, outcome: Result<String, String>) -> (response:
    PredictionResponse)
    ensures
        response.message@ == request.message@,
        response.prediction@ == prediction_text(outcome_text(outcome)),
{
    let prediction = match outcome {
        Ok(label) => label,
        Err(failure) => "Error: ".to_owned().concat(failure.as_str()),
    };
    PredictionResponse { message: request.message, prediction }
}

} // verus!
