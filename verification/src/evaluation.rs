//! Comparing predictions with the true labels: the confusion matrix of a
//! binary classifier and the two counts that its accuracy is the ratio of.

use crate::error::ErrorKind;
use vstd::prelude::*;

verus! {

/// Among the first `n` rows, how many were predicted as `predicted` and are
/// in truth `actual`.
pub open spec fn count_cell(
    predictions: Seq<usize>,
    labels: Seq<usize>,
    predicted: usize,
    actual: usize,
    n: nat,
) -> nat
    decreases n,
{
    if n == 0 {
        0
    } else {
        count_cell(predictions, labels, predicted, actual, (n - 1) as nat) + if predictions[n - 1]
            == predicted && labels[n - 1] == actual {
            1nat
        } else {
            0nat
        }
    }
}

/// The four cells of a confusion matrix and the number of rows, as
/// mathematical values.
pub ghost struct ConfusionView {
    /// Predicted ham, in truth ham.
    pub true_negative: nat,
    /// Predicted spam, in truth ham.
    pub false_positive: nat,
    /// Predicted ham, in truth spam.
    pub false_negative: nat,
    /// Predicted spam, in truth spam.
    pub true_positive: nat,
    /// All rows, those with a label that is neither ham nor spam too.
    pub total: nat,
}

/// The confusion matrix of a prediction on `predictions.len()` rows.
pub open spec fn confusion_of(predictions: Seq<usize>, labels: Seq<usize>) -> ConfusionView {
    let n = predictions.len();
    ConfusionView {
        true_negative: count_cell(predictions, labels, 0, 0, n),
        false_positive: count_cell(predictions, labels, 1, 0, n),
        false_negative: count_cell(predictions, labels, 0, 1, n),
        true_positive: count_cell(predictions, labels, 1, 1, n),
        total: n,
    }
}

/// Counts of predicted against actual class.
#[derive(Clone, Copy, Debug)]
pub struct ConfusionMatrix {
    true_negative: usize,
    false_positive: usize,
    false_negative: usize,
    true_positive: usize,
    total: usize,
}

impl View for ConfusionMatrix {
    type V = ConfusionView;

    closed spec fn view(&self) -> ConfusionView {
        ConfusionView {
            true_negative: self.true_negative as nat,
            false_positive: self.false_positive as nat,
            false_negative: self.false_negative as nat,
            true_positive: self.true_positive as nat,
            total: self.total as nat,
        }
    }
}

impl ConfusionMatrix {
    #[verifier::type_invariant]
    spec fn cells_within_total(self) -> bool {
        self.true_negative + self.false_positive + self.false_negative + self.true_positive
            <= self.total
    }

    /// Rows predicted ham that are ham.
    pub fn true_negative(&self) -> (count: usize)
        ensures
            count == self@.true_negative,
    {
        self.true_negative
    }

    /// Rows predicted spam that are ham.
    pub fn false_positive(&self) -> (count: usize)
        ensures
            count == self@.false_positive,
    {
        self.false_positive
    }

    /// Rows predicted ham that are spam.
    pub fn false_negative(&self) -> (count: usize)
        ensures
            count == self@.false_negative,
    {
        self.false_negative
    }

    /// Rows predicted spam that are spam.
    pub fn true_positive(&self) -> (count: usize)
        ensures
            count == self@.true_positive,
    {
        self.true_positive
    }

    /// The number of rows that were compared.
    pub fn total(&self) -> (count: usize)
        ensures
            count == self@.total,
    {
        self.total
    }

    /// The number of rows that were predicted as what they are. Accuracy is
    /// this count divided by `total`.
    pub fn correct(&self) -> (count: usize)
        ensures
            count == self@.true_positive + self@.true_negative,
            count <= self@.total,
    {
        proof {
            use_type_invariant(self);
        }
        self.true_positive + self.true_negative
    }
}

/// Builds the confusion matrix of `predictions` against the true `labels`.
/// Fails with `DimensionMismatch` when the two differ in length.
pub fn confusion_matrix(predictions: &[usize], labels: &[usize]) -> (r: Result<
    ConfusionMatrix,
    ErrorKind,
>)
    ensures
        match r {
            Ok(matrix) => predictions@.len() == labels@.len() && matrix@ == confusion_of(
                predictions@,
                labels@,
            ),
            Err(kind) => predictions@.len() != labels@.len() && kind
                == ErrorKind::DimensionMismatch,
        },
{
    let n = predictions.len();
    if labels.len() != n {
        return Err(ErrorKind::DimensionMismatch);
    }
    let mut true_negative: usize = 0;
    let mut false_positive: usize = 0;
    let mut false_negative: usize = 0;
    let mut true_positive: usize = 0;
    let mut i: usize = 0;
    while i < n
        invariant
            i <= n,
            n == predictions.len(),
            n == labels.len(),
            true_negative == count_cell(predictions@, labels@, 0, 0, i as nat),
            false_positive == count_cell(predictions@, labels@, 1, 0, i as nat),
            false_negative == count_cell(predictions@, labels@, 0, 1, i as nat),
            true_positive == count_cell(predictions@, labels@, 1, 1, i as nat),
            true_negative + false_positive + false_negative + true_positive <= i,
        decreases n - i,
    {
        let predicted = predictions[i];
        let actual = labels[i];
        if predicted == 0 && actual == 0 {
            true_negative += 1;
        } else if predicted == 1 && actual == 0 {
            false_positive += 1;
        } else if predicted == 0 && actual == 1 {
            false_negative += 1;
        } else if predicted == 1 && actual == 1 {
            true_positive += 1;
        }
        i += 1;
    }
    Ok(ConfusionMatrix { true_negative, false_positive, false_negative, true_positive, total: n })
}

} // verus!
