//! Labelled rows: reading the raw table, splitting a dataset into a
//! training and a test part, and checking that a training set can be
//! trained on.
//!
//! Labels are `0` for ham and `1` for spam.

use crate::error::ErrorKind;
use crate::text::{clean_text, normalized};
use vstd::prelude::*;

verus! {

/// One row of the raw table: the label column and the text column, each
/// possibly without a value.
#[derive(Clone, Debug)]
pub struct RawRow {
    pub label: Option<String>,
    pub text: Option<String>,
}

/// The characters of an optional string.
pub open spec fn option_text(value: Option<String>) -> Option<Seq<char>> {
    match value {
        Some(s) => Some(s@),
        None => None,
    }
}

/// The label that a value of the label column stands for: spam for the
/// word `spam`, ham for `ham`, for any other word and for no value.
pub open spec fn label_of(tag: Option<Seq<char>>) -> usize {
    if tag == Some("spam"@) {
        1
    } else {
        0
    }
}

/// The message that a value of the text column stands for: the normal form
/// of the text, the empty message for no value.
pub open spec fn message_of(text: Option<Seq<char>>) -> Seq<char> {
    match text {
        Some(t) => normalized(t),
        None => Seq::empty(),
    }
}

/// The label of a value of the label column.
pub fn parse_label(tag: Option<&str>) -> (label: usize)
    ensures
        label == label_of(
            match tag {
                Some(t) => Some(t@),
                None => None,
            },
        ),
{
    match tag {
        Some(t) => {
            if t.to_owned() == "spam".to_owned() {
                1
            } else {
                0
            }
        },
        None => 0,
    }
}

/// The normalised messages and the labels of the rows, in row order.
pub fn preprocess_dataframe(rows: &Vec<RawRow>) -> (columns: (Vec<String>, Vec<usize>))
    ensures
        columns.0.len() == rows.len(),
        columns.1.len() == rows.len(),
        forall|i: int|
            0 <= i < rows.len() ==> (#[trigger] columns.0@[i])@ == message_of(
                option_text(rows@[i].text),
            ),
        forall|i: int|
            0 <= i < rows.len() ==> #[trigger] columns.1@[i] == label_of(
                option_text(rows@[i].label),
            ),
{
    let n = rows.len();
    let mut messages: Vec<String> = Vec::new();
    let mut labels: Vec<usize> = Vec::new();
    let mut i: usize = 0;
    while i < n
        invariant
            i <= n,
            n == rows.len(),
            messages.len() == i,
            labels.len() == i,
            forall|r: int|
                0 <= r < i ==> (#[trigger] messages@[r])@ == message_of(option_text(rows@[r].text)),
            forall|r: int|
                0 <= r < i ==> #[trigger] labels@[r] == label_of(option_text(rows@[r].label)),
        decreases n - i,
    {
        let row = &rows[i];
        let label = match &row.label {
            Some(tag) => parse_label(Some(tag.as_str())),
            None => parse_label(None),
        };
        let message = match &row.text {
            Some(text) => clean_text(text.as_str()),
            None => String::new(),
        };
        labels.push(label);
        messages.push(message);
        i += 1;
    }
    (messages, labels)
}

/// Cuts a dataset in two without reordering it: the first `n_train` rows
/// with their labels, then the remaining rows with theirs. Labels beyond
/// the last row are dropped.
pub fn split_data<R>(x: Vec<R>, y: Vec<usize>, n_train: usize) -> (parts: (
    Vec<R>,
    Vec<usize>,
    Vec<R>,
    Vec<usize>,
))
    requires
        n_train <= x.len() <= y.len(),
    ensures
        parts.0@ == x@.take(n_train as int),
        parts.1@ == y@.take(n_train as int),
        parts.2@ == x@.skip(n_train as int),
        parts.3@ == y@.subrange(n_train as int, x.len() as int),
        parts.0.len() + parts.2.len() == x.len(),
{
    let n = x.len();
    let mut x_train = x;
    let mut y_train = y;
    let x_test = x_train.split_off(n_train);
    y_train.truncate(n);
    let y_test = y_train.split_off(n_train);
    (x_train, y_train, x_test, y_test)
}

/// How many labels are `class`.
pub open spec fn count_label(labels: Seq<usize>, class: usize) -> nat
    decreases labels.len(),
{
    if labels.len() == 0 {
        0
    } else {
        count_label(labels.drop_last(), class) + if labels.last() == class {
            1nat
        } else {
            0nat
        }
    }
}

/// Whether a classifier can be trained on `n_rows` rows with these labels:
/// there is one label for each row, every label is ham or spam, and both
/// classes have an example.
pub open spec fn trainable(n_rows: nat, labels: Seq<usize>) -> bool {
    &&& labels.len() == n_rows
    &&& forall|i: int| 0 <= i < labels.len() ==> #[trigger] labels[i] <= 1
    &&& count_label(labels, 0) > 0
    &&& count_label(labels, 1) > 0
}

/// The number of examples of each class.
#[derive(Clone, Copy, Debug, PartialEq, Eq, Structural)]
pub struct ClassCounts {
    pub ham: usize,
    pub spam: usize,
}

/// What one more label does to a count.
pub proof fn lemma_count_label_push(labels: Seq<usize>, label: usize, class: usize)
    ensures
        count_label(labels.push(label), class) == count_label(labels, class) + if label == class {
            1nat
        } else {
            0nat
        },
{
    assert(labels.push(label).drop_last() =~= labels);
}

/// No class has more examples than there are labels.
pub proof fn lemma_count_label_bounded(labels: Seq<usize>, class: usize)
    ensures
        count_label(labels, class) <= labels.len(),
    decreases labels.len(),
{
    if labels.len() > 0 {
        lemma_count_label_bounded(labels.drop_last(), class);
    }
}

/// Counts the examples of each class, and fails unless a classifier can be
/// trained on them: with `DimensionMismatch` when the number of labels is
/// not the number of rows, else with `Fit` when there is no row, a label
/// is neither ham nor spam, or a class has no example.
pub fn check_training_set(n_rows: usize, labels: &[usize]) -> (r: Result<ClassCounts, ErrorKind>)
    ensures
        match r {
            Ok(counts) => {
                &&& trainable(n_rows as nat, labels@)
                &&& counts.ham == count_label(labels@, 0)
                &&& counts.spam == count_label(labels@, 1)
            },
            Err(kind) => {
                &&& !trainable(n_rows as nat, labels@)
                &&& kind == if labels@.len() != n_rows {
                    ErrorKind::DimensionMismatch
                } else {
                    ErrorKind::Fit
                }
            },
        },
{
    let n = labels.len();
    if n != n_rows {
        return Err(ErrorKind::DimensionMismatch);
    }
    let mut ham: usize = 0;
    let mut spam: usize = 0;
    let mut i: usize = 0;
    assert(labels@.take(0) =~= Seq::<usize>::empty());
    while i < n
        invariant
            i <= n,
            n == labels.len(),
            n == n_rows,
            ham == count_label(labels@.take(i as int), 0),
            spam == count_label(labels@.take(i as int), 1),
            forall|r: int| 0 <= r < i ==> #[trigger] labels@[r] <= 1,
        decreases n - i,
    {
        let label = labels[i];
        proof {
            assert(labels@.take(i + 1) =~= labels@.take(i as int).push(label));
            lemma_count_label_push(labels@.take(i as int), label, 0);
            lemma_count_label_push(labels@.take(i as int), label, 1);
            lemma_count_label_bounded(labels@.take(i as int), 0);
            lemma_count_label_bounded(labels@.take(i as int), 1);
        }
        if label == 0 {
            ham += 1;
        } else if label == 1 {
            spam += 1;
        } else {
            return Err(ErrorKind::Fit);
        }
        i += 1;
    }
    assert(labels@.take(n as int) =~= labels@);
    if ham == 0 || spam == 0 {
        return Err(ErrorKind::Fit);
    }
    Ok(ClassCounts { ham, spam })
}

} // verus!
