use ml_rust::dataset::{
    check_training_set, parse_label, preprocess_dataframe, split_data, ClassCounts, RawRow,
};
use ml_rust::error::ErrorKind;

fn row(label: Option<&str>, text: Option<&str>) -> RawRow {
    RawRow { label: label.map(|l| l.to_string()), text: text.map(|t| t.to_string()) }
}

#[test]
fn parse_label_knows_ham_and_spam() {
    assert_eq!(parse_label(Some("ham")), 0);
    assert_eq!(parse_label(Some("spam")), 1);
}

#[test]
fn parse_label_takes_anything_else_for_ham() {
    assert_eq!(parse_label(Some("SPAM")), 0);
    assert_eq!(parse_label(Some("spam ")), 0);
    assert_eq!(parse_label(Some("")), 0);
    assert_eq!(parse_label(Some("junk")), 0);
    assert_eq!(parse_label(None), 0);
}

#[test]
fn preprocess_keeps_the_row_order() {
    let rows = vec![
        row(Some("ham"), Some("Call me LATER!")),
        row(Some("spam"), Some("FREE money, now!!!")),
        row(Some("other"), None),
        row(None, Some("100%")),
    ];
    let (messages, labels) = preprocess_dataframe(&rows);
    assert_eq!(messages, vec!["call me later", "free money now", "", ""]);
    assert_eq!(labels, vec![0, 1, 0, 0]);
}

#[test]
fn preprocess_of_no_row_gives_nothing() {
    let (messages, labels) = preprocess_dataframe(&Vec::new());
    assert!(messages.is_empty());
    assert!(labels.is_empty());
}

#[test]
fn split_takes_the_first_rows_for_training() {
    let x: Vec<Vec<usize>> = (0..10).map(|i| vec![i, i * i]).collect();
    let y: Vec<usize> = (0..10).map(|i| i % 2).collect();
    let n_train = (x.len() as f32 * 0.8) as usize;
    assert_eq!(n_train, 8);
    let (x_train, y_train, x_test, y_test) = split_data(x.clone(), y.clone(), n_train);
    assert_eq!(x_train.len() + x_test.len(), 10);
    assert_eq!(x_train, x[..8].to_vec());
    assert_eq!(y_train, y[..8].to_vec());
    assert_eq!(x_test, x[8..].to_vec());
    assert_eq!(y_test, y[8..].to_vec());
}

#[test]
fn split_rounds_the_training_part_down() {
    let x: Vec<usize> = vec![10, 11, 12];
    let y: Vec<usize> = vec![0, 1, 0];
    let n_train = (x.len() as f32 * 0.5) as usize;
    assert_eq!(n_train, 1);
    let (x_train, y_train, x_test, y_test) = split_data(x, y, n_train);
    assert_eq!(x_train, vec![10]);
    assert_eq!(y_train, vec![0]);
    assert_eq!(x_test, vec![11, 12]);
    assert_eq!(y_test, vec![1, 0]);
}

#[test]
fn split_at_either_end() {
    let (a, b, c, d) = split_data(vec![1usize, 2], vec![0, 1], 0);
    assert_eq!((a, b, c, d), (vec![], vec![], vec![1, 2], vec![0, 1]));
    let (a, b, c, d) = split_data(vec![1usize, 2], vec![0, 1], 2);
    assert_eq!((a, b, c, d), (vec![1, 2], vec![0, 1], vec![], vec![]));
    let (a, b, c, d) = split_data(Vec::<usize>::new(), Vec::new(), 0);
    assert_eq!((a, b, c, d), (vec![], vec![], vec![], vec![]));
}

#[test]
fn split_drops_labels_beyond_the_last_row() {
    let (x_train, y_train, x_test, y_test) = split_data(vec![7usize, 8, 9], vec![0, 1, 0, 1, 1], 2);
    assert_eq!(x_train, vec![7, 8]);
    assert_eq!(y_train, vec![0, 1]);
    assert_eq!(x_test, vec![9]);
    assert_eq!(y_test, vec![0]);
}

#[test]
fn training_set_with_both_classes_is_counted() {
    assert_eq!(check_training_set(5, &[0, 1, 1, 0, 0]), Ok(ClassCounts { ham: 3, spam: 2 }));
    assert_eq!(check_training_set(2, &[1, 0]), Ok(ClassCounts { ham: 1, spam: 1 }));
}

#[test]
fn training_set_without_rows_is_refused() {
    assert_eq!(check_training_set(0, &[]), Err(ErrorKind::Fit));
}

#[test]
fn training_set_with_one_class_is_refused() {
    assert_eq!(check_training_set(3, &[0, 0, 0]), Err(ErrorKind::Fit));
    assert_eq!(check_training_set(2, &[1, 1]), Err(ErrorKind::Fit));
}

#[test]
fn training_set_with_a_third_class_is_refused() {
    assert_eq!(check_training_set(3, &[0, 1, 2]), Err(ErrorKind::Fit));
}

#[test]
fn training_set_with_the_wrong_number_of_labels_is_refused() {
    assert_eq!(check_training_set(3, &[0, 1]), Err(ErrorKind::DimensionMismatch));
    assert_eq!(check_training_set(0, &[0, 1]), Err(ErrorKind::DimensionMismatch));
}
