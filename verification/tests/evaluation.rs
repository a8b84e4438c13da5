use ml_rust::error::ErrorKind;
use ml_rust::evaluation::confusion_matrix;

#[test]
fn confusion_matrix_counts_each_pair() {
    let predicted = [1, 0, 1, 1, 0, 0, 1];
    let actual = [1, 0, 0, 1, 1, 0, 1];
    let m = confusion_matrix(&predicted, &actual).unwrap();
    assert_eq!(m.true_positive(), 3);
    assert_eq!(m.true_negative(), 2);
    assert_eq!(m.false_positive(), 1);
    assert_eq!(m.false_negative(), 1);
    assert_eq!(m.total(), 7);
    assert_eq!(m.correct(), 5);
}

#[test]
fn accuracy_is_correct_over_total() {
    let m = confusion_matrix(&[1, 0, 1, 1], &[1, 0, 0, 1]).unwrap();
    assert_eq!(m.correct() as f32 / m.total() as f32, 0.75);
}

#[test]
fn confusion_matrix_of_a_perfect_prediction() {
    let m = confusion_matrix(&[0, 1, 1], &[0, 1, 1]).unwrap();
    assert_eq!(m.correct(), m.total());
    assert_eq!(m.false_positive() + m.false_negative(), 0);
}

#[test]
fn confusion_matrix_of_nothing() {
    let m = confusion_matrix(&[], &[]).unwrap();
    assert_eq!(m.total(), 0);
    assert_eq!(m.correct(), 0);
}

#[test]
fn confusion_matrix_counts_a_foreign_label_in_the_total_only() {
    let m = confusion_matrix(&[1, 2, 0], &[1, 1, 5]).unwrap();
    assert_eq!(m.true_positive(), 1);
    assert_eq!(m.true_negative() + m.false_positive() + m.false_negative(), 0);
    assert_eq!(m.total(), 3);
}

#[test]
fn confusion_matrix_refuses_different_lengths() {
    assert_eq!(confusion_matrix(&[1, 0], &[1]).err(), Some(ErrorKind::DimensionMismatch));
    assert_eq!(confusion_matrix(&[], &[0]).err(), Some(ErrorKind::DimensionMismatch));
}
