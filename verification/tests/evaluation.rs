use ml_project::error::PipelineError;
use ml_project::eval::confusion_matrix;

#[test]
fn confusion_matrix_buckets_each_pair() {
    let m = confusion_matrix(&vec![1, 0, 1, 1], &vec![1, 0, 0, 1]).unwrap();
    assert_eq!(m.true_positives, 2);
    assert_eq!(m.false_positives, 1);
    assert_eq!(m.true_negatives, 1);
    assert_eq!(m.false_negatives, 0);
    let (num, den) = m.accuracy();
    assert_eq!((num, den), (3, 4));
    assert_eq!(num as f64 / den as f64, 0.75);
}

#[test]
fn confusion_matrix_totals_sum_to_length() {
    let predicted = vec![1, 1, 0, 0, 1, 0, 2, -3];
    let truth = vec![1, 0, 1, 0, 1, 1, 1, 0];
    let m = confusion_matrix(&predicted, &truth).unwrap();
    let total = m.true_positives + m.false_positives + m.true_negatives + m.false_negatives;
    assert_eq!(total, predicted.len());
}

#[test]
fn confusion_matrix_of_empty_vectors() {
    let m = confusion_matrix(&vec![], &vec![]).unwrap();
    assert_eq!(m.true_positives + m.false_positives + m.true_negatives + m.false_negatives, 0);
    assert_eq!(m.accuracy(), (0, 1));
}

#[test]
fn confusion_matrix_rejects_length_mismatch() {
    let r = confusion_matrix(&vec![1, 0], &vec![1, 0, 1]);
    assert_eq!(r.unwrap_err(), PipelineError::LengthMismatchError { predicted: 2, truth: 3 });
}

#[test]
fn precision_and_recall_exact_fractions() {
    let m = confusion_matrix(&vec![1, 1, 1, 0, 0], &vec![1, 0, 1, 1, 0]).unwrap();
    assert_eq!(m.precision(), (2, 3));
    assert_eq!(m.recall(), (2, 3));
    assert_eq!(m.f1_score(), (4, 6));
}

#[test]
fn metrics_guard_division_by_zero() {
    let m = confusion_matrix(&vec![0, 0], &vec![0, 0]).unwrap();
    assert_eq!(m.precision(), (0, 1));
    assert_eq!(m.recall(), (0, 1));
    assert_eq!(m.f1_score(), (0, 1));
    assert_eq!(m.accuracy(), (2, 2));
}
