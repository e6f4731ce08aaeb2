use ml_project::dataset::Dataset;
use ml_project::error::PipelineError;
use ml_project::split::split;

fn sample_dataset(n: usize) -> Dataset {
    let records: Vec<Vec<u32>> = (0..n).map(|i| vec![i as u32, (2 * i) as u32]).collect();
    let targets: Vec<i32> = (0..n).map(|i| (i % 2) as i32).collect();
    Dataset {
        records,
        targets,
        feature_names: vec!["a".to_string(), "b".to_string()],
    }
}

#[test]
fn split_takes_prefix_and_suffix_in_order() {
    let d = sample_dataset(10);
    let (train, test) = split(&d, 7, 10).unwrap();
    assert_eq!(train.records.len(), 7);
    assert_eq!(test.records.len(), 3);
    assert_eq!(train.records[..], d.records[..7]);
    assert_eq!(test.records[..], d.records[7..]);
    assert_eq!(train.targets[..], d.targets[..7]);
    assert_eq!(test.targets[..], d.targets[7..]);
    assert_eq!(train.feature_names, d.feature_names);
    assert_eq!(test.feature_names, d.feature_names);
}

#[test]
fn split_round_trip_reproduces_source() {
    let d = sample_dataset(9);
    let (train, test) = split(&d, 1, 3).unwrap();
    let mut records = train.records.clone();
    records.extend(test.records.clone());
    let mut targets = train.targets.clone();
    targets.extend(test.targets.clone());
    assert_eq!(records, d.records);
    assert_eq!(targets, d.targets);
}

#[test]
fn split_is_deterministic() {
    let d = sample_dataset(12);
    let first = split(&d, 3, 4).unwrap();
    let second = split(&d, 3, 4).unwrap();
    assert_eq!(first.0, second.0);
    assert_eq!(first.1, second.1);
}

#[test]
fn split_matches_floor_arithmetic() {
    let d = sample_dataset(1025);
    let (train, test) = split(&d, 9, 10).unwrap();
    assert_eq!(train.records.len(), 922);
    assert_eq!(test.records.len(), 103);
}

#[test]
fn split_rejects_ratio_outside_unit_interval() {
    let d = sample_dataset(10);
    assert_eq!(split(&d, 0, 10).unwrap_err(), PipelineError::RangeError);
    assert_eq!(split(&d, 10, 10).unwrap_err(), PipelineError::RangeError);
    assert_eq!(split(&d, 11, 10).unwrap_err(), PipelineError::RangeError);
    assert_eq!(split(&d, 1, 0).unwrap_err(), PipelineError::RangeError);
}

#[test]
fn split_rejects_empty_train_side() {
    let d = sample_dataset(5);
    assert_eq!(split(&d, 1, 10).unwrap_err(), PipelineError::RangeError);
}

#[test]
fn split_rejects_single_row_dataset() {
    let d = sample_dataset(1);
    assert_eq!(split(&d, 1, 2).unwrap_err(), PipelineError::RangeError);
}

#[test]
fn split_rejects_empty_dataset() {
    let d = sample_dataset(0);
    assert_eq!(split(&d, 1, 2).unwrap_err(), PipelineError::RangeError);
}
