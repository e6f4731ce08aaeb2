use ml_project::dataset::{build, Dataset, NumField};
use ml_project::error::PipelineError;
use ml_project::eval::confusion_matrix;
use ml_project::split::split;
use ml_project::table::parse_table;

fn convert_field(s: &str) -> Option<NumField> {
    s.parse::<f32>().ok().map(|v| NumField { bits: v.to_bits(), int_value: v as i32 })
}

fn load(text: &str) -> Result<Dataset, PipelineError> {
    let (headers, rows) = parse_table(text)?;
    let converted: Vec<Vec<Option<NumField>>> = rows
        .iter()
        .map(|row| row.iter().map(|s| convert_field(s)).collect())
        .collect();
    build(headers, &converted)
}

#[test]
fn pipeline_with_stub_classifier() {
    let mut text = String::from("f1,f2,label\n");
    for i in 0..10 {
        text.push_str(&format!("{}.5,{},{}\n", i, 10 - i, i % 2));
    }
    let dataset = load(&text).unwrap();
    assert_eq!(dataset.n_samples(), 10);
    assert_eq!(dataset.n_features(), 2);

    let (train, test) = split(&dataset, 7, 10).unwrap();
    assert_eq!(train.n_samples(), 7);
    assert_eq!(test.targets, vec![1, 0, 1]);

    // A deterministic stub classifier that always predicts the positive
    // label, in place of a real optimizer.
    let predicted: Vec<i32> = test.targets.iter().map(|_| 1).collect();
    let m = confusion_matrix(&predicted, &test.targets).unwrap();
    assert_eq!(m.true_positives, 2);
    assert_eq!(m.false_positives, 1);
    assert_eq!(m.true_negatives, 0);
    assert_eq!(m.false_negatives, 0);
    assert_eq!(m.accuracy(), (2, 3));
}

#[test]
fn pipeline_rejects_malformed_table_as_a_whole() {
    let r = load("a,label\n1,0\noops,1\n");
    assert_eq!(r.unwrap_err(), PipelineError::ParseError { row: 1, field: 0 });
}
