use vstd::prelude::*;

verus! {

/// The error kinds of the pipeline. Every failure carries the context a
/// caller needs to locate the offending input: a data-row index (counted
/// from the first row after the header) and, for a malformed field, the
/// field index within that row.
#[derive(Clone, Copy, Debug, PartialEq, Eq)]
pub enum PipelineError {
    /// A field could not be parsed as a number.
    ParseError { row: usize, field: usize },
    /// A row's field count differs from what the header demands.
    ShapeError { row: usize, expected: usize, found: usize },
    /// A label value lies outside the binary label set {0, 1}.
    LabelError { row: usize, label: i32 },
    /// A split ratio outside (0, 1), or one that would leave a side empty.
    RangeError,
    /// The classifier failed to converge within its iteration budget.
    ConvergenceError,
    /// Predicted and truth vectors differ in length.
    LengthMismatchError { predicted: usize, truth: usize },
}

} // verus!
