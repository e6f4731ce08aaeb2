use vstd::prelude::*;

use crate::error::PipelineError;

verus! {

/// How many indices below `n` fall into one bucket: the predicted label's
/// positivity matches `pred_pos` and the true label's positivity matches
/// `truth_pos`, where a label is positive exactly when it equals 1.
pub open spec fn bucket_count(
    predicted: Seq<i32>,
    truth: Seq<i32>,
    pred_pos: bool,
    truth_pos: bool,
    n: int,
) -> nat
    decreases n,
{
    if n <= 0 {
        0
    } else {
        bucket_count(predicted, truth, pred_pos, truth_pos, n - 1) + if ((predicted[n - 1] == 1)
            == pred_pos) && ((truth[n - 1] == 1) == truth_pos) {
            1nat
        } else {
            0nat
        }
    }
}

/// The 2x2 count table of prediction-vs-truth outcomes for a binary label,
/// with 1 the designated positive label.
#[derive(Clone, Copy, Debug, PartialEq, Eq)]
pub struct ConfusionMatrix {
    pub true_positives: usize,
    pub false_positives: usize,
    pub true_negatives: usize,
    pub false_negatives: usize,
}

impl ConfusionMatrix {
    /// The sum of all four buckets.
    pub open spec fn total(self) -> int {
        self.true_positives + self.false_positives + self.true_negatives + self.false_negatives
    }

    /// The four counts agree with aligning `predicted` and `truth` index by
    /// index.
    pub open spec fn counts(self, predicted: Seq<i32>, truth: Seq<i32>) -> bool {
        &&& self.true_positives == bucket_count(predicted, truth, true, true, predicted.len() as int)
        &&& self.false_positives == bucket_count(
            predicted,
            truth,
            true,
            false,
            predicted.len() as int,
        )
        &&& self.true_negatives == bucket_count(
            predicted,
            truth,
            false,
            false,
            predicted.len() as int,
        )
        &&& self.false_negatives == bucket_count(
            predicted,
            truth,
            false,
            true,
            predicted.len() as int,
        )
    }
}

/// Totals law: at every length, the four buckets together count each index
/// exactly once, so their sum is the length itself.
pub proof fn lemma_confusion_totals(predicted: Seq<i32>, truth: Seq<i32>, n: int)
    requires
        0 <= n,
    ensures
        bucket_count(predicted, truth, true, true, n) + bucket_count(predicted, truth, true, false, n)
            + bucket_count(predicted, truth, false, false, n) + bucket_count(
            predicted,
            truth,
            false,
            true,
            n,
        ) == n,
    decreases n,
{
    if n > 0 {
        lemma_confusion_totals(predicted, truth, n - 1);
    }
}

/// Compares predictions to ground truth, index by index, and counts each
/// pair into exactly one bucket relative to the positive label 1: both
/// positive is a true positive, predicted positive against a negative truth
/// is a false positive, both negative is a true negative, and predicted
/// negative against a positive truth is a false negative. Refused with
/// `LengthMismatchError` exactly when the two vectors differ in length.
pub fn confusion_matrix(predicted: &Vec<i32>, truth: &Vec<i32>) -> (r: Result<
    ConfusionMatrix,
    PipelineError,
>)
    ensures
        r matches Ok(m) ==> {
            &&& predicted@.len() == truth@.len()
            &&& m.counts(predicted@, truth@)
            &&& m.total() == predicted@.len()
        },
        r matches Err(e) ==> predicted@.len() != truth@.len() && e
            == (PipelineError::LengthMismatchError {
            predicted: predicted@.len() as usize,
            truth: truth@.len() as usize,
        }),
{
    if predicted.len() != truth.len() {
        return Err(PipelineError::LengthMismatchError {
            predicted: predicted.len(),
            truth: truth.len(),
        });
    }
    let n = predicted.len();
    let mut true_positives: usize = 0;
    let mut false_positives: usize = 0;
    let mut true_negatives: usize = 0;
    let mut false_negatives: usize = 0;
    let mut i: usize = 0;
    while i < n
        invariant
            n == predicted@.len(),
            n == truth@.len(),
            i <= n,
            true_positives == bucket_count(predicted@, truth@, true, true, i as int),
            false_positives == bucket_count(predicted@, truth@, true, false, i as int),
            true_negatives == bucket_count(predicted@, truth@, false, false, i as int),
            false_negatives == bucket_count(predicted@, truth@, false, true, i as int),
            true_positives + false_positives + true_negatives + false_negatives == i,
        decreases n - i,
    {
        proof {
            lemma_confusion_totals(predicted@, truth@, i as int);
        }
        if predicted[i] == 1 {
            if truth[i] == 1 {
                true_positives += 1;
            } else {
                false_positives += 1;
            }
        } else {
            if truth[i] == 1 {
                false_negatives += 1;
            } else {
                true_negatives += 1;
            }
        }
        i += 1;
    }
    Ok(
        ConfusionMatrix {
            true_positives,
            false_positives,
            true_negatives,
            false_negatives,
        },
    )
}

impl ConfusionMatrix {
    /// Accuracy as an exact fraction: right answers over all answers, and 0
    /// (as 0 over 1) when there is nothing to count.
    pub fn accuracy(&self) -> (r: (u128, u128))
        ensures
            self.total() == 0 ==> r == (0u128, 1u128),
            self.total() != 0 ==> r.0 == self.true_positives + self.true_negatives && r.1
                == self.total(),
    {
        let num = self.true_positives as u128 + self.true_negatives as u128;
        let den = num + self.false_positives as u128 + self.false_negatives as u128;
        if den == 0 {
            (0, 1)
        } else {
            (num, den)
        }
    }

    /// Precision as an exact fraction: true positives over predicted
    /// positives, and 0 (as 0 over 1) when nothing was predicted positive.
    pub fn precision(&self) -> (r: (u128, u128))
        ensures
            self.true_positives + self.false_positives == 0 ==> r == (0u128, 1u128),
            self.true_positives + self.false_positives != 0 ==> r.0 == self.true_positives && r.1
                == self.true_positives + self.false_positives,
    {
        let den = self.true_positives as u128 + self.false_positives as u128;
        if den == 0 {
            (0, 1)
        } else {
            (self.true_positives as u128, den)
        }
    }

    /// Recall as an exact fraction: true positives over actual positives,
    /// and 0 (as 0 over 1) when there is no actual positive.
    pub fn recall(&self) -> (r: (u128, u128))
        ensures
            self.true_positives + self.false_negatives == 0 ==> r == (0u128, 1u128),
            self.true_positives + self.false_negatives != 0 ==> r.0 == self.true_positives && r.1
                == self.true_positives + self.false_negatives,
    {
        let den = self.true_positives as u128 + self.false_negatives as u128;
        if den == 0 {
            (0, 1)
        } else {
            (self.true_positives as u128, den)
        }
    }

    /// The F1 score as an exact fraction, the harmonic mean of precision
    /// and recall written over the raw counts: twice the true positives
    /// over that plus all mistakes, and 0 (as 0 over 1) when the
    /// denominator is empty.
    pub fn f1_score(&self) -> (r: (u128, u128))
        ensures
            2 * self.true_positives + self.false_positives + self.false_negatives == 0 ==> r == (
                0u128,
                1u128,
            ),
            2 * self.true_positives + self.false_positives + self.false_negatives != 0 ==> r.0 == 2
                * self.true_positives && r.1 == 2 * self.true_positives + self.false_positives
                + self.false_negatives,
    {
        let num = 2 * (self.true_positives as u128);
        let den = num + self.false_positives as u128 + self.false_negatives as u128;
        if den == 0 {
            (0, 1)
        } else {
            (num, den)
        }
    }
}

} // verus!

