use vstd::prelude::*;

use crate::dataset::Dataset;
use crate::error::PipelineError;

verus! {

/// The number of training rows a ratio `num / den` allots to `n` samples:
/// the integer part of `n * num / den` (meaningful only for `den > 0`).
pub open spec fn train_size_spec(n: nat, num: nat, den: nat) -> nat {
    (n * num) / den
}

/// What splitting a dataset at ratio `num / den` yields: the first
/// `train_size_spec` rows, in order, form the training side, the remaining
/// rows, in order, form the evaluation side. A ratio outside (0, 1), or one
/// that leaves either side without a row, is refused.
pub open spec fn split_spec(
    recs: Seq<Seq<u32>>,
    tgts: Seq<i32>,
    num: nat,
    den: nat,
) -> Result<((Seq<Seq<u32>>, Seq<i32>), (Seq<Seq<u32>>, Seq<i32>)), PipelineError> {
    if !(0 < num < den) {
        Err(PipelineError::RangeError)
    } else {
        let ts = train_size_spec(recs.len(), num, den) as int;
        if ts == 0 || ts == recs.len() {
            Err(PipelineError::RangeError)
        } else {
            Ok(((recs.take(ts), tgts.take(ts)), (recs.skip(ts), tgts.skip(ts))))
        }
    }
}

/// The training side never exceeds the sample count: for a ratio below
/// one, `floor(n * num / den)` is at most `n`.
pub proof fn lemma_train_size_bound(n: nat, num: nat, den: nat)
    requires
        0 < num < den,
    ensures
        train_size_spec(n, num, den) <= n,
{
    assert(n as int * num as int <= n as int * den as int) by {
        vstd::arithmetic::mul::lemma_mul_inequality(num as int, den as int, n as int);
        vstd::arithmetic::mul::lemma_mul_is_commutative(num as int, n as int);
        vstd::arithmetic::mul::lemma_mul_is_commutative(den as int, n as int);
    };
    vstd::arithmetic::div_mod::lemma_div_is_ordered(
        n as int * num as int,
        n as int * den as int,
        den as int,
    );
    vstd::arithmetic::div_mod::lemma_div_multiples_vanish(n as int, den as int);
    assert(n as int * den as int == den as int * n as int) by {
        vstd::arithmetic::mul::lemma_mul_is_commutative(n as int, den as int);
    };
    assert((den as int * n as int) / (den as int) == n as int);
}

/// Copies one feature row.
fn copy_row(v: &Vec<u32>) -> (r: Vec<u32>)
    ensures
        r@ == v@,
{
    let mut r: Vec<u32> = Vec::new();
    let mut i: usize = 0;
    while i < v.len()
        invariant
            i <= v@.len(),
            r@ == v@.take(i as int),
        decreases v@.len() - i,
    {
        r.push(v[i]);
        i += 1;
        proof {
            assert(r@ =~= v@.take(i as int));
        }
    }
    proof {
        assert(v@.take(v@.len() as int) =~= v@);
    }
    r
}

/// Copies the feature names, shared read-only between the two sides.
fn copy_names(v: &Vec<String>) -> (r: Vec<String>)
    ensures
        r@ == v@,
{
    let mut r: Vec<String> = Vec::new();
    let mut i: usize = 0;
    while i < v.len()
        invariant
            i <= v@.len(),
            r@ == v@.take(i as int),
        decreases v@.len() - i,
    {
        r.push(v[i].clone());
        i += 1;
        proof {
            assert(r@ =~= v@.take(i as int));
        }
    }
    proof {
        assert(v@.take(v@.len() as int) =~= v@);
    }
    r
}

/// Copies the rows of `recs` and the targets of `tgts` with indices in
/// `[from, to)` into a fresh dataset that carries the given feature names.
fn slice_dataset(d: &Dataset, from: usize, to: usize) -> (s: Dataset)
    requires
        from <= to <= d.recs().len(),
        d.tgts().len() == d.recs().len(),
    ensures
        s.recs() == d.recs().subrange(from as int, to as int),
        s.tgts() == d.tgts().subrange(from as int, to as int),
        s.names() == d.names(),
{
    let mut records: Vec<Vec<u32>> = Vec::new();
    let mut targets: Vec<i32> = Vec::new();
    let mut i: usize = from;
    while i < to
        invariant
            from <= i <= to <= d.recs().len(),
            d.tgts().len() == d.recs().len(),
            records.deep_view() == d.recs().subrange(from as int, i as int),
            targets@ == d.tgts().subrange(from as int, i as int),
        decreases to - i,
    {
        let row = copy_row(&d.records[i]);
        proof {
            assert(row.deep_view() =~= row@);
            assert(d.records@[i as int].deep_view() == d.recs()[i as int]);
            assert(row.deep_view() =~= d.recs()[i as int]);
        }
        let ghost prev = records.deep_view();
        records.push(row);
        targets.push(d.targets[i]);
        i += 1;
        proof {
            assert(forall|k: int|
                0 <= k < prev.len() ==> #[trigger] records.deep_view()[k] == prev[k]);
            assert(records.deep_view()[prev.len() as int] == row.deep_view());
            assert(records.deep_view() =~= d.recs().subrange(from as int, i as int));
            assert(targets@ =~= d.tgts().subrange(from as int, i as int));
        }
    }
    let names = copy_names(&d.feature_names);
    let s = Dataset { records, targets, feature_names: names };
    proof {
        assert(s.names() =~= d.names());
    }
    s
}

/// Splits a dataset into a training and an evaluation side at the ratio
/// `ratio_num / ratio_den`: the training side takes the first
/// `floor(n * ratio_num / ratio_den)` rows in source order, the evaluation
/// side takes every remaining row in source order, and both sides carry the
/// source's feature names. Refused with `RangeError` exactly when the ratio
/// lies outside (0, 1) or either side would be left without a row.
pub fn split(d: &Dataset, ratio_num: u64, ratio_den: u64) -> (r: Result<
    (Dataset, Dataset),
    PipelineError,
>)
    requires
        d.wf(),
    ensures
        r matches Ok(p) ==> {
            &&& split_spec(d.recs(), d.tgts(), ratio_num as nat, ratio_den as nat) == Ok::<
                _,
                PipelineError,
            >(((p.0.recs(), p.0.tgts()), (p.1.recs(), p.1.tgts())))
            &&& p.0.names() == d.names()
            &&& p.1.names() == d.names()
            &&& p.0.wf()
            &&& p.1.wf()
            &&& p.0.recs().len() + p.1.recs().len() == d.recs().len()
        },
        r matches Err(e) ==> e == PipelineError::RangeError && split_spec(
            d.recs(),
            d.tgts(),
            ratio_num as nat,
            ratio_den as nat,
        ) == Err::<((Seq<Seq<u32>>, Seq<i32>), (Seq<Seq<u32>>, Seq<i32>)), _>(e),
{
    if ratio_num == 0 || ratio_num >= ratio_den {
        return Err(PipelineError::RangeError);
    }
    let n = d.records.len();
    proof {
        vstd::arithmetic::mul::lemma_mul_upper_bound(
            n as int,
            u64::MAX as int,
            ratio_num as int,
            u64::MAX as int,
        );
    }
    let wide = (n as u128) * (ratio_num as u128) / (ratio_den as u128);
    proof {
        lemma_train_size_bound(n as nat, ratio_num as nat, ratio_den as nat);
        assert(wide <= n);
        assert(wide == train_size_spec(d.recs().len(), ratio_num as nat, ratio_den as nat));
    }
    let train_size = wide as usize;
    if train_size == 0 || train_size == n {
        return Err(PipelineError::RangeError);
    }
    let train = slice_dataset(d, 0, train_size);
    let test = slice_dataset(d, train_size, n);
    proof {
        assert(train.recs() =~= d.recs().take(train_size as int));
        assert(train.tgts() =~= d.tgts().take(train_size as int));
        assert(test.recs() =~= d.recs().skip(train_size as int));
        assert(test.tgts() =~= d.tgts().skip(train_size as int));
    }
    Ok((train, test))
}

/// Round-trip law: whenever a split succeeds, the training rows followed by
/// the evaluation rows reproduce the source rows exactly, and likewise the
/// targets — every source row lands on exactly one side, in source order.
pub proof fn lemma_split_round_trip(recs: Seq<Seq<u32>>, tgts: Seq<i32>, num: nat, den: nat)
    requires
        recs.len() == tgts.len(),
        split_spec(recs, tgts, num, den) is Ok,
    ensures
        ({
            let p = split_spec(recs, tgts, num, den).unwrap();
            p.0.0 + p.1.0 == recs && p.0.1 + p.1.1 == tgts
        }),
{
    let ts = train_size_spec(recs.len(), num, den) as int;
    lemma_train_size_bound(recs.len(), num, den);
    assert(recs.take(ts) + recs.skip(ts) =~= recs);
    assert(tgts.take(ts) + tgts.skip(ts) =~= tgts);
}

/// Determinism law: the outcome of a split is a function of the dataset and
/// the ratio alone — two calls on equal inputs yield identical partitions.
pub proof fn lemma_split_deterministic(
    recs1: Seq<Seq<u32>>,
    tgts1: Seq<i32>,
    recs2: Seq<Seq<u32>>,
    tgts2: Seq<i32>,
    num: nat,
    den: nat,
)
    requires
        recs1 == recs2,
        tgts1 == tgts2,
    ensures
        split_spec(recs1, tgts1, num, den) == split_spec(recs2, tgts2, num, den),
{
}

/// Boundary law: a ratio in (0, 1) that still allots no row to the training
/// side, or none to the evaluation side, is refused with `RangeError`.
pub proof fn lemma_split_empty_side_refused(recs: Seq<Seq<u32>>, tgts: Seq<i32>, num: nat, den: nat)
    requires
        0 < num < den,
        train_size_spec(recs.len(), num, den) == 0 || train_size_spec(recs.len(), num, den)
            == recs.len(),
    ensures
        split_spec(recs, tgts, num, den) == Err::<
            ((Seq<Seq<u32>>, Seq<i32>), (Seq<Seq<u32>>, Seq<i32>)),
            PipelineError,
        >(PipelineError::RangeError),
{
}

} // verus!

