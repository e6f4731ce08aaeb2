use vstd::prelude::*;

use crate::error::PipelineError;

verus! {

/// One field of a data row after numeric conversion, as plain values: the
/// bit pattern of the parsed 32-bit number, and the integer that number
/// truncates to. A field that did not parse as a number is `None` in the
/// builder's input.
#[derive(Clone, Copy, Debug, PartialEq, Eq)]
pub struct NumField {
    pub bits: u32,
    pub int_value: i32,
}

impl DeepView for NumField {
    type V = NumField;

    open spec fn deep_view(&self) -> NumField {
        *self
    }
}

/// An immutable dataset: a rectangular numeric feature matrix (one row of
/// bit patterns per sample), a target vector aligned with it row by row,
/// and one name per feature column.
#[derive(Debug, PartialEq)]
pub struct Dataset {
    pub records: Vec<Vec<u32>>,
    pub targets: Vec<i32>,
    pub feature_names: Vec<String>,
}

impl Dataset {
    /// The feature matrix as a sequence of rows.
    pub open spec fn recs(self) -> Seq<Seq<u32>> {
        self.records.deep_view()
    }

    /// The target vector.
    pub open spec fn tgts(self) -> Seq<i32> {
        self.targets@
    }

    /// The feature names, column by column.
    pub open spec fn names(self) -> Seq<Seq<char>> {
        self.feature_names.deep_view()
    }

    /// The number of samples: one record row per sample.
    pub fn n_samples(&self) -> (n: usize)
        ensures
            n == self.recs().len(),
    {
        self.records.len()
    }

    /// The number of feature columns.
    pub fn n_features(&self) -> (n: usize)
        ensures
            n == self.names().len(),
    {
        self.feature_names.len()
    }

    /// One sample's feature vector: the chunk of the matrix that belongs to
    /// row `i`.
    pub fn sample_features(&self, i: usize) -> (row: &Vec<u32>)
        requires
            i < self.recs().len(),
        ensures
            row@ == self.recs()[i as int],
    {
        proof {
            assert(self.records@[i as int].deep_view() =~= self.records@[i as int]@);
        }
        &self.records[i]
    }

    /// Shape invariant: one target per record row, every record row as wide
    /// as the list of feature names, and every target a binary label.
    pub open spec fn wf(self) -> bool {
        &&& self.tgts().len() == self.recs().len()
        &&& forall|i: int|
            0 <= i < self.recs().len() ==> (#[trigger] self.recs()[i]).len()
                == self.names().len()
        &&& forall|i: int|
            0 <= i < self.tgts().len() ==> self.tgts()[i] == 0 || self.tgts()[i] == 1
    }
}

/// Every field of the row carries a converted number.
pub open spec fn row_converted(row: Seq<Option<NumField>>) -> bool {
    forall|j: int| 0 <= j < row.len() ==> (#[trigger] row[j]) is Some
}

/// The index of the leftmost field of the row that carries no number
/// (meaningful only when `row_converted` fails).
pub open spec fn first_unparsed(row: Seq<Option<NumField>>) -> nat
    decreases row.len(),
{
    if row.len() == 0 {
        0
    } else if row[0] is None {
        0
    } else {
        1 + first_unparsed(row.drop_first())
    }
}

/// The feature part of a converted row: the bit patterns of every field but
/// the last, in field order.
pub open spec fn feature_bits(row: Seq<Option<NumField>>) -> Seq<u32> {
    Seq::new((row.len() - 1) as nat, |j: int| row[j].unwrap().bits)
}

/// The label of a converted row: the integer its last field truncates to.
pub open spec fn label_of(row: Seq<Option<NumField>>) -> i32 {
    row[row.len() - 1].unwrap().int_value
}

/// A data row the builder accepts: as wide as the header, every field a
/// number, and its label in the binary label set.
pub open spec fn row_accepted(row: Seq<Option<NumField>>, ncols: nat) -> bool {
    &&& row.len() == ncols
    &&& row_converted(row)
    &&& (label_of(row) == 0 || label_of(row) == 1)
}

/// Builds the feature rows and targets from index `i` on: the first
/// offending row wins, and within one row a width mismatch is reported
/// before an unconverted field, which is reported before a label outside
/// the binary label set.
pub open spec fn build_rows_from(
    rows: Seq<Seq<Option<NumField>>>,
    ncols: nat,
    i: nat,
) -> Result<(Seq<Seq<u32>>, Seq<i32>), PipelineError>
    decreases rows.len() - i
    when i <= rows.len()
{
    if i == rows.len() {
        Ok((Seq::empty(), Seq::empty()))
    } else if rows[i as int].len() != ncols {
        Err(PipelineError::ShapeError {
            row: i as usize,
            expected: ncols as usize,
            found: rows[i as int].len() as usize,
        })
    } else if !row_converted(rows[i as int]) {
        Err(PipelineError::ParseError {
            row: i as usize,
            field: first_unparsed(rows[i as int]) as usize,
        })
    } else if label_of(rows[i as int]) != 0 && label_of(rows[i as int]) != 1 {
        Err(PipelineError::LabelError { row: i as usize, label: label_of(rows[i as int]) })
    } else {
        match build_rows_from(rows, ncols, (i + 1) as nat) {
            Ok(rest) => Ok(
                (seq![feature_bits(rows[i as int])] + rest.0, seq![label_of(rows[i as int])] + rest.1),
            ),
            Err(e) => Err(e),
        }
    }
}

/// What building a dataset from a header row and converted data rows
/// yields: the last column is the target, all earlier columns are features.
/// A header without any column is a shape fault at the start.
pub open spec fn build_spec(
    headers: Seq<Seq<char>>,
    rows: Seq<Seq<Option<NumField>>>,
) -> Result<(Seq<Seq<u32>>, Seq<i32>, Seq<Seq<char>>), PipelineError> {
    if headers.len() == 0 {
        Err(PipelineError::ShapeError { row: 0, expected: 1, found: 0 })
    } else {
        match build_rows_from(rows, headers.len(), 0) {
            Ok(rt) => Ok((rt.0, rt.1, headers.drop_last())),
            Err(e) => Err(e),
        }
    }
}

proof fn lemma_first_unparsed(row: Seq<Option<NumField>>, j: int)
    requires
        0 <= j < row.len(),
        row[j] is None,
        forall|k: int| 0 <= k < j ==> (#[trigger] row[k]) is Some,
    ensures
        !row_converted(row),
        first_unparsed(row) == j,
    decreases j,
{
    if j > 0 {
        let rest = row.drop_first();
        assert(rest[j - 1] == row[j]);
        assert(forall|k: int| 0 <= k < j - 1 ==> #[trigger] rest[k] == row[k + 1]);
        lemma_first_unparsed(rest, j - 1);
    }
}

proof fn lemma_build_rows_skip(rows: Seq<Seq<Option<NumField>>>, ncols: nat, j: nat, i: nat)
    requires
        j <= i <= rows.len(),
        forall|k: int| j <= k < i ==> row_accepted(#[trigger] rows[k], ncols),
        build_rows_from(rows, ncols, i) is Err,
    ensures
        build_rows_from(rows, ncols, j) == build_rows_from(rows, ncols, i),
    decreases i - j,
{
    if j < i {
        lemma_build_rows_skip(rows, ncols, (j + 1) as nat, i);
    }
}

proof fn lemma_build_rows_all_ok(rows: Seq<Seq<Option<NumField>>>, ncols: nat, i: nat)
    requires
        i <= rows.len(),
        forall|k: int| i <= k < rows.len() ==> row_accepted(#[trigger] rows[k], ncols),
    ensures
        build_rows_from(rows, ncols, i) == Ok::<_, PipelineError>(
            (
                Seq::new((rows.len() - i) as nat, |k: int| feature_bits(rows[k + i])),
                Seq::new((rows.len() - i) as nat, |k: int| label_of(rows[k + i])),
            ),
        ),
    decreases rows.len() - i,
{
    let want_r = Seq::new((rows.len() - i) as nat, |k: int| feature_bits(rows[k + i]));
    let want_t = Seq::new((rows.len() - i) as nat, |k: int| label_of(rows[k + i]));
    if i == rows.len() {
        assert(want_r =~= Seq::<Seq<u32>>::empty());
        assert(want_t =~= Seq::<i32>::empty());
    } else {
        assert(row_accepted(rows[i as int], ncols));
        lemma_build_rows_all_ok(rows, ncols, (i + 1) as nat);
        let y = build_rows_from(rows, ncols, (i + 1) as nat).unwrap();
        assert(want_r =~= seq![feature_bits(rows[i as int])] + y.0);
        assert(want_t =~= seq![label_of(rows[i as int])] + y.1);
    }
}

/// Assembles a header row and converted data rows into a dataset: the last
/// column is the target column, truncated to its integer label, and all
/// earlier columns form the feature matrix. All-or-nothing: the first
/// offending row fails the whole build with its row context.
pub fn build(headers: Vec<String>, rows: &Vec<Vec<Option<NumField>>>) -> (r: Result<
    Dataset,
    PipelineError,
>)
    ensures
        r matches Ok(d) ==> {
            &&& build_spec(headers.deep_view(), rows.deep_view()) == Ok::<_, PipelineError>(
                (d.recs(), d.tgts(), d.names()),
            )
            &&& d.wf()
            &&& d.tgts().len() == rows.deep_view().len()
            &&& d.recs().len() == rows.deep_view().len()
            &&& d.names().len() == headers.deep_view().len() - 1
        },
        r matches Err(e) ==> build_spec(headers.deep_view(), rows.deep_view()) == Err::<
            (Seq<Seq<u32>>, Seq<i32>, Seq<Seq<char>>),
            _,
        >(e),
{
    let ghost hdv: Seq<Seq<char>> = headers.deep_view();
    let ghost dv: Seq<Seq<Option<NumField>>> = rows.deep_view();
    if headers.len() == 0 {
        return Err(PipelineError::ShapeError { row: 0, expected: 1, found: 0 });
    }
    let ncols = headers.len();
    let n = rows.len();
    let mut records: Vec<Vec<u32>> = Vec::new();
    let mut targets: Vec<i32> = Vec::new();
    let mut i: usize = 0;
    while i < n
        invariant
            hdv == headers.deep_view(),
            ncols == hdv.len(),
            ncols >= 1,
            dv == rows.deep_view(),
            n == rows@.len(),
            n == dv.len(),
            i <= n,
            records@.len() == i,
            targets@.len() == i,
            forall|k: int|
                0 <= k < i ==> row_accepted(#[trigger] dv[k], ncols as nat)
                    && records.deep_view()[k] == feature_bits(dv[k]) && targets@[k] == label_of(
                    dv[k],
                ),
        decreases n - i,
    {
        let row = &rows[i];
        assert(row.deep_view() == dv[i as int]);
        if row.len() != ncols {
            proof {
                assert(build_rows_from(dv, ncols as nat, i as nat) is Err);
                lemma_build_rows_skip(dv, ncols as nat, 0, i as nat);
            }
            return Err(PipelineError::ShapeError { row: i, expected: ncols, found: row.len() });
        }
        let mut feats: Vec<u32> = Vec::new();
        let mut label: i32 = 0;
        let mut j: usize = 0;
        while j < ncols
            invariant
                hdv == headers.deep_view(),
                ncols == hdv.len(),
                ncols >= 1,
                dv == rows.deep_view(),
                n == rows@.len(),
                n == dv.len(),
                i < n,
                row == rows@[i as int],
                row.deep_view() == dv[i as int],
                row@.len() == ncols,
                j <= ncols,
                feats@.len() == (if j < ncols { j as int } else { (ncols - 1) as int }),
                forall|k: int| 0 <= k < i ==> row_accepted(#[trigger] dv[k], ncols as nat),
                forall|k: int| 0 <= k < j ==> (#[trigger] dv[i as int][k]) is Some,
                forall|k: int|
                    0 <= k < j && k < ncols - 1 ==> feats@[k] == dv[i as int][k].unwrap().bits,
                j == ncols ==> label == dv[i as int][ncols - 1].unwrap().int_value,
            decreases ncols - j,
        {
            assert(row@[j as int].deep_view() == dv[i as int][j as int]);
            match &row[j] {
                Some(f) => {
                    if j < ncols - 1 {
                        feats.push(f.bits);
                    } else {
                        label = f.int_value;
                    }
                },
                None => {
                    proof {
                        lemma_first_unparsed(dv[i as int], j as int);
                        assert(build_rows_from(dv, ncols as nat, i as nat) is Err);
                        lemma_build_rows_skip(dv, ncols as nat, 0, i as nat);
                    }
                    return Err(PipelineError::ParseError { row: i, field: j });
                },
            }
            j += 1;
        }
        proof {
            assert(row_converted(dv[i as int]));
            assert(label == label_of(dv[i as int]));
        }
        if label != 0 && label != 1 {
            proof {
                assert(build_rows_from(dv, ncols as nat, i as nat) is Err);
                lemma_build_rows_skip(dv, ncols as nat, 0, i as nat);
            }
            return Err(PipelineError::LabelError { row: i, label });
        }
        proof {
            assert(feats.deep_view() =~= feats@);
            assert(feats@ =~= feature_bits(dv[i as int]));
        }
        records.push(feats);
        targets.push(label);
        i += 1;
        proof {
            assert(forall|k: int|
                0 <= k < i ==> #[trigger] records.deep_view()[k] == feature_bits(dv[k]));
        }
    }
    proof {
        lemma_build_rows_all_ok(dv, ncols as nat, 0);
    }
    let mut feature_names = headers;
    feature_names.pop();
    let d = Dataset { records, targets, feature_names };
    proof {
        let z = build_rows_from(dv, ncols as nat, 0).unwrap();
        assert(d.names() =~= hdv.drop_last());
        assert(d.recs() =~= z.0);
        assert(d.tgts() =~= z.1);
        assert(forall|k: int|
            0 <= k < d.recs().len() ==> (#[trigger] d.recs()[k]).len() == d.names().len());
    }
    Ok(d)
}

} // verus!
