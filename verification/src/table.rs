use vstd::prelude::*;

use crate::error::PipelineError;

verus! {

// A table text is modelled through one named result: what the CSV reader
// yields for it, a header record and a sequence of data records. The
// verified loader below is exact relative to that name.

pub uninterp spec fn csv_table_of(s: Seq<char>) -> Option<(Seq<Seq<char>>, Seq<Seq<Seq<char>>>)>;

/// Relies on csv::ReaderBuilder / csv::Reader over an in-memory text, in
/// flexible mode: the first record is the header row, every later record is
/// one data row, and the outcome depends on the text alone.
#[verifier::external_body]
fn read_csv_text(text: &str) -> (r: Option<(Vec<String>, Vec<Vec<String>>)>)
    ensures
        (r is Some) == (csv_table_of(text@) is Some),
        r matches Some(t) ==> csv_table_of(text@) == Some((t.0.deep_view(), t.1.deep_view())),
{
    let mut rdr = csv::ReaderBuilder::new().flexible(true).from_reader(text.as_bytes());
    let headers: Vec<String> = match rdr.headers() {
        Ok(h) => h.iter().map(|f| f.to_string()).collect(),
        Err(_) => return None,
    };
    let mut rows: Vec<Vec<String>> = Vec::new();
    for rec in rdr.records() {
        match rec {
            Ok(row) => rows.push(row.iter().map(|f| f.to_string()).collect()),
            Err(_) => return None,
        }
    }
    Some((headers, rows))
}

/// Checks the data rows from index `i` on against the header width: the
/// first row whose field count differs from `ncols` is the error.
pub open spec fn check_widths_from(
    rows: Seq<Seq<Seq<char>>>,
    ncols: nat,
    i: nat,
) -> Result<(), PipelineError>
    decreases rows.len() - i
    when i <= rows.len()
{
    if i == rows.len() {
        Ok(())
    } else if rows[i as int].len() != ncols {
        Err(PipelineError::ShapeError {
            row: i as usize,
            expected: ncols as usize,
            found: rows[i as int].len() as usize,
        })
    } else {
        check_widths_from(rows, ncols, (i + 1) as nat)
    }
}

/// What loading a table text yields: the header row and the data rows, each
/// data row exactly as wide as the header. A text that the CSV reader itself
/// rejects is a parse failure at the start.
pub open spec fn load_table_spec(s: Seq<char>) -> Result<
    (Seq<Seq<char>>, Seq<Seq<Seq<char>>>),
    PipelineError,
> {
    match csv_table_of(s) {
        None => Err(PipelineError::ParseError { row: 0, field: 0 }),
        Some(t) => match check_widths_from(t.1, t.0.len(), 0) {
            Ok(_) => Ok(t),
            Err(e) => Err(e),
        },
    }
}

proof fn lemma_check_widths_skip(rows: Seq<Seq<Seq<char>>>, ncols: nat, j: nat, i: nat)
    requires
        j <= i <= rows.len(),
        forall|k: int| j <= k < i ==> (#[trigger] rows[k]).len() == ncols,
    ensures
        check_widths_from(rows, ncols, j) == check_widths_from(rows, ncols, i),
    decreases i - j,
{
    if j < i {
        lemma_check_widths_skip(rows, ncols, (j + 1) as nat, i);
    }
}

/// Splits a whole table text into its header row and its data rows: the
/// first record names the columns, every later record is one data row and
/// must be exactly as wide as the header. All-or-nothing: the first row of
/// another width fails the whole load with its row index.
pub fn parse_table(text: &str) -> (r: Result<(Vec<String>, Vec<Vec<String>>), PipelineError>)
    ensures
        r matches Ok(t) ==> load_table_spec(text@) == Ok::<_, PipelineError>(
            (t.0.deep_view(), t.1.deep_view()),
        ),
        r matches Err(e) ==> load_table_spec(text@) == Err::<
            (Seq<Seq<char>>, Seq<Seq<Seq<char>>>),
            _,
        >(e),
{
    let parsed = read_csv_text(text);
    match parsed {
        None => Err(PipelineError::ParseError { row: 0, field: 0 }),
        Some((headers, rows)) => {
            let ghost hdv: Seq<Seq<char>> = headers.deep_view();
            let ghost dv: Seq<Seq<Seq<char>>> = rows.deep_view();
            let ghost ncols: nat = hdv.len();
            let n = rows.len();
            let expected = headers.len();
            let mut i: usize = 0;
            while i < n
                invariant
                    csv_table_of(text@) == Some((hdv, dv)),
                    ncols == hdv.len(),
                    dv == rows.deep_view(),
                    n == rows@.len(),
                    n == dv.len(),
                    expected == ncols,
                    i <= n,
                    forall|k: int| 0 <= k < i ==> (#[trigger] dv[k]).len() == ncols,
                decreases n - i,
            {
                let row_len = rows[i].len();
                assert(rows@[i as int].deep_view() == dv[i as int]);
                if row_len != expected {
                    proof {
                        assert(check_widths_from(dv, ncols, i as nat) is Err);
                        lemma_check_widths_skip(dv, ncols, 0, i as nat);
                    }
                    return Err(PipelineError::ShapeError {
                        row: i,
                        expected,
                        found: row_len,
                    });
                }
                i += 1;
            }
            proof {
                lemma_check_widths_skip(dv, ncols, 0, n as nat);
            }
            Ok((headers, rows))
        },
    }
}

} // verus!
