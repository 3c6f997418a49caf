use vstd::prelude::*;

use crate::model::{first_overflow_column, lemma_take_step, row_neighbors, row_outcome};
use crate::qubit::PhysicalQubit;

verus! {

/// A nonzero entry stood at a column that does not fit the node-index type.
#[derive(Clone, Copy, Debug, PartialEq, Eq, Structural)]
pub struct IndexConversionError {
    pub row: usize,
    pub column: usize,
}

/// The view of a row scan's result: the neighbors as a sequence, or the error.
pub open spec fn row_result_view(
    r: Result<Vec<PhysicalQubit>, IndexConversionError>,
) -> Result<Seq<PhysicalQubit>, IndexConversionError> {
    match r {
        Ok(v) => Ok(v@),
        Err(e) => Err(e),
    }
}

/// Scans row `row_index` of the matrix: every set column, in ascending order,
/// becomes a neighbor; a set column beyond the node-index range is an error.
pub fn build_neighbors(row_index: usize, row: &Vec<bool>) -> (r: Result<
    Vec<PhysicalQubit>,
    IndexConversionError,
>)
    ensures
        row_result_view(r) == row_outcome(row_index as int, row@),
{
    let mut out: Vec<PhysicalQubit> = Vec::new();
    let n = row.len();
    let mut j: usize = 0;
    assert(row@.take(0) =~= seq![]);
    while j < n
        invariant
            n == row@.len(),
            j <= n,
            first_overflow_column(row@.take(j as int)) is None,
            out@ == row_neighbors(row@.take(j as int)),
        decreases n - j,
    {
        proof {
            lemma_take_step(row@, j as int);
        }
        if row[j] {
            match u32::try_from(j) {
                Ok(index) => {
                    out.push(PhysicalQubit::new(index));
                },
                Err(_) => {
                    proof {
                        lemma_overflow_prefix(row@, j as int + 1);
                    }
                    return Err(IndexConversionError { row: row_index, column: j });
                },
            }
        }
        j = j + 1;
    }
    assert(row@.take(n as int) =~= row@);
    Ok(out)
}

/// Once a prefix of the row overflows, the whole row overflows at the same column.
proof fn lemma_overflow_prefix(row: Seq<bool>, k: int)
    requires
        0 <= k <= row.len(),
    ensures
        first_overflow_column(row.take(k)) is Some ==> first_overflow_column(row)
            == first_overflow_column(row.take(k)),
    decreases row.len() - k,
{
    if k < row.len() {
        lemma_overflow_prefix(row, k + 1);
        lemma_take_step(row, k);
    } else {
        assert(row.take(k) =~= row);
    }
}

} // verus!
