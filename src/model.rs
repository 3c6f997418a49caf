use vstd::prelude::*;

use crate::qubit::PhysicalQubit;
use crate::rows::IndexConversionError;

verus! {

/// Extending a prefix by one element: the shorter prefix, then that element.
pub proof fn lemma_take_step<A>(s: Seq<A>, j: int)
    requires
        0 <= j < s.len(),
    ensures
        s.take(j + 1).drop_last() == s.take(j),
        s.take(j + 1).last() == s[j],
        s.take(j + 1).len() == j + 1,
{
    assert(s.take(j + 1).drop_last() =~= s.take(j));
}

/// The neighbors of one row: a node for each set entry, in column order.
pub open spec fn row_neighbors(row: Seq<bool>) -> Seq<PhysicalQubit>
    decreases row.len(),
{
    if row.len() == 0 {
        seq![]
    } else {
        let before = row_neighbors(row.drop_last());
        if row.last() {
            before.push(PhysicalQubit((row.len() - 1) as u32))
        } else {
            before
        }
    }
}

/// The first column of the row that is set and lies beyond the node-index range.
pub open spec fn first_overflow_column(row: Seq<bool>) -> Option<int>
    decreases row.len(),
{
    if row.len() == 0 {
        None
    } else {
        match first_overflow_column(row.drop_last()) {
            Some(j) => Some(j),
            None => if row.last() && row.len() - 1 > u32::MAX {
                Some(row.len() - 1)
            } else {
                None
            },
        }
    }
}

/// What scanning row `i` gives: its neighbors, or the first column that does not fit.
pub open spec fn row_outcome(i: int, row: Seq<bool>) -> Result<Seq<PhysicalQubit>, IndexConversionError> {
    match first_overflow_column(row) {
        Some(j) => Err(IndexConversionError { row: i as usize, column: j as usize }),
        None => Ok(row_neighbors(row)),
    }
}

/// What scanning a whole matrix gives: every row's neighbors, or the error of
/// the first row that fails.
pub open spec fn table_outcome(m: Seq<Seq<bool>>) -> Result<Seq<Seq<PhysicalQubit>>, IndexConversionError>
    decreases m.len(),
{
    if m.len() == 0 {
        Ok(seq![])
    } else {
        match table_outcome(m.drop_last()) {
            Err(e) => Err(e),
            Ok(t) => match row_outcome(m.len() - 1, m.last()) {
                Err(e) => Err(e),
                Ok(r) => Ok(t.push(r)),
            },
        }
    }
}

/// Every length fits in `usize`, as it does for a matrix held in memory.
pub open spec fn addressable(m: Seq<Seq<bool>>) -> bool {
    &&& m.len() <= usize::MAX
    &&& forall|i: int| 0 <= i < m.len() ==> #[trigger] m[i].len() <= usize::MAX
}

/// Where the first overflowing column of a row lies, or that there is none.
pub proof fn lemma_first_overflow_column(row: Seq<bool>)
    ensures
        match first_overflow_column(row) {
            Some(c) => {
                &&& u32::MAX < c < row.len()
                &&& row[c]
                &&& forall|j: int| u32::MAX < j < c ==> !#[trigger] row[j]
            },
            None => forall|j: int| 0 <= j < row.len() && #[trigger] row[j] ==> j <= u32::MAX,
        },
    decreases row.len(),
{
    if row.len() > 0 {
        let init = row.drop_last();
        lemma_first_overflow_column(init);
        assert forall|j: int| 0 <= j < init.len() implies init[j] == row[j] by {}
    }
}

/// A row whose set columns all fit: its neighbors are exactly its set
/// columns, each once, in strictly ascending order.
pub proof fn lemma_row_neighbors_are_set_columns(row: Seq<bool>)
    requires
        first_overflow_column(row) is None,
    ensures
        forall|a: int, b: int|
            0 <= a < b < row_neighbors(row).len() ==> (#[trigger] row_neighbors(row)[a]).0
                < (#[trigger] row_neighbors(row)[b]).0,
        forall|k: int|
            0 <= k < row_neighbors(row).len() ==> {
                let c = (#[trigger] row_neighbors(row)[k]).0 as int;
                c < row.len() && row[c]
            },
        forall|j: int|
            0 <= j < row.len() && #[trigger] row[j] ==> exists|k: int|
                0 <= k < row_neighbors(row).len() && (#[trigger] row_neighbors(row)[k]).0 == j,
    decreases row.len(),
{
    if row.len() > 0 {
        let init = row.drop_last();
        let before = row_neighbors(init);
        let last = row.len() - 1;
        assert(first_overflow_column(init) is None);
        lemma_row_neighbors_are_set_columns(init);
        lemma_first_overflow_column(row);
        assert forall|j: int| 0 <= j < init.len() implies init[j] == row[j] by {}
        assert forall|j: int| 0 <= j < row.len() && #[trigger] row[j] implies exists|k: int|
            0 <= k < row_neighbors(row).len() && (#[trigger] row_neighbors(row)[k]).0 == j by {
            if j < last {
                assert(init[j]);
                let k = choose|k: int| 0 <= k < before.len() && (#[trigger] before[k]).0 == j;
                assert(row_neighbors(row)[k] == before[k]);
            } else {
                assert(row_neighbors(row)[before.len() as int].0 == j);
            }
        }
    }
}

/// What construction gives on a matrix: every row's neighbors when no row
/// overflows, and otherwise the first overflowing row and its first
/// overflowing column.
pub proof fn lemma_table_outcome(m: Seq<Seq<bool>>)
    requires
        addressable(m),
    ensures
        match table_outcome(m) {
            Ok(t) => {
                &&& t.len() == m.len()
                &&& forall|i: int|
                    0 <= i < m.len() ==> first_overflow_column(#[trigger] m[i]) is None && t[i]
                        == row_neighbors(m[i])
            },
            Err(e) => {
                &&& e.row < m.len()
                &&& first_overflow_column(m[e.row as int]) == Some(e.column as int)
                &&& forall|i: int| 0 <= i < e.row ==> first_overflow_column(#[trigger] m[i]) is None
            },
        },
    decreases m.len(),
{
    if m.len() > 0 {
        let init = m.drop_last();
        let last = m.len() - 1;
        assert forall|i: int| 0 <= i < init.len() implies init[i] == m[i] by {}
        assert(addressable(init));
        lemma_table_outcome(init);
        lemma_first_overflow_column(m[last]);
        assert(m[last].len() <= usize::MAX);
    }
}

/// A matrix whose rows all have at most one column per node index: the
/// construction succeeds, and row `i` of the table is exactly the set of
/// columns `j` with `m[i][j]` set, in strictly ascending order.
pub proof fn lemma_rows_are_sorted_set_columns(m: Seq<Seq<bool>>)
    requires
        addressable(m),
        forall|i: int| 0 <= i < m.len() ==> #[trigger] m[i].len() <= u32::MAX + 1,
    ensures
        table_outcome(m) is Ok,
        table_outcome(m)->Ok_0.len() == m.len(),
        forall|i: int, a: int, b: int|
            0 <= i < m.len() && 0 <= a < b < table_outcome(m)->Ok_0[i].len() ==> (
            #[trigger] table_outcome(m)->Ok_0[i][a]).0 < (#[trigger] table_outcome(m)->Ok_0[i][b]).0,
        forall|i: int, k: int|
            0 <= i < m.len() && 0 <= k < table_outcome(m)->Ok_0[i].len() ==> {
                let c = (#[trigger] table_outcome(m)->Ok_0[i][k]).0 as int;
                c < m[i].len() && m[i][c]
            },
        forall|i: int, j: int|
            0 <= i < m.len() && 0 <= j < m[i].len() && #[trigger] m[i][j] ==> exists|k: int|
                0 <= k < table_outcome(m)->Ok_0[i].len() && (#[trigger] table_outcome(m)->Ok_0[i][k]).0
                    == j,
{
    assert forall|i: int| 0 <= i < m.len() implies first_overflow_column(#[trigger] m[i]) is None by {
        lemma_first_overflow_column(m[i]);
    }
    lemma_table_outcome(m);
    let t = table_outcome(m)->Ok_0;
    assert forall|i: int| #![trigger t[i]] 0 <= i < m.len() implies {
        &&& forall|a: int, b: int| 0 <= a < b < t[i].len() ==> (#[trigger] t[i][a]).0 < (#[trigger] t[i][b]).0
        &&& forall|k: int| 0 <= k < t[i].len() ==> {
                let c = (#[trigger] t[i][k]).0 as int;
                c < m[i].len() && m[i][c]
            }
        &&& forall|j: int| 0 <= j < m[i].len() && #[trigger] m[i][j] ==> exists|k: int|
                0 <= k < t[i].len() && (#[trigger] t[i][k]).0 == j
    } by {
        lemma_row_neighbors_are_set_columns(m[i]);
    }
}

/// A set entry at a column beyond the node-index range makes construction
/// fail, never truncate: the error names a set position, in a row no later
/// than that entry's, whose column is beyond the range.
pub proof fn lemma_overflow_fails(m: Seq<Seq<bool>>, i: int, j: int)
    requires
        addressable(m),
        0 <= i < m.len(),
        u32::MAX < j < m[i].len(),
        m[i][j],
    ensures
        table_outcome(m) is Err,
        ({
            let e = table_outcome(m)->Err_0;
            &&& e.row <= i
            &&& u32::MAX < e.column < m[e.row as int].len()
            &&& m[e.row as int][e.column as int]
        }),
{
    lemma_first_overflow_column(m[i]);
    lemma_table_outcome(m);
    if let Err(e) = table_outcome(m) {
        lemma_first_overflow_column(m[e.row as int]);
    }
}

} // verus!
