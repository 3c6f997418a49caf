use vstd::prelude::*;

use crate::model::{lemma_take_step, row_outcome, table_outcome};
use crate::qubit::PhysicalQubit;
use crate::rows::{build_neighbors, row_result_view, IndexConversionError};
use rayon::iter::{IndexedParallelIterator, IntoParallelRefIterator, ParallelIterator};

verus! {

/// How a table is built: `parallel` scans the rows on rayon's worker pool.
#[derive(Clone, Copy, Debug, PartialEq, Eq, Structural)]
pub struct ConstructOptions {
    pub parallel: bool,
}

/// For each node, the nodes it is adjacent to, in ascending order.
#[derive(Clone, Debug)]
pub struct NeighborTable {
    pub neighbors: Vec<Vec<PhysicalQubit>>,
}

/// The neighbor lists as sequences.
pub open spec fn lists_view(v: Seq<Vec<PhysicalQubit>>) -> Seq<Seq<PhysicalQubit>> {
    v.map_values(|r: Vec<PhysicalQubit>| r@)
}

/// The adjacency pattern as sequences.
pub open spec fn matrix_view(m: Seq<Vec<bool>>) -> Seq<Seq<bool>> {
    m.map_values(|r: Vec<bool>| r@)
}

impl View for NeighborTable {
    type V = Seq<Seq<PhysicalQubit>>;

    open spec fn view(&self) -> Seq<Seq<PhysicalQubit>> {
        lists_view(self.neighbors@)
    }
}

/// The view of a construction's result: the table's rows, or the error.
pub open spec fn table_result_view(
    r: Result<NeighborTable, IndexConversionError>,
) -> Result<Seq<Seq<PhysicalQubit>>, IndexConversionError> {
    match r {
        Ok(t) => Ok(t@),
        Err(e) => Err(e),
    }
}

/// What constructing from an optional adjacency pattern gives.
pub open spec fn construct_outcome(m: Option<Seq<Seq<bool>>>) -> Result<
    Seq<Seq<PhysicalQubit>>,
    IndexConversionError,
> {
    match m {
        None => Ok(seq![]),
        Some(m) => table_outcome(m),
    }
}

/// Once a prefix of the matrix fails, the whole matrix fails with the same error.
proof fn lemma_error_prefix(m: Seq<Seq<bool>>, k: int)
    requires
        0 <= k <= m.len(),
    ensures
        table_outcome(m.take(k)) is Err ==> table_outcome(m) == table_outcome(m.take(k)),
    decreases m.len() - k,
{
    if k < m.len() {
        lemma_error_prefix(m, k + 1);
        lemma_take_step(m, k);
    } else {
        assert(m.take(k) =~= m);
    }
}

/// Relies on rayon's `par_iter().enumerate().map(..).collect()` over a slice:
/// an indexed parallel iterator, which collects into a `Vec` in input order.
/// Item `i` is what `build_neighbors` returns for row `i`.
#[verifier::external_body]
fn scan_rows_parallel(m: &Vec<Vec<bool>>) -> (r: Vec<Result<Vec<PhysicalQubit>, IndexConversionError>>)
    ensures
        r@.len() == m@.len(),
        forall|i: int|
            0 <= i < m@.len() ==> row_result_view(#[trigger] r@[i]) == row_outcome(i, m@[i]@),
{
    m.par_iter().enumerate().map(|(i, row)| build_neighbors(i, row)).collect()
}

/// Scans the rows one after another, stopping at the first failing row.
fn scan_rows_sequential(m: &Vec<Vec<bool>>) -> (r: Result<
    Vec<Vec<PhysicalQubit>>,
    IndexConversionError,
>)
    ensures
        match r {
            Ok(t) => table_outcome(matrix_view(m@)) == Ok::<_, IndexConversionError>(lists_view(t@)),
            Err(e) => table_outcome(matrix_view(m@)) == Err::<Seq<Seq<PhysicalQubit>>, _>(e),
        },
{
    let ghost mv = matrix_view(m@);
    let mut out: Vec<Vec<PhysicalQubit>> = Vec::new();
    let n = m.len();
    let mut i: usize = 0;
    assert(mv.take(0) =~= seq![]);
    assert(lists_view(out@) =~= seq![]);
    while i < n
        invariant
            n == m@.len(),
            mv == matrix_view(m@),
            i <= n,
            table_outcome(mv.take(i as int)) == Ok::<_, IndexConversionError>(lists_view(out@)),
        decreases n - i,
    {
        proof {
            lemma_take_step(mv, i as int);
        }
        match build_neighbors(i, &m[i]) {
            Ok(row) => {
                let ghost before = out@;
                out.push(row);
                assert(lists_view(out@) =~= lists_view(before).push(row@));
            },
            Err(e) => {
                proof {
                    lemma_error_prefix(mv, i as int + 1);
                }
                return Err(e);
            },
        }
        i = i + 1;
    }
    assert(mv.take(n as int) =~= mv);
    Ok(out)
}

/// Puts scanned rows together: the first failing row's error, or all rows in order.
fn assemble_rows(rows: Vec<Result<Vec<PhysicalQubit>, IndexConversionError>>, Ghost(m): Ghost<
    Seq<Seq<bool>>,
>) -> (r: Result<Vec<Vec<PhysicalQubit>>, IndexConversionError>)
    requires
        rows@.len() == m.len(),
        forall|i: int| 0 <= i < m.len() ==> row_result_view(#[trigger] rows@[i]) == row_outcome(i, m[i]),
    ensures
        match r {
            Ok(t) => table_outcome(m) == Ok::<_, IndexConversionError>(lists_view(t@)),
            Err(e) => table_outcome(m) == Err::<Seq<Seq<PhysicalQubit>>, _>(e),
        },
{
    let mut rows = rows;
    let ghost orig = rows@;
    let mut out: Vec<Vec<PhysicalQubit>> = Vec::new();
    let n = rows.len();
    let mut i: usize = 0;
    assert(m.take(0) =~= seq![]);
    assert(lists_view(out@) =~= seq![]);
    while i < n
        invariant
            n == m.len(),
            rows@.len() == n,
            i <= n,
            forall|k: int| i <= k < n ==> #[trigger] rows@[k] == orig[k],
            forall|k: int| 0 <= k < m.len() ==> row_result_view(#[trigger] orig[k]) == row_outcome(k, m[k]),
            table_outcome(m.take(i as int)) == Ok::<_, IndexConversionError>(lists_view(out@)),
        decreases n - i,
    {
        proof {
            lemma_take_step(m, i as int);
        }
        let mut taken: Result<Vec<PhysicalQubit>, IndexConversionError> = Ok(Vec::new());
        std::mem::swap(&mut rows[i], &mut taken);
        assert(row_result_view(taken) == row_outcome(i as int, m[i as int]));
        match taken {
            Ok(row) => {
                let ghost before = out@;
                out.push(row);
                assert(lists_view(out@) =~= lists_view(before).push(row@));
            },
            Err(e) => {
                proof {
                    lemma_error_prefix(m, i as int + 1);
                }
                return Err(e);
            },
        }
        i = i + 1;
    }
    assert(m.take(n as int) =~= m);
    Ok(out)
}

impl NeighborTable {
    /// Builds the table from an adjacency pattern (`true` where the matrix
    /// entry is nonzero), or an empty table when there is none. Row `i` lists
    /// the set columns of row `i` in ascending order. A set column beyond the
    /// node-index range fails the whole construction, with the first such
    /// position in row-major order. The result does not depend on `options`.
    pub fn new(adjacency_matrix: Option<&Vec<Vec<bool>>>, options: ConstructOptions) -> (r: Result<
        NeighborTable,
        IndexConversionError,
    >)
        ensures
            table_result_view(r) == construct_outcome(
                match adjacency_matrix {
                    Some(m) => Some(matrix_view(m@)),
                    None => None,
                },
            ),
            adjacency_matrix is None ==> r is Ok && r->Ok_0@.len() == 0,
    {
        match adjacency_matrix {
            None => {
                let t = NeighborTable { neighbors: Vec::new() };
                assert(t@ =~= seq![]);
                Ok(t)
            },
            Some(m) => {
                let scanned = if options.parallel {
                    let rows = scan_rows_parallel(m);
                    assemble_rows(rows, Ghost(matrix_view(m@)))
                } else {
                    scan_rows_sequential(m)
                };
                match scanned {
                    Ok(neighbors) => Ok(NeighborTable { neighbors }),
                    Err(e) => Err(e),
                }
            },
        }
    }

    /// A copy of the neighbor lists, as stored.
    pub fn __getstate__(&self) -> (r: Vec<Vec<PhysicalQubit>>)
        ensures
            lists_view(r@) == self@,
    {
        let mut out: Vec<Vec<PhysicalQubit>> = Vec::new();
        let n = self.neighbors.len();
        let mut i: usize = 0;
        while i < n
            invariant
                n == self.neighbors@.len(),
                i <= n,
                out@.len() == i,
                forall|k: int| 0 <= k < i ==> (#[trigger] out@[k])@ == self.neighbors@[k]@,
            decreases n - i,
        {
            let row = copy_row(&self.neighbors[i]);
            out.push(row);
            i = i + 1;
        }
        assert(lists_view(out@) =~= self@);
        out
    }

    /// Replaces the neighbor lists with `state`, as given.
    pub fn __setstate__(&mut self, state: Vec<Vec<PhysicalQubit>>)
        ensures
            final(self)@ == lists_view(state@),
    {
        self.neighbors = state;
    }
}

/// The parallel policy cannot be observed: two constructions from the same
/// matrix, whatever options each was given, give the same rows or the same
/// error.
pub proof fn lemma_parallel_policy_unobservable(
    m: Option<Seq<Seq<bool>>>,
    a: Result<NeighborTable, IndexConversionError>,
    b: Result<NeighborTable, IndexConversionError>,
)
    requires
        table_result_view(a) == construct_outcome(m),
        table_result_view(b) == construct_outcome(m),
    ensures
        table_result_view(a) == table_result_view(b),
        a is Ok <==> b is Ok,
{
}

/// Restoring a table from the state it exported gives back the same rows.
pub proof fn lemma_state_round_trip(
    t: NeighborTable,
    state: Seq<Vec<PhysicalQubit>>,
    restored: NeighborTable,
)
    requires
        lists_view(state) == t@,
        restored@ == lists_view(state),
    ensures
        restored@ == t@,
{
}

/// A copy of one neighbor list.
fn copy_row(row: &Vec<PhysicalQubit>) -> (r: Vec<PhysicalQubit>)
    ensures
        r@ == row@,
{
    let mut out: Vec<PhysicalQubit> = Vec::new();
    let n = row.len();
    let mut j: usize = 0;
    while j < n
        invariant
            n == row@.len(),
            j <= n,
            out@ == row@.take(j as int),
        decreases n - j,
    {
        out.push(row[j]);
        assert(out@ =~= row@.take(j as int + 1));
        j = j + 1;
    }
    assert(row@.take(n as int) =~= row@);
    out
}

} // verus!
