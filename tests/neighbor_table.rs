use neighbor_table::{
    build_neighbors, ConstructOptions, IndexConversionError, NeighborTable, PhysicalQubit,
};

const SEQUENTIAL: ConstructOptions = ConstructOptions { parallel: false };
const PARALLEL: ConstructOptions = ConstructOptions { parallel: true };

fn pattern(m: &[&[u8]]) -> Vec<Vec<bool>> {
    m.iter().map(|row| row.iter().map(|&v| v != 0).collect()).collect()
}

fn rows(m: &[&[u32]]) -> Vec<Vec<PhysicalQubit>> {
    m.iter().map(|row| row.iter().map(|&v| PhysicalQubit::new(v)).collect()).collect()
}

fn build(m: &[&[u8]], options: ConstructOptions) -> Result<NeighborTable, IndexConversionError> {
    NeighborTable::new(Some(&pattern(m)), options)
}

#[test]
fn path_of_three_nodes() {
    let m: &[&[u8]] = &[&[0, 1, 0], &[1, 0, 1], &[0, 1, 0]];
    for options in [SEQUENTIAL, PARALLEL] {
        let t = build(m, options).unwrap();
        assert_eq!(t.neighbors, rows(&[&[1], &[0, 2], &[1]]));
    }
}

#[test]
fn single_isolated_node() {
    for options in [SEQUENTIAL, PARALLEL] {
        let t = build(&[&[0]], options).unwrap();
        assert_eq!(t.neighbors, rows(&[&[]]));
    }
}

#[test]
fn no_matrix_gives_empty_table() {
    for options in [SEQUENTIAL, PARALLEL] {
        let t = NeighborTable::new(None, options).unwrap();
        assert!(t.neighbors.is_empty());
        assert!(t.__getstate__().is_empty());
    }
}

#[test]
fn directed_edge_is_not_symmetrized() {
    for options in [SEQUENTIAL, PARALLEL] {
        let t = build(&[&[0, 1], &[0, 0]], options).unwrap();
        assert_eq!(t.neighbors, rows(&[&[1], &[]]));
    }
}

#[test]
fn empty_matrix_gives_empty_table() {
    let t = NeighborTable::new(Some(&Vec::new()), PARALLEL).unwrap();
    assert!(t.neighbors.is_empty());
}

#[test]
fn self_loops_are_kept() {
    let t = build(&[&[1, 1], &[0, 1]], SEQUENTIAL).unwrap();
    assert_eq!(t.neighbors, rows(&[&[0, 1], &[1]]));
}

#[test]
fn rows_are_sorted_set_columns() {
    let n: usize = 37;
    let m: Vec<Vec<bool>> = (0..n)
        .map(|i| (0..n).map(|j| (i * 7 + j * 13) % 5 == 0 || i == j + 1).collect())
        .collect();
    let t = NeighborTable::new(Some(&m), SEQUENTIAL).unwrap();
    assert_eq!(t.neighbors.len(), n);
    for i in 0..n {
        let expected: Vec<PhysicalQubit> =
            (0..n).filter(|&j| m[i][j]).map(|j| PhysicalQubit::new(j as u32)).collect();
        assert_eq!(t.neighbors[i], expected);
        assert!(t.neighbors[i].windows(2).all(|w| w[0].index() < w[1].index()));
    }
}

#[test]
fn parallel_and_sequential_agree() {
    let n: usize = 64;
    let m: Vec<Vec<bool>> = (0..n)
        .map(|i| (0..n).map(|j| (i * 31 + j * 17 + i * j) % 7 < 2).collect())
        .collect();
    let a = NeighborTable::new(Some(&m), SEQUENTIAL).unwrap();
    let b = NeighborTable::new(Some(&m), PARALLEL).unwrap();
    assert_eq!(a.neighbors, b.neighbors);
    assert!(a.neighbors.iter().any(|row| !row.is_empty()));
}

#[test]
fn parallel_scan_keeps_row_order() {
    let n: usize = 200;
    let m: Vec<Vec<bool>> = (0..n).map(|i| (0..n).map(|j| j == (i + 1) % n).collect()).collect();
    let t = NeighborTable::new(Some(&m), PARALLEL).unwrap();
    assert_eq!(t.neighbors.len(), n);
    for i in 0..n {
        assert_eq!(t.neighbors[i], vec![PhysicalQubit::new(((i + 1) % n) as u32)]);
    }
}

#[test]
fn state_round_trip() {
    let original = build(&[&[0, 1, 1], &[1, 0, 0], &[1, 0, 0]], PARALLEL).unwrap();
    let state = original.__getstate__();
    assert_eq!(state, rows(&[&[1, 2], &[0], &[0]]));
    let mut restored = NeighborTable::new(None, SEQUENTIAL).unwrap();
    restored.__setstate__(state);
    assert_eq!(restored.neighbors, original.neighbors);
    assert_eq!(restored.__getstate__(), original.__getstate__());
}

#[test]
fn restore_replaces_everything() {
    let mut t = build(&[&[0, 1], &[1, 0]], SEQUENTIAL).unwrap();
    let state = rows(&[&[2], &[], &[0, 1]]);
    t.__setstate__(state.clone());
    assert_eq!(t.neighbors, state);
    assert_eq!(t.__getstate__(), state);
}

#[test]
fn physical_qubit_index() {
    let q = PhysicalQubit::new(u32::MAX);
    assert_eq!(q.index(), u32::MAX);
}

#[test]
fn row_scan_lists_set_columns() {
    let row = vec![true, false, false, true, true, false];
    let r = build_neighbors(4, &row).unwrap();
    assert_eq!(r, vec![PhysicalQubit::new(0), PhysicalQubit::new(3), PhysicalQubit::new(4)]);
    assert_eq!(build_neighbors(0, &Vec::new()).unwrap(), Vec::new());
    assert_eq!(build_neighbors(9, &vec![false; 5]).unwrap(), Vec::new());
}
