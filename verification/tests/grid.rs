use chunk_grid::codec::CodecError;
use chunk_grid::grid::{ChunkData, ChunkDataRow};

#[test]
fn row_fill_sets_every_cell() {
    let row = ChunkDataRow::<5>::new(9);
    for i in 0..5 {
        assert_eq!(row.get(i), 9);
    }
}

#[test]
fn row_default_is_all_zero() {
    let row = ChunkDataRow::<4>::default();
    for i in 0..4 {
        assert_eq!(row.get(i), 0);
    }
}

#[test]
fn row_set_overwrites_one_cell() {
    let mut row = ChunkDataRow::<3>::new(1);
    row.set(1, 8);
    assert_eq!(row.get(0), 1);
    assert_eq!(row.get(1), 8);
    assert_eq!(row.get(2), 1);
}

#[test]
fn row_equality_is_cellwise() {
    let a = ChunkDataRow::<3>::new(2);
    let b = ChunkDataRow::<3>::new(2);
    assert!(a == b);
    let mut c = ChunkDataRow::<3>::new(2);
    c.set(2, 0);
    assert!(a != c);
}

#[test]
fn row_serialize_keeps_index_order() {
    let wire: Vec<usize> = vec![1, 2, 3];
    let row = ChunkDataRow::<3>::deserialize(&wire).unwrap();
    assert_eq!(row.serialize(), vec![1, 2, 3]);
}

#[test]
fn row_round_trip() {
    let row = ChunkDataRow::<6>::new(42);
    let wire = row.serialize();
    let back = ChunkDataRow::<6>::deserialize(&wire).unwrap();
    assert!(back == row);
}

#[test]
fn row_short_input_fails_with_missing_index() {
    let wire: Vec<usize> = vec![5];
    let r = ChunkDataRow::<4>::deserialize(&wire);
    assert_eq!(r.unwrap_err(), CodecError::InvalidLength { index: 1 });
}

#[test]
fn grid_fill_sets_every_cell() {
    let g = ChunkData::<4, 2>::new(6);
    for y in 0..2 {
        let row = g.get(y);
        for x in 0..4 {
            assert_eq!(row.get(x), 6);
        }
    }
}

#[test]
fn grid_default_is_all_zero() {
    let g = ChunkData::<3, 3>::default();
    for y in 0..3 {
        for x in 0..3 {
            assert_eq!(g.get(y).get(x), 0);
        }
    }
}

#[test]
fn grid_set_replaces_one_row() {
    let mut g = ChunkData::<2, 2>::new(1);
    g.set(1, ChunkDataRow::<2>::new(5));
    assert_eq!(g.get(0).get(0), 1);
    assert_eq!(g.get(0).get(1), 1);
    assert_eq!(g.get(1).get(0), 5);
    assert_eq!(g.get(1).get(1), 5);
}

#[test]
fn grid_equality_is_rowwise() {
    let a = ChunkData::<2, 2>::new(3);
    let b = ChunkData::<2, 2>::new(3);
    assert!(a == b);
    let mut c = ChunkData::<2, 2>::new(3);
    c.set(0, ChunkDataRow::<2>::new(4));
    assert!(a != c);
}

#[test]
fn grid_two_by_three_fill_serializes_to_nested_sevens() {
    let g = ChunkData::<2, 3>::new(7);
    let wire = g.serialize();
    assert_eq!(wire, vec![vec![7usize, 7], vec![7, 7], vec![7, 7]]);
    let back = ChunkData::<2, 3>::deserialize(&wire).unwrap();
    assert!(back == g);
}

#[test]
fn grid_round_trip_after_edits() {
    let mut g = ChunkData::<3, 2>::new(1);
    let mut row = ChunkDataRow::<3>::new(2);
    row.set(0, 9);
    g.set(1, row);
    let wire = g.serialize();
    let back = ChunkData::<3, 2>::deserialize(&wire).unwrap();
    assert!(back == g);
}

#[test]
fn grid_missing_row_fails_with_row_index() {
    let wire: Vec<Vec<usize>> = vec![vec![1, 1], vec![2, 2]];
    let r = ChunkData::<2, 4>::deserialize(&wire);
    assert_eq!(r.unwrap_err(), CodecError::InvalidLength { index: 2 });
}

#[test]
fn grid_short_row_fails_with_cell_index() {
    let wire: Vec<Vec<usize>> = vec![vec![1, 1, 1], vec![2]];
    let r = ChunkData::<3, 2>::deserialize(&wire);
    assert_eq!(r.unwrap_err(), CodecError::InvalidLength { index: 1 });
}

#[test]
fn grid_first_fault_wins() {
    let wire: Vec<Vec<usize>> = vec![vec![1], vec![2, 2]];
    let r = ChunkData::<2, 3>::deserialize(&wire);
    assert_eq!(r.unwrap_err(), CodecError::InvalidLength { index: 1 });
}

#[test]
fn grid_excess_rows_and_cells_are_truncated() {
    let wire: Vec<Vec<usize>> = vec![vec![1, 2, 9], vec![3, 4], vec![5, 6]];
    let g = ChunkData::<2, 2>::deserialize(&wire).unwrap();
    assert_eq!(g.get(0).get(0), 1);
    assert_eq!(g.get(0).get(1), 2);
    assert_eq!(g.get(1).get(0), 3);
    assert_eq!(g.get(1).get(1), 4);
}
