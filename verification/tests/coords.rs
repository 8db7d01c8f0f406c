use minesweeper::{Grid, GridError};

#[test]
fn test_idx_to_xy() {
    let _grid = Grid {
        n_rows: 3,
        n_cols: 4,
        grid_vec: Vec::new(),
    };
    assert_eq!(Grid::idx_to_xy(1, 3, 4), Some((0, 1)));
    assert_eq!(Grid::idx_to_xy(4, 3, 4), Some((1, 0)));
    assert_eq!(Grid::idx_to_xy(5, 3, 4), Some((1, 1)));
    assert_eq!(Grid::idx_to_xy(12, 3, 4), None);
}

#[test]
fn test_xy_to_idx() {
    let _grid = Grid {
        n_rows: 3,
        n_cols: 4,
        grid_vec: Vec::new(),
    };
    assert_eq!(Grid::xy_to_idx((0, 0), 3, 4), Some(0));
    assert_eq!(Grid::xy_to_idx((0, 1), 3, 4), Some(1));
    assert_eq!(Grid::xy_to_idx((1, 0), 3, 4), Some(4));
    assert_eq!(Grid::xy_to_idx((1, 1), 3, 4), Some(5));
    assert_eq!(Grid::xy_to_idx((10, 1), 3, 4), None);
}

#[test]
fn idx_to_xy_last_cell_and_first_outside() {
    assert_eq!(Grid::idx_to_xy(11, 3, 4), Some((2, 3)));
    assert_eq!(Grid::idx_to_xy(0, 3, 4), Some((0, 0)));
    assert_eq!(Grid::idx_to_xy(usize::MAX, 3, 4), None);
}

#[test]
fn idx_to_xy_of_empty_grids() {
    assert_eq!(Grid::idx_to_xy(0, 0, 0), None);
    assert_eq!(Grid::idx_to_xy(0, 0, 5), None);
    assert_eq!(Grid::idx_to_xy(0, 5, 0), None);
}

#[test]
fn xy_to_idx_rejects_column_outside() {
    assert_eq!(Grid::xy_to_idx((0, 4), 3, 4), None);
    assert_eq!(Grid::xy_to_idx((2, 3), 3, 4), Some(11));
    assert_eq!(Grid::xy_to_idx((3, 0), 3, 4), None);
    assert_eq!(Grid::xy_to_idx((0, 0), 0, 0), None);
}

#[test]
fn xy_to_idx_index_beyond_usize() {
    let big = usize::MAX;
    assert_eq!(Grid::xy_to_idx((big - 1, 1), big, 2), None);
    assert_eq!(Grid::xy_to_idx((0, 1), big, 2), Some(1));
}

#[test]
fn idx_and_xy_are_inverse() {
    for &(n_rows, n_cols) in &[(1usize, 1usize), (1, 7), (7, 1), (3, 4), (5, 5), (2, 9)] {
        for idx in 0..n_rows * n_cols {
            let xy = Grid::idx_to_xy(idx, n_rows, n_cols).unwrap();
            assert!(xy.0 < n_rows && xy.1 < n_cols);
            assert_eq!(Grid::xy_to_idx(xy, n_rows, n_cols), Some(idx));
        }
        for row in 0..n_rows {
            for col in 0..n_cols {
                let idx = Grid::xy_to_idx((row, col), n_rows, n_cols).unwrap();
                assert!(idx < n_rows * n_cols);
                assert_eq!(Grid::idx_to_xy(idx, n_rows, n_cols), Some((row, col)));
            }
        }
    }
}

#[test]
fn neighbors_of_corner_in_listed_order() {
    assert_eq!(Grid::valid_neighbor_indices(0, 3, 3), vec![3, 1, 4]);
    assert_eq!(Grid::valid_neighbor_indices(8, 3, 3), vec![5, 7, 4]);
    assert_eq!(Grid::valid_neighbor_indices(2, 3, 3), vec![5, 1, 4]);
    assert_eq!(Grid::valid_neighbor_indices(6, 3, 3), vec![7, 3, 4]);
}

#[test]
fn neighbors_of_edge_cell_in_listed_order() {
    assert_eq!(Grid::valid_neighbor_indices(1, 3, 3), vec![4, 2, 0, 5, 3]);
    assert_eq!(Grid::valid_neighbor_indices(3, 3, 3), vec![6, 4, 0, 7, 1]);
}

#[test]
fn neighbors_of_inner_cell_in_listed_order() {
    assert_eq!(
        Grid::valid_neighbor_indices(4, 3, 3),
        vec![7, 5, 1, 3, 8, 0, 6, 2]
    );
}

#[test]
fn neighbors_do_not_wrap_around() {
    // the last cell of a row and the first of the next are no neighbours
    let right_end = Grid::valid_neighbor_indices(3, 3, 4);
    assert!(!right_end.contains(&4));
    assert!(!right_end.contains(&0));
    assert!(!right_end.contains(&8));
    let left_end = Grid::valid_neighbor_indices(4, 3, 4);
    assert!(!left_end.contains(&3));
    assert!(!left_end.contains(&7));
    assert!(!left_end.contains(&11));
}

#[test]
fn neighbor_counts_by_position() {
    for &(n_rows, n_cols) in &[(3usize, 3usize), (3, 4), (4, 3), (5, 7), (10, 10)] {
        for idx in 0..n_rows * n_cols {
            let (row, col) = Grid::idx_to_xy(idx, n_rows, n_cols).unwrap();
            let on_row_edge = row == 0 || row == n_rows - 1;
            let on_col_edge = col == 0 || col == n_cols - 1;
            let expected = if on_row_edge && on_col_edge {
                3
            } else if on_row_edge || on_col_edge {
                5
            } else {
                8
            };
            let neighbors = Grid::valid_neighbor_indices(idx, n_rows, n_cols);
            assert_eq!(neighbors.len(), expected);
            for (k, &n) in neighbors.iter().enumerate() {
                assert!(n < n_rows * n_cols);
                assert!(n != idx);
                assert!(!neighbors[..k].contains(&n));
                let (r, c) = Grid::idx_to_xy(n, n_rows, n_cols).unwrap();
                assert!(r.abs_diff(row) <= 1 && c.abs_diff(col) <= 1);
            }
        }
    }
}

#[test]
fn neighbors_on_thin_grids() {
    assert_eq!(Grid::valid_neighbor_indices(0, 1, 1), Vec::<usize>::new());
    assert_eq!(Grid::valid_neighbor_indices(0, 1, 3), vec![1]);
    assert_eq!(Grid::valid_neighbor_indices(1, 1, 3), vec![2, 0]);
    assert_eq!(Grid::valid_neighbor_indices(1, 3, 1), vec![2, 0]);
    assert_eq!(Grid::valid_neighbor_indices(0, 2, 2), vec![2, 1, 3]);
}

#[test]
fn neighbors_of_a_cell_outside_the_grid() {
    assert_eq!(Grid::valid_neighbor_indices(9, 3, 3), Vec::<usize>::new());
    assert_eq!(Grid::valid_neighbor_indices(0, 0, 0), Vec::<usize>::new());
}

#[test]
fn coords_of_and_index_at_use_the_shape_of_the_grid() {
    let grid = Grid::with_mines(3, 4, &Vec::new()).unwrap();
    assert_eq!(grid.coords_of(5), Ok((1, 1)));
    assert_eq!(grid.coords_of(11), Ok((2, 3)));
    assert_eq!(grid.coords_of(12), Err(GridError::OutOfRange));
    assert_eq!(grid.index_at(1, 1), Ok(5));
    assert_eq!(grid.index_at(2, 3), Ok(11));
    assert_eq!(grid.index_at(3, 0), Err(GridError::OutOfRange));
    assert_eq!(grid.index_at(0, 4), Err(GridError::OutOfRange));
}
