use minesweeper::generate::MAX_CELLS;
use minesweeper::{Cell, CellData, Difficulty, Grid, GridError};

fn mines_of(grid: &Grid) -> Vec<usize> {
    (0..grid.grid_vec.len())
        .filter(|&i| grid.grid_vec[i].data == CellData::Mine)
        .collect()
}

fn expected_mines(n_rows: usize, n_cols: usize, ratio: usize) -> usize {
    let total = n_rows * n_cols;
    (total / ratio).max(1).min(total - 1)
}

fn assert_counts_consistent(grid: &Grid) {
    for idx in 0..grid.grid_vec.len() {
        let cell = &grid.grid_vec[idx];
        match cell.data {
            CellData::Mine => assert!(cell.is_mine),
            CellData::MineNeighbor(count) => {
                assert!(!cell.is_mine);
                let around = Grid::valid_neighbor_indices(idx, grid.n_rows, grid.n_cols)
                    .into_iter()
                    .filter(|&n| grid.grid_vec[n].data == CellData::Mine)
                    .count();
                assert_eq!(count, around);
                assert!(count <= 8);
            }
        }
    }
}

#[test]
fn difficulty_ratios_and_order() {
    assert_eq!(Difficulty::Easy.ratio(), 10);
    assert_eq!(Difficulty::Medium.ratio(), 5);
    assert_eq!(Difficulty::Hard.ratio(), 3);
    assert_eq!(Difficulty::Easy.next(), Difficulty::Medium);
    assert_eq!(Difficulty::Medium.next(), Difficulty::Hard);
    assert_eq!(Difficulty::Hard.next(), Difficulty::Easy);
}

#[test]
fn generate_has_all_cells_and_the_configured_mines() {
    let shapes = [(10usize, 10usize), (3, 3), (1, 2), (2, 1), (4, 7), (16, 30), (1, 40)];
    for &(n_rows, n_cols) in &shapes {
        for &difficulty in &[Difficulty::Easy, Difficulty::Medium, Difficulty::Hard] {
            let grid = Grid::generate(n_rows, n_cols, difficulty).unwrap();
            assert_eq!(grid.n_rows, n_rows);
            assert_eq!(grid.n_cols, n_cols);
            assert_eq!(grid.grid_vec.len(), n_rows * n_cols);
            let wanted = expected_mines(n_rows, n_cols, difficulty.ratio());
            assert_eq!(mines_of(&grid).len(), wanted);
            assert_eq!(grid.mine_count(), wanted);
            assert_eq!(grid.safe_cells_left(), n_rows * n_cols - wanted);
        }
    }
}

#[test]
fn generate_mine_counts_exact_values() {
    assert_eq!(Grid::generate(10, 10, Difficulty::Easy).unwrap().mine_count(), 10);
    assert_eq!(Grid::generate(10, 10, Difficulty::Medium).unwrap().mine_count(), 20);
    assert_eq!(Grid::generate(10, 10, Difficulty::Hard).unwrap().mine_count(), 33);
    // fewer cells than the ratio: still one mine
    assert_eq!(Grid::generate(3, 3, Difficulty::Easy).unwrap().mine_count(), 1);
    // two cells: one mine, one cell free
    assert_eq!(Grid::generate(1, 2, Difficulty::Hard).unwrap().mine_count(), 1);
    assert_eq!(Grid::generate(2, 2, Difficulty::Hard).unwrap().mine_count(), 1);
}

#[test]
fn generate_counts_match_the_neighbours() {
    for _ in 0..20 {
        for &difficulty in &[Difficulty::Easy, Difficulty::Medium, Difficulty::Hard] {
            let grid = Grid::generate(9, 13, difficulty).unwrap();
            assert_counts_consistent(&grid);
        }
    }
}

#[test]
fn generate_starts_covered_and_unmarked() {
    let grid = Grid::generate(8, 8, Difficulty::Medium).unwrap();
    for cell in &grid.grid_vec {
        assert!(!cell.is_clicked);
        assert_eq!(cell.flag, None);
    }
}

#[test]
fn generate_rejects_a_single_cell() {
    assert_eq!(
        Grid::generate(1, 1, Difficulty::Easy).err(),
        Some(GridError::InvalidDimensions)
    );
    assert_eq!(
        Grid::generate(1, 1, Difficulty::Hard).err(),
        Some(GridError::InvalidDimensions)
    );
}

#[test]
fn generate_rejects_empty_and_oversized_shapes() {
    assert_eq!(
        Grid::generate(0, 5, Difficulty::Easy).err(),
        Some(GridError::InvalidDimensions)
    );
    assert_eq!(
        Grid::generate(5, 0, Difficulty::Easy).err(),
        Some(GridError::InvalidDimensions)
    );
    assert_eq!(
        Grid::generate(0, 0, Difficulty::Easy).err(),
        Some(GridError::InvalidDimensions)
    );
    assert_eq!(
        Grid::generate(usize::MAX, 2, Difficulty::Easy).err(),
        Some(GridError::InvalidDimensions)
    );
    // one cell more than the largest grid
    assert_eq!(MAX_CELLS, 0x0FFF_FFFF);
    assert_eq!(
        Grid::generate(1 << 14, 1 << 14, Difficulty::Easy).err(),
        Some(GridError::InvalidDimensions)
    );
    assert_eq!(
        Grid::generate(1, MAX_CELLS + 1, Difficulty::Hard).err(),
        Some(GridError::InvalidDimensions)
    );
}

#[test]
fn new_lays_as_many_mines_as_the_larger_dimension() {
    let grid = Grid::new(10, 10);
    assert_eq!(grid.grid_vec.len(), 100);
    assert_eq!(grid.mine_count(), 10);
    assert_counts_consistent(&grid);
    let wide = Grid::new(3, 8);
    assert_eq!(wide.mine_count(), 8);
    assert_counts_consistent(&wide);
    let tall = Grid::new(6, 2);
    assert_eq!(tall.mine_count(), 6);
}

#[test]
fn new_leaves_a_cell_free_on_a_single_row() {
    let row = Grid::new(1, 5);
    assert_eq!(row.grid_vec.len(), 5);
    assert_eq!(row.mine_count(), 4);
    let pair = Grid::new(2, 1);
    assert_eq!(pair.mine_count(), 1);
}

#[test]
fn new_on_shapes_without_room_for_a_mine() {
    let none = Grid::new(0, 0);
    assert_eq!(none.grid_vec.len(), 0);
    assert_eq!((none.n_rows, none.n_cols), (0, 0));
    let no_rows = Grid::new(0, 5);
    assert_eq!(no_rows.grid_vec.len(), 0);
    assert_eq!(no_rows.overlay_display(), "");
    let single = Grid::new(1, 1);
    assert_eq!(single.grid_vec.len(), 1);
    assert_eq!(single.mine_count(), 0);
    assert_eq!(single.grid_vec[0].data, CellData::MineNeighbor(0));
    assert!(single.is_well_formed());
}

#[test]
fn is_well_formed_recounts_the_neighbours() {
    let mut grid = Grid::with_mines(3, 3, &vec![0]).unwrap();
    assert!(grid.is_well_formed());
    grid.reveal_empty_cells(8);
    assert!(grid.is_well_formed());
    grid.grid_vec[4].data = CellData::MineNeighbor(2);
    assert!(!grid.is_well_formed());
    grid.grid_vec[4].data = CellData::MineNeighbor(1);
    grid.grid_vec[0].is_mine = false;
    assert!(!grid.is_well_formed());
    grid.grid_vec[0].is_mine = true;
    assert!(grid.is_well_formed());
    grid.n_cols = 4;
    assert!(!grid.is_well_formed());
    grid.n_cols = 3;
    grid.grid_vec[8].data = CellData::Mine;
    assert!(!grid.is_well_formed());
    assert!(Grid::generate(7, 9, Difficulty::Hard).unwrap().is_well_formed());
    assert!(Grid::new(7, 9).is_well_formed());
}

#[test]
fn sampled_mines_are_distinct_cells_of_the_grid() {
    for _ in 0..50 {
        let grid = Grid::generate(6, 6, Difficulty::Hard).unwrap();
        let mines = mines_of(&grid);
        assert_eq!(mines.len(), 12);
        for (k, &m) in mines.iter().enumerate() {
            assert!(m < 36);
            assert!(!mines[..k].contains(&m));
        }
    }
}

#[test]
fn sampling_is_not_a_fixed_layout() {
    let first = mines_of(&Grid::generate(20, 20, Difficulty::Medium).unwrap());
    let mut differs = false;
    for _ in 0..20 {
        if mines_of(&Grid::generate(20, 20, Difficulty::Medium).unwrap()) != first {
            differs = true;
        }
    }
    assert!(differs);
}

#[test]
fn with_mines_pins_the_layout() {
    let grid = Grid::with_mines(3, 3, &vec![0]).unwrap();
    let data: Vec<CellData> = grid.grid_vec.iter().map(|c| c.data).collect();
    assert_eq!(
        data,
        vec![
            CellData::Mine,
            CellData::MineNeighbor(1),
            CellData::MineNeighbor(0),
            CellData::MineNeighbor(1),
            CellData::MineNeighbor(1),
            CellData::MineNeighbor(0),
            CellData::MineNeighbor(0),
            CellData::MineNeighbor(0),
            CellData::MineNeighbor(0),
        ]
    );
    assert_eq!(
        grid.grid_vec[0],
        Cell {
            is_mine: true,
            is_clicked: false,
            flag: None,
            data: CellData::Mine
        }
    );
    assert_eq!(
        grid.grid_vec[4],
        Cell {
            is_mine: false,
            is_clicked: false,
            flag: None,
            data: CellData::MineNeighbor(1)
        }
    );
}

#[test]
fn with_mines_counts_up_to_eight() {
    let grid = Grid::with_mines(3, 3, &vec![0, 1, 2, 3, 5, 6, 7, 8]).unwrap();
    assert_eq!(grid.grid_vec[4].data, CellData::MineNeighbor(8));
    assert_eq!(grid.mine_count(), 8);
    assert_eq!(grid.safe_cells_left(), 1);
}

#[test]
fn with_mines_counts_a_repeated_index_once() {
    let grid = Grid::with_mines(2, 3, &vec![4, 4, 4]).unwrap();
    assert_eq!(grid.mine_count(), 1);
    assert_eq!(grid.grid_vec[1].data, CellData::MineNeighbor(1));
    assert_eq!(grid.grid_vec[0].data, CellData::MineNeighbor(1));
    assert_eq!(grid.grid_vec[4].data, CellData::Mine);
}

#[test]
fn with_mines_without_mines_is_all_zero() {
    let grid = Grid::with_mines(2, 2, &Vec::new()).unwrap();
    for cell in &grid.grid_vec {
        assert_eq!(cell.data, CellData::MineNeighbor(0));
    }
    let single = Grid::with_mines(1, 1, &vec![0]).unwrap();
    assert_eq!(single.grid_vec.len(), 1);
    assert_eq!(single.grid_vec[0].data, CellData::Mine);
}

#[test]
fn with_mines_does_not_count_across_the_edge() {
    // a mine at the end of the first row is no neighbour of the start of the second
    let grid = Grid::with_mines(3, 4, &vec![3]).unwrap();
    assert_eq!(grid.grid_vec[4].data, CellData::MineNeighbor(0));
    assert_eq!(grid.grid_vec[2].data, CellData::MineNeighbor(1));
    assert_eq!(grid.grid_vec[6].data, CellData::MineNeighbor(1));
    assert_eq!(grid.grid_vec[7].data, CellData::MineNeighbor(1));
    assert_eq!(grid.grid_vec[0].data, CellData::MineNeighbor(0));
}

#[test]
fn with_mines_rejects_an_index_outside() {
    assert_eq!(
        Grid::with_mines(3, 3, &vec![9]).err(),
        Some(GridError::OutOfRange)
    );
    assert_eq!(
        Grid::with_mines(3, 3, &vec![0, 100, 1]).err(),
        Some(GridError::OutOfRange)
    );
}

#[test]
fn with_mines_rejects_shapes_that_no_grid_has() {
    assert_eq!(
        Grid::with_mines(0, 3, &Vec::new()).err(),
        Some(GridError::InvalidDimensions)
    );
    assert_eq!(
        Grid::with_mines(3, 0, &vec![0]).err(),
        Some(GridError::InvalidDimensions)
    );
    assert_eq!(
        Grid::with_mines(usize::MAX, usize::MAX, &Vec::new()).err(),
        Some(GridError::InvalidDimensions)
    );
}

#[test]
fn covered_cell_agrees_with_its_content() {
    assert_eq!(
        Cell::covered(CellData::Mine),
        Cell {
            is_mine: true,
            is_clicked: false,
            flag: None,
            data: CellData::Mine
        }
    );
    assert_eq!(
        Cell::covered(CellData::MineNeighbor(3)),
        Cell {
            is_mine: false,
            is_clicked: false,
            flag: None,
            data: CellData::MineNeighbor(3)
        }
    );
}
