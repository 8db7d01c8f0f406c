use minesweeper::{Cell, CellData, Flag, Grid, GridError};

fn revealed(grid: &Grid) -> Vec<usize> {
    (0..grid.grid_vec.len())
        .filter(|&i| grid.grid_vec[i].is_clicked)
        .collect()
}

#[test]
/// * 1 0
/// 1 1 0
/// 0 0 0
/// Given the grid above, if the bottom right cell is clicked,
/// all cells except the top left one should be revealed, or clicked.
fn test_reveal_empty_cells() {
    let idx = 8;
    let mut grid = Grid {
        n_rows: 3,
        n_cols: 3,
        grid_vec: vec![
            Cell {
                is_mine: true,
                is_clicked: false,
                flag: None,
                data: CellData::Mine,
            },
            Cell {
                is_mine: false,
                is_clicked: false,
                flag: None,
                data: CellData::MineNeighbor(1),
            },
            Cell {
                is_mine: false,
                is_clicked: false,
                flag: None,
                data: CellData::MineNeighbor(0),
            },
            Cell {
                is_mine: false,
                is_clicked: false,
                flag: None,
                data: CellData::MineNeighbor(1),
            },
            Cell {
                is_mine: false,
                is_clicked: false,
                flag: None,
                data: CellData::MineNeighbor(1),
            },
            Cell {
                is_mine: false,
                is_clicked: false,
                flag: None,
                data: CellData::MineNeighbor(0),
            },
            Cell {
                is_mine: false,
                is_clicked: false,
                flag: None,
                data: CellData::MineNeighbor(0),
            },
            Cell {
                is_mine: false,
                is_clicked: false,
                flag: None,
                data: CellData::MineNeighbor(0),
            },
            Cell {
                is_mine: false,
                is_clicked: false,
                flag: None,
                data: CellData::MineNeighbor(0),
            },
        ],
    };
    grid.grid_vec[idx].is_clicked = true;
    grid.reveal_empty_cells(idx);
    println!("{}", grid.overlay_display());
}

#[test]
fn reveal_from_the_corner_uncovers_all_but_the_mine() {
    let mut grid = Grid::with_mines(3, 3, &vec![0]).unwrap();
    assert_eq!(grid.reveal_empty_cells(8), 8);
    assert_eq!(revealed(&grid), vec![1, 2, 3, 4, 5, 6, 7, 8]);
    assert!(!grid.grid_vec[0].is_clicked);
    assert_eq!(grid.overlay_display(), "? 1 0 \n1 1 0 \n0 0 0 \n");
}

#[test]
fn reveal_does_not_count_a_cell_uncovered_before() {
    let mut grid = Grid::with_mines(3, 3, &vec![0]).unwrap();
    grid.grid_vec[8].is_clicked = true;
    assert_eq!(grid.reveal_empty_cells(8), 7);
    assert_eq!(revealed(&grid), vec![1, 2, 3, 4, 5, 6, 7, 8]);
}

#[test]
fn reveal_twice_returns_zero_the_second_time() {
    let mut grid = Grid::with_mines(3, 3, &vec![0]).unwrap();
    assert_eq!(grid.reveal_empty_cells(8), 8);
    let after_first = grid.grid_vec.clone();
    assert_eq!(grid.reveal_empty_cells(8), 0);
    assert_eq!(grid.grid_vec, after_first);
    assert_eq!(grid.reveal_empty_cells(5), 0);
}

#[test]
fn reveal_of_a_numbered_cell_uncovers_it_alone() {
    let mut grid = Grid::with_mines(3, 3, &vec![0]).unwrap();
    assert_eq!(grid.reveal_empty_cells(4), 1);
    assert_eq!(revealed(&grid), vec![4]);
    assert_eq!(grid.reveal_empty_cells(4), 0);
    assert_eq!(grid.reveal_empty_cells(1), 1);
    assert_eq!(revealed(&grid), vec![1, 4]);
}

#[test]
fn reveal_stops_at_the_numbered_border() {
    // a wall of mines down column 2 of a 3 x 5 grid
    // 0 1 * 1 0
    // 0 1 * 1 0   ... with the counts 2 and 3 next to the wall
    let mut grid = Grid::with_mines(3, 5, &vec![2, 7, 12]).unwrap();
    assert_eq!(grid.grid_vec[1].data, CellData::MineNeighbor(2));
    assert_eq!(grid.grid_vec[6].data, CellData::MineNeighbor(3));
    assert_eq!(grid.grid_vec[0].data, CellData::MineNeighbor(0));
    assert_eq!(grid.reveal_empty_cells(0), 6);
    assert_eq!(revealed(&grid), vec![0, 1, 5, 6, 10, 11]);
    // the other side is untouched
    assert_eq!(grid.reveal_empty_cells(14), 6);
    assert_eq!(revealed(&grid), vec![0, 1, 3, 4, 5, 6, 8, 9, 10, 11, 13, 14]);
    assert_eq!(grid.safe_cells_left(), 0);
}

#[test]
fn reveal_passes_through_cells_uncovered_before() {
    let mut grid = Grid::with_mines(1, 5, &Vec::new()).unwrap();
    grid.grid_vec[2].is_clicked = true;
    assert_eq!(grid.reveal_empty_cells(0), 4);
    assert_eq!(revealed(&grid), vec![0, 1, 2, 3, 4]);
}

#[test]
fn reveal_on_a_grid_without_mines_uncovers_everything() {
    let mut grid = Grid::with_mines(12, 17, &Vec::new()).unwrap();
    assert_eq!(grid.reveal_empty_cells(100), 12 * 17);
    assert_eq!(revealed(&grid).len(), 12 * 17);
    assert_eq!(grid.reveal_empty_cells(0), 0);
}

#[test]
fn reveal_never_uncovers_a_mine() {
    for _ in 0..30 {
        let mut grid = Grid::new(9, 9);
        let total_safe = 81 - grid.mine_count();
        let mut left = total_safe;
        for idx in 0..81 {
            if grid.grid_vec[idx].data != CellData::Mine && !grid.grid_vec[idx].is_clicked {
                let before = grid.safe_cells_left();
                let count = grid.reveal_empty_cells(idx);
                assert!(count >= 1);
                assert!(count <= left);
                left -= count;
                assert_eq!(grid.safe_cells_left(), before - count);
                assert_eq!(grid.safe_cells_left(), left);
            }
        }
        assert_eq!(left, 0);
        for cell in &grid.grid_vec {
            assert_eq!(cell.is_clicked, cell.data != CellData::Mine);
        }
    }
}

#[test]
fn reveal_keeps_content_and_marks() {
    let mut grid = Grid::with_mines(3, 3, &vec![0]).unwrap();
    assert_eq!(grid.set_flag(5, Some(Flag::Tag)), Ok(()));
    assert_eq!(grid.set_flag(0, Some(Flag::Tag)), Ok(()));
    let before = grid.grid_vec.clone();
    grid.reveal_empty_cells(8);
    for idx in 0..9 {
        assert_eq!(grid.grid_vec[idx].data, before[idx].data);
        assert_eq!(grid.grid_vec[idx].is_mine, before[idx].is_mine);
        assert_eq!(grid.grid_vec[idx].flag, before[idx].flag);
    }
    assert_eq!(grid.grid_vec[0], before[0]);
}

#[test]
fn set_flag_marks_one_cell() {
    let mut grid = Grid::with_mines(2, 2, &vec![3]).unwrap();
    let before = grid.grid_vec.clone();
    assert_eq!(grid.set_flag(1, Some(Flag::Dig)), Ok(()));
    assert_eq!(grid.grid_vec[1].flag, Some(Flag::Dig));
    assert_eq!(grid.grid_vec[0], before[0]);
    assert_eq!(grid.grid_vec[2], before[2]);
    assert_eq!(grid.grid_vec[3], before[3]);
    assert_eq!(grid.set_flag(1, None), Ok(()));
    assert_eq!(grid.grid_vec, before);
}

#[test]
fn set_flag_rejects_a_cell_outside() {
    let mut grid = Grid::with_mines(2, 2, &vec![3]).unwrap();
    let before = grid.grid_vec.clone();
    assert_eq!(grid.set_flag(4, Some(Flag::Tag)), Err(GridError::OutOfRange));
    assert_eq!(grid.grid_vec, before);
}
