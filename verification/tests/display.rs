use minesweeper::display::decimal_string;
use minesweeper::Grid;

#[test]
fn test_overlay_display() {
    let grid = Grid::new(3, 3);
    println!("{}", grid.overlay_display());
    assert_eq!(grid.overlay_display(), "? ? ? \n? ? ? \n? ? ? \n");
}

#[test]
fn to_string_shows_what_the_cells_hold() {
    let grid = Grid::with_mines(3, 3, &vec![0]).unwrap();
    assert_eq!(grid.to_string(), "* 1 0 \n1 1 0 \n0 0 0 \n");
    let wall = Grid::with_mines(2, 3, &vec![0, 1, 2]).unwrap();
    assert_eq!(wall.to_string(), "* * * \n2 3 2 \n");
}

#[test]
fn overlay_shows_only_what_is_uncovered() {
    let mut grid = Grid::with_mines(2, 3, &vec![0, 1, 2]).unwrap();
    assert_eq!(grid.overlay_display(), "? ? ? \n? ? ? \n");
    grid.reveal_empty_cells(4);
    assert_eq!(grid.overlay_display(), "? ? ? \n? 3 ? \n");
    grid.grid_vec[1].is_clicked = true;
    assert_eq!(grid.overlay_display(), "? * ? \n? 3 ? \n");
}

#[test]
fn display_has_one_line_per_row() {
    let grid = Grid::with_mines(4, 2, &Vec::new()).unwrap();
    assert_eq!(grid.to_string(), "0 0 \n0 0 \n0 0 \n0 0 \n");
    assert_eq!(grid.overlay_display().lines().count(), 4);
}

#[test]
fn decimal_string_writes_digits() {
    assert_eq!(decimal_string(0), "0");
    assert_eq!(decimal_string(8), "8");
    assert_eq!(decimal_string(10), "10");
    assert_eq!(decimal_string(407), "407");
    assert_eq!(decimal_string(usize::MAX), usize::MAX.to_string());
}
