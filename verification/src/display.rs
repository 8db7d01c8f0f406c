//! The grid as text: one line per row, every cell followed by a space.

use vstd::prelude::*;
use vstd::string::*;
use crate::cell::{Cell, CellData};
use crate::coords::lemma_index_coords;
use crate::grid::Grid;

verus! {

/// The character of a decimal digit.
pub open spec fn digit_char(d: int) -> char {
    if d == 0 {
        '0'
    } else if d == 1 {
        '1'
    } else if d == 2 {
        '2'
    } else if d == 3 {
        '3'
    } else if d == 4 {
        '4'
    } else if d == 5 {
        '5'
    } else if d == 6 {
        '6'
    } else if d == 7 {
        '7'
    } else if d == 8 {
        '8'
    } else {
        '9'
    }
}

/// A number in decimal digits, without leading zeros.
pub open spec fn decimal(n: nat) -> Seq<char>
    decreases n,
{
    if n < 10 {
        seq![digit_char(n as int)]
    } else {
        decimal(n / 10).push(digit_char((n % 10) as int))
    }
}

/// What stands for a cell: `?` for one that the player sees covered, `*` for
/// a mine, and for another cell the number of mines around it. With
/// `overlay` unset every cell shows what it holds.
pub open spec fn cell_text(cell: Cell, overlay: bool) -> Seq<char> {
    if overlay && !cell.is_clicked {
        seq!['?']
    } else {
        match cell.data {
            CellData::Mine => seq!['*'],
            CellData::MineNeighbor(count) => decimal(count as nat),
        }
    }
}

/// The cells of one row as text, each followed by a space.
pub open spec fn cells_text(cells: Seq<Cell>, overlay: bool) -> Seq<char>
    decreases cells.len(),
{
    if cells.len() == 0 {
        Seq::<char>::empty()
    } else {
        cells_text(cells.drop_last(), overlay) + cell_text(cells.last(), overlay) + seq![' ']
    }
}

/// The first `rows` rows as text, each ended by a line feed.
pub open spec fn rows_text(cells: Seq<Cell>, n_cols: int, rows: nat, overlay: bool) -> Seq<char>
    decreases rows,
{
    if rows == 0 {
        Seq::<char>::empty()
    } else {
        rows_text(cells, n_cols, (rows - 1) as nat, overlay) + cells_text(
            cells.subrange((rows - 1) * n_cols, rows * n_cols),
            overlay,
        ) + seq!['\n']
    }
}

/// The text of one decimal digit.
fn digit_str(d: usize) -> (s: &'static str)
    requires
        d < 10,
    ensures
        s@ == seq![digit_char(d as int)],
{
    proof {
        reveal_strlit("0");
        reveal_strlit("1");
        reveal_strlit("2");
        reveal_strlit("3");
        reveal_strlit("4");
        reveal_strlit("5");
        reveal_strlit("6");
        reveal_strlit("7");
        reveal_strlit("8");
        reveal_strlit("9");
    }
    let s = if d == 0 {
        "0"
    } else if d == 1 {
        "1"
    } else if d == 2 {
        "2"
    } else if d == 3 {
        "3"
    } else if d == 4 {
        "4"
    } else if d == 5 {
        "5"
    } else if d == 6 {
        "6"
    } else if d == 7 {
        "7"
    } else if d == 8 {
        "8"
    } else {
        "9"
    };
    assert(s@ =~= seq![digit_char(d as int)]);
    s
}

/// Writes a number in decimal digits.
pub fn decimal_string(n: usize) -> (s: String)
    ensures
        s@ == decimal(n as nat),
    decreases n,
{
    if n < 10 {
        String::from_str(digit_str(n))
    } else {
        let mut s = decimal_string(n / 10);
        s.append(digit_str(n % 10));
        assert(s@ =~= decimal(n as nat));
        s
    }
}

impl Grid {
    /// The grid as text. With `overlay` set it is what the player sees,
    /// else what the cells hold.
    pub open spec fn text(&self, overlay: bool) -> Seq<char> {
        rows_text(self.grid_vec@, self.n_cols as int, self.n_rows as nat, overlay)
    }

    /// Writes the grid row by row.
    fn render(&self, overlay: bool) -> (grid_string: String)
        requires
            self.well_shaped(),
        ensures
            grid_string@ == self.text(overlay),
    {
        let mut grid_string = String::new();
        let ghost cells = self.grid_vec@;
        let ghost n_cols = self.n_cols as int;
        let size: usize = self.grid_vec.len();
        proof {
            reveal_strlit("?");
            reveal_strlit("*");
            reveal_strlit(" ");
            reveal_strlit("\n");
        }
        let mut i: usize = 0;
        while i < self.n_rows
            invariant
                self.well_shaped(),
                cells == self.grid_vec@,
                n_cols == self.n_cols as int,
                size == self.size(),
                i <= self.n_rows,
                "?"@ == seq!['?'],
                "*"@ == seq!['*'],
                " "@ == seq![' '],
                "\n"@ == seq!['\n'],
                grid_string@ == rows_text(cells, n_cols, i as nat, overlay),
            decreases self.n_rows - i,
        {
            let ghost above = grid_string@;
            let ghost row_start = i * n_cols;
            proof {
                assert((i + 1) * n_cols == i * n_cols + n_cols) by (nonlinear_arith);
                assert(0 <= i * n_cols && (i + 1) * n_cols <= self.n_rows * n_cols)
                    by (nonlinear_arith)
                    requires
                        0 <= i < self.n_rows,
                        0 <= n_cols,
                ;
                assert(cells.subrange(row_start, row_start) =~= Seq::<Cell>::empty());
            }
            let mut j: usize = 0;
            while j < self.n_cols
                invariant
                    self.well_shaped(),
                    cells == self.grid_vec@,
                    n_cols == self.n_cols as int,
                    size == self.size(),
                    i < self.n_rows,
                    j <= self.n_cols,
                    row_start == i * n_cols,
                    0 <= row_start,
                    row_start + n_cols <= size,
                    "?"@ == seq!['?'],
                    "*"@ == seq!['*'],
                    " "@ == seq![' '],
                    grid_string@ == above + cells_text(
                        cells.subrange(row_start, row_start + j),
                        overlay,
                    ),
                decreases self.n_cols - j,
            {
                proof {
                    lemma_index_coords(i as int, j as int, self.n_rows as int, n_cols);
                }
                match Self::xy_to_idx((i, j), self.n_rows, self.n_cols) {
                    Some(idx) => {
                        let cell: Cell = self.grid_vec[idx];
                        let ghost so_far = grid_string@;
                        if overlay && !cell.is_clicked {
                            grid_string.append("?");
                        } else {
                            match cell.data {
                                CellData::Mine => grid_string.append("*"),
                                CellData::MineNeighbor(count) => {
                                    let digits = decimal_string(count);
                                    grid_string.append(digits.as_str());
                                },
                            }
                        }
                        grid_string.append(" ");
                        proof {
                            let longer = cells.subrange(row_start, row_start + j + 1);
                            assert(longer.drop_last() =~= cells.subrange(
                                row_start,
                                row_start + j,
                            ));
                            assert(longer.last() == cell);
                            assert(grid_string@ =~= above + cells_text(longer, overlay));
                        }
                    },
                    None => {
                        proof {
                            assert(false);
                        }
                    },
                }
                j += 1;
            }
            grid_string.append("\n");
            proof {
                assert(grid_string@ =~= rows_text(cells, n_cols, (i + 1) as nat, overlay));
            }
            i += 1;
        }
        grid_string
    }

    /// What the player sees, as text: one line per row, each cell followed
    /// by a space; `?` for a covered cell, `*` for an uncovered mine, and
    /// for another uncovered cell the number of mines around it.
    pub fn overlay_display(&self) -> (grid_string: String)
        requires
            self.well_shaped(),
        ensures
            grid_string@ == self.text(true),
    {
        self.render(true)
    }

    /// What the cells hold, as text: one line per row, each cell followed by
    /// a space; `*` for a mine, and for another cell the number of mines
    /// around it.
    pub fn to_string(&self) -> (grid_string: String)
        requires
            self.well_shaped(),
        ensures
            grid_string@ == self.text(false),
    {
        self.render(false)
    }
}

} // verus!
