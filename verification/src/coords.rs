//! Row-major coordinates on a rectangular grid, and the eight-neighbourhood
//! of a cell.

use vstd::prelude::*;
use vstd::arithmetic::div_mod::{
    lemma_div_pos_is_pos,
    lemma_fundamental_div_mod,
    lemma_fundamental_div_mod_converse,
    lemma_mod_pos_bound,
};
use crate::error::GridError;
use crate::grid::Grid;

verus! {

/// `idx` is the index of a cell of the grid.
pub open spec fn in_grid(idx: int, n_rows: int, n_cols: int) -> bool {
    0 <= idx < n_rows * n_cols
}

/// `(row, col)` are the coordinates of a cell of the grid.
pub open spec fn xy_in_grid(row: int, col: int, n_rows: int, n_cols: int) -> bool {
    0 <= row < n_rows && 0 <= col < n_cols
}

/// The row of a cell index in a grid with `n_cols` columns.
pub open spec fn row_of(idx: int, n_cols: int) -> int {
    idx / n_cols
}

/// The column of a cell index in a grid with `n_cols` columns.
pub open spec fn col_of(idx: int, n_cols: int) -> int {
    idx % n_cols
}

/// The index of the cell at `(row, col)` in a grid with `n_cols` columns.
pub open spec fn index_of(row: int, col: int, n_cols: int) -> int {
    row * n_cols + col
}

/// Two different cells of the grid that touch, by a side or by a corner.
/// Rows and columns do not wrap around.
pub open spec fn adjacent(a: int, b: int, n_rows: int, n_cols: int) -> bool {
    &&& in_grid(a, n_rows, n_cols)
    &&& in_grid(b, n_rows, n_cols)
    &&& a != b
    &&& -1 <= row_of(b, n_cols) - row_of(a, n_cols) <= 1
    &&& -1 <= col_of(b, n_cols) - col_of(a, n_cols) <= 1
}

/// The cells that touch cell `idx`.
pub open spec fn neighbor_set(idx: int, n_rows: int, n_cols: int) -> Set<int> {
    Set::new(|j: int| adjacent(idx, j, n_rows, n_cols))
}

/// The cell `dr` rows and `dc` columns away from cell `idx` lies in the grid.
pub open spec fn offset_in_grid(idx: int, dr: int, dc: int, n_rows: int, n_cols: int) -> bool {
    &&& in_grid(idx, n_rows, n_cols)
    &&& xy_in_grid(row_of(idx, n_cols) + dr, col_of(idx, n_cols) + dc, n_rows, n_cols)
}

/// The index of the cell `dr` rows and `dc` columns away from cell `idx`.
pub open spec fn shifted(idx: int, dr: int, dc: int, n_cols: int) -> int {
    index_of(row_of(idx, n_cols) + dr, col_of(idx, n_cols) + dc, n_cols)
}

/// `acc`, followed by the cell at offset `(dr, dc)` from `idx` where the grid has one.
pub open spec fn with_offset(
    acc: Seq<int>,
    idx: int,
    dr: int,
    dc: int,
    n_rows: int,
    n_cols: int,
) -> Seq<int> {
    if offset_in_grid(idx, dr, dc, n_rows, n_cols) {
        acc.push(shifted(idx, dr, dc, n_cols))
    } else {
        acc
    }
}

/// The neighbours of cell `idx` in the order in which they are listed:
/// below, right, above, left, then the four diagonals.
pub open spec fn neighbor_seq(idx: int, n_rows: int, n_cols: int) -> Seq<int> {
    let s = Seq::<int>::empty();
    let s = with_offset(s, idx, 1, 0, n_rows, n_cols);
    let s = with_offset(s, idx, 0, 1, n_rows, n_cols);
    let s = with_offset(s, idx, -1, 0, n_rows, n_cols);
    let s = with_offset(s, idx, 0, -1, n_rows, n_cols);
    let s = with_offset(s, idx, 1, 1, n_rows, n_cols);
    let s = with_offset(s, idx, -1, -1, n_rows, n_cols);
    let s = with_offset(s, idx, 1, -1, n_rows, n_cols);
    with_offset(s, idx, -1, 1, n_rows, n_cols)
}

/// How many of the positions `x - 1`, `x`, `x + 1` lie in `0..n`, for `x` in `0..n`.
pub open spec fn span(x: int, n: int) -> int {
    1 + (if x > 0 { 1int } else { 0int }) + (if x < n - 1 { 1int } else { 0int })
}

/// A sequence of indices as mathematical integers.
pub open spec fn as_ints(s: Seq<usize>) -> Seq<int> {
    s.map_values(|x: usize| x as int)
}

/// A cell index splits into a row and a column inside the grid, and they give the index back.
pub proof fn lemma_cell_coords(idx: int, n_rows: int, n_cols: int)
    requires
        0 <= idx,
        0 <= n_rows,
        0 < n_cols,
    ensures
        0 <= row_of(idx, n_cols),
        0 <= col_of(idx, n_cols) < n_cols,
        index_of(row_of(idx, n_cols), col_of(idx, n_cols), n_cols) == idx,
        in_grid(idx, n_rows, n_cols) <==> row_of(idx, n_cols) < n_rows,
{
    let q = idx / n_cols;
    let r = idx % n_cols;
    lemma_fundamental_div_mod(idx, n_cols);
    lemma_mod_pos_bound(idx, n_cols);
    lemma_div_pos_is_pos(idx, n_cols);
    assert(n_cols * q == q * n_cols) by (nonlinear_arith);
    if q < n_rows {
        assert((q + 1) * n_cols <= n_rows * n_cols) by (nonlinear_arith)
            requires
                q + 1 <= n_rows,
                0 < n_cols,
        ;
        assert((q + 1) * n_cols == q * n_cols + n_cols) by (nonlinear_arith);
    } else {
        assert(n_rows * n_cols <= q * n_cols) by (nonlinear_arith)
            requires
                n_rows <= q,
                0 < n_cols,
        ;
    }
}

/// Coordinates to index and back is the identity on the coordinates of the
/// grid: they give the index of a cell, and it splits into the same coordinates.
pub proof fn lemma_index_coords(row: int, col: int, n_rows: int, n_cols: int)
    requires
        xy_in_grid(row, col, n_rows, n_cols),
    ensures
        in_grid(index_of(row, col, n_cols), n_rows, n_cols),
        row_of(index_of(row, col, n_cols), n_cols) == row,
        col_of(index_of(row, col, n_cols), n_cols) == col,
{
    let idx = index_of(row, col, n_cols);
    lemma_fundamental_div_mod_converse(idx, n_cols, row, col);
    assert(0 <= row * n_cols) by (nonlinear_arith)
        requires
            0 <= row,
            0 < n_cols,
    ;
    lemma_cell_coords(idx, n_rows, n_cols);
}

/// Index to coordinates and back is the identity on the cells of the grid.
pub proof fn lemma_idx_xy_idx(idx: int, n_rows: int, n_cols: int)
    requires
        in_grid(idx, n_rows, n_cols),
        0 <= n_rows,
        0 <= n_cols,
    ensures
        xy_in_grid(row_of(idx, n_cols), col_of(idx, n_cols), n_rows, n_cols),
        index_of(row_of(idx, n_cols), col_of(idx, n_cols), n_cols) == idx,
{
    lemma_positive_dims(idx, n_rows, n_cols);
    lemma_cell_coords(idx, n_rows, n_cols);
}

/// A grid that has a cell has at least one row and one column.
pub proof fn lemma_positive_dims(idx: int, n_rows: int, n_cols: int)
    requires
        in_grid(idx, n_rows, n_cols),
        0 <= n_rows,
        0 <= n_cols,
    ensures
        0 < n_rows,
        0 < n_cols,
{
    assert(n_rows == 0 || n_cols == 0 ==> n_rows * n_cols == 0) by (nonlinear_arith);
}

/// Where the offset stays inside the grid, the shifted cell is a cell of the
/// grid at the shifted coordinates, `dr` rows and `dc` cells further in
/// row-major order.
pub proof fn lemma_shifted(idx: int, dr: int, dc: int, n_rows: int, n_cols: int)
    requires
        offset_in_grid(idx, dr, dc, n_rows, n_cols),
        0 <= n_rows,
        0 <= n_cols,
    ensures
        in_grid(shifted(idx, dr, dc, n_cols), n_rows, n_cols),
        row_of(shifted(idx, dr, dc, n_cols), n_cols) == row_of(idx, n_cols) + dr,
        col_of(shifted(idx, dr, dc, n_cols), n_cols) == col_of(idx, n_cols) + dc,
        shifted(idx, dr, dc, n_cols) == idx + dr * n_cols + dc,
{
    lemma_positive_dims(idx, n_rows, n_cols);
    lemma_cell_coords(idx, n_rows, n_cols);
    let row = row_of(idx, n_cols);
    let col = col_of(idx, n_cols);
    lemma_index_coords(row + dr, col + dc, n_rows, n_cols);
    assert((row + dr) * n_cols == row * n_cols + dr * n_cols) by (nonlinear_arith);
}

/// What a list holds after one more offset was tried: what it held before,
/// and the shifted cell where the grid has it.
pub proof fn lemma_with_offset(
    acc: Seq<int>,
    idx: int,
    dr: int,
    dc: int,
    n_rows: int,
    n_cols: int,
)
    ensures
        forall|j: int|
            #[trigger] with_offset(acc, idx, dr, dc, n_rows, n_cols).contains(j) <==> acc.contains(
                j,
            ) || (offset_in_grid(idx, dr, dc, n_rows, n_cols) && j == shifted(idx, dr, dc, n_cols)),
        with_offset(acc, idx, dr, dc, n_rows, n_cols).len() == acc.len() + (if offset_in_grid(
            idx,
            dr,
            dc,
            n_rows,
            n_cols,
        ) {
            1int
        } else {
            0int
        }),
        acc.no_duplicates() && !(offset_in_grid(idx, dr, dc, n_rows, n_cols) && acc.contains(
            shifted(idx, dr, dc, n_cols),
        )) ==> with_offset(acc, idx, dr, dc, n_rows, n_cols).no_duplicates(),
{
    let out = with_offset(acc, idx, dr, dc, n_rows, n_cols);
    if offset_in_grid(idx, dr, dc, n_rows, n_cols) {
        let x = shifted(idx, dr, dc, n_cols);
        assert forall|j: int| out.contains(j) <==> acc.contains(j) || j == x by {
            if acc.contains(j) {
                let k = choose|k: int| 0 <= k < acc.len() && acc[k] == j;
                assert(out[k] == j);
            }
            if j == x {
                assert(out[acc.len() as int] == j);
            }
            if out.contains(j) {
                let k = choose|k: int| 0 <= k < out.len() && out[k] == j;
                if k < acc.len() {
                    assert(acc[k] == j);
                }
            }
        }
    }
}

/// The listed neighbours of a cell are exactly the cells that touch it, each
/// listed once; their number is the cell's block of up to three rows by
/// three columns, less the cell itself.
pub proof fn lemma_neighbor_seq(idx: int, n_rows: int, n_cols: int)
    requires
        0 <= n_rows,
        0 <= n_cols,
    ensures
        neighbor_seq(idx, n_rows, n_cols).no_duplicates(),
        forall|j: int|
            #[trigger] neighbor_seq(idx, n_rows, n_cols).contains(j) <==> adjacent(
                idx,
                j,
                n_rows,
                n_cols,
            ),
        neighbor_seq(idx, n_rows, n_cols).to_set() == neighbor_set(idx, n_rows, n_cols),
        in_grid(idx, n_rows, n_cols) ==> neighbor_seq(idx, n_rows, n_cols).len() == span(
            row_of(idx, n_cols),
            n_rows,
        ) * span(col_of(idx, n_cols), n_cols) - 1,
        neighbor_seq(idx, n_rows, n_cols).len() <= 8,
{
    let s0 = Seq::<int>::empty();
    let s1 = with_offset(s0, idx, 1, 0, n_rows, n_cols);
    let s2 = with_offset(s1, idx, 0, 1, n_rows, n_cols);
    let s3 = with_offset(s2, idx, -1, 0, n_rows, n_cols);
    let s4 = with_offset(s3, idx, 0, -1, n_rows, n_cols);
    let s5 = with_offset(s4, idx, 1, 1, n_rows, n_cols);
    let s6 = with_offset(s5, idx, -1, -1, n_rows, n_cols);
    let s7 = with_offset(s6, idx, 1, -1, n_rows, n_cols);
    let s8 = with_offset(s7, idx, -1, 1, n_rows, n_cols);
    assert(s8 == neighbor_seq(idx, n_rows, n_cols));
    lemma_with_offset(s0, idx, 1, 0, n_rows, n_cols);
    lemma_with_offset(s1, idx, 0, 1, n_rows, n_cols);
    lemma_with_offset(s2, idx, -1, 0, n_rows, n_cols);
    lemma_with_offset(s3, idx, 0, -1, n_rows, n_cols);
    lemma_with_offset(s4, idx, 1, 1, n_rows, n_cols);
    lemma_with_offset(s5, idx, -1, -1, n_rows, n_cols);
    lemma_with_offset(s6, idx, 1, -1, n_rows, n_cols);
    lemma_with_offset(s7, idx, -1, 1, n_rows, n_cols);
    if in_grid(idx, n_rows, n_cols) {
        lemma_positive_dims(idx, n_rows, n_cols);
        lemma_cell_coords(idx, n_rows, n_cols);
        let row = row_of(idx, n_cols);
        let col = col_of(idx, n_cols);
        assert forall|dr: int, dc: int| #[trigger]
            offset_in_grid(idx, dr, dc, n_rows, n_cols) implies in_grid(
            shifted(idx, dr, dc, n_cols),
            n_rows,
            n_cols,
        ) && row_of(shifted(idx, dr, dc, n_cols), n_cols) == row + dr && col_of(
            shifted(idx, dr, dc, n_cols),
            n_cols,
        ) == col + dc by {
            lemma_shifted(idx, dr, dc, n_rows, n_cols);
        }
        assert(s8.no_duplicates());
        assert forall|j: int| s8.contains(j) <==> adjacent(idx, j, n_rows, n_cols) by {
            if adjacent(idx, j, n_rows, n_cols) {
                lemma_cell_coords(j, n_rows, n_cols);
                let dr = row_of(j, n_cols) - row;
                let dc = col_of(j, n_cols) - col;
                assert(offset_in_grid(idx, dr, dc, n_rows, n_cols));
                assert(j == shifted(idx, dr, dc, n_cols));
                assert(!(dr == 0 && dc == 0));
            }
        }
        let a = span(row, n_rows);
        let b = span(col, n_cols);
        assert(s8.len() == a * b - 1) by {
            assert(1 <= a <= 3 && 1 <= b <= 3);
            assert(a * b == if a == 1 {
                b
            } else if a == 2 {
                b + b
            } else {
                b + b + b
            }) by (nonlinear_arith)
                requires
                    1 <= a <= 3,
            ;
        }
    } else {
        assert(s8 =~= s0);
    }
    assert(neighbor_seq(idx, n_rows, n_cols).to_set() =~= neighbor_set(idx, n_rows, n_cols));
}

/// A corner cell has three neighbours, another cell on an edge five, and a
/// cell inside eight, on a grid of at least two rows and two columns. Every
/// neighbour is a cell of the grid, at most one row and one column away.
pub proof fn lemma_neighbor_count(idx: int, n_rows: int, n_cols: int)
    requires
        in_grid(idx, n_rows, n_cols),
        2 <= n_rows,
        2 <= n_cols,
    ensures
        ({
            let row = row_of(idx, n_cols);
            let col = col_of(idx, n_cols);
            let on_row_edge = row == 0 || row == n_rows - 1;
            let on_col_edge = col == 0 || col == n_cols - 1;
            neighbor_seq(idx, n_rows, n_cols).len() == if on_row_edge && on_col_edge {
                3int
            } else if on_row_edge || on_col_edge {
                5int
            } else {
                8int
            }
        }),
        neighbor_set(idx, n_rows, n_cols).len() == neighbor_seq(idx, n_rows, n_cols).len(),
        forall|j: int| #[trigger]
            neighbor_set(idx, n_rows, n_cols).contains(j) ==> in_grid(j, n_rows, n_cols) && j != idx
                && -1 <= row_of(j, n_cols) - row_of(idx, n_cols) <= 1 && -1 <= col_of(j, n_cols)
                - col_of(idx, n_cols) <= 1,
{
    lemma_neighbor_seq(idx, n_rows, n_cols);
    lemma_cell_coords(idx, n_rows, n_cols);
    neighbor_seq(idx, n_rows, n_cols).unique_seq_to_set();
    let a = span(row_of(idx, n_cols), n_rows);
    let b = span(col_of(idx, n_cols), n_cols);
    assert(a * b == if a == 2 {
        b + b
    } else {
        b + b + b
    }) by (nonlinear_arith)
        requires
            2 <= a <= 3,
    ;
}

impl Grid {
    /// Converts a cell index to `(row, column)`; `None` where the grid has
    /// no such cell.
    pub fn idx_to_xy(idx: usize, n_rows: usize, n_cols: usize) -> (xy: Option<(usize, usize)>)
        ensures
            xy.is_some() <==> in_grid(idx as int, n_rows as int, n_cols as int),
            xy matches Some((row, col)) ==> row == row_of(idx as int, n_cols as int) && col
                == col_of(idx as int, n_cols as int),
    {
        if n_cols == 0 {
            assert(n_rows * n_cols == 0);
            return None;
        }
        proof {
            lemma_cell_coords(idx as int, n_rows as int, n_cols as int);
        }
        let row: usize = idx / n_cols;
        if row < n_rows {
            Some((row, idx % n_cols))
        } else {
            None
        }
    }

    /// Converts `(row, column)` to a cell index; `None` where the grid has
    /// no such cell, or where its index is more than a `usize` holds.
    pub fn xy_to_idx(xy: (usize, usize), n_rows: usize, n_cols: usize) -> (idx: Option<usize>)
        ensures
            idx.is_some() <==> xy_in_grid(xy.0 as int, xy.1 as int, n_rows as int, n_cols as int)
                && index_of(xy.0 as int, xy.1 as int, n_cols as int) <= usize::MAX,
            idx matches Some(i) ==> i == index_of(xy.0 as int, xy.1 as int, n_cols as int),
    {
        if xy.0 < n_rows && xy.1 < n_cols {
            assert(0 <= xy.0 * n_cols) by (nonlinear_arith);
            match xy.0.checked_mul(n_cols) {
                Some(base) => base.checked_add(xy.1),
                None => None,
            }
        } else {
            None
        }
    }

    /// The `(row, column)` of the cell with index `idx` in this grid. Fails
    /// with `OutOfRange` where the grid has no such cell.
    pub fn coords_of(&self, idx: usize) -> (xy: Result<(usize, usize), GridError>)
        ensures
            xy is Ok <==> in_grid(idx as int, self.n_rows as int, self.n_cols as int),
            xy matches Ok((row, col)) ==> row == row_of(idx as int, self.n_cols as int) && col
                == col_of(idx as int, self.n_cols as int),
            xy matches Err(e) ==> e == GridError::OutOfRange,
    {
        match Self::idx_to_xy(idx, self.n_rows, self.n_cols) {
            Some(xy) => Ok(xy),
            None => Err(GridError::OutOfRange),
        }
    }

    /// The index of the cell at `(row, col)` in this grid. Fails with
    /// `OutOfRange` where the grid has no such cell, or where its index is
    /// more than a `usize` holds.
    pub fn index_at(&self, row: usize, col: usize) -> (idx: Result<usize, GridError>)
        ensures
            idx is Ok <==> xy_in_grid(row as int, col as int, self.n_rows as int, self.n_cols as int)
                && index_of(row as int, col as int, self.n_cols as int) <= usize::MAX,
            idx matches Ok(i) ==> i == index_of(row as int, col as int, self.n_cols as int),
            idx matches Err(e) ==> e == GridError::OutOfRange,
    {
        match Self::xy_to_idx((row, col), self.n_rows, self.n_cols) {
            Some(idx) => Ok(idx),
            None => Err(GridError::OutOfRange),
        }
    }

    /// Appends to `out` the neighbour of `idx` at offset `(dr, dc)`, where
    /// the grid has one.
    fn push_neighbor(
        out: &mut Vec<usize>,
        idx: usize,
        xy: (usize, usize),
        dr: i8,
        dc: i8,
        n_rows: usize,
        n_cols: usize,
    )
        requires
            in_grid(idx as int, n_rows as int, n_cols as int),
            n_rows * n_cols <= usize::MAX,
            xy.0 == row_of(idx as int, n_cols as int),
            xy.1 == col_of(idx as int, n_cols as int),
            -1 <= dr <= 1,
            -1 <= dc <= 1,
        ensures
            as_ints(final(out)@) == with_offset(
                as_ints(old(out)@),
                idx as int,
                dr as int,
                dc as int,
                n_rows as int,
                n_cols as int,
            ),
    {
        proof {
            lemma_positive_dims(idx as int, n_rows as int, n_cols as int);
            lemma_cell_coords(idx as int, n_rows as int, n_cols as int);
        }
        // an offset that leaves the grid gives no neighbour
        if (xy.0 == 0 && dr == -1) || (xy.0 == n_rows - 1 && dr == 1) || (xy.1 == 0 && dc == -1)
            || (xy.1 == n_cols - 1 && dc == 1) {
            assert(as_ints(out@) =~= as_ints(old(out)@));
            return ;
        }
        proof {
            lemma_shifted(idx as int, dr as int, dc as int, n_rows as int, n_cols as int);
        }
        let row: usize = if dr == 1 {
            xy.0 + 1
        } else if dr == -1 {
            xy.0 - 1
        } else {
            xy.0
        };
        let col: usize = if dc == 1 {
            xy.1 + 1
        } else if dc == -1 {
            xy.1 - 1
        } else {
            xy.1
        };
        match Self::xy_to_idx((row, col), n_rows, n_cols) {
            Some(neighbor) => {
                out.push(neighbor);
                assert(as_ints(out@) =~= as_ints(old(out)@).push(neighbor as int));
            },
            None => {
                assert(false);
            },
        }
    }

    /// Returns the indices of all neighbours of a cell in a grid: the cells
    /// that touch it by a side or a corner, each once, none across an edge.
    /// A cell outside the grid has none.
    pub fn valid_neighbor_indices(idx: usize, n_rows: usize, n_cols: usize) -> (neighbors: Vec<
        usize,
    >)
        requires
            n_rows * n_cols <= usize::MAX,
        ensures
            as_ints(neighbors@) == neighbor_seq(idx as int, n_rows as int, n_cols as int),
            as_ints(neighbors@).to_set() == neighbor_set(idx as int, n_rows as int, n_cols as int),
            as_ints(neighbors@).no_duplicates(),
            neighbors@.len() <= 8,
    {
        let mut neighbors: Vec<usize> = Vec::new();
        proof {
            lemma_neighbor_seq(idx as int, n_rows as int, n_cols as int);
        }
        match Self::idx_to_xy(idx, n_rows, n_cols) {
            Some(xy) => {
                assert(as_ints(neighbors@) =~= Seq::<int>::empty());
                Self::push_neighbor(&mut neighbors, idx, xy, 1, 0, n_rows, n_cols);
                Self::push_neighbor(&mut neighbors, idx, xy, 0, 1, n_rows, n_cols);
                Self::push_neighbor(&mut neighbors, idx, xy, -1, 0, n_rows, n_cols);
                Self::push_neighbor(&mut neighbors, idx, xy, 0, -1, n_rows, n_cols);
                Self::push_neighbor(&mut neighbors, idx, xy, 1, 1, n_rows, n_cols);
                Self::push_neighbor(&mut neighbors, idx, xy, -1, -1, n_rows, n_cols);
                Self::push_neighbor(&mut neighbors, idx, xy, 1, -1, n_rows, n_cols);
                Self::push_neighbor(&mut neighbors, idx, xy, -1, 1, n_rows, n_cols);
            },
            None => {
                assert(as_ints(neighbors@) =~= neighbor_seq(
                    idx as int,
                    n_rows as int,
                    n_cols as int,
                ));
            },
        }
        neighbors
    }
}

} // verus!
