//! The grid generator: where the mines lie decides every cell, and how many
//! mines there are follows from the shape and the difficulty.

use vstd::prelude::*;
use vstd::seq_lib::seq_to_set_is_finite;
use crate::cell::{Cell, CellData};
use crate::coords::{as_ints, lemma_neighbor_seq, neighbor_set};
use crate::counting::{count_marked, lemma_filter_count, marked_pred, unmarked};
use crate::error::GridError;
use crate::grid::{Board, Grid};
use crate::sample::{choose_indices, MAX_SAMPLE};

verus! {

/// How densely the mines are laid.
#[derive(Clone, Copy, Debug, PartialEq, Eq, Structural)]
pub enum Difficulty {
    /// One cell in ten holds a mine.
    Easy,
    /// One cell in five holds a mine.
    Medium,
    /// One cell in three holds a mine.
    Hard,
}

impl Difficulty {
    /// The number of cells per mine.
    pub open spec fn spec_ratio(self) -> int {
        match self {
            Difficulty::Easy => 10,
            Difficulty::Medium => 5,
            Difficulty::Hard => 3,
        }
    }

    /// The difficulty that follows this one when the player steps through them.
    pub open spec fn spec_next(self) -> Difficulty {
        match self {
            Difficulty::Easy => Difficulty::Medium,
            Difficulty::Medium => Difficulty::Hard,
            Difficulty::Hard => Difficulty::Easy,
        }
    }

    /// The number of cells per mine.
    pub fn ratio(self) -> (cells_per_mine: usize)
        ensures
            cells_per_mine == self.spec_ratio(),
    {
        match self {
            Difficulty::Easy => 10,
            Difficulty::Medium => 5,
            Difficulty::Hard => 3,
        }
    }

    /// The difficulty that follows this one; after the hardest comes the easiest.
    pub fn next(self) -> (following: Difficulty)
        ensures
            following == self.spec_next(),
    {
        match self {
            Difficulty::Easy => Difficulty::Medium,
            Difficulty::Medium => Difficulty::Hard,
            Difficulty::Hard => Difficulty::Easy,
        }
    }
}

/// A shape a grid can have: at least one row and one column, and no more
/// cells than a `usize` counts.
pub open spec fn fits(n_rows: int, n_cols: int) -> bool {
    1 <= n_rows && 1 <= n_cols && n_rows * n_cols <= usize::MAX
}

/// The largest number of cells of a generated grid: as many as mines can be
/// drawn for at once.
pub const MAX_CELLS: usize = MAX_SAMPLE;

/// A shape a generated grid can have: at least one row and one column, room
/// for a mine and for a cell without one, and no more than `MAX_CELLS` cells.
pub open spec fn valid_dimensions(n_rows: int, n_cols: int) -> bool {
    1 <= n_rows && 1 <= n_cols && 2 <= n_rows * n_cols <= MAX_CELLS
}

/// `wanted` mines, but at least one, and at least one cell of `total` left free.
pub open spec fn clamped_mines(wanted: int, total: int) -> int {
    if wanted < 1 {
        1
    } else if wanted > total - 1 {
        total - 1
    } else {
        wanted
    }
}

/// The number of mines in a generated grid: one per `ratio` cells, rounded
/// down, but at least one, and at least one cell left free.
pub open spec fn mine_count_for(n_rows: int, n_cols: int, difficulty: Difficulty) -> int {
    clamped_mines((n_rows * n_cols) / difficulty.spec_ratio(), n_rows * n_cols)
}

/// The number of mines where there are as many as the larger dimension, but
/// at least one cell left free; none on a grid of less than two cells.
pub open spec fn largest_dimension_mines(n_rows: int, n_cols: int) -> int {
    if n_rows * n_cols < 2 {
        0
    } else {
        clamped_mines(if n_rows >= n_cols { n_rows } else { n_cols }, n_rows * n_cols)
    }
}

/// The test for a member of `mines`.
pub open spec fn member_pred(mines: Set<int>) -> spec_fn(int) -> bool {
    |j: int| mines.contains(j)
}

/// The covered cell at index `i` of a grid whose mines are `mines`.
pub open spec fn layout_cell(mines: Set<int>, i: int, n_rows: int, n_cols: int) -> Cell {
    if mines.contains(i) {
        Cell { is_mine: true, is_clicked: false, flag: None, data: CellData::Mine }
    } else {
        Cell {
            is_mine: false,
            is_clicked: false,
            flag: None,
            data: CellData::MineNeighbor(
                neighbor_set(i, n_rows, n_cols).filter(member_pred(mines)).len() as usize,
            ),
        }
    }
}

/// The cells of a grid whose mines are `mines`, all covered and unmarked.
pub open spec fn layout(mines: Set<int>, n_rows: int, n_cols: int) -> Seq<Cell> {
    Seq::new((n_rows * n_cols) as nat, |i: int| layout_cell(mines, i, n_rows, n_cols))
}

/// The grid of the given shape whose mines are `mines`, all cells covered and
/// unmarked.
pub open spec fn laid_out(mines: Set<int>, n_rows: int, n_cols: int) -> Board {
    Board { n_rows, n_cols, cells: layout(mines, n_rows, n_cols) }
}

impl Grid {
    /// A grid laid out from a set of mines is well formed and fresh, and its
    /// mines are the members of the set that are cells of the grid.
    pub proof fn lemma_layout_wf(&self, mines: Set<int>)
        requires
            0 <= self.n_rows * self.n_cols <= usize::MAX,
            self@ == laid_out(mines, self.n_rows as int, self.n_cols as int),
        ensures
            self.wf(),
            self.fresh(),
            forall|i: int| self.mine_at(i) <==> 0 <= i < self.size() && mines.contains(i),
    {
        let n_rows = self.n_rows as int;
        let n_cols = self.n_cols as int;
        assert forall|i: int| self.mine_at(i) <==> 0 <= i < self.size() && mines.contains(i) by {
            if 0 <= i < self.size() {
                assert(self.grid_vec@[i] == layout_cell(mines, i, n_rows, n_cols));
            }
        }
        assert forall|i: int| 0 <= i < self.size() implies (#[trigger] self.grid_vec@[i]).consistent()
            && !self.grid_vec@[i].is_clicked && self.grid_vec@[i].flag is None by {
            assert(self.grid_vec@[i] == layout_cell(mines, i, n_rows, n_cols));
        }
        assert forall|i: int| self.safe_at(i) implies (#[trigger] self.grid_vec@[i]).data
            == CellData::MineNeighbor(self.mined_neighbors(i).len() as usize) by {
            assert(self.grid_vec@[i] == layout_cell(mines, i, n_rows, n_cols));
            assert(self.mined_neighbors(i) =~= neighbor_set(i, n_rows, n_cols).filter(
                member_pred(mines),
            ));
        }
    }
}

/// `wanted` mines, but at least one, and at least one of `total` cells left free.
fn clamp_mines(wanted: usize, total: usize) -> (count: usize)
    requires
        total >= 2,
    ensures
        count == clamped_mines(wanted as int, total as int),
        1 <= count <= total - 1,
{
    if wanted < 1 {
        1
    } else if wanted > total - 1 {
        total - 1
    } else {
        wanted
    }
}

/// Whether every index in `mines` is below `total`.
fn all_below(mines: &Vec<usize>, total: usize) -> (below: bool)
    ensures
        below <==> forall|k: int| 0 <= k < mines@.len() ==> #[trigger] mines@[k] < total,
{
    let mut k: usize = 0;
    while k < mines.len()
        invariant
            k <= mines@.len(),
            forall|u: int| 0 <= u < k ==> #[trigger] mines@[u] < total,
        decreases mines@.len() - k,
    {
        if mines[k] >= total {
            return false;
        }
        k += 1;
    }
    true
}

/// One mark per cell, set where `mines` names the cell.
fn mark_mines(mines: &Vec<usize>, total: usize) -> (marks: Vec<bool>)
    requires
        forall|k: int| 0 <= k < mines@.len() ==> #[trigger] mines@[k] < total,
    ensures
        marks@.len() == total,
        forall|i: int| 0 <= i < total ==> (#[trigger] marks@[i] <==> as_ints(mines@).contains(i)),
{
    let mut marks = unmarked(total);
    let ghost named = as_ints(mines@);
    let mut k: usize = 0;
    while k < mines.len()
        invariant
            k <= mines@.len(),
            named == as_ints(mines@),
            marks@.len() == total,
            forall|u: int| 0 <= u < mines@.len() ==> #[trigger] mines@[u] < total,
            forall|i: int|
                0 <= i < total ==> (#[trigger] marks@[i] <==> named.take(k as int).contains(i)),
        decreases mines@.len() - k,
    {
        let m: usize = mines[k];
        proof {
            let done = named.take(k as int);
            let next = named.take(k + 1);
            assert(next =~= done.push(m as int));
            assert forall|i: int| next.contains(i) <==> done.contains(i) || i == m by {
                if done.contains(i) {
                    let u = choose|u: int| 0 <= u < done.len() && done[u] == i;
                    assert(next[u] == i);
                }
                if i == m {
                    assert(next[k as int] == i);
                }
                if next.contains(i) {
                    let u = choose|u: int| 0 <= u < next.len() && next[u] == i;
                    if u < k {
                        assert(done[u] == i);
                    }
                }
            }
        }
        marks.set(m, true);
        k += 1;
    }
    proof {
        assert(named.take(k as int) =~= named);
    }
    marks
}

impl Grid {
    /// The number of cells of a grid of `n_rows` by `n_cols`, where that is
    /// a shape a grid can have.
    fn checked_size(n_rows: usize, n_cols: usize) -> (total: Option<usize>)
        ensures
            total.is_some() <==> fits(n_rows as int, n_cols as int),
            total matches Some(t) ==> t == n_rows * n_cols,
    {
        if n_rows == 0 || n_cols == 0 {
            return None;
        }
        n_rows.checked_mul(n_cols)
    }

    /// The covered, unmarked grid whose mines are the cells that `mines` names.
    fn lay_out(n_rows: usize, n_cols: usize, total: usize, mines: &Vec<usize>) -> (grid: Grid)
        requires
            total == n_rows * n_cols,
            forall|k: int| 0 <= k < mines@.len() ==> #[trigger] mines@[k] < total,
        ensures
            grid@ == laid_out(as_ints(mines@).to_set(), n_rows as int, n_cols as int),
            grid.wf(),
            grid.fresh(),
            grid.mines() == as_ints(mines@).to_set(),
    {
        let marks = mark_mines(mines, total);
        let ghost mine_set = as_ints(mines@).to_set();
        let mut grid_vec: Vec<Cell> = Vec::new();
        let mut idx: usize = 0;
        while idx < total
            invariant
                idx <= total,
                total == n_rows * n_cols,
                marks@.len() == total,
                mine_set == as_ints(mines@).to_set(),
                forall|i: int|
                    0 <= i < total ==> (#[trigger] marks@[i] <==> as_ints(mines@).contains(i)),
                grid_vec@.len() == idx,
                forall|i: int|
                    0 <= i < idx ==> #[trigger] grid_vec@[i] == layout_cell(
                        mine_set,
                        i,
                        n_rows as int,
                        n_cols as int,
                    ),
            decreases total - idx,
        {
            if marks[idx] {
                grid_vec.push(Cell::covered(CellData::Mine));
            } else {
                // Counting the number of mined neighbors a cell has
                let neighbors = Self::valid_neighbor_indices(idx, n_rows, n_cols);
                proof {
                    let listed = as_ints(neighbors@);
                    let around = neighbor_set(idx as int, n_rows as int, n_cols as int);
                    lemma_neighbor_seq(idx as int, n_rows as int, n_cols as int);
                    assert forall|k: int| 0 <= k < neighbors@.len() implies #[trigger] neighbors@[k]
                        < marks@.len() by {
                        assert(listed[k] == neighbors@[k] as int);
                        assert(listed.contains(listed[k]));
                    }
                    lemma_filter_count(listed, marked_pred(marks@));
                    assert(around.filter(marked_pred(marks@)) =~= around.filter(
                        member_pred(mine_set),
                    ));
                }
                let neighboring_mines_count = count_marked(&neighbors, &marks);
                grid_vec.push(Cell::covered(CellData::MineNeighbor(neighboring_mines_count)));
            }
            idx += 1;
        }
        let grid = Grid { n_rows, n_cols, grid_vec };
        proof {
            assert(grid.grid_vec@ =~= layout(mine_set, n_rows as int, n_cols as int));
            grid.lemma_layout_wf(mine_set);
            assert forall|i: int| mine_set.contains(i) implies 0 <= i < total by {
                let k = choose|k: int|
                    0 <= k < as_ints(mines@).len() && as_ints(mines@)[k] == i;
                assert(as_ints(mines@)[k] == mines@[k] as int);
            }
            assert(grid.mines() =~= mine_set);
        }
        grid
    }

    /// Builds the grid whose mines lie on the cells that `mines` names, all
    /// cells covered and unmarked. An index named twice counts once.
    ///
    /// Fails with `InvalidDimensions` where the shape is none a grid can
    /// have, and with `OutOfRange` where `mines` names an index that is not
    /// a cell of the grid.
    pub fn with_mines(n_rows: usize, n_cols: usize, mines: &Vec<usize>) -> (made: Result<
        Grid,
        GridError,
    >)
        ensures
            made == Err::<Grid, GridError>(GridError::InvalidDimensions) <==> !fits(
                n_rows as int,
                n_cols as int,
            ),
            made == Err::<Grid, GridError>(GridError::OutOfRange) <==> fits(
                n_rows as int,
                n_cols as int,
            ) && !(forall|k: int| 0 <= k < mines@.len() ==> #[trigger] mines@[k] < n_rows * n_cols),
            made matches Ok(grid) ==> {
                &&& grid@ == laid_out(as_ints(mines@).to_set(), n_rows as int, n_cols as int)
                &&& grid.wf()
                &&& grid.fresh()
                &&& grid.mines() == as_ints(mines@).to_set()
            },
    {
        let total: usize = match Self::checked_size(n_rows, n_cols) {
            Some(total) => total,
            None => {
                return Err(GridError::InvalidDimensions);
            },
        };
        if !all_below(mines, total) {
            return Err(GridError::OutOfRange);
        }
        Ok(Self::lay_out(n_rows, n_cols, total, mines))
    }

    /// A grid of the given shape with `amount` mines on cells drawn at random.
    fn scatter(n_rows: usize, n_cols: usize, total: usize, amount: usize) -> (grid: Grid)
        requires
            total == n_rows * n_cols,
            amount <= total <= MAX_CELLS,
        ensures
            grid.n_rows == n_rows,
            grid.n_cols == n_cols,
            grid.size() == n_rows * n_cols,
            grid.wf(),
            grid.fresh(),
            grid.mines().finite(),
            grid.mines().len() == amount,
    {
        let mine_indices = choose_indices(total, amount);
        proof {
            let named = as_ints(mine_indices@);
            assert(named.no_duplicates()) by {
                assert forall|i: int, j: int|
                    0 <= i < named.len() && 0 <= j < named.len() && i != j implies named[i]
                    != named[j] by {
                    assert(mine_indices@[i] != mine_indices@[j]);
                }
            }
            named.unique_seq_to_set();
            seq_to_set_is_finite(named);
        }
        Self::lay_out(n_rows, n_cols, total, &mine_indices)
    }

    /// Returns a randomly generated minesweeper grid.
    ///
    /// The number of mines is one per `difficulty.ratio()` cells, rounded
    /// down, but at least one, and at least one cell is left without a mine.
    /// The mined positions are drawn at random from the grid, without any
    /// regard to where the player will dig first. Each cell without a mine
    /// holds the number of its neighbours that have one.
    ///
    /// Fails with `InvalidDimensions` where the grid would have no row or no
    /// column, a single cell, or more than `MAX_CELLS` cells.
    pub fn generate(n_rows: usize, n_cols: usize, difficulty: Difficulty) -> (made: Result<
        Grid,
        GridError,
    >)
        ensures
            made is Ok <==> valid_dimensions(n_rows as int, n_cols as int),
            made matches Err(e) ==> e == GridError::InvalidDimensions,
            made matches Ok(grid) ==> {
                &&& grid.n_rows == n_rows
                &&& grid.n_cols == n_cols
                &&& grid.size() == n_rows * n_cols
                &&& grid.wf()
                &&& grid.fresh()
                &&& grid.mines().finite()
                &&& grid.mines().len() == mine_count_for(
                    n_rows as int,
                    n_cols as int,
                    difficulty,
                )
            },
    {
        let total: usize = match Self::checked_size(n_rows, n_cols) {
            Some(total) => total,
            None => {
                return Err(GridError::InvalidDimensions);
            },
        };
        if total < 2 || total > MAX_CELLS {
            return Err(GridError::InvalidDimensions);
        }
        let mine_count = clamp_mines(total / difficulty.ratio(), total);
        Ok(Self::scatter(n_rows, n_cols, total, mine_count))
    }

    /// Returns a randomly generated minesweeper grid with as many mines as
    /// its larger dimension, but at least one cell left without a mine. A grid
    /// without a row or a column has no cell, and a grid of a single cell has
    /// no mine.
    ///
    /// The grid must have no more than `MAX_CELLS` cells.
    ///
    /// # Arguments
    /// * `n_rows` - Number of rows in the grid
    /// * `n_cols` - Number of columns in the grid
    pub fn new(n_rows: usize, n_cols: usize) -> (grid: Grid)
        requires
            n_rows * n_cols <= MAX_CELLS,
        ensures
            grid.n_rows == n_rows,
            grid.n_cols == n_cols,
            grid.size() == n_rows * n_cols,
            grid.wf(),
            grid.fresh(),
            grid.mines().finite(),
            grid.mines().len() == largest_dimension_mines(n_rows as int, n_cols as int),
    {
        let total: usize = n_rows * n_cols;
        let larger: usize = if n_rows >= n_cols {
            n_rows
        } else {
            n_cols
        };
        let mine_count: usize = if total < 2 {
            0
        } else {
            clamp_mines(larger, total)
        };
        Self::scatter(n_rows, n_cols, total, mine_count)
    }
}

} // verus!
