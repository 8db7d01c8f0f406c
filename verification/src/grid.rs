//! The board: its shape, its cells, and what makes it well formed.

use vstd::prelude::*;
use vstd::seq_lib::seq_to_set_is_finite;
use vstd::set_lib::{
    lemma_int_range,
    lemma_len_subset,
    lemma_set_difference_len,
    set_int_range,
};
use crate::cell::{Cell, CellData, Flag};
use crate::coords::{as_ints, lemma_neighbor_seq, neighbor_seq, neighbor_set};
use crate::counting::{count_marked, lemma_filter_count, marked_pred};
use crate::error::GridError;

verus! {

/// A grid has two dimensions, and a sequence of cells in row-major order.
pub struct Grid {
    pub n_rows: usize,
    pub n_cols: usize,
    pub grid_vec: Vec<Cell>,
}

/// A grid as a mathematical value: its shape and its cells in row-major order.
pub struct Board {
    pub n_rows: int,
    pub n_cols: int,
    pub cells: Seq<Cell>,
}

impl View for Grid {
    type V = Board;

    open spec fn view(&self) -> Board {
        Board { n_rows: self.n_rows as int, n_cols: self.n_cols as int, cells: self.grid_vec@ }
    }
}

impl Grid {
    /// The number of cells.
    pub open spec fn size(&self) -> int {
        self.grid_vec@.len() as int
    }

    /// `i` is the index of a cell that holds a mine.
    pub open spec fn mine_at(&self, i: int) -> bool {
        0 <= i < self.size() && self.grid_vec@[i].data is Mine
    }

    /// `i` is the index of a cell without a mine.
    pub open spec fn safe_at(&self, i: int) -> bool {
        0 <= i < self.size() && !(self.grid_vec@[i].data is Mine)
    }

    /// `i` is the index of a cell that is still covered.
    pub open spec fn hidden_at(&self, i: int) -> bool {
        0 <= i < self.size() && !self.grid_vec@[i].is_clicked
    }

    /// The indices of the mines.
    pub open spec fn mines(&self) -> Set<int> {
        Set::new(|i: int| self.mine_at(i))
    }

    /// The indices of the cells without a mine that are still covered.
    pub open spec fn hidden_safe(&self) -> Set<int> {
        Set::new(|i: int| self.safe_at(i) && self.hidden_at(i))
    }

    /// The test for a cell that holds a mine.
    pub open spec fn mine_pred(&self) -> spec_fn(int) -> bool {
        |j: int| self.mine_at(j)
    }

    /// The neighbours of cell `i` that hold a mine.
    pub open spec fn mined_neighbors(&self, i: int) -> Set<int> {
        neighbor_set(i, self.n_rows as int, self.n_cols as int).filter(self.mine_pred())
    }

    /// The cells fill the rectangle, and each mine flag agrees with its content.
    pub open spec fn well_shaped(&self) -> bool {
        &&& self.size() == self.n_rows * self.n_cols
        &&& forall|i: int| 0 <= i < self.size() ==> (#[trigger] self.grid_vec@[i]).consistent()
    }

    /// Well shaped, and every cell without a mine holds the number of its
    /// neighbours that have one.
    pub open spec fn wf(&self) -> bool {
        &&& self.well_shaped()
        &&& forall|i: int|
            self.safe_at(i) ==> (#[trigger] self.grid_vec@[i]).data == CellData::MineNeighbor(
                self.mined_neighbors(i).len() as usize,
            )
    }

    /// No cell is uncovered and none is marked.
    pub open spec fn fresh(&self) -> bool {
        forall|i: int|
            0 <= i < self.size() ==> !(#[trigger] self.grid_vec@[i]).is_clicked
                && self.grid_vec@[i].flag is None
    }

    /// The mines among the first `k` cells.
    pub open spec fn mines_below(&self, k: int) -> Set<int> {
        Set::new(|i: int| i < k && self.mine_at(i))
    }

    /// The covered cells without a mine among the first `k` cells.
    pub open spec fn hidden_safe_below(&self, k: int) -> Set<int> {
        Set::new(|i: int| i < k && self.safe_at(i) && self.hidden_at(i))
    }

    /// The two grids have the same shape and the same content in every cell;
    /// they may differ in what is uncovered and marked.
    pub open spec fn same_layout(&self, other: &Grid) -> bool {
        &&& self.n_rows == other.n_rows
        &&& self.n_cols == other.n_cols
        &&& self.size() == other.size()
        &&& forall|i: int|
            0 <= i < self.size() ==> (#[trigger] self.grid_vec@[i]).data == other.grid_vec@[i].data
                && self.grid_vec@[i].is_mine == other.grid_vec@[i].is_mine
    }

    /// `after` is this grid with the mark of cell `idx` replaced by `flag`
    /// and nothing else changed.
    pub open spec fn marked_from(&self, idx: int, flag: Option<Flag>, after: &Grid) -> bool {
        &&& after.n_rows == self.n_rows
        &&& after.n_cols == self.n_cols
        &&& after.size() == self.size()
        &&& forall|i: int|
            0 <= i < self.size() ==> #[trigger] after.grid_vec@[i] == if i == idx {
                self.grid_vec@[i].marked(flag)
            } else {
                self.grid_vec@[i]
            }
    }

    /// A well-shaped grid stays well shaped whatever is uncovered or marked.
    pub proof fn lemma_shape_layout(&self, other: &Grid)
        requires
            self.well_shaped(),
            self.same_layout(other),
        ensures
            other.well_shaped(),
    {
        assert forall|i: int| 0 <= i < other.size() implies (#[trigger] other.grid_vec@[i]).consistent() by {
            assert(self.grid_vec@[i].consistent());
        }
    }

    /// A well-formed grid stays well formed whatever is uncovered or marked.
    pub proof fn lemma_wf_layout(&self, other: &Grid)
        requires
            self.wf(),
            self.same_layout(other),
        ensures
            other.wf(),
    {
        assert forall|i: int| 0 <= i < other.size() implies (#[trigger] other.grid_vec@[i]).consistent() by {
            assert(self.grid_vec@[i].consistent());
        }
        assert forall|i: int| other.safe_at(i) implies (#[trigger] other.grid_vec@[i]).data
            == CellData::MineNeighbor(other.mined_neighbors(i).len() as usize) by {
            assert(self.safe_at(i));
            assert(self.grid_vec@[i].data == other.grid_vec@[i].data);
            assert forall|j: int| self.mine_at(j) <==> other.mine_at(j) by {
                if 0 <= j < self.size() {
                    assert(self.grid_vec@[j].data == other.grid_vec@[j].data);
                }
            }
            assert(self.mined_neighbors(i) =~= other.mined_neighbors(i));
        }
    }

    /// Puts the mark `flag` on the cell at `idx`, or takes its mark away.
    /// Fails with `OutOfRange` where the grid has no such cell.
    pub fn set_flag(&mut self, idx: usize, flag: Option<Flag>) -> (done: Result<(), GridError>)
        ensures
            done is Ok <==> idx < old(self).size(),
            done matches Err(e) ==> e == GridError::OutOfRange && final(self)@ == old(self)@,
            done is Ok ==> old(self).marked_from(idx as int, flag, final(self)),
            old(self).wf() ==> final(self).wf(),
            final(self).hidden_safe() == old(self).hidden_safe(),
            final(self).mines() == old(self).mines(),
    {
        if idx >= self.grid_vec.len() {
            return Err(GridError::OutOfRange);
        }
        let cell: Cell = self.grid_vec[idx];
        self.grid_vec.set(
            idx,
            Cell { is_mine: cell.is_mine, is_clicked: cell.is_clicked, flag, data: cell.data },
        );
        proof {
            let before = *old(self);
            assert(before.same_layout(self)) by {
                assert forall|i: int| 0 <= i < before.size() implies (
                #[trigger] before.grid_vec@[i]).data == self.grid_vec@[i].data
                    && before.grid_vec@[i].is_mine == self.grid_vec@[i].is_mine by {
                    assert(self.grid_vec@[i] == self.grid_vec@[i]);
                }
            }
            if before.wf() {
                before.lemma_wf_layout(self);
            }
            assert(self.hidden_safe() =~= before.hidden_safe()) by {
                assert forall|i: int|
                    self.hidden_safe().contains(i) <==> before.hidden_safe().contains(i) by {
                    if 0 <= i < before.size() {
                        assert(self.grid_vec@[i] == self.grid_vec@[i]);
                    }
                }
            }
            assert(self.mines() =~= before.mines()) by {
                assert forall|i: int| self.mines().contains(i) <==> before.mines().contains(i) by {
                    if 0 <= i < before.size() {
                        assert(self.grid_vec@[i] == self.grid_vec@[i]);
                    }
                }
            }
        }
        Ok(())
    }

    /// The mined neighbours of a cell are among its at most eight neighbours.
    pub proof fn lemma_mined_neighbors_bound(&self, i: int)
        ensures
            self.mined_neighbors(i).finite(),
            self.mined_neighbors(i).len() <= 8,
    {
        let n_rows = self.n_rows as int;
        let n_cols = self.n_cols as int;
        lemma_neighbor_seq(i, n_rows, n_cols);
        let listed = neighbor_seq(i, n_rows, n_cols);
        listed.unique_seq_to_set();
        seq_to_set_is_finite(listed);
        neighbor_set(i, n_rows, n_cols).lemma_len_filter(self.mine_pred());
    }

    /// The cells without a mine that are still covered are among the cells of the grid.
    pub proof fn lemma_hidden_safe_finite(&self)
        ensures
            self.hidden_safe().finite(),
            self.hidden_safe().len() <= self.size(),
    {
        lemma_int_range(0, self.size());
        assert(self.hidden_safe().subset_of(set_int_range(0, self.size())));
        lemma_len_subset(self.hidden_safe(), set_int_range(0, self.size()));
    }

    /// In a well-formed grid the number that a cell without a mine holds is
    /// the number of mines among its listed neighbours.
    pub proof fn lemma_count_consistent(&self, i: int)
        requires
            self.wf(),
            self.safe_at(i),
        ensures
            self.grid_vec@[i].data == CellData::MineNeighbor(
                neighbor_seq(i, self.n_rows as int, self.n_cols as int).filter(
                    self.mine_pred(),
                ).len() as usize,
            ),
            neighbor_seq(i, self.n_rows as int, self.n_cols as int).filter(self.mine_pred()).len()
                <= 8,
    {
        let listed = neighbor_seq(i, self.n_rows as int, self.n_cols as int);
        lemma_neighbor_seq(i, self.n_rows as int, self.n_cols as int);
        lemma_filter_count(listed, self.mine_pred());
        listed.lemma_filter_len(self.mine_pred());
        assert(listed.to_set().filter(self.mine_pred()) =~= self.mined_neighbors(i));
    }

    /// While nothing is uncovered, the covered cells without a mine are all the
    /// cells but the mines.
    pub proof fn lemma_fresh_safe_count(&self)
        requires
            self.fresh(),
        ensures
            self.mines().finite(),
            self.hidden_safe().finite(),
            self.hidden_safe().len() == self.size() - self.mines().len(),
    {
        let all = set_int_range(0, self.size());
        lemma_int_range(0, self.size());
        assert(self.mines().subset_of(all));
        assert(self.hidden_safe().subset_of(all));
        lemma_len_subset(self.mines(), all);
        lemma_len_subset(self.hidden_safe(), all);
        assert(self.hidden_safe() =~= all.difference(self.mines()));
        lemma_set_difference_len(all, self.mines());
        assert(all.intersect(self.mines()) =~= self.mines());
    }

    /// The number of cells without a mine that are still covered. The game is
    /// won when none is left.
    pub fn safe_cells_left(&self) -> (count: usize)
        ensures
            self.hidden_safe().finite(),
            count == self.hidden_safe().len(),
            count <= self.size(),
    {
        let mut count: usize = 0;
        let mut k: usize = 0;
        proof {
            assert(self.hidden_safe_below(0) =~= Set::<int>::empty());
        }
        while k < self.grid_vec.len()
            invariant
                k <= self.size(),
                self.hidden_safe_below(k as int).finite(),
                count == self.hidden_safe_below(k as int).len(),
                count <= k,
            decreases self.size() - k,
        {
            let safe = match self.grid_vec[k].data {
                CellData::Mine => false,
                CellData::MineNeighbor(_) => true,
            };
            let left = safe && !self.grid_vec[k].is_clicked;
            proof {
                if left {
                    assert(self.hidden_safe_below(k + 1) =~= self.hidden_safe_below(
                        k as int,
                    ).insert(k as int));
                } else {
                    assert(self.hidden_safe_below(k + 1) =~= self.hidden_safe_below(k as int));
                }
            }
            if left {
                count += 1;
            }
            k += 1;
        }
        proof {
            assert(self.hidden_safe_below(k as int) =~= self.hidden_safe());
        }
        count
    }

    /// One mark per cell, set where the cell holds a mine.
    fn mine_marks(&self) -> (marks: Vec<bool>)
        ensures
            marks@.len() == self.size(),
            forall|i: int| 0 <= i < self.size() ==> (#[trigger] marks@[i] <==> self.mine_at(i)),
    {
        let mut marks: Vec<bool> = Vec::new();
        let mut k: usize = 0;
        while k < self.grid_vec.len()
            invariant
                k <= self.size(),
                marks@.len() == k,
                forall|i: int| 0 <= i < k ==> (#[trigger] marks@[i] <==> self.mine_at(i)),
            decreases self.size() - k,
        {
            let mined = match self.grid_vec[k].data {
                CellData::Mine => true,
                CellData::MineNeighbor(_) => false,
            };
            marks.push(mined);
            k += 1;
        }
        marks
    }

    /// Whether the grid is well formed: the cells fill the rectangle, each
    /// mine flag agrees with the content of its cell, and every cell without
    /// a mine holds the number of mines among its neighbours, counted anew.
    pub fn is_well_formed(&self) -> (ok: bool)
        ensures
            ok == self.wf(),
    {
        let size: usize = self.grid_vec.len();
        let total: usize = match self.n_rows.checked_mul(self.n_cols) {
            Some(total) => total,
            None => {
                return false;
            },
        };
        if total != size {
            return false;
        }
        let marks = self.mine_marks();
        let mut idx: usize = 0;
        while idx < total
            invariant
                idx <= total,
                total == self.size(),
                total == self.n_rows * self.n_cols,
                marks@.len() == total,
                forall|i: int| 0 <= i < total ==> (#[trigger] marks@[i] <==> self.mine_at(i)),
                forall|i: int| 0 <= i < idx ==> (#[trigger] self.grid_vec@[i]).consistent(),
                forall|i: int|
                    0 <= i < idx && self.safe_at(i) ==> (#[trigger] self.grid_vec@[i]).data
                        == CellData::MineNeighbor(self.mined_neighbors(i).len() as usize),
            decreases total - idx,
        {
            let cell: Cell = self.grid_vec[idx];
            match cell.data {
                CellData::Mine => {
                    if !cell.is_mine {
                        assert(!self.grid_vec@[idx as int].consistent());
                        return false;
                    }
                },
                CellData::MineNeighbor(count) => {
                    if cell.is_mine {
                        assert(!self.grid_vec@[idx as int].consistent());
                        return false;
                    }
                    let neighbors = Self::valid_neighbor_indices(idx, self.n_rows, self.n_cols);
                    proof {
                        let listed = as_ints(neighbors@);
                        let around = neighbor_set(
                            idx as int,
                            self.n_rows as int,
                            self.n_cols as int,
                        );
                        lemma_neighbor_seq(idx as int, self.n_rows as int, self.n_cols as int);
                        assert forall|k: int| 0 <= k < neighbors@.len() implies #[trigger] neighbors@[k]
                            < marks@.len() by {
                            assert(listed[k] == neighbors@[k] as int);
                            assert(listed.contains(listed[k]));
                        }
                        lemma_filter_count(listed, marked_pred(marks@));
                        assert(around.filter(marked_pred(marks@)) =~= self.mined_neighbors(
                            idx as int,
                        ));
                    }
                    let mined_around = count_marked(&neighbors, &marks);
                    if count != mined_around {
                        assert(self.safe_at(idx as int));
                        assert(self.grid_vec@[idx as int].data != CellData::MineNeighbor(
                            self.mined_neighbors(idx as int).len() as usize,
                        ));
                        return false;
                    }
                },
            }
            idx += 1;
        }
        true
    }

    /// The number of cells that hold a mine.
    pub fn mine_count(&self) -> (count: usize)
        ensures
            self.mines().finite(),
            count == self.mines().len(),
            count <= self.size(),
    {
        let mut count: usize = 0;
        let mut k: usize = 0;
        proof {
            assert(self.mines_below(0) =~= Set::<int>::empty());
        }
        while k < self.grid_vec.len()
            invariant
                k <= self.size(),
                self.mines_below(k as int).finite(),
                count == self.mines_below(k as int).len(),
                count <= k,
            decreases self.size() - k,
        {
            let mined = match self.grid_vec[k].data {
                CellData::Mine => true,
                CellData::MineNeighbor(_) => false,
            };
            proof {
                if mined {
                    assert(self.mines_below(k + 1) =~= self.mines_below(k as int).insert(k as int));
                } else {
                    assert(self.mines_below(k + 1) =~= self.mines_below(k as int));
                }
            }
            if mined {
                count += 1;
            }
            k += 1;
        }
        proof {
            assert(self.mines_below(k as int) =~= self.mines());
        }
        count
    }
}

} // verus!
