//! The reveal engine: uncovering a cell floods through the cells that have no
//! mine next to them and stops at the numbered cells around them.

use vstd::prelude::*;
use vstd::set_lib::{lemma_len_subset, lemma_set_difference_len};
use crate::cell::{Cell, CellData};
use crate::coords::{adjacent, as_ints, lemma_neighbor_seq, neighbor_seq};
use crate::counting::{lemma_distinct_indices_len, lemma_filter_count, unmarked};
use crate::grid::Grid;

verus! {

impl Grid {
    /// `i` is the index of a cell with no mine on it and none next to it.
    pub open spec fn zero_at(&self, i: int) -> bool {
        0 <= i < self.size() && self.grid_vec@[i].data == CellData::MineNeighbor(0)
    }

    /// The flood passes from cell `a` to cell `b`: `a` is a zero cell and `b` touches it.
    pub open spec fn flood_link(&self, a: int, b: int) -> bool {
        self.zero_at(a) && adjacent(a, b, self.n_rows as int, self.n_cols as int)
    }

    /// The flood passes from the `k`-th cell of `path` to the next.
    pub open spec fn hop(&self, path: Seq<int>, k: int) -> bool {
        self.flood_link(path[k], path[k + 1])
    }

    /// A walk over cells of the grid along which the flood passes: every cell
    /// but the last is a zero cell, and each touches the next.
    pub open spec fn flood_path(&self, path: Seq<int>) -> bool {
        &&& path.len() >= 1
        &&& 0 <= path[0] < self.size()
        &&& forall|k: int| 0 <= k < path.len() - 1 ==> #[trigger] self.hop(path, k)
    }

    /// The flood that starts at cell `start` gets to cell `i`.
    pub open spec fn reaches(&self, start: int, i: int) -> bool {
        exists|path: Seq<int>| #[trigger]
            self.flood_path(path) && path[0] == start && path.last() == i
    }

    /// The cells that a reveal at `start` uncovers: `start`, and with every
    /// zero cell among them the cells that touch it.
    pub open spec fn flood_region(&self, start: int) -> Set<int> {
        Set::new(|i: int| self.reaches(start, i))
    }

    /// The test for a cell that is still covered.
    pub open spec fn hidden_pred(&self) -> spec_fn(int) -> bool {
        |i: int| self.hidden_at(i)
    }

    /// The cells that a reveal at `start` uncovers and that were covered before.
    pub open spec fn newly_revealed(&self, start: int) -> Set<int> {
        self.flood_region(start).filter(self.hidden_pred())
    }

    /// `after` is this grid with the flood region of `start` uncovered and
    /// nothing else changed.
    pub open spec fn revealed_from(&self, start: int, after: &Grid) -> bool {
        &&& after.n_rows == self.n_rows
        &&& after.n_cols == self.n_cols
        &&& after.size() == self.size()
        &&& forall|i: int|
            0 <= i < self.size() ==> #[trigger] after.grid_vec@[i] == if self.flood_region(
                start,
            ).contains(i) {
                self.grid_vec@[i].uncovered()
            } else {
                self.grid_vec@[i]
            }
    }

    /// What the search holds of the cells it has found: each once, each
    /// reached by the flood, the first of them `start`, and a mark for each.
    spec fn frontier(&self, start: int, queue: Seq<int>, visited: Seq<bool>) -> bool {
        &&& visited.len() == self.size()
        &&& queue.no_duplicates()
        &&& queue.len() >= 1
        &&& queue[0] == start
        &&& forall|k: int|
            0 <= k < queue.len() ==> 0 <= #[trigger] queue[k] < self.size() && self.reaches(
                start,
                queue[k],
            )
        &&& forall|i: int| 0 <= i < self.size() ==> (#[trigger] visited[i] <==> queue.contains(i))
    }

    /// Every cell to which the flood passes from the `k`-th found cell is found too.
    spec fn expanded(&self, queue: Seq<int>, visited: Seq<bool>, k: int) -> bool {
        forall|j: int| #[trigger] self.flood_link(queue[k], j) ==> visited[j]
    }

    /// Where the flood reaches a zero cell, it reaches the cells that touch it.
    pub proof fn lemma_reaches_step(&self, start: int, a: int, b: int)
        requires
            self.reaches(start, a),
            self.flood_link(a, b),
        ensures
            self.reaches(start, b),
    {
        let path = choose|path: Seq<int>| #[trigger]
            self.flood_path(path) && path[0] == start && path.last() == a;
        let longer = path.push(b);
        assert forall|k: int| 0 <= k < longer.len() - 1 implies #[trigger] self.hop(longer, k) by {
            if k < path.len() - 1 {
                assert(self.hop(path, k));
            }
        }
        assert(self.flood_path(longer) && longer[0] == start && longer.last() == b);
    }

    /// The flood reaches the cell it starts at.
    pub proof fn lemma_reaches_start(&self, start: int)
        requires
            0 <= start < self.size(),
        ensures
            self.reaches(start, start),
    {
        let path = seq![start];
        assert(self.flood_path(path) && path[0] == start && path.last() == start);
    }

    /// Every cell on a flood path from `start` is among the found cells, once
    /// each found cell has been expanded.
    proof fn lemma_path_found(
        &self,
        start: int,
        queue: Seq<int>,
        visited: Seq<bool>,
        path: Seq<int>,
        k: int,
    )
        requires
            self.well_shaped(),
            self.frontier(start, queue, visited),
            forall|m: int| 0 <= m < queue.len() ==> #[trigger] self.expanded(queue, visited, m),
            self.flood_path(path),
            path[0] == start,
            0 <= k < path.len(),
        ensures
            queue.contains(path[k]),
        decreases k,
    {
        if k == 0 {
            assert(queue[0] == path[0]);
        } else {
            self.lemma_path_found(start, queue, visited, path, k - 1);
            let m = choose|m: int| 0 <= m < queue.len() && queue[m] == path[k - 1];
            assert(self.expanded(queue, visited, m));
            assert(self.hop(path, k - 1));
            assert(self.flood_link(queue[m], path[k]));
            assert(visited[path[k]]);
        }
    }

    /// The found cells are the flood region, once each has been expanded.
    proof fn lemma_search_complete(&self, start: int, queue: Seq<int>, visited: Seq<bool>)
        requires
            self.well_shaped(),
            self.frontier(start, queue, visited),
            forall|m: int| 0 <= m < queue.len() ==> #[trigger] self.expanded(queue, visited, m),
        ensures
            queue.to_set() == self.flood_region(start),
    {
        assert forall|i: int| queue.to_set().contains(i) <==> self.flood_region(start).contains(
            i,
        ) by {
            if queue.contains(i) {
                let k = choose|k: int| 0 <= k < queue.len() && queue[k] == i;
                assert(self.reaches(start, queue[k]));
            }
            if self.reaches(start, i) {
                let path = choose|path: Seq<int>| #[trigger]
                    self.flood_path(path) && path[0] == start && path.last() == i;
                self.lemma_path_found(start, queue, visited, path, path.len() - 1);
            }
        }
        assert(queue.to_set() =~= self.flood_region(start));
    }

    /// The search may add a cell that touches a found zero cell and has no mark yet.
    proof fn lemma_frontier_push(
        &self,
        start: int,
        queue: Seq<int>,
        visited: Seq<bool>,
        from: int,
        cell: int,
    )
        requires
            self.well_shaped(),
            self.frontier(start, queue, visited),
            0 <= from < queue.len(),
            self.flood_link(queue[from], cell),
            !visited[cell],
        ensures
            self.frontier(start, queue.push(cell), visited.update(cell, true)),
    {
        let queue2 = queue.push(cell);
        let visited2 = visited.update(cell, true);
        self.lemma_reaches_step(start, queue[from], cell);
        assert(0 <= cell < self.size());
        assert(!queue.contains(cell));
        assert(queue2.no_duplicates());
        assert forall|i: int| 0 <= i < self.size() implies (#[trigger] visited2[i]
            <==> queue2.contains(i)) by {
            if queue.contains(i) {
                let k = choose|k: int| 0 <= k < queue.len() && queue[k] == i;
                assert(queue2[k] == i);
            }
            if i == cell {
                assert(queue2[queue.len() as int] == cell);
            }
            if queue2.contains(i) {
                let k = choose|k: int| 0 <= k < queue2.len() && queue2[k] == i;
                if k < queue.len() {
                    assert(queue[k] == i);
                }
            }
        }
    }

    /// In a well-formed grid no cell that touches a zero cell holds a mine.
    pub proof fn lemma_flood_link_safe(&self, a: int, b: int)
        requires
            self.wf(),
            self.flood_link(a, b),
        ensures
            self.safe_at(b),
    {
        self.lemma_mined_neighbors_bound(a);
        assert(self.safe_at(a));
        assert(self.grid_vec@[a].data == CellData::MineNeighbor(
            self.mined_neighbors(a).len() as usize,
        ));
        assert(self.mined_neighbors(a).len() == 0);
        if self.mine_at(b) {
            assert(self.mined_neighbors(a).contains(b));
        }
    }

    /// A reveal that starts on a cell without a mine uncovers no mine.
    pub proof fn lemma_region_safe(&self, start: int, i: int)
        requires
            self.wf(),
            self.safe_at(start),
            self.flood_region(start).contains(i),
        ensures
            self.safe_at(i),
    {
        let path = choose|path: Seq<int>| #[trigger]
            self.flood_path(path) && path[0] == start && path.last() == i;
        if path.len() > 1 {
            assert(self.hop(path, path.len() - 2));
            self.lemma_flood_link_safe(path[path.len() - 2], i);
        }
    }

    /// The flood region depends on the shape of the grid and the content of
    /// its cells only, not on what is uncovered or marked.
    pub proof fn lemma_region_layout(&self, other: &Grid, start: int)
        requires
            self.same_layout(other),
        ensures
            self.flood_region(start) == other.flood_region(start),
    {
        assert forall|i: int| self.reaches(start, i) <==> other.reaches(start, i) by {
            if self.reaches(start, i) {
                let path = choose|path: Seq<int>| #[trigger]
                    self.flood_path(path) && path[0] == start && path.last() == i;
                Self::lemma_path_layout(self, other, path);
            }
            if other.reaches(start, i) {
                let path = choose|path: Seq<int>| #[trigger]
                    other.flood_path(path) && path[0] == start && path.last() == i;
                Self::lemma_path_layout(other, self, path);
            }
        }
        assert(self.flood_region(start) =~= other.flood_region(start));
    }

    /// A flood path of one grid is a flood path of every grid of the same layout.
    proof fn lemma_path_layout(a: &Grid, b: &Grid, path: Seq<int>)
        requires
            a.same_layout(b) || b.same_layout(a),
            a.flood_path(path),
        ensures
            b.flood_path(path),
    {
        assert forall|k: int| 0 <= k < path.len() - 1 implies #[trigger] b.hop(path, k) by {
            assert(a.hop(path, k));
            assert(a.grid_vec@[path[k]].data == b.grid_vec@[path[k]].data);
        }
    }

    /// A reveal changes neither the shape of the grid nor the content of a cell.
    pub proof fn lemma_revealed_layout(&self, start: int, after: &Grid)
        requires
            self.revealed_from(start, after),
        ensures
            self.same_layout(after),
    {
        assert forall|i: int| 0 <= i < self.size() implies (#[trigger] self.grid_vec@[i]).data
            == after.grid_vec@[i].data && self.grid_vec@[i].is_mine
            == after.grid_vec@[i].is_mine by {
            assert(after.grid_vec@[i] == after.grid_vec@[i]);
        }
    }

    /// Revealing twice from the same cell: the second reveal finds every cell
    /// of the region uncovered, so it uncovers none and leaves the grid as it is.
    pub proof fn lemma_reveal_idempotent(&self, start: int, after: &Grid)
        requires
            self.revealed_from(start, after),
        ensures
            after.newly_revealed(start) == Set::<int>::empty(),
            after.newly_revealed(start).len() == 0,
            after.revealed_from(start, after),
    {
        self.lemma_revealed_layout(start, after);
        self.lemma_region_layout(after, start);
        assert forall|i: int| !after.newly_revealed(start).contains(i) by {
            if after.flood_region(start).contains(i) && after.hidden_at(i) {
                assert(after.grid_vec@[i] == self.grid_vec@[i].uncovered());
            }
        }
        assert(after.newly_revealed(start) =~= Set::<int>::empty());
        assert forall|i: int| 0 <= i < after.size() implies #[trigger] after.grid_vec@[i]
            == if after.flood_region(start).contains(i) {
            after.grid_vec@[i].uncovered()
        } else {
            after.grid_vec@[i]
        } by {
            assert(after.grid_vec@[i] == if self.flood_region(start).contains(i) {
                self.grid_vec@[i].uncovered()
            } else {
                self.grid_vec@[i]
            });
        }
    }

    /// What a reveal does to the count of covered cells without a mine: the
    /// cells it newly uncovers were all among them, and it takes exactly
    /// these away. So a counter that starts at the number of cells without a
    /// mine and goes down by what each reveal returns never goes below zero,
    /// and is zero exactly when every cell without a mine is uncovered.
    pub proof fn lemma_reveal_accounting(&self, start: int, after: &Grid)
        requires
            self.wf(),
            self.safe_at(start),
            self.revealed_from(start, after),
        ensures
            self.hidden_safe().finite(),
            self.newly_revealed(start).subset_of(self.hidden_safe()),
            after.hidden_safe() == self.hidden_safe().difference(self.newly_revealed(start)),
            after.hidden_safe().len() == self.hidden_safe().len() - self.newly_revealed(
                start,
            ).len(),
    {
        let newly = self.newly_revealed(start);
        self.lemma_hidden_safe_finite();
        assert forall|i: int| newly.contains(i) implies self.hidden_safe().contains(i) by {
            self.lemma_region_safe(start, i);
        }
        lemma_len_subset(newly, self.hidden_safe());
        assert forall|i: int|
            after.hidden_safe().contains(i) <==> self.hidden_safe().difference(newly).contains(
                i,
            ) by {
            if 0 <= i < self.size() {
                assert(after.grid_vec@[i] == if self.flood_region(start).contains(i) {
                    self.grid_vec@[i].uncovered()
                } else {
                    self.grid_vec@[i]
                });
            }
        }
        assert(after.hidden_safe() =~= self.hidden_safe().difference(newly));
        lemma_set_difference_len(self.hidden_safe(), newly);
        assert(self.hidden_safe().intersect(newly) =~= newly);
    }

    /// Whether cell `i` has no mine on it and none next to it.
    fn is_zero(&self, i: usize) -> (zero: bool)
        requires
            i < self.grid_vec@.len(),
        ensures
            zero == self.zero_at(i as int),
    {
        match self.grid_vec[i].data {
            CellData::MineNeighbor(count) => count == 0,
            CellData::Mine => false,
        }
    }

    /// Expands the found cell at position `head` of the queue: where it is a
    /// zero cell, its neighbours that have no mark yet join the found cells.
    fn expand(
        &self,
        queue: &mut Vec<usize>,
        visited: &mut Vec<bool>,
        head: usize,
        Ghost(start): Ghost<int>,
    )
        requires
            self.well_shaped(),
            self.frontier(start, as_ints(old(queue)@), old(visited)@),
            head < old(queue)@.len(),
            forall|m: int|
                0 <= m < head ==> #[trigger] self.expanded(as_ints(old(queue)@), old(visited)@, m),
        ensures
            self.frontier(start, as_ints(final(queue)@), final(visited)@),
            forall|m: int|
                0 <= m <= head ==> #[trigger] self.expanded(
                    as_ints(final(queue)@),
                    final(visited)@,
                    m,
                ),
            final(queue)@.len() >= old(queue)@.len(),
    {
        let c: usize = queue[head];
        let size: usize = self.grid_vec.len();
        let ghost n_rows = self.n_rows as int;
        let ghost n_cols = self.n_cols as int;
        assert(as_ints(queue@)[head as int] == c as int);
        if !self.is_zero(c) {
            return ;
        }
        assert(self.n_rows * self.n_cols == size);
        let neighbors = Grid::valid_neighbor_indices(c, self.n_rows, self.n_cols);
        proof {
            lemma_neighbor_seq(c as int, n_rows, n_cols);
        }
        let mut t: usize = 0;
        while t < neighbors.len()
            invariant
                self.well_shaped(),
                self.zero_at(c as int),
                n_rows == self.n_rows as int,
                n_cols == self.n_cols as int,
                t <= neighbors@.len(),
                as_ints(neighbors@) == neighbor_seq(c as int, n_rows, n_cols),
                forall|j: int|
                    #[trigger] neighbor_seq(c as int, n_rows, n_cols).contains(j) <==> adjacent(
                        c as int,
                        j,
                        n_rows,
                        n_cols,
                    ),
                self.frontier(start, as_ints(queue@), visited@),
                head < queue@.len(),
                queue@.len() >= old(queue)@.len(),
                as_ints(queue@)[head as int] == c as int,
                forall|m: int|
                    0 <= m < head ==> #[trigger] self.expanded(as_ints(queue@), visited@, m),
                forall|u: int|
                    0 <= u < t ==> #[trigger] neighbors@[u] < visited@.len()
                        && visited@[neighbors@[u] as int],
            decreases neighbors@.len() - t,
        {
            let nb: usize = neighbors[t];
            proof {
                assert(as_ints(neighbors@)[t as int] == nb as int);
                assert(neighbor_seq(c as int, n_rows, n_cols).contains(nb as int));
                assert(adjacent(c as int, nb as int, n_rows, n_cols));
            }
            if !visited[nb] {
                let ghost queue0 = as_ints(queue@);
                let ghost visited0 = visited@;
                proof {
                    self.lemma_frontier_push(start, queue0, visited0, head as int, nb as int);
                }
                visited.set(nb, true);
                queue.push(nb);
                proof {
                    assert(as_ints(queue@) =~= queue0.push(nb as int));
                    assert forall|m: int| 0 <= m < head implies #[trigger] self.expanded(
                        as_ints(queue@),
                        visited@,
                        m,
                    ) by {
                        assert(self.expanded(queue0, visited0, m));
                        assert(as_ints(queue@)[m] == queue0[m]);
                        assert forall|j: int| #[trigger]
                            self.flood_link(as_ints(queue@)[m], j) implies visited@[j] by {
                            assert(visited0[j]);
                        }
                    }
                }
            }
            t += 1;
        }
        proof {
            let found = as_ints(queue@);
            let listed = neighbor_seq(c as int, n_rows, n_cols);
            assert forall|j: int| #[trigger] self.flood_link(found[head as int], j) implies visited@[j] by {
                assert(listed.contains(j));
                let u = choose|u: int| 0 <= u < listed.len() && listed[u] == j;
                assert(as_ints(neighbors@)[u] == neighbors@[u] as int);
            }
            assert(self.expanded(found, visited@, head as int));
        }
    }

    /// The cells that a reveal at `idx` uncovers, each once, in the order in
    /// which a breadth-first search from `idx` finds them.
    fn flood_cells(&self, idx: usize) -> (cells: Vec<usize>)
        requires
            self.well_shaped(),
            idx < self.grid_vec@.len(),
        ensures
            as_ints(cells@).no_duplicates(),
            as_ints(cells@).to_set() == self.flood_region(idx as int),
            forall|k: int| 0 <= k < cells@.len() ==> #[trigger] cells@[k] < self.grid_vec@.len(),
    {
        let n: usize = self.grid_vec.len();
        let mut visited = unmarked(n);
        let mut queue: Vec<usize> = Vec::new();
        queue.push(idx);
        visited.set(idx, true);
        proof {
            self.lemma_reaches_start(idx as int);
            let found = as_ints(queue@);
            assert(found =~= seq![idx as int]);
            assert forall|i: int| 0 <= i < self.size() implies (#[trigger] visited@[i]
                <==> found.contains(i)) by {
                if i == idx {
                    assert(found[0] == i);
                }
            }
        }
        let mut head: usize = 0;
        while head < queue.len()
            invariant
                self.well_shaped(),
                n == self.grid_vec@.len(),
                self.frontier(idx as int, as_ints(queue@), visited@),
                head <= queue@.len(),
                forall|m: int|
                    0 <= m < head ==> #[trigger] self.expanded(as_ints(queue@), visited@, m),
            decreases n - head,
        {
            proof {
                lemma_distinct_indices_len(as_ints(queue@), n as int);
            }
            self.expand(&mut queue, &mut visited, head, Ghost(idx as int));
            head += 1;
        }
        proof {
            self.lemma_search_complete(idx as int, as_ints(queue@), visited@);
            assert forall|k: int| 0 <= k < queue@.len() implies #[trigger] queue@[k]
                < self.grid_vec@.len() by {
                assert(as_ints(queue@)[k] == queue@[k] as int);
            }
        }
        queue
    }

    /// Uncovers the cell at `idx` and, where it has no mine next to it, the
    /// whole region of such cells around it with the numbered cells at its
    /// border. Returns the number of cells that were covered before and are
    /// uncovered now; a cell that was uncovered already is not counted again.
    ///
    /// On a well-formed grid a reveal that starts on a cell without a mine
    /// uncovers no mine. Digging up a mine ends the game, and the caller
    /// decides that before it reveals anything: started on a mine, the reveal
    /// uncovers that one cell. Where the grid has no cell `idx`, nothing is
    /// uncovered.
    pub fn reveal_empty_cells(&mut self, idx: usize) -> (count: usize)
        requires
            old(self).well_shaped(),
        ensures
            old(self).revealed_from(idx as int, final(self)),
            count == old(self).newly_revealed(idx as int).len(),
            final(self).well_shaped(),
            old(self).wf() ==> final(self).wf(),
            old(self).wf() && old(self).safe_at(idx as int) ==> forall|i: int|
                old(self).mine_at(i) ==> #[trigger] final(self).grid_vec@[i] == old(
                    self,
                ).grid_vec@[i],
    {
        if idx >= self.grid_vec.len() {
            proof {
                assert forall|i: int| !self.flood_region(idx as int).contains(i) by {
                    if self.reaches(idx as int, i) {
                        let path = choose|path: Seq<int>| #[trigger]
                            self.flood_path(path) && path[0] == idx as int && path.last() == i;
                        assert(false);
                    }
                }
                assert(self.newly_revealed(idx as int) =~= Set::<int>::empty());
            }
            return 0;
        }
        let cells = self.flood_cells(idx);
        let ghost before = *old(self);
        let ghost region = as_ints(cells@);
        let mut k: usize = 0;
        let mut count: usize = 0;
        while k < cells.len()
            invariant
                k <= cells@.len(),
                region == as_ints(cells@),
                region.no_duplicates(),
                forall|u: int| 0 <= u < cells@.len() ==> #[trigger] cells@[u] < before.size(),
                self.n_rows == before.n_rows,
                self.n_cols == before.n_cols,
                self.size() == before.size(),
                forall|i: int|
                    0 <= i < before.size() ==> #[trigger] self.grid_vec@[i] == if region.take(
                        k as int,
                    ).contains(i) {
                        before.grid_vec@[i].uncovered()
                    } else {
                        before.grid_vec@[i]
                    },
                count == region.take(k as int).filter(before.hidden_pred()).len(),
                count <= k,
            decreases cells@.len() - k,
        {
            let c: usize = cells[k];
            let cell: Cell = self.grid_vec[c];
            proof {
                let done = region.take(k as int);
                let next = region.take(k + 1);
                assert(region[k as int] == c as int);
                assert(next =~= done.push(c as int));
                assert(!done.contains(c as int)) by {
                    if done.contains(c as int) {
                        let u = choose|u: int| 0 <= u < done.len() && done[u] == c as int;
                        assert(region[u] == region[k as int]);
                    }
                }
                done.lemma_filter_push(c as int, before.hidden_pred());
                assert(cell == before.grid_vec@[c as int]);
                assert forall|i: int| next.contains(i) <==> done.contains(i) || i == c by {
                    if done.contains(i) {
                        let u = choose|u: int| 0 <= u < done.len() && done[u] == i;
                        assert(next[u] == i);
                    }
                    if i == c {
                        assert(next[k as int] == i);
                    }
                    if next.contains(i) {
                        let u = choose|u: int| 0 <= u < next.len() && next[u] == i;
                        if u < k {
                            assert(done[u] == i);
                        }
                    }
                }
            }
            if !cell.is_clicked {
                count += 1;
            }
            self.grid_vec.set(
                c,
                Cell { is_mine: cell.is_mine, is_clicked: true, flag: cell.flag, data: cell.data },
            );
            k += 1;
        }
        proof {
            assert(region.take(k as int) =~= region);
            lemma_filter_count(region, before.hidden_pred());
            assert forall|i: int| 0 <= i < before.size() implies #[trigger] self.grid_vec@[i]
                == if before.flood_region(idx as int).contains(i) {
                before.grid_vec@[i].uncovered()
            } else {
                before.grid_vec@[i]
            } by {
                assert(region.to_set().contains(i) <==> region.contains(i));
            }
            before.lemma_revealed_layout(idx as int, self);
            before.lemma_shape_layout(self);
            if before.wf() {
                before.lemma_wf_layout(self);
                if before.safe_at(idx as int) {
                    assert forall|i: int| before.mine_at(i) implies #[trigger] self.grid_vec@[i]
                        == before.grid_vec@[i] by {
                        if before.flood_region(idx as int).contains(i) {
                            before.lemma_region_safe(idx as int, i);
                        }
                    }
                }
            }
        }
        count
    }
}

/// The `k`-th reveal of a play starts on a cell without a mine and leads
/// from the `k`-th grid to the next.
pub open spec fn play_step(grids: Seq<Grid>, starts: Seq<int>, k: int) -> bool {
    grids[k].safe_at(starts[k]) && grids[k].revealed_from(starts[k], &grids[k + 1])
}

/// A play: a well-formed grid, and the grids that come of it by one reveal
/// after another, each on a cell without a mine.
pub open spec fn is_play(grids: Seq<Grid>, starts: Seq<int>) -> bool {
    &&& grids.len() == starts.len() + 1
    &&& grids[0].wf()
    &&& forall|k: int| 0 <= k < starts.len() ==> #[trigger] play_step(grids, starts, k)
}

/// The sum of what the first `k` reveals of a play return.
pub open spec fn revealed_total(grids: Seq<Grid>, starts: Seq<int>, k: nat) -> int
    decreases k,
{
    if k == 0 {
        0
    } else {
        revealed_total(grids, starts, (k - 1) as nat) + grids[k - 1].newly_revealed(
            starts[k - 1],
        ).len()
    }
}

/// Win detection. In a play, what the reveals have returned so far sums to the
/// number of cells without a mine that were covered at the start exactly
/// when none of them is covered any more: not before, and not only later.
pub proof fn lemma_play_accounting(grids: Seq<Grid>, starts: Seq<int>, k: nat)
    requires
        is_play(grids, starts),
        k <= starts.len(),
    ensures
        grids[k as int].wf(),
        grids[k as int].hidden_safe().finite(),
        grids[k as int].hidden_safe().len() == grids[0].hidden_safe().len() - revealed_total(
            grids,
            starts,
            k,
        ),
        revealed_total(grids, starts, k) <= grids[0].hidden_safe().len(),
        revealed_total(grids, starts, k) == grids[0].hidden_safe().len() <==> grids[k as int].hidden_safe()
            == Set::<int>::empty(),
    decreases k,
{
    let now = grids[k as int];
    now.lemma_hidden_safe_finite();
    if k > 0 {
        let before = grids[k - 1];
        lemma_play_accounting(grids, starts, (k - 1) as nat);
        assert(play_step(grids, starts, k - 1));
        before.lemma_reveal_accounting(starts[k - 1], &now);
        before.lemma_revealed_layout(starts[k - 1], &now);
        before.lemma_wf_layout(&now);
    }
    if now.hidden_safe().len() == 0 {
        assert(now.hidden_safe() =~= Set::<int>::empty());
    }
}

} // verus!
