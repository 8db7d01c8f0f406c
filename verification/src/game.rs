//! The game around the grid: what each event does to the state of play, and
//! what it asks of the shell that shows the game and keeps its clock.

use vstd::prelude::*;
use crate::cell::{CellData, Flag};
use crate::error::GridError;
use crate::generate::{mine_count_for, valid_dimensions, Difficulty, MAX_CELLS};
use crate::grid::{Board, Grid};

verus! {

/// The number of rows of the standard board.
pub const NUMBER_OF_ROWS: usize = 10;

/// The number of columns of the standard board.
pub const NUMBER_OF_COLUMNS: usize = 10;

/// An event of the game.
#[derive(Clone, Copy, Debug, PartialEq, Eq)]
pub enum Msg {
    /// The player clicked the cell with this index.
    Clicked(usize),
    /// The cell with this index gets this mark.
    Flagged((usize, Flag)),
    /// The player takes the other tool.
    ChangeFlag,
    /// A new game at the same difficulty.
    Reset,
    /// The player dug up a mine.
    Loss,
    /// The last cell without a mine is uncovered.
    Win,
    /// A second has passed.
    IncrementTimer,
    /// A new game at the next difficulty.
    ChangeDifficulty,
}

/// Where the game stands. `Lost` and `Won` end it.
#[derive(Clone, Copy, Debug, PartialEq, Eq, Structural)]
pub enum GameStatus {
    Playing,
    Lost,
    Won,
}

/// What the shell has to do after an event.
#[derive(Clone, Copy, Debug, PartialEq, Eq)]
pub enum Effect {
    /// Nothing.
    Nothing,
    /// Hand this event to the game next.
    Send(Msg),
    /// Stop the clock.
    StopTimer,
    /// Start the clock anew.
    RestartTimer,
}

/// The outcome of an event that the game took.
#[derive(Clone, Copy, Debug, PartialEq, Eq)]
pub struct Update {
    /// Whether what the player sees has changed.
    pub should_render: bool,
    /// What the shell has to do.
    pub effect: Effect,
}

/// The state of a game.
pub struct Model {
    pub state: Grid,
    pub play_status: GameStatus,
    pub selected_flag: Flag,
    pub elapsed_time: usize,
    pub empty_cells_left: usize,
    pub selected_difficulty: Difficulty,
}

/// A game as a mathematical value.
pub struct Play {
    pub board: Board,
    pub status: GameStatus,
    pub tool: Flag,
    pub elapsed: int,
    pub left: int,
    pub difficulty: Difficulty,
}

impl View for Model {
    type V = Play;

    open spec fn view(&self) -> Play {
        Play {
            board: self.state@,
            status: self.play_status,
            tool: self.selected_flag,
            elapsed: self.elapsed_time as int,
            left: self.empty_cells_left as int,
            difficulty: self.selected_difficulty,
        }
    }
}

impl Model {
    /// The board is well formed and of a shape that a new game can be dealt
    /// on, and the counter holds the number of cells without a mine that are
    /// still covered.
    pub open spec fn wf(&self) -> bool {
        &&& self.state.wf()
        &&& valid_dimensions(self.state.n_rows as int, self.state.n_cols as int)
        &&& self.empty_cells_left == self.state.hidden_safe().len()
    }

    /// Every cell without a mine is uncovered.
    pub open spec fn cleared(&self) -> bool {
        self.state.hidden_safe() == Set::<int>::empty()
    }

    /// `after` differs from this state in the board and its counter at most.
    pub open spec fn same_controls(&self, after: &Model) -> bool {
        &&& after.play_status == self.play_status
        &&& after.selected_flag == self.selected_flag
        &&& after.elapsed_time == self.elapsed_time
        &&& after.selected_difficulty == self.selected_difficulty
    }

    /// A click on cell `idx` digs: the player holds the digging tool, the
    /// game is on, and the cell is still covered.
    pub open spec fn digs(&self, idx: int) -> bool {
        self.selected_flag is Dig && self.play_status is Playing && self.state.hidden_at(idx)
    }

    /// What a click on cell `idx` does.
    pub open spec fn clicked(&self, idx: int, after: &Model, done: Result<Update, GridError>) -> bool {
        if !(0 <= idx < self.state.size()) {
            done == Err::<Update, GridError>(GridError::OutOfRange) && after@ == self@
        } else if self.selected_flag is Tag {
            &&& done == Ok::<Update, GridError>(
                Update { should_render: true, effect: Effect::Nothing },
            )
            &&& self.state.marked_from(idx, Some(Flag::Tag), &after.state)
            &&& self.same_controls(after)
            &&& after.empty_cells_left == self.empty_cells_left
        } else if !self.digs(idx) {
            &&& done == Ok::<Update, GridError>(
                Update { should_render: false, effect: Effect::Nothing },
            )
            &&& after@ == self@
        } else if self.state.mine_at(idx) {
            &&& done == Ok::<Update, GridError>(
                Update { should_render: true, effect: Effect::Send(Msg::Loss) },
            )
            &&& after@ == self@
        } else {
            &&& self.state.revealed_from(idx, &after.state)
            &&& self.same_controls(after)
            &&& after.empty_cells_left == self.empty_cells_left - self.state.newly_revealed(
                idx,
            ).len()
            &&& done == Ok::<Update, GridError>(
                Update {
                    should_render: true,
                    effect: if after.cleared() {
                        Effect::Send(Msg::Win)
                    } else {
                        Effect::Nothing
                    },
                },
            )
        }
    }

    /// What giving cell `idx` the mark `flag` does.
    pub open spec fn flagged(
        &self,
        idx: int,
        flag: Flag,
        after: &Model,
        done: Result<Update, GridError>,
    ) -> bool {
        if !(0 <= idx < self.state.size()) {
            done == Err::<Update, GridError>(GridError::OutOfRange) && after@ == self@
        } else {
            &&& done == Ok::<Update, GridError>(
                Update { should_render: true, effect: Effect::Nothing },
            )
            &&& self.state.marked_from(idx, Some(flag), &after.state)
            &&& self.same_controls(after)
            &&& after.empty_cells_left == self.empty_cells_left
        }
    }

    /// `after` is a new game at `difficulty` on a board of the same shape.
    pub open spec fn dealt(
        &self,
        difficulty: Difficulty,
        after: &Model,
        done: Result<Update, GridError>,
    ) -> bool {
        &&& done == Ok::<Update, GridError>(
            Update { should_render: true, effect: Effect::RestartTimer },
        )
        &&& after.play_status is Playing
        &&& after.selected_flag == self.selected_flag
        &&& after.elapsed_time == 0
        &&& after.selected_difficulty == difficulty
        &&& after.state.n_rows == self.state.n_rows
        &&& after.state.n_cols == self.state.n_cols
        &&& after.state.fresh()
        &&& after.state.mines().len() == mine_count_for(
            self.state.n_rows as int,
            self.state.n_cols as int,
            difficulty,
        )
        &&& after.empty_cells_left == after.state.size() - after.state.mines().len()
    }

    /// `after` is this state with the game ended as `status`.
    pub open spec fn ended(
        &self,
        status: GameStatus,
        after: &Model,
        done: Result<Update, GridError>,
    ) -> bool {
        &&& done == Ok::<Update, GridError>(
            Update { should_render: true, effect: Effect::StopTimer },
        )
        &&& after.play_status == status
        &&& after.state@ == self.state@
        &&& after.selected_flag == self.selected_flag
        &&& after.elapsed_time == self.elapsed_time
        &&& after.empty_cells_left == self.empty_cells_left
        &&& after.selected_difficulty == self.selected_difficulty
    }

    /// What an event does to the state of the game, and what it hands back.
    pub open spec fn step(&self, msg: Msg, after: &Model, done: Result<Update, GridError>) -> bool {
        match msg {
            Msg::Clicked(idx) => self.clicked(idx as int, after, done),
            Msg::Flagged((idx, flag)) => self.flagged(idx as int, flag, after, done),
            Msg::Loss => self.ended(GameStatus::Lost, after, done),
            Msg::Win => self.ended(GameStatus::Won, after, done),
            Msg::Reset => self.dealt(self.selected_difficulty, after, done),
            Msg::ChangeDifficulty => self.dealt(self.selected_difficulty.spec_next(), after, done),
            Msg::ChangeFlag => {
                &&& done == Ok::<Update, GridError>(
                    Update { should_render: true, effect: Effect::Nothing },
                )
                &&& after.selected_flag == (match self.selected_flag {
                    Flag::Dig => Flag::Tag,
                    Flag::Tag => Flag::Dig,
                })
                &&& after.state@ == self.state@
                &&& after.play_status == self.play_status
                &&& after.elapsed_time == self.elapsed_time
                &&& after.empty_cells_left == self.empty_cells_left
                &&& after.selected_difficulty == self.selected_difficulty
            },
            Msg::IncrementTimer => {
                &&& done == Ok::<Update, GridError>(
                    Update { should_render: true, effect: Effect::Nothing },
                )
                &&& after.elapsed_time == if self.elapsed_time < usize::MAX {
                    self.elapsed_time + 1
                } else {
                    usize::MAX as int
                }
                &&& after.state@ == self.state@
                &&& after.play_status == self.play_status
                &&& after.selected_flag == self.selected_flag
                &&& after.empty_cells_left == self.empty_cells_left
                &&& after.selected_difficulty == self.selected_difficulty
            },
        }
    }

    /// The counter of a game stands at zero exactly when every cell without
    /// a mine is uncovered.
    pub proof fn lemma_counter_exact(&self)
        requires
            self.wf(),
        ensures
            self.empty_cells_left == 0 <==> self.cleared(),
    {
        self.state.lemma_hidden_safe_finite();
        if self.empty_cells_left == 0 {
            assert(self.state.hidden_safe() =~= Set::<int>::empty());
        }
    }

    /// A new game on a freshly generated board of the given shape: nothing
    /// uncovered, the digging tool in hand, the clock at zero. Fails with
    /// `InvalidDimensions` where no game can be dealt on that shape.
    pub fn create(n_rows: usize, n_cols: usize, difficulty: Difficulty) -> (made: Result<
        Model,
        GridError,
    >)
        ensures
            made is Ok <==> valid_dimensions(n_rows as int, n_cols as int),
            made matches Err(e) ==> e == GridError::InvalidDimensions,
            made matches Ok(model) ==> {
                &&& model.wf()
                &&& model.state.n_rows == n_rows
                &&& model.state.n_cols == n_cols
                &&& model.state.fresh()
                &&& model.state.mines().len() == mine_count_for(
                    n_rows as int,
                    n_cols as int,
                    difficulty,
                )
                &&& model.empty_cells_left == n_rows * n_cols - model.state.mines().len()
                &&& model.play_status is Playing
                &&& model.selected_flag is Dig
                &&& model.elapsed_time == 0
                &&& model.selected_difficulty == difficulty
            },
    {
        let state = match Grid::generate(n_rows, n_cols, difficulty) {
            Ok(state) => state,
            Err(e) => {
                return Err(e);
            },
        };
        let empty_cells_left: usize = state.grid_vec.len() - state.mine_count();
        proof {
            state.lemma_fresh_safe_count();
        }
        Ok(
            Model {
                state,
                play_status: GameStatus::Playing,
                selected_flag: Flag::Dig,
                elapsed_time: 0,
                empty_cells_left,
                selected_difficulty: difficulty,
            },
        )
    }

    /// A game on the given board as it stands, with the digging tool in hand
    /// and the clock at zero. Fails with `InvalidDimensions` where no new
    /// game could be dealt on a board of that shape.
    pub fn with_grid(state: Grid, difficulty: Difficulty) -> (made: Result<Model, GridError>)
        requires
            state.wf(),
        ensures
            made is Ok <==> valid_dimensions(state.n_rows as int, state.n_cols as int),
            made matches Err(e) ==> e == GridError::InvalidDimensions,
            made matches Ok(model) ==> {
                &&& model.wf()
                &&& model.state@ == state@
                &&& model.play_status is Playing
                &&& model.selected_flag is Dig
                &&& model.elapsed_time == 0
                &&& model.selected_difficulty == difficulty
            },
    {
        if state.n_rows == 0 || state.n_cols == 0 || state.grid_vec.len() < 2
            || state.grid_vec.len() > MAX_CELLS {
            return Err(GridError::InvalidDimensions);
        }
        let empty_cells_left: usize = state.safe_cells_left();
        Ok(
            Model {
                state,
                play_status: GameStatus::Playing,
                selected_flag: Flag::Dig,
                elapsed_time: 0,
                empty_cells_left,
                selected_difficulty: difficulty,
            },
        )
    }

    /// Deals a new game at `difficulty` on a board of the same shape.
    fn deal(&mut self, difficulty: Difficulty) -> (done: Result<Update, GridError>)
        requires
            old(self).wf(),
        ensures
            final(self).wf(),
            old(self).dealt(difficulty, final(self), done),
    {
        match Grid::generate(self.state.n_rows, self.state.n_cols, difficulty) {
            Ok(state) => {
                proof {
                    state.lemma_fresh_safe_count();
                }
                self.empty_cells_left = state.grid_vec.len() - state.mine_count();
                self.state = state;
                self.play_status = GameStatus::Playing;
                self.selected_difficulty = difficulty;
                self.elapsed_time = 0;
                Ok(Update { should_render: true, effect: Effect::RestartTimer })
            },
            Err(e) => {
                proof {
                    assert(false);
                }
                Err(e)
            },
        }
    }

    /// Handles a click on the cell at `idx`.
    fn click(&mut self, idx: usize) -> (done: Result<Update, GridError>)
        requires
            old(self).wf(),
        ensures
            final(self).wf(),
            old(self).clicked(idx as int, final(self), done),
    {
        if idx >= self.state.grid_vec.len() {
            return Err(GridError::OutOfRange);
        }
        match self.selected_flag {
            Flag::Dig => {
                // only reveal a cell if it has not been clicked
                // and the game is still progressing
                if !self.state.grid_vec[idx].is_clicked && self.play_status == GameStatus::Playing {
                    if let CellData::Mine = self.state.grid_vec[idx].data {
                        return Ok(
                            Update { should_render: true, effect: Effect::Send(Msg::Loss) },
                        );
                    }
                    let clicked_cells_count = self.state.reveal_empty_cells(idx);
                    proof {
                        old(self).state.lemma_reveal_accounting(idx as int, &self.state);
                    }
                    self.empty_cells_left = self.empty_cells_left - clicked_cells_count;
                    let effect = if self.empty_cells_left == 0 {
                        Effect::Send(Msg::Win)
                    } else {
                        Effect::Nothing
                    };
                    proof {
                        self.state.lemma_hidden_safe_finite();
                        if self.empty_cells_left == 0 {
                            assert(self.state.hidden_safe() =~= Set::<int>::empty());
                        }
                    }
                    Ok(Update { should_render: true, effect })
                } else {
                    Ok(Update { should_render: false, effect: Effect::Nothing })
                }
            },
            Flag::Tag => {
                let marked = self.state.set_flag(idx, Some(Flag::Tag));
                Ok(Update { should_render: true, effect: Effect::Nothing })
            },
        }
    }

    /// Takes an event of the game: changes the state of play as the event
    /// asks, and says whether to draw the game again and what the shell has to do
    /// next. Fails with `OutOfRange`, and changes nothing, where the event
    /// names a cell that the board does not have.
    pub fn update(&mut self, msg: Msg) -> (done: Result<Update, GridError>)
        requires
            old(self).wf(),
        ensures
            final(self).wf(),
            old(self).step(msg, final(self), done),
    {
        match msg {
            Msg::Clicked(idx) => self.click(idx),
            Msg::Loss => {
                self.play_status = GameStatus::Lost;
                Ok(Update { should_render: true, effect: Effect::StopTimer })
            },
            Msg::Reset => self.deal(self.selected_difficulty),
            Msg::Flagged((idx, flag)) => {
                match self.state.set_flag(idx, Some(flag)) {
                    Ok(()) => Ok(Update { should_render: true, effect: Effect::Nothing }),
                    Err(e) => Err(e),
                }
            },
            Msg::ChangeFlag => {
                match self.selected_flag {
                    Flag::Dig => self.selected_flag = Flag::Tag,
                    Flag::Tag => self.selected_flag = Flag::Dig,
                }
                Ok(Update { should_render: true, effect: Effect::Nothing })
            },
            Msg::IncrementTimer => {
                if self.elapsed_time < usize::MAX {
                    self.elapsed_time = self.elapsed_time + 1;
                }
                Ok(Update { should_render: true, effect: Effect::Nothing })
            },
            Msg::Win => {
                self.play_status = GameStatus::Won;
                Ok(Update { should_render: true, effect: Effect::StopTimer })
            },
            Msg::ChangeDifficulty => self.deal(self.selected_difficulty.next()),
        }
    }
}

} // verus!
