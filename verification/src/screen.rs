//! What the player is shown, as plain text for the shell to draw.

use vstd::prelude::*;
use vstd::string::*;
use crate::cell::{CellData, Flag};
use crate::coords::{index_of, lemma_index_coords};
use crate::display::{decimal, decimal_string};
use crate::game::{GameStatus, Model};

verus! {

/// A game as the player sees it.
pub struct Screen {
    /// A face for where the game stands.
    pub status: String,
    /// The density of the mines.
    pub difficulty: String,
    /// A sign for the tool in the player's hand.
    pub flag: String,
    /// The seconds played.
    pub timer: usize,
    /// The text of every cell, row by row.
    pub rows: Vec<Vec<String>>,
}

/// The face for where a game stands.
pub open spec fn status_face(status: GameStatus) -> Seq<char> {
    match status {
        GameStatus::Lost => "🤯"@,
        GameStatus::Won => "😎"@,
        GameStatus::Playing => "🤔"@,
    }
}

/// The sign for a tool.
pub open spec fn flag_face(flag: Flag) -> Seq<char> {
    match flag {
        Flag::Tag => "🚩"@,
        Flag::Dig => "⛏"@,
    }
}

impl Model {
    /// The text of cell `idx`: what it holds once it is uncovered or the
    /// game is lost, and until then its mark.
    pub open spec fn cell_label(&self, idx: int) -> Seq<char> {
        let cell = self.state.grid_vec@[idx];
        if self.play_status is Lost || cell.is_clicked {
            match cell.data {
                CellData::Mine => "💣"@,
                CellData::MineNeighbor(cnt) => decimal(cnt as nat),
            }
        } else {
            match cell.flag {
                Some(flag) => flag_face(flag),
                None => "❓"@,
            }
        }
    }

    /// `labels` are the texts of the cells of row `row`, from left to right.
    pub open spec fn row_labels(&self, row: int, labels: Seq<String>) -> bool {
        &&& labels.len() == self.state.n_cols
        &&& forall|col: int|
            0 <= col < self.state.n_cols ==> (#[trigger] labels[col])@ == self.cell_label(
                index_of(row, col, self.state.n_cols as int),
            )
    }

    /// The text for the density of the mines.
    pub open spec fn difficulty_label(&self) -> Seq<char> {
        "Mines/Cells: 1/"@ + decimal(self.selected_difficulty.spec_ratio() as nat)
    }

    /// Returns the text for a single grid cell.
    pub fn view_cell(&self, cell_idx: usize) -> (label: String)
        requires
            cell_idx < self.state.size(),
        ensures
            label@ == self.cell_label(cell_idx as int),
    {
        let cell = self.state.grid_vec[cell_idx];
        if self.play_status == GameStatus::Lost || cell.is_clicked {
            match cell.data {
                CellData::Mine => String::from_str("💣"),
                CellData::MineNeighbor(cnt) => decimal_string(cnt),
            }
        } else {
            match cell.flag {
                Some(Flag::Tag) => String::from_str("🚩"),
                Some(Flag::Dig) => String::from_str("⛏"),
                None => String::from_str("❓"),
            }
        }
    }

    /// Returns the texts for a row of cells.
    pub fn view_row(&self, row_idx: usize) -> (labels: Vec<String>)
        requires
            self.state.well_shaped(),
            row_idx < self.state.n_rows,
        ensures
            self.row_labels(row_idx as int, labels@),
    {
        let mut labels: Vec<String> = Vec::new();
        let mut col: usize = 0;
        while col < self.state.n_cols
            invariant
                self.state.well_shaped(),
                row_idx < self.state.n_rows,
                col <= self.state.n_cols,
                labels@.len() == col,
                forall|c: int|
                    0 <= c < col ==> (#[trigger] labels@[c])@ == self.cell_label(
                        index_of(row_idx as int, c, self.state.n_cols as int),
                    ),
            decreases self.state.n_cols - col,
        {
            proof {
                lemma_index_coords(
                    row_idx as int,
                    col as int,
                    self.state.n_rows as int,
                    self.state.n_cols as int,
                );
            }
            let size: usize = self.state.grid_vec.len();
            match crate::grid::Grid::xy_to_idx((row_idx, col), self.state.n_rows, self.state.n_cols) {
                Some(idx) => {
                    labels.push(self.view_cell(idx));
                },
                None => {
                    proof {
                        assert(false);
                    }
                },
            }
            col += 1;
        }
        labels
    }

    /// Returns what the player is shown.
    pub fn screen(&self) -> (screen: Screen)
        requires
            self.state.well_shaped(),
        ensures
            screen.status@ == status_face(self.play_status),
            screen.difficulty@ == self.difficulty_label(),
            screen.flag@ == flag_face(self.selected_flag),
            screen.timer == self.elapsed_time,
            screen.rows@.len() == self.state.n_rows,
            forall|row: int|
                0 <= row < self.state.n_rows ==> self.row_labels(row, (#[trigger] screen.rows@[row])@),
    {
        let status = match self.play_status {
            GameStatus::Lost => String::from_str("🤯"),
            GameStatus::Won => String::from_str("😎"),
            GameStatus::Playing => String::from_str("🤔"),
        };
        let mut difficulty = String::from_str("Mines/Cells: 1/");
        let ratio = decimal_string(self.selected_difficulty.ratio());
        difficulty.append(ratio.as_str());
        let flag = match self.selected_flag {
            Flag::Tag => String::from_str("🚩"),
            Flag::Dig => String::from_str("⛏"),
        };
        let mut rows: Vec<Vec<String>> = Vec::new();
        let mut row: usize = 0;
        while row < self.state.n_rows
            invariant
                self.state.well_shaped(),
                row <= self.state.n_rows,
                rows@.len() == row,
                forall|r: int| 0 <= r < row ==> self.row_labels(r, (#[trigger] rows@[r])@),
            decreases self.state.n_rows - row,
        {
            rows.push(self.view_row(row));
            row += 1;
        }
        Screen { status, difficulty, flag, timer: self.elapsed_time, rows }
    }
}

} // verus!
