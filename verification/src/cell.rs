//! One position of the board.

use vstd::prelude::*;

verus! {

/// What a cell holds: a mine, or the number of mines among its neighbours.
#[derive(Clone, Copy, Debug, PartialEq, Eq, Structural)]
pub enum CellData {
    Mine,
    MineNeighbor(usize),
}

/// The tool the player holds, and the mark it leaves on a cell.
#[derive(Clone, Copy, Debug, PartialEq, Eq, Structural)]
pub enum Flag {
    /// Uncover the cell.
    Dig,
    /// Tag the cell as a suspected mine.
    Tag,
}

/// A cell can be uncovered or marked whether it has a mine or not.
#[derive(Clone, Copy, Debug, PartialEq, Eq)]
pub struct Cell {
    pub is_mine: bool,
    pub is_clicked: bool,
    pub flag: Option<Flag>,
    pub data: CellData,
}

impl Cell {
    /// A covered, unmarked cell with the given content.
    pub fn covered(data: CellData) -> (cell: Cell)
        ensures
            cell == (Cell { is_mine: data is Mine, is_clicked: false, flag: None, data }),
    {
        let is_mine = match data {
            CellData::Mine => true,
            CellData::MineNeighbor(_) => false,
        };
        Cell { is_mine, is_clicked: false, flag: None, data }
    }

    /// The same cell, uncovered.
    pub open spec fn uncovered(self) -> Cell {
        Cell { is_clicked: true, ..self }
    }

    /// The same cell with another mark.
    pub open spec fn marked(self, flag: Option<Flag>) -> Cell {
        Cell { flag, ..self }
    }

    /// The mine flag agrees with the content.
    pub open spec fn consistent(self) -> bool {
        self.is_mine == (self.data is Mine)
    }
}

} // verus!
