//! The failures that the library reports.

use vstd::prelude::*;

verus! {

/// Why a grid could not be made, or a cell not be found.
#[derive(Clone, Copy, Debug, PartialEq, Eq, Structural)]
pub enum GridError {
    /// The grid would have no row or no column, too few cells to hold both a
    /// mine and a cell without one, or more cells than a grid may have.
    InvalidDimensions,
    /// An index is not the index of a cell of the grid.
    OutOfRange,
}

} // verus!
