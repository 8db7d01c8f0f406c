//! The logic of a Minesweeper puzzle: coordinates on a rectangular grid,
//! mine placement with adjacency counts, the flood-fill reveal, and the
//! state of play around them.

pub mod cell;
pub mod coords;
pub mod counting;
pub mod display;
pub mod error;
pub mod flood;
pub mod game;
pub mod generate;
pub mod grid;
pub mod sample;
pub mod screen;

pub use cell::{Cell, CellData, Flag};
pub use error::GridError;
pub use game::{Effect, GameStatus, Model, Msg, Play, Update};
pub use generate::Difficulty;
pub use grid::{Board, Grid};
pub use screen::Screen;
