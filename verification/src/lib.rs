//! A concurrent minesweeper game engine: a grid of cells revealed by
//! a verified flood fill with a first-move safety guarantee, a parser
//! for the moves an untrusted external program prints, and a session
//! store that pairs each running game with its uploaded decision
//! program and removes it — artifact and all, exactly once — when the
//! game ends.

pub mod grid;
pub mod provider;
pub mod render;
pub mod store;
pub mod text;

pub use grid::MinesweeperCellType;
pub use grid::MinesweeperGrid;
pub use grid::Outcome;
