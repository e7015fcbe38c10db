//! Core logic engine of a Minesweeper game: a rectangular grid of cells with
//! randomized bomb placement, neighbor geometry, bomb-count queries, cell
//! reveal with flood-fill of zero-count regions, and flag toggling.
//!
//! The engine is meant to be embedded in a host (a UI layer) that owns
//! rendering and input handling; the host calls `Game::new` once and then the
//! query and mutation methods in response to user actions.

pub mod cell;
pub mod count;
pub mod grid;

pub use cell::{Cell, CellStatus, CellType};
pub use grid::Game;
