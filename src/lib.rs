//! Conway's Game of Life on a toroidal grid, with its evolution rule proved
//! against a mathematical model.
pub mod grid;
pub mod laws;
pub mod universe;

pub use grid::{next_state, symbol, Cell, Grid};

pub use universe::{next_cell, GridError, Universe};
