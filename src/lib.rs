//! A 9x9 Sudoku library: the board, loading from the external row form, a
//! depth-first backtracking solver, batch solving, and the interactive
//! editor's state transitions.
pub mod grid;
pub mod rules;
pub mod solver;
pub mod batch;
pub mod loader;
pub mod editor;
pub mod theorems;

pub use batch::{collect_results, handle_solving, solve_batch};
pub use editor::{cell_value_from_input, digit_of_trimmed, BatchStatus, Effect, SudokuGrid, SudokuMessage};
pub use grid::{ArrayGrid, Grid};
pub use loader::fill_grid;
pub use solver::solve_grid;
