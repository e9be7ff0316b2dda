//! A solver for 9×9 Sudoku puzzles.
//!
//! * [`grid`] is the mathematical model: cells, houses and what makes a grid consistent.
//! * [`text`] is the textual form of a grid, 81 digits with `'0'` for an empty cell.
//! * [`board`] holds [`Board`], a grid with one bitset per row, column and block.
//! * [`solver`] holds [`solve`], the backtracking search for the first solution.
//! * [`record`] checks records of a puzzle and its expected solution against the solver.

pub mod grid;
pub mod text;
pub mod board;
pub mod solver;
pub mod record;

pub use board::{Board, BoardConversionError};
pub use record::{collect_records, split_record, try_solve, Verdict};
pub use solver::solve;
