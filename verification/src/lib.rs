//! Deductive solver for the Star Battle puzzle.
//!
//! A puzzle is a grid partitioned into regions. Exactly `K` stars go in every
//! line, every column and every region, and no two stars touch, not even
//! diagonally. The solver never guesses: it looks for a deduction that forces
//! the value of some cells, applies it, and goes on until the grid is solved
//! or no deduction is found.
//!
//! The parts, from the text of a puzzle to its solution:
//!
//! * [`GridParser`] reads the text of a puzzle, one character for each cell,
//!   and checks that each region is in one piece;
//! * [`GridHandler`] describes the puzzle: its size, its regions, the number
//!   of stars to place. It never changes;
//! * [`Grid`] holds what is known of each cell ([`CellValue`]), and changes by
//!   [`GridAction`]s;
//! * [`GridSurfer`] names a zone of the grid, and [`GridHandler::surfer`]
//!   lists its cells;
//! * [`check_bad_rules`] tells whether a grid breaks a rule ([`BadRuleError`]);
//! * [`get_good_rule`] finds the next deduction ([`GoodRule`]), and [`solve`]
//!   applies deductions for as long as one is found.
//!
//! Every function states what it returns, and is proved to return it. Among
//! what is proved: on a grid that can still be completed into a solution, no
//! deduction rules that solution out; and each deduction gives a value to at
//! least one cell that was unknown, so the solver always ends.

use vstd::prelude::*;

pub mod cell_value;
pub mod grid;
pub mod grid_action;
pub mod grid_bad_ruler;
pub mod grid_cell;
pub mod grid_good_ruler;
pub mod grid_handler;
pub mod grid_parser;
pub mod grid_parser_checker;
pub mod grid_surfer;
pub mod line_column;
pub mod sequences;
pub mod text;

pub use cell_value::CellValue;
pub use grid::Grid;
pub use grid_action::{display_vec_actions, GridAction};
pub use grid_bad_ruler::{check_bad_rules, BadRuleError};
pub use grid_cell::GridCell;
pub use grid_good_ruler::{get_good_rule, solve, Deduction, GoodRule};
pub use grid_handler::GridHandler;
pub use grid_parser::{GridParseError, GridParser};
pub use grid_parser_checker::Checker;
pub use grid_surfer::GridSurfer;
pub use line_column::{display_column, display_line, LineColumn};

verus! {

/// A region is identified by a character.
pub type Region = char;

} // verus!
