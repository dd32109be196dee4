//! Cryptarithms: puzzles in which the words of an addition stand for numbers,
//! each letter for one decimal digit.
//!
//! A puzzle is given as two groups of words. A solution gives every letter a
//! digit of its own, no word a leading zero, and makes the numbers of the left
//! group add up to the same total as the numbers of the right group.
//!
//! The search is left to the Z3 solver. What this crate states and proves is
//! what it hands to the solver, and that every assignment it returns solves
//! the puzzle: each answer of the solver is checked before it is returned.
//!
//! Letters are compared as they are written: `a` and `A` are two letters.
//!
//! - [`puzzle`] says what a puzzle and a solution are, [`numeral`] what a row
//!   of digits is worth.
//! - [`letters`] finds the letters of a puzzle, [`variables`] makes their
//!   unknowns, [`builder`] asserts the constraints into the solver, in the
//!   language of [`constraint`] and through the calls of [`engine`].
//! - [`driver`] solves a puzzle; [`checker`] tests an [`assignment`].
//! - [`encoding`] and [`laws`] hold what is proved of constraints and
//!   solutions in general, with the help of [`counting`].
//! - [`input`] and [`present`] read a side of a puzzle from a line and lay
//!   out a solution as lines of text, over [`text`] and [`characters`].
pub mod assignment;
pub mod builder;
pub mod characters;
pub mod checker;
pub mod constraint;
pub mod counting;
pub mod driver;
pub mod encoding;
pub mod engine;
pub mod input;
pub mod laws;
pub mod letters;
pub mod numeral;
pub mod present;
pub mod puzzle;
pub mod text;
pub mod variables;

pub use assignment::Assignment;
pub use driver::{solve_cryptarithmetic, Outcome, SolveError};
