//! A solver for the numbers round of the Countdown game: find a postfix
//! arithmetic expression over a handful of numbers that evaluates to a target.

pub mod enumerate;
pub mod expression;
pub mod input;
pub mod render;
pub mod search;

pub use expression::{compute, Element};
pub use input::{parse_arguments, parse_number, InputError, Puzzle, EX_USAGE};
pub use render::{render, report};
pub use search::{operator_slots, search_length, search_slots, solve};
