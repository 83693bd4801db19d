//! Parsing of tabletop dice notation (`"2d20kh1 + 3d6!! - floor(4d10)"`) into an
//! expression tree and the ordered list of dice rolls that it contains. Nothing
//! is rolled: the result says what to roll and how the results combine.
//!
//! [`parse`] is proved to return exactly what [`grammar::spec_parse`] describes;
//! [`laws`] states and proves what holds of every parse.
mod dice;
mod expr;
pub mod grammar;
pub mod laws;
mod parser;

pub use dice::{DiceRoll, Exploding, KeepDrop};
pub use expr::{Expr, ExprView, ParseError, dice_leaves};
pub use parser::parse;
