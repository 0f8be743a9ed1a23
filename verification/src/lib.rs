//! A Reverse Polish Notation (RPN) calculator.
//!
//! A line of text is split on ASCII whitespace into tokens; each token is
//! either a signed base-10 integer literal or one of the four operator
//! symbols `+ - * /`. The evaluator runs over the tokens left to right with
//! an explicit value stack and returns the single remaining value, or a
//! typed error describing what went wrong.

pub mod eval;
pub mod laws;
pub mod numeric;
pub mod tokens;

pub use eval::{InputError, RpnCalculator};
pub use numeric::parse_i32;
pub use tokens::tokenize;
