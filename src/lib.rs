//! An exact calculator for expressions in Reverse Polish Notation.
//!
//! Tokens are parsed into [`Element`]s, folded through an operand stack by
//! [`evaluate`], and the resulting [`Value`] is rendered with
//! [`Value::to_text`]. Integers stay integers under `+`, `-` and `*`; every
//! division, and every operation that involves a fraction, is carried out on
//! exact rationals in lowest terms.

pub mod error;
pub mod eval;
pub mod fraction;
pub mod laws;
pub mod text;
pub mod value;

pub use error::{Error, EvalError, ParseError};
pub use fraction::Fraction;
pub use value::{Value, FRACTION_DIGITS};
pub use eval::{calculate, evaluate, parse_elements, Element, Op, OperandStack};
