use vstd::prelude::*;

verus! {

/// Why a number could not be read from a token.
#[derive(Clone, Copy, Debug, PartialEq, Eq, Structural)]
pub enum ParseError {
    /// The token is neither an operator nor a numeral.
    Malformed,
    /// The token is a numeral, but its numerator or denominator does not fit in 64 bits.
    OutOfRange,
}

/// A failure while folding elements through the operand stack.
#[derive(Clone, Copy, Debug, PartialEq, Eq, Structural)]
pub enum EvalError {
    /// An operator, or the final result, found the operand stack empty.
    OperandUnavailable,
    /// The divisor of a division is zero.
    DivisionByZero,
    /// The result, or an intermediate product, does not fit in 64 bits.
    Overflow,
}

/// Every failure of the calculator: reading a token or evaluating the expression.
#[derive(Clone, Copy, Debug, PartialEq, Eq, Structural)]
pub enum Error {
    Parse(ParseError),
    Eval(EvalError),
}

} // verus!
