//! The errors that tokenizing and parsing report.

use vstd::prelude::*;

verus! {

/// Why a line could not be split into tokens.
#[derive(Clone, Copy, PartialEq, Eq, Structural, Debug)]
pub enum LexError {
    /// The token pattern did not compile.
    InvalidPattern,
}

/// Why a sequence of tokens could not be turned into an expression tree.
#[derive(Clone, Copy, PartialEq, Eq, Structural, Debug)]
pub enum ParseError {
    /// The tokens ran out where an operand was expected.
    MissingFactor,
    /// The tokens ran out where an operator was expected.
    MissingOperator,
    /// A token is neither an operand nor one of `+ - * / ( )`.
    UnknownOperator,
    /// A numeric-looking token is not a floating-point literal.
    InvalidNumber,
    /// `ans` was used before any result was computed.
    NoPriorResult,
    /// A `(` or a `)` has no partner.
    MismatchedParentheses,
    /// The parse ended with a shape other than a single finished tree.
    MalformedExpression,
}

} // verus!
