//! The binary operators and the two bracket markers, with their precedence.

use vstd::prelude::*;

use crate::error::ParseError;

verus! {

/// An operator symbol of an expression.
#[derive(Clone, Copy, PartialEq, Eq, Structural, Debug)]
pub enum Operator {
    Sum,
    Subtraction,
    Multiplication,
    Division,
    OpenBracket,
    ClosedBracket,
}

/// The operator that a symbol stands for, if any.
pub open spec fn operator_of(s: Seq<char>) -> Option<Operator> {
    if s == seq!['+'] {
        Some(Operator::Sum)
    } else if s == seq!['-'] {
        Some(Operator::Subtraction)
    } else if s == seq!['*'] {
        Some(Operator::Multiplication)
    } else if s == seq!['/'] {
        Some(Operator::Division)
    } else if s == seq!['('] {
        Some(Operator::OpenBracket)
    } else if s == seq![')'] {
        Some(Operator::ClosedBracket)
    } else {
        None
    }
}

/// The symbol an operator is written with.
pub open spec fn symbol_of(op: Operator) -> Seq<char> {
    match op {
        Operator::Sum => seq!['+'],
        Operator::Subtraction => seq!['-'],
        Operator::Multiplication => seq!['*'],
        Operator::Division => seq!['/'],
        Operator::OpenBracket => seq!['('],
        Operator::ClosedBracket => seq![')'],
    }
}

/// One of the four arithmetic operators, as opposed to a bracket.
pub open spec fn is_arithmetic(op: Operator) -> bool {
    !(op is OpenBracket || op is ClosedBracket)
}

/// Binding strength: multiplication and division bind tighter than sum and
/// subtraction.
pub open spec fn precedence(op: Operator) -> nat {
    match op {
        Operator::Sum | Operator::Subtraction => 1,
        Operator::Multiplication | Operator::Division => 2,
        Operator::OpenBracket | Operator::ClosedBracket => 0,
    }
}

/// Whether `top`, waiting on the operator stack, is applied before
/// `incoming` is pushed: both arithmetic and `top` binds at least as tightly,
/// which makes chains of equal precedence group to the left.
pub open spec fn applies_before(top: Operator, incoming: Operator) -> bool {
    is_arithmetic(top) && is_arithmetic(incoming) && precedence(top) >= precedence(incoming)
}

/// Reading an operator's symbol gives back the operator.
pub proof fn lemma_symbol_round_trip(op: Operator)
    ensures
        operator_of(symbol_of(op)) == Some(op),
{
    let s = symbol_of(op);
    assert(s.len() == 1);
    assert(seq!['+'][0] == '+' && seq!['-'][0] == '-' && seq!['*'][0] == '*');
    assert(seq!['/'][0] == '/' && seq!['('][0] == '(' && seq![')'][0] == ')');
}

impl Operator {
    /// The operator written with the symbol `arg`; any other text is an
    /// `UnknownOperator`.
    pub fn build(arg: &str) -> (r: Result<Operator, ParseError>)
        ensures
            r == (match operator_of(arg@) {
                Some(op) => Ok(op),
                None => Err(ParseError::UnknownOperator),
            }),
    {
        if arg.unicode_len() != 1 {
            return Err(ParseError::UnknownOperator);
        }
        let c = arg.get_char(0);
        proof {
            assert(arg@ =~= seq![c]);
        }
        if c == '+' {
            Ok(Operator::Sum)
        } else if c == '-' {
            Ok(Operator::Subtraction)
        } else if c == '*' {
            Ok(Operator::Multiplication)
        } else if c == '/' {
            Ok(Operator::Division)
        } else if c == '(' {
            Ok(Operator::OpenBracket)
        } else if c == ')' {
            Ok(Operator::ClosedBracket)
        } else {
            Err(ParseError::UnknownOperator)
        }
    }

    /// Whether this operator, on top of the operator stack, is applied before
    /// `other` is pushed. Brackets never take precedence over anything.
    pub fn greater_prec(&self, other: &Operator) -> (r: bool)
        ensures
            r == applies_before(*self, *other),
    {
        match self {
            Operator::Sum | Operator::Subtraction => match other {
                Operator::Sum | Operator::Subtraction => true,
                _ => false,
            },
            Operator::Multiplication | Operator::Division => match other {
                Operator::OpenBracket | Operator::ClosedBracket => false,
                _ => true,
            },
            Operator::OpenBracket | Operator::ClosedBracket => false,
        }
    }

    /// Whether this is one of the four arithmetic operators.
    pub fn is_arithmetic(&self) -> (r: bool)
        ensures
            r == is_arithmetic(*self),
    {
        !(*self == Operator::OpenBracket || *self == Operator::ClosedBracket)
    }
}

} // verus!
