//! The expression tree that parsing builds, its mathematical model, and the
//! resolution of operand tokens.

use vstd::prelude::*;

use crate::error::ParseError;
use crate::operators::{is_arithmetic, Operator};
use crate::text::{is_answer, is_answer_token, is_float_literal, is_float_literal_text};

verus! {

/// An operand of an expression: a number literal still in its source text,
/// a value already computed (the previous result, for `ans`), or a subtree.
#[derive(Debug, PartialEq)]
pub enum Factor<R> {
    Literal(String),
    Value(R),
    Expression(Box<Expression<R>>),
}

/// A binary node: two operands joined by an operator.
#[derive(Debug, PartialEq)]
pub struct Expression<R> {
    pub fact1: Factor<R>,
    pub fact2: Factor<R>,
    pub operator: Operator,
}

/// The mathematical model of a factor: literal text, a value, or a node.
pub enum Tree<R> {
    Literal(Seq<char>),
    Value(R),
    Node(Box<Tree<R>>, Operator, Box<Tree<R>>),
}

/// The model of a factor.
pub open spec fn tree_of<R>(f: Factor<R>) -> Tree<R>
    decreases f,
{
    match f {
        Factor::Literal(s) => Tree::Literal(s@),
        Factor::Value(v) => Tree::Value(v),
        Factor::Expression(e) => Tree::Node(
            Box::new(tree_of(e.fact1)),
            e.operator,
            Box::new(tree_of(e.fact2)),
        ),
    }
}

impl<R> View for Factor<R> {
    type V = Tree<R>;

    open spec fn view(&self) -> Tree<R> {
        tree_of(*self)
    }
}

impl<R> View for Expression<R> {
    type V = Tree<R>;

    open spec fn view(&self) -> Tree<R> {
        Tree::Node(Box::new(self.fact1@), self.operator, Box::new(self.fact2@))
    }
}

/// A node of two subtrees.
pub open spec fn node<R>(left: Tree<R>, op: Operator, right: Tree<R>) -> Tree<R> {
    Tree::Node(Box::new(left), op, Box::new(right))
}

/// A tree ready for evaluation: every node joins two subtrees with an
/// arithmetic operator, every literal is a floating-point literal, and every
/// value is the previous result `res`.
pub open spec fn well_built<R>(t: Tree<R>, res: Option<R>) -> bool
    decreases t,
{
    match t {
        Tree::Literal(s) => is_float_literal(s),
        Tree::Value(v) => res == Some(v),
        Tree::Node(l, op, r) => is_arithmetic(op) && well_built(*l, res) && well_built(*r, res),
    }
}

/// The operand that a token stands for: `ans` (in any case) resolves to the
/// previous result, which must exist; any other token must be a
/// floating-point literal.
pub open spec fn resolve<R>(token: Seq<char>, res: Option<R>) -> Result<Tree<R>, ParseError> {
    if is_answer(token) {
        match res {
            Some(v) => Ok(Tree::Value(v)),
            None => Err(ParseError::NoPriorResult),
        }
    } else if is_float_literal(token) {
        Ok(Tree::Literal(token))
    } else {
        Err(ParseError::InvalidNumber)
    }
}

/// The model of a result that carries a factor.
pub open spec fn factor_result<R>(r: Result<Factor<R>, ParseError>) -> Result<Tree<R>, ParseError> {
    match r {
        Ok(f) => Ok(f@),
        Err(e) => Err(e),
    }
}

impl<R> Expression<R> {
    /// A node joining `fact1` and `fact2` (in that order) with `operator`.
    pub fn new(pair: (Factor<R>, Factor<R>), operator: Operator) -> (r: Self)
        ensures
            r.fact1 == pair.0,
            r.fact2 == pair.1,
            r.operator == operator,
            r@ == node(pair.0@, operator, pair.1@),
    {
        let (fact1, fact2) = pair;
        Expression { fact1, fact2, operator }
    }

    /// Resolves an operand token against the previous result `res`: a
    /// missing token is `MissingFactor`; `ans` gives `res`, or
    /// `NoPriorResult` when there is none; a floating-point literal gives
    /// itself; anything else is `InvalidNumber`.
    pub fn parse_factor(factor: Option<&String>, res: Option<R>) -> (r: Result<Factor<R>, ParseError>)
        where
            R: Copy,
        ensures
            factor is None ==> r == Err::<Factor<R>, ParseError>(ParseError::MissingFactor),
            factor is Some ==> factor_result(r) == resolve(factor->0@, res),
    {
        let fact = match factor {
            Some(arg) => arg,
            None => return Err(ParseError::MissingFactor),
        };
        if is_answer_token(fact.as_str()) {
            return match res {
                Some(val) => Ok(Factor::Value(val)),
                None => Err(ParseError::NoPriorResult),
            };
        }
        if is_float_literal_text(fact.as_str()) {
            Ok(Factor::Literal(fact.clone()))
        } else {
            Err(ParseError::InvalidNumber)
        }
    }
}

} // verus!
