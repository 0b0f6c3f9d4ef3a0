//! The steps a session takes on one input line: split it into tokens and
//! spot the words that end the session, parse the tokens into a tree, and
//! rebuild the expression's text for the history.

use vstd::prelude::*;
use vstd::string::StringExecFns;

use crate::error::{LexError, ParseError};
use crate::expressions::{node, Expression, Factor, Tree};
use crate::operators::Operator;
use crate::parser::{parse, shunting_yard_algorithm};
use crate::tokenizer::{
    build_tokenised_string, compiles, contains_word, has_word, regex_matches, Pattern, REGEX_STRING,
};
use crate::text::texts;

verus! {

broadcast use Seq::lemma_flatten_push;

/// The words that end a session.
pub open spec fn quit_word() -> Seq<char> {
    seq!['q', 'u', 'i', 't']
}

pub open spec fn exit_word() -> Seq<char> {
    seq!['e', 'x', 'i', 't']
}

/// The tokens hold `quit` or `exit`, in any case.
pub open spec fn asks_to_stop(tokens: Seq<Seq<char>>) -> bool {
    has_word(tokens, quit_word()) || has_word(tokens, exit_word())
}

/// Splits an input line into tokens with the standard pattern, and tells
/// whether they ask to end the session.
pub fn parse_buffer(buf: &String) -> (r: Result<(Vec<String>, bool), LexError>)
    ensures
        r is Ok <==> compiles(REGEX_STRING@),
        r matches Ok((tokens, stop)) ==> texts(tokens@) == regex_matches(REGEX_STRING@, buf@)
            && stop == asks_to_stop(texts(tokens@)),
        r matches Err(e) ==> e == LexError::InvalidPattern,
{
    let rgx = match Pattern::new(REGEX_STRING) {
        Ok(p) => p,
        Err(e) => return Err(e),
    };
    let str_tok = build_tokenised_string(&rgx, buf.as_str());
    proof {
        reveal_strlit("quit");
        reveal_strlit("exit");
        assert("quit"@ =~= quit_word());
        assert("exit"@ =~= exit_word());
    }
    let stop = contains_word(&str_tok, "quit") || contains_word(&str_tok, "exit");
    Ok((str_tok, stop))
}

/// The root of a parsed tree as a node: a tree that is a single operand
/// becomes that operand times one.
pub open spec fn as_node<R>(t: Tree<R>) -> Tree<R> {
    match t {
        Tree::Node(_, _, _) => t,
        _ => node(t, Operator::Multiplication, Tree::Literal(seq!['1'])),
    }
}

/// Parses the tokens of a line into an expression whose root is a node,
/// resolving `ans` against the previous result `res`.
pub fn process_expression<R: Copy>(str_expr: &Vec<String>, res: Option<R>) -> (r: Result<
    Expression<R>,
    ParseError,
>)
    ensures
        match parse(texts(str_expr@), res) {
            Ok(t) => r is Ok && r->Ok_0@ == as_node(t),
            Err(e) => r == Err::<Expression<R>, ParseError>(e),
        },
{
    match shunting_yard_algorithm(str_expr, res) {
        Err(e) => Err(e),
        Ok(Factor::Expression(exp)) => Ok(*exp),
        Ok(compl_exp) => {
            proof {
                reveal_strlit("1");
            }
            let one = String::from_str("1");
            proof {
                assert(one@ =~= seq!['1']);
            }
            Ok(Expression::new((compl_exp, Factor::Literal(one)), Operator::Multiplication))
        },
    }
}

/// Why a line produced no expression.
#[derive(Clone, Copy, PartialEq, Eq, Structural, Debug)]
pub enum LineError {
    Lex(LexError),
    Parse(ParseError),
}

/// What a session does with one input line.
#[derive(Debug, PartialEq)]
pub enum Step<R> {
    /// The line asks to end the session.
    Stop,
    /// The line parsed to this expression, which is to be evaluated; the
    /// tokens of the line come with it.
    Evaluate(Expression<R>, Vec<String>),
    /// The line failed; the session goes on with its previous result.
    Report(LineError),
}

/// The step a session takes on an input line, given its previous result
/// `res`: stop when a token is `quit` or `exit` (in any case); else parse
/// the tokens, and evaluate the expression or report why there is none.
pub fn next_step<R: Copy>(buf: &String, res: Option<R>) -> (r: Step<R>)
    ensures
        !compiles(REGEX_STRING@) ==> r == Step::<R>::Report(LineError::Lex(LexError::InvalidPattern)),
        compiles(REGEX_STRING@) ==> ({
            let tokens = regex_matches(REGEX_STRING@, buf@);
            if asks_to_stop(tokens) {
                r is Stop
            } else {
                match parse(tokens, res) {
                    Ok(t) => r is Evaluate && r->Evaluate_0@ == as_node(t) && texts(r->Evaluate_1@)
                        == tokens,
                    Err(e) => r == Step::<R>::Report(LineError::Parse(e)),
                }
            }
        }),
{
    let (str_expr, stop) = match parse_buffer(buf) {
        Ok(parsed) => parsed,
        Err(e) => return Step::Report(LineError::Lex(e)),
    };
    if stop {
        return Step::Stop;
    }
    match process_expression(&str_expr, res) {
        Ok(expression) => Step::Evaluate(expression, str_expr),
        Err(e) => Step::Report(LineError::Parse(e)),
    }
}

/// The text of an expression: its tokens written one after another.
pub fn source_text(str_tok: &Vec<String>) -> (r: String)
    ensures
        r@ == texts(str_tok@).flatten(),
{
    let mut buf = String::new();
    let n = str_tok.len();
    let mut i: usize = 0;
    while i < n
        invariant
            n == str_tok@.len(),
            i <= n,
            buf@ == texts(str_tok@).take(i as int).flatten(),
        decreases n - i,
    {
        buf.append(str_tok[i].as_str());
        proof {
            assert(texts(str_tok@).take(i + 1) =~= texts(str_tok@).take(i as int).push(
                str_tok@[i as int]@,
            ));
        }
        i += 1;
    }
    proof {
        assert(texts(str_tok@).take(n as int) =~= texts(str_tok@));
    }
    buf
}

} // verus!
