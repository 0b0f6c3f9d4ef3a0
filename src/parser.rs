//! The shunting-yard parser: it turns a sequence of tokens into an
//! expression tree, driving an operator stack and an operand stack.
//!
//! The parse is specified as a state machine over the models of the two
//! stacks: `step` for each token, then `finish`.

use vstd::prelude::*;

use crate::error::ParseError;
use crate::expressions::{node, resolve, factor_result, well_built, Expression, Factor, Tree};
use crate::operators::{
    applies_before, is_arithmetic, lemma_symbol_round_trip, operator_of, precedence, symbol_of,
    Operator,
};
use crate::stack::Stack;
use crate::text::{
    has_digit, is_decimal_literal, is_digit, is_operand, is_operand_token,
    lemma_literal_is_number, texts,
};

verus! {

/// The models of the parser's two stacks, bottom first.
pub struct ParserState<R> {
    pub ops: Seq<Operator>,
    pub operands: Seq<Tree<R>>,
}

/// The models of a sequence of factors.
pub open spec fn trees<R>(fs: Seq<Factor<R>>) -> Seq<Tree<R>> {
    fs.map_values(|f: Factor<R>| f@)
}

pub open spec fn state_of<R>(ops: Stack<Operator>, operands: Stack<Factor<R>>) -> ParserState<R> {
    ParserState { ops: ops@, operands: trees(operands@) }
}

pub open spec fn empty_state<R>() -> ParserState<R> {
    ParserState { ops: Seq::empty(), operands: Seq::empty() }
}

/// Applies `op` to the two operands on top: the lower one becomes the left
/// operand. Fewer than two operands is a `MissingFactor`.
pub open spec fn combine<R>(operands: Seq<Tree<R>>, op: Operator) -> Result<
    Seq<Tree<R>>,
    ParseError,
> {
    let n = operands.len();
    if n < 2 {
        Err(ParseError::MissingFactor)
    } else {
        Ok(operands.subrange(0, n - 2).push(node(operands[n - 2], op, operands[n - 1])))
    }
}

/// A `)`: pops and applies operators down to the nearest `(`, which is
/// dropped; with no `(` left the parentheses are mismatched.
pub open spec fn close_group<R>(s: ParserState<R>) -> Result<ParserState<R>, ParseError>
    decreases s.ops.len(),
{
    if s.ops.len() == 0 {
        Err(ParseError::MismatchedParentheses)
    } else if s.ops.last() == Operator::OpenBracket {
        Ok(ParserState { ops: s.ops.drop_last(), operands: s.operands })
    } else {
        match combine(s.operands, s.ops.last()) {
            Err(e) => Err(e),
            Ok(o) => close_group(ParserState { ops: s.ops.drop_last(), operands: o }),
        }
    }
}

/// An arithmetic operator or `(`: pops and applies the waiting operators
/// that go first (down to a `(` or to one that binds less tightly), then
/// pushes `op`.
pub open spec fn push_operator<R>(s: ParserState<R>, op: Operator) -> Result<
    ParserState<R>,
    ParseError,
>
    decreases s.ops.len(),
{
    if s.ops.len() > 0 && s.ops.last() != Operator::OpenBracket && applies_before(
        s.ops.last(),
        op,
    ) {
        match combine(s.operands, s.ops.last()) {
            Err(e) => Err(e),
            Ok(o) => push_operator(ParserState { ops: s.ops.drop_last(), operands: o }, op),
        }
    } else {
        Ok(ParserState { ops: s.ops.push(op), operands: s.operands })
    }
}

/// One token: an operand is resolved against `res` and pushed; any other
/// token must be an operator symbol.
pub open spec fn step<R>(s: ParserState<R>, token: Seq<char>, res: Option<R>) -> Result<
    ParserState<R>,
    ParseError,
> {
    if is_operand(token) {
        match resolve(token, res) {
            Err(e) => Err(e),
            Ok(t) => Ok(ParserState { ops: s.ops, operands: s.operands.push(t) }),
        }
    } else {
        match operator_of(token) {
            None => Err(ParseError::UnknownOperator),
            Some(op) => if op == Operator::ClosedBracket {
                close_group(s)
            } else {
                push_operator(s, op)
            },
        }
    }
}

/// The state after all of `tokens`, from empty stacks; the first error stops it.
pub open spec fn run<R>(tokens: Seq<Seq<char>>, res: Option<R>) -> Result<ParserState<R>, ParseError>
    decreases tokens.len(),
{
    if tokens.len() == 0 {
        Ok(empty_state())
    } else {
        match run(tokens.drop_last(), res) {
            Err(e) => Err(e),
            Ok(s) => step(s, tokens.last(), res),
        }
    }
}

/// After the last token: applies the remaining operators; a bracket among
/// them is mismatched. A single operand must remain.
pub open spec fn finish<R>(s: ParserState<R>) -> Result<Tree<R>, ParseError>
    decreases s.ops.len(),
{
    if s.ops.len() == 0 {
        if s.operands.len() == 1 {
            Ok(s.operands[0])
        } else {
            Err(ParseError::MalformedExpression)
        }
    } else if !is_arithmetic(s.ops.last()) {
        Err(ParseError::MismatchedParentheses)
    } else {
        match combine(s.operands, s.ops.last()) {
            Err(e) => Err(e),
            Ok(o) => finish(ParserState { ops: s.ops.drop_last(), operands: o }),
        }
    }
}

/// The tree that `tokens` parse to, with `res` as the previous result.
pub open spec fn parse<R>(tokens: Seq<Seq<char>>, res: Option<R>) -> Result<Tree<R>, ParseError> {
    match run(tokens, res) {
        Err(e) => Err(e),
        Ok(s) => finish(s),
    }
}

proof fn lemma_run_error_sticks<R>(tokens: Seq<Seq<char>>, k: int, res: Option<R>)
    requires
        0 <= k <= tokens.len(),
        run(tokens.take(k), res) is Err,
    ensures
        run(tokens, res) == run(tokens.take(k), res),
    decreases tokens.len() - k,
{
    if k < tokens.len() {
        assert(tokens.take(k + 1).drop_last() =~= tokens.take(k));
        lemma_run_error_sticks(tokens, k + 1, res);
    } else {
        assert(tokens.take(k) =~= tokens);
    }
}

/// Every operand is a tree ready for evaluation, and no `)` waits on the
/// operator stack.
pub open spec fn state_ok<R>(s: ParserState<R>, res: Option<R>) -> bool {
    &&& forall|i: int| 0 <= i < s.operands.len() ==> well_built(#[trigger] s.operands[i], res)
    &&& forall|i: int| 0 <= i < s.ops.len() ==> #[trigger] s.ops[i] != Operator::ClosedBracket
}

proof fn lemma_combine_ok<R>(s: ParserState<R>, op: Operator, res: Option<R>)
    requires
        state_ok(s, res),
        is_arithmetic(op),
        combine(s.operands, op) is Ok,
    ensures
        forall|i: int|
            0 <= i < combine(s.operands, op)->Ok_0.len() ==> well_built(
                #[trigger] combine(s.operands, op)->Ok_0[i],
                res,
            ),
{
    let n = s.operands.len();
    let o = combine(s.operands, op)->Ok_0;
    assert forall|i: int| 0 <= i < o.len() implies well_built(#[trigger] o[i], res) by {
        if i < n - 2 {
            assert(o[i] == s.operands[i]);
        } else {
            assert(well_built(s.operands[n - 2], res));
            assert(well_built(s.operands[n - 1], res));
        }
    }
}

proof fn lemma_close_group_ok<R>(s: ParserState<R>, res: Option<R>)
    requires
        state_ok(s, res),
    ensures
        close_group(s) matches Ok(t) ==> state_ok(t, res),
    decreases s.ops.len(),
{
    if s.ops.len() > 0 {
        let rest = s.ops.drop_last();
        assert(forall|i: int| 0 <= i < rest.len() ==> rest[i] == s.ops[i]);
        if s.ops.last() != Operator::OpenBracket && combine(s.operands, s.ops.last()) is Ok {
            assert(s.ops[s.ops.len() - 1] != Operator::ClosedBracket);
            lemma_combine_ok(s, s.ops.last(), res);
            lemma_close_group_ok(
                ParserState { ops: rest, operands: combine(s.operands, s.ops.last())->Ok_0 },
                res,
            );
        }
    }
}

proof fn lemma_push_operator_ok<R>(s: ParserState<R>, op: Operator, res: Option<R>)
    requires
        state_ok(s, res),
        op != Operator::ClosedBracket,
    ensures
        push_operator(s, op) matches Ok(t) ==> state_ok(t, res),
    decreases s.ops.len(),
{
    let rest = s.ops.drop_last();
    if s.ops.len() > 0 && s.ops.last() != Operator::OpenBracket && applies_before(s.ops.last(), op) {
        assert(forall|i: int| 0 <= i < rest.len() ==> rest[i] == s.ops[i]);
        if combine(s.operands, s.ops.last()) is Ok {
            lemma_combine_ok(s, s.ops.last(), res);
            lemma_push_operator_ok(
                ParserState { ops: rest, operands: combine(s.operands, s.ops.last())->Ok_0 },
                op,
                res,
            );
        }
    } else {
        let t = ParserState { ops: s.ops.push(op), operands: s.operands };
        assert(forall|i: int| 0 <= i < s.ops.len() ==> t.ops[i] == s.ops[i]);
    }
}

proof fn lemma_run_ok<R>(tokens: Seq<Seq<char>>, res: Option<R>)
    ensures
        run(tokens, res) matches Ok(s) ==> state_ok(s, res),
    decreases tokens.len(),
{
    if tokens.len() > 0 {
        lemma_run_ok(tokens.drop_last(), res);
        if run(tokens.drop_last(), res) is Ok {
            let s = run(tokens.drop_last(), res)->Ok_0;
            let token = tokens.last();
            if is_operand(token) {
                if resolve(token, res) is Ok {
                    let t = ParserState { ops: s.ops, operands: s.operands.push(resolve(token, res)->Ok_0) };
                    assert(forall|i: int| 0 <= i < s.operands.len() ==> t.operands[i] == s.operands[i]);
                }
            } else {
                match operator_of(token) {
                    Some(op) => {
                        if op == Operator::ClosedBracket {
                            lemma_close_group_ok(s, res);
                        } else {
                            lemma_push_operator_ok(s, op, res);
                        }
                    },
                    None => {},
                }
            }
        }
    }
}

proof fn lemma_finish_ok<R>(s: ParserState<R>, res: Option<R>)
    requires
        state_ok(s, res),
    ensures
        finish(s) matches Ok(t) ==> well_built(t, res),
    decreases s.ops.len(),
{
    if s.ops.len() > 0 && is_arithmetic(s.ops.last()) && combine(s.operands, s.ops.last()) is Ok {
        let rest = s.ops.drop_last();
        assert(forall|i: int| 0 <= i < rest.len() ==> rest[i] == s.ops[i]);
        lemma_combine_ok(s, s.ops.last(), res);
        lemma_finish_ok(
            ParserState { ops: rest, operands: combine(s.operands, s.ops.last())->Ok_0 },
            res,
        );
    }
}

/// A parse that succeeds builds a tree ready for evaluation: brackets never
/// appear in it, each node joins two subtrees with an arithmetic operator,
/// each literal is a floating-point literal, and each value is the previous
/// result (so there is none when there is no previous result).
pub proof fn lemma_parse_well_built<R>(tokens: Seq<Seq<char>>, res: Option<R>)
    ensures
        parse(tokens, res) matches Ok(t) ==> well_built(t, res),
{
    lemma_run_ok(tokens, res);
    if run(tokens, res) is Ok {
        lemma_finish_ok(run(tokens, res)->Ok_0, res);
    }
}

/// The tokens of a chain `n0 o1 n1 o2 n2 ...` of numbers and operators.
pub open spec fn chain_tokens(nums: Seq<Seq<char>>, ops: Seq<Operator>) -> Seq<Seq<char>>
    decreases ops.len(),
{
    if ops.len() == 0 {
        nums.take(1)
    } else {
        chain_tokens(nums.drop_last(), ops.drop_last()).push(symbol_of(ops.last())).push(
            nums.last(),
        )
    }
}

/// The chain grouped to the left: `((n0 o1 n1) o2 n2) ...`.
pub open spec fn left_grouped<R>(nums: Seq<Seq<char>>, ops: Seq<Operator>) -> Tree<R>
    decreases ops.len(),
{
    if ops.len() == 0 {
        Tree::Literal(nums[0])
    } else {
        node(
            left_grouped(nums.drop_last(), ops.drop_last()),
            ops.last(),
            Tree::Literal(nums.last()),
        )
    }
}

/// Arithmetic operators that all bind equally tightly.
pub open spec fn same_precedence(ops: Seq<Operator>) -> bool {
    forall|i: int, j: int|
        0 <= i < ops.len() && 0 <= j < ops.len() ==> is_arithmetic(#[trigger] ops[i])
            && precedence(ops[i]) == precedence(#[trigger] ops[j])
}

/// The parser state after the tokens of a chain.
pub open spec fn chain_state<R>(nums: Seq<Seq<char>>, ops: Seq<Operator>) -> ParserState<R> {
    if ops.len() == 0 {
        ParserState { ops: Seq::empty(), operands: seq![Tree::Literal(nums[0])] }
    } else {
        ParserState {
            ops: seq![ops.last()],
            operands: seq![
                left_grouped(nums.drop_last(), ops.drop_last()),
                Tree::Literal(nums.last()),
            ],
        }
    }
}

proof fn lemma_symbol_is_operator(op: Operator)
    ensures
        !is_operand(symbol_of(op)),
        operator_of(symbol_of(op)) == Some(op),
{
    lemma_symbol_round_trip(op);
    let s = symbol_of(op);
    assert(s.len() == 1);
    assert(!is_digit(s[0]));
    assert(!has_digit(s));
}

proof fn lemma_chain_run<R>(nums: Seq<Seq<char>>, ops: Seq<Operator>, res: Option<R>)
    requires
        nums.len() == ops.len() + 1,
        forall|i: int| 0 <= i < nums.len() ==> is_decimal_literal(#[trigger] nums[i]),
        same_precedence(ops),
    ensures
        run(chain_tokens(nums, ops), res) == Ok::<ParserState<R>, ParseError>(
            chain_state(nums, ops),
        ),
    decreases ops.len(),
{
    let last = nums.last();
    lemma_literal_is_number(last);
    if ops.len() == 0 {
        let toks = chain_tokens(nums, ops);
        assert(toks.drop_last() =~= Seq::<Seq<char>>::empty());
        assert(toks.last() == nums[0]);
        assert(run(toks.drop_last(), res) == Ok::<ParserState<R>, ParseError>(empty_state()));
        assert(empty_state::<R>().operands.push(Tree::Literal(nums[0])) =~= seq![
            Tree::Literal(nums[0]),
        ]);
        assert(resolve::<R>(nums[0], res) == Ok::<Tree<R>, ParseError>(Tree::Literal(nums[0])));
        assert(step(empty_state(), nums[0], res) == Ok::<ParserState<R>, ParseError>(
            chain_state(nums, ops),
        ));
    } else {
        let nums0 = nums.drop_last();
        let ops0 = ops.drop_last();
        let op = ops.last();
        assert forall|i: int| 0 <= i < nums0.len() implies is_decimal_literal(#[trigger] nums0[i]) by {
            assert(nums0[i] == nums[i]);
        }
        assert forall|i: int, j: int|
            0 <= i < ops0.len() && 0 <= j < ops0.len() implies is_arithmetic(#[trigger] ops0[i])
            && precedence(ops0[i]) == precedence(#[trigger] ops0[j]) by {
            assert(ops0[i] == ops[i] && ops0[j] == ops[j]);
        }
        lemma_chain_run(nums0, ops0, res);
        let prefix = chain_tokens(nums0, ops0);
        let with_op = prefix.push(symbol_of(op));
        let toks = with_op.push(last);
        assert(toks == chain_tokens(nums, ops));
        assert(toks.drop_last() =~= with_op);
        assert(with_op.drop_last() =~= prefix);
        lemma_symbol_is_operator(op);
        assert(is_arithmetic(ops[ops.len() - 1]));
        let s0: ParserState<R> = chain_state(nums0, ops0);
        let s1: ParserState<R> = ParserState {
            ops: seq![op],
            operands: seq![left_grouped(nums0, ops0)],
        };
        if ops0.len() == 0 {
            assert(s0.ops.push(op) =~= seq![op]);
            assert(push_operator(s0, op) == Ok::<ParserState<R>, ParseError>(s1));
        } else {
            let top = ops0.last();
            assert(top == ops[ops.len() - 2]);
            assert(precedence(ops[ops.len() - 2]) == precedence(ops[ops.len() - 1]));
            assert(applies_before(top, op));
            let mid: ParserState<R> = ParserState {
                ops: Seq::empty(),
                operands: seq![left_grouped(nums0, ops0)],
            };
            assert(s0.operands.subrange(0, 0).push(
                node(s0.operands[0], top, s0.operands[1]),
            ) =~= mid.operands);
            assert(s0.ops.drop_last() =~= Seq::<Operator>::empty());
            assert(combine(s0.operands, top) == Ok::<Seq<Tree<R>>, ParseError>(mid.operands));
            assert(mid.ops.push(op) =~= seq![op]);
            assert(push_operator(mid, op) == Ok::<ParserState<R>, ParseError>(s1));
            assert(push_operator(s0, op) == push_operator(mid, op));
        }
        assert(step(s0, symbol_of(op), res) == Ok::<ParserState<R>, ParseError>(s1));
        assert(s1.operands.push(Tree::Literal(last)) =~= chain_state::<R>(nums, ops).operands);
        assert(step(s1, last, res) == Ok::<ParserState<R>, ParseError>(chain_state(nums, ops)));
        assert(run(with_op, res) == step(s0, symbol_of(op), res));
        assert(run(toks, res) == step(s1, last, res));
    }
}

/// Chains of operators of equal precedence group to the left: the tokens
/// `n0 o1 n1 o2 n2 ...`, with numbers `ni` written with digits (as the
/// tokenizer splits them) and operators `oi` that bind
/// equally tightly, parse to `((n0 o1 n1) o2 n2) ...`. So `8 - 3 - 2` is
/// `(8 - 3) - 2`.
pub proof fn lemma_left_associative<R>(nums: Seq<Seq<char>>, ops: Seq<Operator>, res: Option<R>)
    requires
        nums.len() == ops.len() + 1,
        forall|i: int| 0 <= i < nums.len() ==> is_decimal_literal(#[trigger] nums[i]),
        same_precedence(ops),
    ensures
        parse(chain_tokens(nums, ops), res) == Ok::<Tree<R>, ParseError>(left_grouped(nums, ops)),
{
    lemma_chain_run(nums, ops, res);
    let s: ParserState<R> = chain_state(nums, ops);
    if ops.len() > 0 {
        let op = ops.last();
        assert(is_arithmetic(ops[ops.len() - 1]));
        let done: ParserState<R> = ParserState {
            ops: Seq::empty(),
            operands: seq![left_grouped(nums, ops)],
        };
        assert(s.operands.subrange(0, 0).push(node(s.operands[0], op, s.operands[1]))
            =~= done.operands);
        assert(s.ops.drop_last() =~= Seq::<Operator>::empty());
        assert(finish(done) == Ok::<Tree<R>, ParseError>(left_grouped(nums, ops)));
    }
}

/// Parsing is deterministic: the same tokens with the same previous result
/// always give the same outcome.
pub proof fn lemma_parse_deterministic<R>(
    tokens1: Seq<Seq<char>>,
    tokens2: Seq<Seq<char>>,
    res1: Option<R>,
    res2: Option<R>,
)
    requires
        tokens1 == tokens2,
        res1 == res2,
    ensures
        parse(tokens1, res1) == parse(tokens2, res2),
{
}

/// Pops the two operands on top and joins them with `operator`, the lower
/// one on the left.
fn build_exp<R>(num_stack: &mut Stack<Factor<R>>, operator: Operator) -> (r: Result<
    Factor<R>,
    ParseError,
>)
    requires
        old(num_stack).wf(),
    ensures
        final(num_stack).wf(),
        old(num_stack)@.len() < 2 ==> r == Err::<Factor<R>, ParseError>(ParseError::MissingFactor)
            && final(num_stack)@ == old(num_stack)@,
        old(num_stack)@.len() >= 2 ==> r is Ok && final(num_stack)@ == old(num_stack)@.subrange(
            0,
            old(num_stack)@.len() - 2,
        ) && r->Ok_0@ == node(
            old(num_stack)@[old(num_stack)@.len() - 2]@,
            operator,
            old(num_stack)@[old(num_stack)@.len() - 1]@,
        ),
{
    if num_stack.len() < 2 {
        return Err(ParseError::MissingFactor);
    }
    let ghost s = num_stack@;
    let fact2 = num_stack.pop();
    let fact1 = num_stack.pop();
    proof {
        assert(s.drop_last().drop_last() =~= s.subrange(0, s.len() - 2));
    }
    match (fact1, fact2) {
        (Some(fact1), Some(fact2)) => Ok(
            Factor::Expression(Box::new(Expression::new((fact1, fact2), operator))),
        ),
        _ => Err(ParseError::MissingFactor),
    }
}

/// `build_exp` followed by a push of the result: `combine` on the models.
fn apply_top<R>(num_stack: &mut Stack<Factor<R>>, operator: Operator) -> (r: Result<
    (),
    ParseError,
>)
    requires
        old(num_stack).wf(),
    ensures
        final(num_stack).wf(),
        final(num_stack)@.len() <= old(num_stack)@.len(),
        match combine(trees(old(num_stack)@), operator) {
            Err(e) => r == Err::<(), ParseError>(e),
            Ok(o) => r is Ok && trees(final(num_stack)@) == o,
        },
{
    let ghost s = num_stack@;
    proof {
        num_stack.lemma_len_bounded();
    }
    match build_exp(num_stack, operator) {
        Err(e) => Err(e),
        Ok(f) => {
            num_stack.push(f);
            proof {
                let n = s.len();
                assert(trees(s).subrange(0, n - 2).push(f@) =~= trees(
                    s.subrange(0, n - 2).push(f),
                ));
            }
            Ok(())
        },
    }
}

/// Handles a `)`.
fn close_group_exec<R>(ops: &mut Stack<Operator>, operands: &mut Stack<Factor<R>>) -> (r: Result<
    (),
    ParseError,
>)
    requires
        old(ops).wf(),
        old(operands).wf(),
    ensures
        final(ops).wf(),
        final(operands).wf(),
        final(ops)@.len() <= old(ops)@.len(),
        final(operands)@.len() <= old(operands)@.len(),
        match close_group(state_of(*old(ops), *old(operands))) {
            Err(e) => r == Err::<(), ParseError>(e),
            Ok(s) => r is Ok && state_of(*final(ops), *final(operands)) == s,
        },
{
    let ghost s0 = state_of(*ops, *operands);
    let ghost ops_len0 = ops@.len();
    let ghost operands_len0 = operands@.len();
    loop
        invariant
            ops.wf(),
            operands.wf(),
            ops@.len() <= ops_len0,
            operands@.len() <= operands_len0,
            ops_len0 == old(ops)@.len(),
            operands_len0 == old(operands)@.len(),
            s0 == state_of(*old(ops), *old(operands)),
            close_group(s0) == close_group(state_of(*ops, *operands)),
        decreases ops@.len(),
    {
        let ghost cur = state_of(*ops, *operands);
        match ops.pop() {
            None => {
                return Err(ParseError::MismatchedParentheses);
            },
            Some(op) => {
                if op == Operator::OpenBracket {
                    return Ok(());
                }
                match apply_top(operands, op) {
                    Err(e) => {
                        return Err(e);
                    },
                    Ok(()) => {},
                }
                assert(state_of(*ops, *operands).ops == cur.ops.drop_last());
            },
        }
    }
}

/// Handles an arithmetic operator or a `(`.
fn push_operator_exec<R>(
    ops: &mut Stack<Operator>,
    operands: &mut Stack<Factor<R>>,
    op: Operator,
) -> (r: Result<(), ParseError>)
    requires
        old(ops).wf(),
        old(operands).wf(),
        old(ops)@.len() < usize::MAX,
    ensures
        final(ops).wf(),
        final(operands).wf(),
        final(ops)@.len() <= old(ops)@.len() + 1,
        final(operands)@.len() <= old(operands)@.len(),
        match push_operator(state_of(*old(ops), *old(operands)), op) {
            Err(e) => r == Err::<(), ParseError>(e),
            Ok(s) => r is Ok && state_of(*final(ops), *final(operands)) == s,
        },
{
    let ghost s0 = state_of(*ops, *operands);
    let ghost ops_len0 = ops@.len();
    let ghost operands_len0 = operands@.len();
    loop
        invariant
            ops.wf(),
            operands.wf(),
            ops@.len() <= ops_len0 < usize::MAX,
            operands@.len() <= operands_len0,
            ops_len0 == old(ops)@.len(),
            operands_len0 == old(operands)@.len(),
            s0 == state_of(*old(ops), *old(operands)),
            push_operator(s0, op) == push_operator(state_of(*ops, *operands), op),
        decreases ops@.len(),
    {
        let top = match ops.peek() {
            Some(t) => *t,
            None => {
                ops.push(op);
                return Ok(());
            },
        };
        if top == Operator::OpenBracket || !top.greater_prec(&op) {
            ops.push(op);
            return Ok(());
        }
        let ghost cur = state_of(*ops, *operands);
        let _ = ops.pop();
        match apply_top(operands, top) {
            Err(e) => {
                return Err(e);
            },
            Ok(()) => {},
        }
        assert(state_of(*ops, *operands).ops == cur.ops.drop_last());
    }
}

/// Applies the operators left after the last token and takes out the
/// finished tree.
fn finish_exec<R>(ops: &mut Stack<Operator>, operands: &mut Stack<Factor<R>>) -> (r: Result<
    Factor<R>,
    ParseError,
>)
    requires
        old(ops).wf(),
        old(operands).wf(),
    ensures
        factor_result(r) == finish(state_of(*old(ops), *old(operands))),
{
    let ghost s0 = state_of(*ops, *operands);
    while !ops.is_empty()
        invariant
            ops.wf(),
            operands.wf(),
            s0 == state_of(*old(ops), *old(operands)),
            finish(s0) == finish(state_of(*ops, *operands)),
        decreases ops@.len(),
    {
        let ghost cur = state_of(*ops, *operands);
        match ops.pop() {
            None => {
                return Err(ParseError::MalformedExpression);
            },
            Some(operator) => {
                if !operator.is_arithmetic() {
                    return Err(ParseError::MismatchedParentheses);
                }
                match apply_top(operands, operator) {
                    Err(e) => {
                        return Err(e);
                    },
                    Ok(()) => {},
                }
                assert(state_of(*ops, *operands).ops == cur.ops.drop_last());
            },
        }
    }
    if operands.len() != 1 {
        return Err(ParseError::MalformedExpression);
    }
    match operands.pop() {
        Some(f) => Ok(f),
        None => Err(ParseError::MalformedExpression),
    }
}

/// Parses a sequence of tokens into an expression tree, resolving `ans`
/// against the previous result `res`.
pub fn shunting_yard_algorithm<R: Copy>(str_tok: &Vec<String>, res: Option<R>) -> (r: Result<
    Factor<R>,
    ParseError,
>)
    ensures
        factor_result(r) == parse(texts(str_tok@), res),
        r matches Ok(f) ==> well_built(f@, res),
{
    proof {
        lemma_parse_well_built(texts(str_tok@), res);
    }
    let ghost toks = texts(str_tok@);
    let mut op_stack: Stack<Operator> = Stack::new();
    let mut number_stack: Stack<Factor<R>> = Stack::new();
    let n = str_tok.len();
    let mut i: usize = 0;
    proof {
        assert(toks.take(0) =~= Seq::<Seq<char>>::empty());
        assert(trees(number_stack@) =~= Seq::<Tree<R>>::empty());
    }
    while i < n
        invariant
            n == str_tok@.len(),
            toks == texts(str_tok@),
            i <= n,
            op_stack.wf(),
            number_stack.wf(),
            op_stack@.len() <= i,
            number_stack@.len() <= i,
            run(toks.take(i as int), res) == Ok::<ParserState<R>, ParseError>(
                state_of(op_stack, number_stack),
            ),
        decreases n - i,
    {
        let val = &str_tok[i];
        let ghost before = state_of(op_stack, number_stack);
        proof {
            assert(toks.take(i + 1).drop_last() =~= toks.take(i as int));
            assert(toks.take(i + 1).last() == val@);
        }
        let outcome: Result<(), ParseError> = if is_operand_token(val.as_str()) {
            match Expression::parse_factor(Some(val), res) {
                Err(e) => Err(e),
                Ok(factor) => {
                    number_stack.push(factor);
                    proof {
                        assert(trees(number_stack@) =~= before.operands.push(factor@));
                    }
                    Ok(())
                },
            }
        } else {
            match Operator::build(val.as_str()) {
                Err(e) => Err(e),
                Ok(operator) => {
                    if operator == Operator::ClosedBracket {
                        close_group_exec(&mut op_stack, &mut number_stack)
                    } else {
                        push_operator_exec(&mut op_stack, &mut number_stack, operator)
                    }
                },
            }
        };
        match outcome {
            Err(e) => {
                proof {
                    lemma_run_error_sticks(toks, i + 1, res);
                }
                return Err(e);
            },
            Ok(()) => {},
        }
        i += 1;
    }
    proof {
        assert(toks.take(n as int) =~= toks);
    }
    finish_exec(&mut op_stack, &mut number_stack)
}

} // verus!
