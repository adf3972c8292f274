use vstd::prelude::*;
use vstd::string::StringExecFns;
use crate::token::{
    Function, Operator, Token, TokenView, function_debug, operator_precedence, token_views,
    tokenize, tokenize_spec,
};
use crate::expression::{BinaryOperation, ExprView, Expression, FunctionCall, NumberExpression, VariableExpression};

verus! {

// ------------------------------------------------------------------
// Messages
// ------------------------------------------------------------------

pub open spec fn not_enough_operands_message() -> Seq<char> {
    "Invalid expression: not enough operands"@
}

pub open spec fn missing_argument_message() -> Seq<char> {
    "Invalid function call: missing argument"@
}

pub open spec fn mismatched_parentheses_message() -> Seq<char> {
    "Mismatched parentheses"@
}

pub open spec fn too_many_values_message() -> Seq<char> {
    "Invalid expression: too many values"@
}

pub open spec fn unexpected_function_message(f: Function) -> Seq<char> {
    "Unexpected token on operator stack: "@ + function_debug(f)
}

fn not_enough_operands() -> (s: String)
    ensures
        s@ == not_enough_operands_message(),
{
    String::from_str("Invalid expression: not enough operands")
}

fn missing_argument() -> (s: String)
    ensures
        s@ == missing_argument_message(),
{
    String::from_str("Invalid function call: missing argument")
}

fn mismatched_parentheses() -> (s: String)
    ensures
        s@ == mismatched_parentheses_message(),
{
    String::from_str("Mismatched parentheses")
}

fn too_many_values() -> (s: String)
    ensures
        s@ == too_many_values_message(),
{
    String::from_str("Invalid expression: too many values")
}

fn unexpected_function(f: Function) -> (s: String)
    ensures
        s@ == unexpected_function_message(f),
{
    let mut s = String::from_str("Unexpected token on operator stack: ");
    let d = f.debug_text();
    s.append(d.as_str());
    s
}

// ------------------------------------------------------------------
// The shunting-yard machine
// ------------------------------------------------------------------

/// The state of the machine: the output queue of finished subtrees and the
/// stack of pending operators, functions and open parentheses.
pub struct ParseState {
    pub out: Seq<ExprView>,
    pub ops: Seq<TokenView>,
}

/// Replaces the two topmost subtrees by their combination under `op`, or
/// `None` when there are fewer than two.
pub open spec fn apply_operator(out: Seq<ExprView>, op: Operator) -> Option<Seq<ExprView>> {
    if out.len() < 2 {
        None
    } else {
        Some(
            out.take(out.len() - 2).push(
                ExprView::Binary(
                    Box::new(out[out.len() - 2]),
                    op,
                    Box::new(out[out.len() - 1]),
                ),
            ),
        )
    }
}

/// Before an operator `op` is pushed, the operators on top of the stack that
/// bind at least as tightly are applied.
pub open spec fn reduce_before(out: Seq<ExprView>, ops: Seq<TokenView>, op: Operator) -> Result<
    ParseState,
    Seq<char>,
>
    decreases ops.len(),
{
    if ops.len() > 0 && ops.last() is Operator && operator_precedence(ops.last()->Operator_0)
        >= operator_precedence(op) {
        match apply_operator(out, ops.last()->Operator_0) {
            None => Err(not_enough_operands_message()),
            Some(o) => reduce_before(o, ops.drop_last(), op),
        }
    } else {
        Ok(ParseState { out, ops })
    }
}

/// At a closing parenthesis, operators are applied down to the matching
/// open parenthesis, which is removed; a function just below it is applied
/// to the topmost subtree.
pub open spec fn close_paren(out: Seq<ExprView>, ops: Seq<TokenView>) -> Result<
    ParseState,
    Seq<char>,
>
    decreases ops.len(),
{
    if ops.len() == 0 {
        Err(mismatched_parentheses_message())
    } else {
        let rest = ops.drop_last();
        match ops.last() {
            TokenView::OpenParen => {
                if rest.len() > 0 && rest.last() is Function {
                    if out.len() == 0 {
                        Err(missing_argument_message())
                    } else {
                        Ok(
                            ParseState {
                                out: out.drop_last().push(
                                    ExprView::Call(rest.last()->Function_0, Box::new(out.last())),
                                ),
                                ops: rest.drop_last(),
                            },
                        )
                    }
                } else {
                    Ok(ParseState { out, ops: rest })
                }
            },
            TokenView::Operator(op) => match apply_operator(out, op) {
                None => Err(not_enough_operands_message()),
                Some(o) => close_paren(o, rest),
            },
            TokenView::Function(f) => Err(unexpected_function_message(f)),
            _ => Err(mismatched_parentheses_message()),
        }
    }
}

/// One token through the machine.
pub open spec fn parse_step(st: ParseState, t: TokenView) -> Result<ParseState, Seq<char>> {
    match t {
        TokenView::Number(n) => Ok(ParseState { out: st.out.push(ExprView::Number(n)), ops: st.ops }),
        TokenView::Variable(v) => Ok(
            ParseState { out: st.out.push(ExprView::Variable(v)), ops: st.ops },
        ),
        TokenView::Operator(op) => match reduce_before(st.out, st.ops, op) {
            Ok(s) => Ok(ParseState { out: s.out, ops: s.ops.push(TokenView::Operator(op)) }),
            Err(e) => Err(e),
        },
        TokenView::Function(f) => Ok(ParseState { out: st.out, ops: st.ops.push(t) }),
        TokenView::OpenParen => Ok(ParseState { out: st.out, ops: st.ops.push(t) }),
        TokenView::CloseParen => close_paren(st.out, st.ops),
    }
}

/// The machine started in state `st` after the given tokens, or the first
/// error.
pub open spec fn run_from(st: ParseState, ts: Seq<TokenView>) -> Result<ParseState, Seq<char>>
    decreases ts.len(),
{
    if ts.len() == 0 {
        Ok(st)
    } else {
        match run_from(st, ts.drop_last()) {
            Err(e) => Err(e),
            Ok(s) => parse_step(s, ts.last()),
        }
    }
}

/// The empty machine.
pub open spec fn initial_state() -> ParseState {
    ParseState { out: seq![], ops: seq![] }
}

/// The machine after the given tokens, or the first error.
pub open spec fn parse_run(ts: Seq<TokenView>) -> Result<ParseState, Seq<char>> {
    run_from(initial_state(), ts)
}

/// After the last token the remaining operators are applied; an open
/// parenthesis or function left on the stack is an error, and exactly one
/// subtree must remain.
pub open spec fn parse_finish(out: Seq<ExprView>, ops: Seq<TokenView>) -> Result<
    ExprView,
    Seq<char>,
>
    decreases ops.len(),
{
    if ops.len() == 0 {
        if out.len() == 1 {
            Ok(out[0])
        } else {
            Err(too_many_values_message())
        }
    } else {
        match ops.last() {
            TokenView::Operator(op) => match apply_operator(out, op) {
                None => Err(not_enough_operands_message()),
                Some(o) => parse_finish(o, ops.drop_last()),
            },
            TokenView::Function(f) => Err(unexpected_function_message(f)),
            _ => Err(mismatched_parentheses_message()),
        }
    }
}

/// The tree that the shunting-yard algorithm builds from a token list, or
/// its error.
pub open spec fn build_tree_spec(ts: Seq<TokenView>) -> Result<ExprView, Seq<char>> {
    match parse_run(ts) {
        Err(e) => Err(e),
        Ok(st) => parse_finish(st.out, st.ops),
    }
}

/// The tree that a text parses to, or the first error.
pub open spec fn parse_spec(s: Seq<char>) -> Result<ExprView, Seq<char>> {
    match tokenize_spec(s) {
        Err(e) => Err(e),
        Ok(ts) => build_tree_spec(ts),
    }
}

/// The models of a list of trees.
pub open spec fn expr_views(es: Seq<Expression>) -> Seq<ExprView> {
    es.map_values(|e: Expression| e@)
}

/// The operator stack only ever holds operators, functions and open
/// parentheses.
pub open spec fn stack_ok(ops: Seq<TokenView>) -> bool {
    forall|i: int|
        0 <= i < ops.len() ==> match #[trigger] ops[i] {
            TokenView::Operator(_) | TokenView::Function(_) | TokenView::OpenParen => true,
            _ => false,
        }
}

/// Once a prefix fails, every longer prefix fails the same way.
pub proof fn lemma_parse_run_error_sticks(ts: Seq<TokenView>, n: int)
    requires
        0 <= n <= ts.len(),
        parse_run(ts.take(n)) is Err,
    ensures
        parse_run(ts) == parse_run(ts.take(n)),
    decreases ts.len() - n,
{
    if n < ts.len() {
        assert(ts.take(n + 1).drop_last() =~= ts.take(n));
        lemma_parse_run_error_sticks(ts, n + 1);
    } else {
        assert(ts.take(n) =~= ts);
    }
}

/// Pops the two topmost subtrees and pushes their combination under `op`.
fn apply_operator_exec(out: &mut Vec<Expression>, op: Operator) -> (ok: bool)
    ensures
        match apply_operator(expr_views(old(out)@), op) {
            None => !ok && final(out)@ == old(out)@,
            Some(o) => ok && expr_views(final(out)@) == o,
        },
{
    if out.len() < 2 {
        return false;
    }
    let ghost before = out@;
    let right = out.pop().unwrap();
    let left = out.pop().unwrap();
    let node = Expression::Binary(BinaryOperation::new(Box::new(left), Box::new(right), op));
    out.push(node);
    proof {
        let n = before.len() as int;
        assert(expr_views(out@) =~= expr_views(before).take(n - 2).push(
            ExprView::Binary(
                Box::new(expr_views(before)[n - 2]),
                op,
                Box::new(expr_views(before)[n - 1]),
            ),
        ));
    }
    true
}

/// The shunting-yard parser of space-separated expressions.
#[derive(Clone, Copy)]
pub struct ExpressionParser;

impl ExpressionParser {
    pub fn new() -> (p: ExpressionParser) {
        ExpressionParser
    }

    /// Splits the input into tokens and builds the tree with the
    /// shunting-yard algorithm.
    pub fn parse(&self, expression: &str) -> (r: Result<Expression, String>)
        ensures
            match r {
                Ok(e) => parse_spec(expression@) == Ok::<ExprView, Seq<char>>(e@),
                Err(m) => parse_spec(expression@) == Err::<ExprView, Seq<char>>(m@),
            },
    {
        let tokens = self.tokenize(expression)?;
        self.build_expression_tree(tokens)
    }

    /// The tokens of the input (see [`tokenize`]).
    pub fn tokenize(&self, input: &str) -> (r: Result<Vec<Token>, String>)
        ensures
            match r {
                Ok(ts) => tokenize_spec(input@) == Ok::<Seq<TokenView>, Seq<char>>(
                    token_views(ts@),
                ),
                Err(e) => tokenize_spec(input@) == Err::<Seq<TokenView>, Seq<char>>(e@),
            },
    {
        tokenize(input)
    }

    /// The shunting-yard algorithm over a token list.
    pub fn build_expression_tree(&self, tokens: Vec<Token>) -> (r: Result<Expression, String>)
        ensures
            match r {
                Ok(e) => build_tree_spec(token_views(tokens@)) == Ok::<ExprView, Seq<char>>(e@),
                Err(m) => build_tree_spec(token_views(tokens@)) == Err::<ExprView, Seq<char>>(
                    m@,
                ),
            },
    {
        let ghost ts = token_views(tokens@);
        let mut output_queue: Vec<Expression> = Vec::new();
        let mut operator_stack: Vec<Token> = Vec::new();
        let mut i: usize = 0;
        assert(ts.take(0) =~= Seq::<TokenView>::empty());
        assert(expr_views(output_queue@) =~= Seq::<ExprView>::empty());
        assert(token_views(operator_stack@) =~= Seq::<TokenView>::empty());
        while i < tokens.len()
            invariant
                ts == token_views(tokens@),
                0 <= i <= tokens.len(),
                parse_run(ts.take(i as int)) == Ok::<ParseState, Seq<char>>(
                    ParseState {
                        out: expr_views(output_queue@),
                        ops: token_views(operator_stack@),
                    },
                ),
                stack_ok(token_views(operator_stack@)),
            decreases tokens.len() - i,
        {
            proof {
                assert(ts.take(i + 1).drop_last() =~= ts.take(i as int));
                assert(ts.take(i + 1).last() == tokens@[i as int]@);
            }
            let ghost out0 = expr_views(output_queue@);
            let ghost ops0 = token_views(operator_stack@);
            match &tokens[i] {
                Token::Number(num) => {
                    output_queue.push(Expression::Number(NumberExpression { value: num.clone() }));
                    assert(expr_views(output_queue@) =~= out0.push(ExprView::Number(num@)));
                },
                Token::Variable(name) => {
                    output_queue.push(
                        Expression::Variable(VariableExpression { name: name.clone() }),
                    );
                    assert(expr_views(output_queue@) =~= out0.push(ExprView::Variable(name@)));
                },
                Token::Operator(op) => {
                    let op = *op;
                    if !reduce_for(&mut output_queue, &mut operator_stack, op) {
                        proof {
                            lemma_parse_run_error_sticks(ts, i + 1);
                        }
                        return Err(not_enough_operands());
                    }
                    let ghost ops1 = token_views(operator_stack@);
                    operator_stack.push(Token::Operator(op));
                    assert(token_views(operator_stack@) =~= ops1.push(TokenView::Operator(op)));
                },
                Token::Function(f) => {
                    operator_stack.push(Token::Function(*f));
                    assert(token_views(operator_stack@) =~= ops0.push(TokenView::Function(*f)));
                },
                Token::OpenParen => {
                    operator_stack.push(Token::OpenParen);
                    assert(token_views(operator_stack@) =~= ops0.push(TokenView::OpenParen));
                },
                Token::CloseParen => {
                    match close_paren_exec(&mut output_queue, &mut operator_stack) {
                        Ok(()) => {},
                        Err(e) => {
                            proof {
                                lemma_parse_run_error_sticks(ts, i + 1);
                            }
                            return Err(e);
                        },
                    }
                },
            }
            i = i + 1;
        }
        assert(ts.take(tokens.len() as int) =~= ts);
        finish_exec(output_queue, operator_stack)
    }
}

/// Applying operators before a new one can only fail for want of operands.
proof fn lemma_reduce_before_error(out: Seq<ExprView>, ops: Seq<TokenView>, op: Operator)
    ensures
        reduce_before(out, ops, op) is Err ==> reduce_before(out, ops, op) == Err::<
            ParseState,
            Seq<char>,
        >(not_enough_operands_message()),
    decreases ops.len(),
{
    if ops.len() > 0 && ops.last() is Operator && operator_precedence(ops.last()->Operator_0)
        >= operator_precedence(op) {
        if let Some(o) = apply_operator(out, ops.last()->Operator_0) {
            lemma_reduce_before_error(o, ops.drop_last(), op);
        }
    }
}

/// Applies the operators on top of the stack that bind at least as tightly
/// as `op`; false when an application finds too few operands.
fn reduce_for(out: &mut Vec<Expression>, stack: &mut Vec<Token>, op: Operator) -> (ok: bool)
    requires
        stack_ok(token_views(old(stack)@)),
    ensures
        stack_ok(token_views(final(stack)@)),
        match reduce_before(expr_views(old(out)@), token_views(old(stack)@), op) {
            Ok(s) => ok && expr_views(final(out)@) == s.out && token_views(final(stack)@) == s.ops,
            Err(e) => !ok && e == not_enough_operands_message(),
        },
{
    let ghost goal = reduce_before(expr_views(out@), token_views(stack@), op);
    proof {
        lemma_reduce_before_error(expr_views(out@), token_views(stack@), op);
    }
    loop
        invariant
            stack_ok(token_views(stack@)),
            goal == reduce_before(expr_views(old(out)@), token_views(old(stack)@), op),
            reduce_before(expr_views(out@), token_views(stack@), op) == goal,
            goal is Err ==> goal == Err::<ParseState, Seq<char>>(not_enough_operands_message()),
        decreases stack.len(),
    {
        let n = stack.len();
        if n == 0 {
            return true;
        }
        let higher = match &stack[n - 1] {
            Token::Operator(top) => top.precedence() >= op.precedence(),
            _ => false,
        };
        proof {
            assert(token_views(stack@).last() == stack@[n - 1]@);
        }
        if !higher {
            return true;
        }
        let ghost before = token_views(stack@);
        let top = stack.pop().unwrap();
        proof {
            assert(token_views(stack@) =~= before.drop_last());
            assert forall|j: int| 0 <= j < token_views(stack@).len() implies match #[trigger] token_views(stack@)[j] {
                TokenView::Operator(_) | TokenView::Function(_) | TokenView::OpenParen => true,
                _ => false,
            } by {
                assert(token_views(stack@)[j] == before[j]);
            }
        }
        match top {
            Token::Operator(top_op) => {
                if !apply_operator_exec(out, top_op) {
                    return false;
                }
            },
            _ => {
                assert(false);
            },
        }
    }
}

/// Handles a closing parenthesis.
fn close_paren_exec(out: &mut Vec<Expression>, stack: &mut Vec<Token>) -> (r: Result<(), String>)
    requires
        stack_ok(token_views(old(stack)@)),
    ensures
        stack_ok(token_views(final(stack)@)),
        match close_paren(expr_views(old(out)@), token_views(old(stack)@)) {
            Ok(s) => r is Ok && expr_views(final(out)@) == s.out && token_views(final(stack)@)
                == s.ops,
            Err(e) => r is Err && r->Err_0@ == e,
        },
{
    let ghost goal = close_paren(expr_views(out@), token_views(stack@));
    loop
        invariant
            stack_ok(token_views(stack@)),
            goal == close_paren(expr_views(old(out)@), token_views(old(stack)@)),
            close_paren(expr_views(out@), token_views(stack@)) == goal,
        decreases stack.len(),
    {
        let ghost before = token_views(stack@);
        let ghost out_before = expr_views(out@);
        match stack.pop() {
            None => {
                return Err(mismatched_parentheses());
            },
            Some(top) => {
                proof {
                    assert(token_views(stack@) =~= before.drop_last());
                    assert(before.last() == top@);
                    assert forall|j: int| 0 <= j < token_views(stack@).len() implies match #[trigger] token_views(stack@)[j] {
                        TokenView::Operator(_) | TokenView::Function(_) | TokenView::OpenParen => true,
                        _ => false,
                    } by {
                        assert(token_views(stack@)[j] == before[j]);
                    }
                }
                match top {
                    Token::OpenParen => {
                        let m = stack.len();
                        let is_function = m > 0 && match &stack[m - 1] {
                            Token::Function(_) => true,
                            _ => false,
                        };
                        proof {
                            if m > 0 {
                                assert(token_views(stack@).last() == stack@[m - 1]@);
                            }
                        }
                        if is_function {
                            let ghost rest = token_views(stack@);
                            let func_token = stack.pop().unwrap();
                            proof {
                                assert(token_views(stack@) =~= rest.drop_last());
                                assert forall|j: int| 0 <= j < token_views(stack@).len() implies match #[trigger] token_views(stack@)[j] {
                                    TokenView::Operator(_) | TokenView::Function(_) | TokenView::OpenParen => true,
                                    _ => false,
                                } by {
                                    assert(token_views(stack@)[j] == rest[j]);
                                }
                            }
                            if out.len() == 0 {
                                return Err(missing_argument());
                            }
                            let arg = out.pop().unwrap();
                            match func_token {
                                Token::Function(f) => {
                                    let node = Expression::Call(FunctionCall::new(f, Box::new(arg)));
                                    out.push(node);
                                    assert(expr_views(out@) =~= out_before.drop_last().push(
                                        ExprView::Call(f, Box::new(out_before.last())),
                                    ));
                                },
                                _ => {
                                    assert(false);
                                },
                            }
                        }
                        return Ok(());
                    },
                    Token::Operator(op) => {
                        if !apply_operator_exec(out, op) {
                            return Err(not_enough_operands());
                        }
                    },
                    Token::Function(f) => {
                        return Err(unexpected_function(f));
                    },
                    _ => {
                        assert(false);
                        return Err(mismatched_parentheses());
                    },
                }
            },
        }
    }
}

/// Applies the remaining operators and takes the one finished tree.
fn finish_exec(output: Vec<Expression>, operators: Vec<Token>) -> (r: Result<Expression, String>)
    requires
        stack_ok(token_views(operators@)),
    ensures
        match r {
            Ok(e) => parse_finish(expr_views(output@), token_views(operators@)) == Ok::<
                ExprView,
                Seq<char>,
            >(e@),
            Err(m) => parse_finish(expr_views(output@), token_views(operators@)) == Err::<
                ExprView,
                Seq<char>,
            >(m@),
        },
{
    let ghost goal = parse_finish(expr_views(output@), token_views(operators@));
    let mut out = output;
    let mut stack = operators;
    loop
        invariant
            stack_ok(token_views(stack@)),
            goal == parse_finish(expr_views(output@), token_views(operators@)),
            parse_finish(expr_views(out@), token_views(stack@)) == goal,
        decreases stack.len(),
    {
        let ghost before = token_views(stack@);
        match stack.pop() {
            None => {
                if out.len() != 1 {
                    return Err(too_many_values());
                }
                let e = out.pop().unwrap();
                return Ok(e);
            },
            Some(top) => {
                proof {
                    assert(token_views(stack@) =~= before.drop_last());
                    assert(before.last() == top@);
                    assert forall|j: int| 0 <= j < token_views(stack@).len() implies match #[trigger] token_views(stack@)[j] {
                        TokenView::Operator(_) | TokenView::Function(_) | TokenView::OpenParen => true,
                        _ => false,
                    } by {
                        assert(token_views(stack@)[j] == before[j]);
                    }
                }
                match top {
                    Token::Operator(op) => {
                        if !apply_operator_exec(&mut out, op) {
                            return Err(not_enough_operands());
                        }
                    },
                    Token::Function(f) => {
                        return Err(unexpected_function(f));
                    },
                    _ => {
                        return Err(mismatched_parentheses());
                    },
                }
            },
        }
    }
}


// ------------------------------------------------------------------
// Laws of the parser
// ------------------------------------------------------------------

/// The tokens that write a tree with every operation in parentheses:
/// `( left op right )` and `f ( argument )`.
pub open spec fn tree_tokens(e: ExprView) -> Seq<TokenView>
    decreases e,
{
    match e {
        ExprView::Number(t) => seq![TokenView::Number(t)],
        ExprView::Variable(n) => seq![TokenView::Variable(n)],
        ExprView::Binary(l, op, r) => seq![TokenView::OpenParen] + tree_tokens(*l) + seq![
            TokenView::Operator(op),
        ] + tree_tokens(*r) + seq![TokenView::CloseParen],
        ExprView::Call(f, a) => seq![TokenView::Function(f), TokenView::OpenParen] + tree_tokens(
            *a,
        ) + seq![TokenView::CloseParen],
    }
}

/// Running the machine over `a + b` runs it over `a`, then over `b`.
pub proof fn lemma_run_from_append(st: ParseState, a: Seq<TokenView>, b: Seq<TokenView>)
    ensures
        run_from(st, a + b) == match run_from(st, a) {
            Err(e) => Err(e),
            Ok(s) => run_from(s, b),
        },
    decreases b.len(),
{
    if b.len() == 0 {
        assert(a + b =~= a);
    } else {
        assert((a + b).drop_last() =~= a + b.drop_last());
        assert((a + b).last() == b.last());
        lemma_run_from_append(st, a, b.drop_last());
    }
}

proof fn lemma_run_from_one(st: ParseState, t: TokenView)
    ensures
        run_from(st, seq![t]) == parse_step(st, t),
{
    assert(seq![t].drop_last() =~= Seq::<TokenView>::empty());
    assert(run_from(st, Seq::<TokenView>::empty()) == Ok::<ParseState, Seq<char>>(st));
}

/// Whether the top of the stack is a function token.
pub open spec fn function_on_top(ops: Seq<TokenView>) -> bool {
    ops.len() > 0 && ops.last() is Function
}

/// The tokens of a fully parenthesised tree push that tree onto the output
/// queue and leave the stack as it was, whenever no function waits on top of
/// the stack.
pub proof fn lemma_tree_tokens_push(st: ParseState, e: ExprView)
    requires
        !function_on_top(st.ops),
    ensures
        run_from(st, tree_tokens(e)) == Ok::<ParseState, Seq<char>>(
            ParseState { out: st.out.push(e), ops: st.ops },
        ),
    decreases e,
{
    match e {
        ExprView::Number(t) => {
            lemma_run_from_one(st, TokenView::Number(t));
        },
        ExprView::Variable(n) => {
            lemma_run_from_one(st, TokenView::Variable(n));
        },
        ExprView::Binary(l, op, r) => {
            let open = seq![TokenView::OpenParen];
            let opt = seq![TokenView::Operator(op)];
            let close = seq![TokenView::CloseParen];
            let tl = tree_tokens(*l);
            let tr = tree_tokens(*r);
            assert(tree_tokens(e) =~= open + tl + opt + tr + close);
            // after `(`
            let s1 = ParseState { out: st.out, ops: st.ops.push(TokenView::OpenParen) };
            lemma_run_from_one(st, TokenView::OpenParen);
            // after the left operand
            lemma_tree_tokens_push(s1, *l);
            let s2 = ParseState { out: st.out.push(*l), ops: s1.ops };
            lemma_run_from_append(st, open, tl);
            // after the operator: the open parenthesis stops the reduction
            let s3 = ParseState { out: s2.out, ops: s2.ops.push(TokenView::Operator(op)) };
            lemma_run_from_one(s2, TokenView::Operator(op));
            assert(reduce_before(s2.out, s2.ops, op) == Ok::<ParseState, Seq<char>>(s2));
            lemma_run_from_append(st, open + tl, opt);
            // after the right operand
            lemma_tree_tokens_push(s3, *r);
            let s4 = ParseState { out: s2.out.push(*r), ops: s3.ops };
            lemma_run_from_append(st, open + tl + opt, tr);
            // after `)`
            lemma_run_from_one(s4, TokenView::CloseParen);
            let applied = apply_operator(s4.out, op);
            assert(s4.out.take(s4.out.len() - 2) =~= st.out);
            assert(applied == Some(st.out.push(e)));
            assert(s4.ops.drop_last() =~= s1.ops);
            assert(s1.ops.drop_last() =~= st.ops);
            assert(close_paren(st.out.push(e), s1.ops) == Ok::<ParseState, Seq<char>>(
                ParseState { out: st.out.push(e), ops: st.ops },
            ));
            lemma_run_from_append(st, open + tl + opt + tr, close);
        },
        ExprView::Call(f, a) => {
            let head = seq![TokenView::Function(f), TokenView::OpenParen];
            let close = seq![TokenView::CloseParen];
            let ta = tree_tokens(*a);
            assert(tree_tokens(e) =~= head + ta + close);
            let s0 = ParseState { out: st.out, ops: st.ops.push(TokenView::Function(f)) };
            let s1 = ParseState { out: st.out, ops: s0.ops.push(TokenView::OpenParen) };
            assert(head =~= seq![TokenView::Function(f)] + seq![TokenView::OpenParen]);
            lemma_run_from_one(st, TokenView::Function(f));
            lemma_run_from_one(s0, TokenView::OpenParen);
            lemma_run_from_append(st, seq![TokenView::Function(f)], seq![TokenView::OpenParen]);
            lemma_tree_tokens_push(s1, *a);
            lemma_run_from_append(st, head, ta);
            let s2 = ParseState { out: st.out.push(*a), ops: s1.ops };
            lemma_run_from_one(s2, TokenView::CloseParen);
            assert(s2.ops.drop_last() =~= s0.ops);
            assert(s0.ops.drop_last() =~= st.ops);
            assert(s2.out.drop_last() =~= st.out);
            lemma_run_from_append(st, head + ta, close);
        },
    }
}

/// Parsing undoes fully parenthesised writing: the tokens that write a tree
/// with every operation in parentheses build exactly that tree.
pub proof fn law_parse_fully_parenthesized(e: ExprView)
    ensures
        build_tree_spec(tree_tokens(e)) == Ok::<ExprView, Seq<char>>(e),
{
    lemma_tree_tokens_push(initial_state(), e);
    assert(initial_state().out.push(e) =~= seq![e]);
}


/// Whether a token is a number or a variable.
pub open spec fn is_atom(t: TokenView) -> bool {
    t is Number || t is Variable
}

/// The leaf that a number or variable token becomes.
pub open spec fn atom_tree(t: TokenView) -> ExprView {
    match t {
        TokenView::Number(n) => ExprView::Number(n),
        TokenView::Variable(v) => ExprView::Variable(v),
        _ => ExprView::Number(seq![]),
    }
}

/// Operator precedence and left associativity: in `a o1 b o2 c` the first
/// operator is applied first when it binds at least as tightly as the second,
/// and the second is applied first otherwise.
pub proof fn law_operator_precedence(
    a: TokenView,
    o1: Operator,
    b: TokenView,
    o2: Operator,
    c: TokenView,
)
    requires
        is_atom(a),
        is_atom(b),
        is_atom(c),
    ensures
        build_tree_spec(
            seq![a, TokenView::Operator(o1), b, TokenView::Operator(o2), c],
        ) == Ok::<ExprView, Seq<char>>(
            if operator_precedence(o1) >= operator_precedence(o2) {
                ExprView::Binary(
                    Box::new(
                        ExprView::Binary(Box::new(atom_tree(a)), o1, Box::new(atom_tree(b))),
                    ),
                    o2,
                    Box::new(atom_tree(c)),
                )
            } else {
                ExprView::Binary(
                    Box::new(atom_tree(a)),
                    o1,
                    Box::new(ExprView::Binary(Box::new(atom_tree(b)), o2, Box::new(atom_tree(c)))),
                )
            },
        ),
{
    let ts = seq![a, TokenView::Operator(o1), b, TokenView::Operator(o2), c];
    let ea = atom_tree(a);
    let eb = atom_tree(b);
    let ec = atom_tree(c);
    let s0 = initial_state();
    let s1 = ParseState { out: seq![ea], ops: seq![] };
    let s2 = ParseState { out: seq![ea], ops: seq![TokenView::Operator(o1)] };
    let s3 = ParseState { out: seq![ea, eb], ops: seq![TokenView::Operator(o1)] };
    assert(ts.take(1) =~= seq![a]);
    assert(ts.take(2) =~= seq![a, TokenView::Operator(o1)]);
    assert(ts.take(3) =~= seq![a, TokenView::Operator(o1), b]);
    assert(ts.take(4) =~= seq![a, TokenView::Operator(o1), b, TokenView::Operator(o2)]);
    assert(ts.take(1).drop_last() =~= ts.take(0));
    assert(ts.take(2).drop_last() =~= ts.take(1));
    assert(ts.take(3).drop_last() =~= ts.take(2));
    assert(ts.take(4).drop_last() =~= ts.take(3));
    assert(ts.drop_last() =~= ts.take(4));
    assert(run_from(s0, ts.take(0)) == Ok::<ParseState, Seq<char>>(s0));
    assert(s0.out.push(ea) =~= s1.out);
    assert(run_from(s0, ts.take(1)) == Ok::<ParseState, Seq<char>>(s1));
    assert(reduce_before(s1.out, s1.ops, o1) == Ok::<ParseState, Seq<char>>(s1));
    assert(s1.ops.push(TokenView::Operator(o1)) =~= s2.ops);
    assert(run_from(s0, ts.take(2)) == Ok::<ParseState, Seq<char>>(s2));
    assert(s2.out.push(eb) =~= s3.out);
    assert(run_from(s0, ts.take(3)) == Ok::<ParseState, Seq<char>>(s3));
    if operator_precedence(o1) >= operator_precedence(o2) {
        let ab = ExprView::Binary(Box::new(ea), o1, Box::new(eb));
        let s4 = ParseState { out: seq![ab], ops: seq![TokenView::Operator(o2)] };
        assert(apply_operator(s3.out, o1) == Some(seq![ab])) by {
            assert(s3.out.take(0) =~= Seq::<ExprView>::empty());
            assert(Seq::<ExprView>::empty().push(ab) =~= seq![ab]);
        }
        assert(s3.ops.drop_last() =~= Seq::<TokenView>::empty());
        assert(reduce_before(seq![ab], seq![], o2) == Ok::<ParseState, Seq<char>>(
            ParseState { out: seq![ab], ops: seq![] },
        ));
        assert(reduce_before(s3.out, s3.ops, o2) == Ok::<ParseState, Seq<char>>(
            ParseState { out: seq![ab], ops: seq![] },
        ));
        assert(Seq::<TokenView>::empty().push(TokenView::Operator(o2)) =~= s4.ops);
        assert(run_from(s0, ts.take(4)) == Ok::<ParseState, Seq<char>>(s4));
        let s5 = ParseState { out: seq![ab, ec], ops: s4.ops };
        assert(s4.out.push(ec) =~= s5.out);
        assert(parse_run(ts) == Ok::<ParseState, Seq<char>>(s5));
        let whole = ExprView::Binary(Box::new(ab), o2, Box::new(ec));
        assert(s5.out.take(0) =~= Seq::<ExprView>::empty());
        assert(apply_operator(s5.out, o2) == Some(seq![whole])) by {
            assert(Seq::<ExprView>::empty().push(whole) =~= seq![whole]);
        }
        assert(s5.ops.drop_last() =~= Seq::<TokenView>::empty());
        assert(parse_finish(seq![whole], Seq::<TokenView>::empty()) == Ok::<ExprView, Seq<char>>(
            whole,
        ));
        assert(parse_finish(s5.out, s5.ops) == Ok::<ExprView, Seq<char>>(whole));
        assert(build_tree_spec(ts) == Ok::<ExprView, Seq<char>>(whole));
    } else {
        let s4 = ParseState {
            out: seq![ea, eb],
            ops: seq![TokenView::Operator(o1), TokenView::Operator(o2)],
        };
        assert(reduce_before(s3.out, s3.ops, o2) == Ok::<ParseState, Seq<char>>(s3));
        assert(s3.ops.push(TokenView::Operator(o2)) =~= s4.ops);
        assert(run_from(s0, ts.take(4)) == Ok::<ParseState, Seq<char>>(s4));
        let s5 = ParseState { out: seq![ea, eb, ec], ops: s4.ops };
        assert(s4.out.push(ec) =~= s5.out);
        assert(parse_run(ts) == Ok::<ParseState, Seq<char>>(s5));
        let bc = ExprView::Binary(Box::new(eb), o2, Box::new(ec));
        assert(s5.out.take(1) =~= seq![ea]);
        assert(apply_operator(s5.out, o2) == Some(seq![ea, bc])) by {
            assert(seq![ea].push(bc) =~= seq![ea, bc]);
        }
        assert(s5.ops.drop_last() =~= seq![TokenView::Operator(o1)]);
        let whole = ExprView::Binary(Box::new(ea), o1, Box::new(bc));
        assert(seq![ea, bc].take(0) =~= Seq::<ExprView>::empty());
        assert(apply_operator(seq![ea, bc], o1) == Some(seq![whole])) by {
            assert(Seq::<ExprView>::empty().push(whole) =~= seq![whole]);
        }
        assert(seq![TokenView::Operator(o1)].drop_last() =~= Seq::<TokenView>::empty());
        assert(parse_finish(seq![whole], Seq::<TokenView>::empty()) == Ok::<ExprView, Seq<char>>(
            whole,
        ));
        assert(parse_finish(seq![ea, bc], seq![TokenView::Operator(o1)]) == Ok::<
            ExprView,
            Seq<char>,
        >(whole));
        assert(parse_finish(s5.out, s5.ops) == Ok::<ExprView, Seq<char>>(whole));
        assert(build_tree_spec(ts) == Ok::<ExprView, Seq<char>>(whole));
    }
}

} // verus!

verus! {

// ------------------------------------------------------------------
// Left-associative precedence on flat lists
// ------------------------------------------------------------------

/// A token list of numbers, variables and operators only.
pub open spec fn is_flat(ts: Seq<TokenView>) -> bool {
    forall|i: int| 0 <= i < ts.len() ==> is_atom(#[trigger] ts[i]) || ts[i] is Operator
}

/// Every operator of the list binds at least as tightly as precedence `p`.
pub open spec fn operators_at_least(ts: Seq<TokenView>, p: u8) -> bool {
    forall|i: int|
        0 <= i < ts.len() && #[trigger] ts[i] is Operator ==> operator_precedence(
            ts[i]->Operator_0,
        ) >= p
}

/// Pending tokens that are all operators binding at least as tightly as `p`.
spec fn stack_at_least(ops: Seq<TokenView>, p: u8) -> bool {
    forall|i: int|
        0 <= i < ops.len() ==> #[trigger] ops[i] is Operator && operator_precedence(
            ops[i]->Operator_0,
        ) >= p
}

proof fn lemma_reduce_before_prefix(out: Seq<ExprView>, ops: Seq<TokenView>, op: Operator)
    requires
        reduce_before(out, ops, op) is Ok,
    ensures
        reduce_before(out, ops, op)->Ok_0.ops.len() <= ops.len(),
        reduce_before(out, ops, op)->Ok_0.ops == ops.take(
            reduce_before(out, ops, op)->Ok_0.ops.len() as int,
        ),
    decreases ops.len(),
{
    if ops.len() > 0 && ops.last() is Operator && operator_precedence(ops.last()->Operator_0)
        >= operator_precedence(op) {
        let o = apply_operator(out, ops.last()->Operator_0)->Some_0;
        lemma_reduce_before_prefix(o, ops.drop_last(), op);
        let n = reduce_before(out, ops, op)->Ok_0.ops.len() as int;
        assert(ops.drop_last().take(n) =~= ops.take(n));
    } else {
        assert(ops.take(ops.len() as int) =~= ops);
    }
}

proof fn lemma_flat_stack(ts: Seq<TokenView>, p: u8)
    requires
        is_flat(ts),
        operators_at_least(ts, p),
        parse_run(ts) is Ok,
    ensures
        stack_at_least(parse_run(ts)->Ok_0.ops, p),
    decreases ts.len(),
{
    if ts.len() == 0 {
    } else {
        let pre = ts.drop_last();
        let t = ts.last();
        assert(is_flat(pre)) by {
            assert forall|i: int| 0 <= i < pre.len() implies is_atom(#[trigger] pre[i])
                || pre[i] is Operator by {
                assert(pre[i] == ts[i]);
            }
        }
        assert(operators_at_least(pre, p)) by {
            assert forall|i: int| 0 <= i < pre.len() && #[trigger] pre[i] is Operator implies operator_precedence(
                pre[i]->Operator_0,
            ) >= p by {
                assert(pre[i] == ts[i]);
            }
        }
        lemma_flat_stack(pre, p);
        let s = parse_run(pre)->Ok_0;
        assert(is_atom(ts[ts.len() - 1]) || ts[ts.len() - 1] is Operator);
        if t is Operator {
            let op = t->Operator_0;
            lemma_reduce_before_prefix(s.out, s.ops, op);
            let s2 = reduce_before(s.out, s.ops, op)->Ok_0;
            let n = s2.ops.len() as int;
            assert(operator_precedence(op) >= p) by {
                assert(ts[ts.len() - 1] is Operator);
            }
            assert forall|i: int| 0 <= i < s2.ops.push(t).len() implies #[trigger] s2.ops.push(
                t,
            )[i] is Operator && operator_precedence(s2.ops.push(t)[i]->Operator_0) >= p by {
                if i < n {
                    assert(s2.ops.push(t)[i] == s.ops[i]);
                }
            }
        }
    }
}

proof fn lemma_reduce_all(out: Seq<ExprView>, ops: Seq<TokenView>, o: Operator, t: ExprView)
    requires
        stack_at_least(ops, operator_precedence(o)),
        parse_finish(out, ops) == Ok::<ExprView, Seq<char>>(t),
    ensures
        reduce_before(out, ops, o) == Ok::<ParseState, Seq<char>>(
            ParseState { out: seq![t], ops: seq![] },
        ),
    decreases ops.len(),
{
    if ops.len() == 0 {
        assert(out =~= seq![t]);
        assert(ops =~= Seq::<TokenView>::empty());
    } else {
        assert(ops[ops.len() - 1] is Operator);
        let top = ops.last()->Operator_0;
        let o2 = apply_operator(out, top)->Some_0;
        let rest = ops.drop_last();
        assert(stack_at_least(rest, operator_precedence(o))) by {
            assert forall|i: int| 0 <= i < rest.len() implies #[trigger] rest[i] is Operator
                && operator_precedence(rest[i]->Operator_0) >= operator_precedence(o) by {
                assert(rest[i] == ops[i]);
            }
        }
        lemma_reduce_all(o2, rest, o, t);
    }
}

/// Left-associative precedence: appending an operator that binds no
/// tighter than any operator of a list of numbers, variables and operators,
/// and one more operand, makes the tree of the list the left operand of the
/// new operator. The new operator is applied last.
pub proof fn law_loosest_operator_applies_last(ts: Seq<TokenView>, o: Operator, x: TokenView)
    requires
        is_flat(ts),
        operators_at_least(ts, operator_precedence(o)),
        build_tree_spec(ts) is Ok,
        is_atom(x),
    ensures
        build_tree_spec(ts + seq![TokenView::Operator(o), x]) == Ok::<ExprView, Seq<char>>(
            ExprView::Binary(
                Box::new(build_tree_spec(ts)->Ok_0),
                o,
                Box::new(atom_tree(x)),
            ),
        ),
{
    let t = build_tree_spec(ts)->Ok_0;
    let st = parse_run(ts)->Ok_0;
    lemma_flat_stack(ts, operator_precedence(o));
    lemma_reduce_all(st.out, st.ops, o, t);
    let s1 = ParseState { out: seq![t], ops: seq![TokenView::Operator(o)] };
    let s2 = ParseState { out: seq![t, atom_tree(x)], ops: seq![TokenView::Operator(o)] };
    lemma_run_from_one(st, TokenView::Operator(o));
    assert(Seq::<TokenView>::empty().push(TokenView::Operator(o)) =~= s1.ops);
    lemma_run_from_one(s1, x);
    assert(seq![t].push(atom_tree(x)) =~= s2.out);
    lemma_run_from_append(st, seq![TokenView::Operator(o)], seq![x]);
    assert(seq![TokenView::Operator(o)] + seq![x] =~= seq![TokenView::Operator(o), x]);
    lemma_run_from_append(initial_state(), ts, seq![TokenView::Operator(o), x]);
    let whole = ExprView::Binary(Box::new(t), o, Box::new(atom_tree(x)));
    assert(s2.out.take(0) =~= Seq::<ExprView>::empty());
    assert(apply_operator(s2.out, o) == Some(seq![whole])) by {
        assert(Seq::<ExprView>::empty().push(whole) =~= seq![whole]);
    }
    assert(s2.ops.drop_last() =~= Seq::<TokenView>::empty());
    assert(parse_finish(seq![whole], Seq::<TokenView>::empty()) == Ok::<ExprView, Seq<char>>(
        whole,
    ));
}

} // verus!

verus! {

// ------------------------------------------------------------------
// Parentheses and calls around a whole token list
// ------------------------------------------------------------------

/// A machine state with more subtrees below its output and more pending
/// tokens below its stack.
pub open spec fn framed(below: Seq<TokenView>, before: Seq<ExprView>, s: ParseState) -> ParseState {
    ParseState { out: before + s.out, ops: below + s.ops }
}

/// Pending tokens that nothing inside a parenthesis reaches past: none, or
/// an open parenthesis on top.
pub open spec fn is_barrier(below: Seq<TokenView>) -> bool {
    below.len() == 0 || below.last() is OpenParen
}

proof fn lemma_apply_framed(before: Seq<ExprView>, out: Seq<ExprView>, op: Operator)
    requires
        apply_operator(out, op) is Some,
    ensures
        apply_operator(before + out, op) == Some(before + apply_operator(out, op)->Some_0),
{
    let w = before + out;
    let n = out.len();
    assert(w.take(w.len() - 2) =~= before + out.take(n - 2));
    assert(w[w.len() - 2] == out[n - 2]);
    assert(w[w.len() - 1] == out[n - 1]);
    let e = ExprView::Binary(Box::new(out[n - 2]), op, Box::new(out[n - 1]));
    assert((before + out.take(n - 2)).push(e) =~= before + out.take(n - 2).push(e));
}

proof fn lemma_reduce_framed(
    below: Seq<TokenView>,
    before: Seq<ExprView>,
    out: Seq<ExprView>,
    ops: Seq<TokenView>,
    op: Operator,
)
    requires
        is_barrier(below),
        reduce_before(out, ops, op) is Ok,
    ensures
        reduce_before(before + out, below + ops, op) == Ok::<ParseState, Seq<char>>(
            framed(below, before, reduce_before(out, ops, op)->Ok_0),
        ),
    decreases ops.len(),
{
    let all = below + ops;
    if ops.len() > 0 {
        assert(all.last() == ops.last());
        assert(all.drop_last() =~= below + ops.drop_last());
        if ops.last() is Operator && operator_precedence(ops.last()->Operator_0)
            >= operator_precedence(op) {
            let o = apply_operator(out, ops.last()->Operator_0)->Some_0;
            lemma_apply_framed(before, out, ops.last()->Operator_0);
            lemma_reduce_framed(below, before, o, ops.drop_last(), op);
        }
    } else {
        assert(all =~= below);
        if below.len() > 0 {
            assert(below.last() is OpenParen);
        }
        assert(below + ops =~= below);
    }
}

proof fn lemma_close_framed(
    below: Seq<TokenView>,
    before: Seq<ExprView>,
    out: Seq<ExprView>,
    ops: Seq<TokenView>,
)
    requires
        is_barrier(below),
        close_paren(out, ops) is Ok,
    ensures
        close_paren(before + out, below + ops) == Ok::<ParseState, Seq<char>>(
            framed(below, before, close_paren(out, ops)->Ok_0),
        ),
    decreases ops.len(),
{
    let all = below + ops;
    let rest = ops.drop_last();
    assert(all.last() == ops.last());
    assert(all.drop_last() =~= below + rest);
    match ops.last() {
        TokenView::OpenParen => {
            let w = before + out;
            if rest.len() > 0 {
                assert((below + rest).last() == rest.last());
                if rest.last() is Function {
                    assert(w.drop_last() =~= before + out.drop_last());
                    assert(w.last() == out.last());
                    assert((below + rest).drop_last() =~= below + rest.drop_last());
                    let c = ExprView::Call(rest.last()->Function_0, Box::new(out.last()));
                    assert((before + out.drop_last()).push(c) =~= before + out.drop_last().push(c));
                }
            } else {
                assert(below + rest =~= below);
                if below.len() > 0 {
                    assert(below.last() is OpenParen);
                }
            }
        },
        TokenView::Operator(op) => {
            let o = apply_operator(out, op)->Some_0;
            lemma_apply_framed(before, out, op);
            lemma_close_framed(below, before, o, rest);
        },
        _ => {},
    }
}

proof fn lemma_step_framed(below: Seq<TokenView>, before: Seq<ExprView>, s: ParseState, t: TokenView)
    requires
        is_barrier(below),
        parse_step(s, t) is Ok,
    ensures
        parse_step(framed(below, before, s), t) == Ok::<ParseState, Seq<char>>(
            framed(below, before, parse_step(s, t)->Ok_0),
        ),
{
    match t {
        TokenView::Number(n) => {
            assert((before + s.out).push(ExprView::Number(n)) =~= before + s.out.push(
                ExprView::Number(n),
            ));
        },
        TokenView::Variable(v) => {
            assert((before + s.out).push(ExprView::Variable(v)) =~= before + s.out.push(
                ExprView::Variable(v),
            ));
        },
        TokenView::Operator(op) => {
            lemma_reduce_framed(below, before, s.out, s.ops, op);
            let s2 = reduce_before(s.out, s.ops, op)->Ok_0;
            assert((below + s2.ops).push(t) =~= below + s2.ops.push(t));
        },
        TokenView::CloseParen => {
            lemma_close_framed(below, before, s.out, s.ops);
        },
        _ => {
            assert((below + s.ops).push(t) =~= below + s.ops.push(t));
        },
    }
}

proof fn lemma_run_framed(
    below: Seq<TokenView>,
    before: Seq<ExprView>,
    s: ParseState,
    ts: Seq<TokenView>,
)
    requires
        is_barrier(below),
        run_from(s, ts) is Ok,
    ensures
        run_from(framed(below, before, s), ts) == Ok::<ParseState, Seq<char>>(
            framed(below, before, run_from(s, ts)->Ok_0),
        ),
    decreases ts.len(),
{
    if ts.len() > 0 {
        lemma_run_framed(below, before, s, ts.drop_last());
        lemma_step_framed(below, before, run_from(s, ts.drop_last())->Ok_0, ts.last());
    }
}

/// A `)` after the tokens of a whole tree, whose `(` stands on top of
/// `below`, leaves that tree, applied to a function just below the `(`.
proof fn lemma_close_after_finish(
    below: Seq<TokenView>,
    out: Seq<ExprView>,
    ops: Seq<TokenView>,
    t: ExprView,
)
    requires
        parse_finish(out, ops) == Ok::<ExprView, Seq<char>>(t),
    ensures
        close_paren(out, below.push(TokenView::OpenParen) + ops) == Ok::<ParseState, Seq<char>>(
            if below.len() > 0 && below.last() is Function {
                ParseState {
                    out: seq![ExprView::Call(below.last()->Function_0, Box::new(t))],
                    ops: below.drop_last(),
                }
            } else {
                ParseState { out: seq![t], ops: below }
            },
        ),
    decreases ops.len(),
{
    let q = below.push(TokenView::OpenParen);
    if ops.len() == 0 {
        assert(out =~= seq![t]);
        assert(q + ops =~= q);
        assert(q.drop_last() =~= below);
        assert(out.drop_last().push(ExprView::Call(below.last()->Function_0, Box::new(t)))
            =~= seq![ExprView::Call(below.last()->Function_0, Box::new(t))]);
    } else {
        let top = ops.last();
        assert((q + ops).last() == top);
        assert((q + ops).drop_last() =~= q + ops.drop_last());
        match top {
            TokenView::Operator(op) => {
                let o = apply_operator(out, op)->Some_0;
                lemma_close_after_finish(below, o, ops.drop_last(), t);
            },
            _ => {},
        }
    }
}

proof fn lemma_wrapped(head: Seq<TokenView>, below: Seq<TokenView>, ts: Seq<TokenView>)
    requires
        build_tree_spec(ts) is Ok,
        below.push(TokenView::OpenParen) == head,
        parse_run(head) == Ok::<ParseState, Seq<char>>(
            ParseState { out: seq![], ops: head },
        ),
    ensures
        parse_run(head + ts + seq![TokenView::CloseParen]) == close_paren(
            parse_run(ts)->Ok_0.out,
            head + parse_run(ts)->Ok_0.ops,
        ),
{
    let st = parse_run(ts)->Ok_0;
    let s0 = ParseState { out: seq![], ops: head };
    assert(framed(head, seq![], initial_state()) == s0) by {
        assert(Seq::<ExprView>::empty() + Seq::<ExprView>::empty() =~= Seq::<ExprView>::empty());
        assert(head + Seq::<TokenView>::empty() =~= head);
    }
    lemma_run_framed(head, seq![], initial_state(), ts);
    assert(Seq::<ExprView>::empty() + st.out =~= st.out);
    lemma_run_from_append(initial_state(), head, ts);
    lemma_run_from_append(initial_state(), head + ts, seq![TokenView::CloseParen]);
    lemma_run_from_one(framed(head, seq![], st), TokenView::CloseParen);
}

/// Parentheses around a whole token list change nothing: `( ts )` parses
/// to the tree of `ts`.
pub proof fn law_parentheses_around_list(ts: Seq<TokenView>)
    requires
        build_tree_spec(ts) is Ok,
    ensures
        build_tree_spec(seq![TokenView::OpenParen] + ts + seq![TokenView::CloseParen])
            == build_tree_spec(ts),
{
    let head = seq![TokenView::OpenParen];
    let below = Seq::<TokenView>::empty();
    assert(below.push(TokenView::OpenParen) =~= head);
    lemma_run_from_one(initial_state(), TokenView::OpenParen);
    assert(Seq::<TokenView>::empty().push(TokenView::OpenParen) =~= head);
    lemma_wrapped(head, below, ts);
    let st = parse_run(ts)->Ok_0;
    let t = build_tree_spec(ts)->Ok_0;
    lemma_close_after_finish(below, st.out, st.ops, t);
}

/// A function applied to a whole token list: `f ( ts )` parses to the call
/// of `f` on the tree of `ts`.
pub proof fn law_call_around_list(f: Function, ts: Seq<TokenView>)
    requires
        build_tree_spec(ts) is Ok,
    ensures
        build_tree_spec(
            seq![TokenView::Function(f), TokenView::OpenParen] + ts + seq![TokenView::CloseParen],
        ) == Ok::<ExprView, Seq<char>>(
            ExprView::Call(f, Box::new(build_tree_spec(ts)->Ok_0)),
        ),
{
    let head = seq![TokenView::Function(f), TokenView::OpenParen];
    let below = seq![TokenView::Function(f)];
    assert(below.push(TokenView::OpenParen) =~= head);
    let s1 = ParseState { out: seq![], ops: below };
    lemma_run_from_one(initial_state(), TokenView::Function(f));
    assert(Seq::<TokenView>::empty().push(TokenView::Function(f)) =~= below);
    lemma_run_from_one(s1, TokenView::OpenParen);
    lemma_run_from_append(initial_state(), below, seq![TokenView::OpenParen]);
    assert(below + seq![TokenView::OpenParen] =~= head);
    lemma_wrapped(head, below, ts);
    let st = parse_run(ts)->Ok_0;
    let t = build_tree_spec(ts)->Ok_0;
    lemma_close_after_finish(below, st.out, st.ops, t);
    assert(below.drop_last() =~= Seq::<TokenView>::empty());
}

} // verus!
