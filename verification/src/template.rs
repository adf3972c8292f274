use vstd::prelude::*;
use vstd::string::StringExecFns;
use crate::token::{
    Function, Operator, Token, TokenView, operator_precedence, token_views, tokenize,
    tokenize_spec, render_token, rendered_text, rendered_words, join_words, law_tokenize_rendered,
};
use crate::expression::{BinaryOperation, ExprView, Expression, FunctionCall, NumberExpression, VariableExpression};
use crate::parser::{
    ExpressionParser, build_tree_spec, parse_spec, law_operator_precedence, law_parse_fully_parenthesized,
    is_atom, atom_tree, tree_tokens, ParseState, apply_operator, reduce_before, close_paren,
    parse_step, parse_finish, parse_run, run_from, initial_state, is_flat, operators_at_least,
    law_loosest_operator_applies_last,
};

verus! {

// ------------------------------------------------------------------
// Validation
// ------------------------------------------------------------------

/// The number of open minus the number of close parentheses.
pub open spec fn paren_depth(ts: Seq<TokenView>) -> int
    decreases ts.len(),
{
    if ts.len() == 0 {
        0
    } else {
        paren_depth(ts.drop_last()) + match ts.last() {
            TokenView::OpenParen => 1int,
            TokenView::CloseParen => -1int,
            _ => 0int,
        }
    }
}

/// Every prefix has at least as many open as close parentheses, and the
/// whole list has as many of each.
pub open spec fn parens_balanced(ts: Seq<TokenView>) -> bool {
    &&& forall|k: int| 0 <= k <= ts.len() ==> paren_depth(#[trigger] ts.take(k)) >= 0
    &&& paren_depth(ts) == 0
}

/// The number of tokens that satisfy `p`.
pub open spec fn count_tokens(ts: Seq<TokenView>, p: spec_fn(TokenView) -> bool) -> nat
    decreases ts.len(),
{
    if ts.len() == 0 {
        0
    } else {
        count_tokens(ts.drop_last(), p) + if p(ts.last()) {
            1nat
        } else {
            0nat
        }
    }
}

pub open spec fn is_operand(t: TokenView) -> bool {
    t is Number || t is Variable
}

pub open spec fn is_operator_token(t: TokenView) -> bool {
    t is Operator
}

pub open spec fn operand_count(ts: Seq<TokenView>) -> nat {
    count_tokens(ts, |t: TokenView| is_operand(t))
}

pub open spec fn operator_count(ts: Seq<TokenView>) -> nat {
    count_tokens(ts, |t: TokenView| is_operator_token(t))
}

/// The shared check of the evaluators: a non-empty token list with balanced
/// parentheses.
pub open spec fn default_validation(ts: Seq<TokenView>) -> Result<(), Seq<char>> {
    if ts.len() == 0 {
        Err("Empty expression"@)
    } else if !parens_balanced(ts) {
        Err("Mismatched parentheses"@)
    } else {
        Ok(())
    }
}

/// The check of the shunting-yard evaluator: non-empty, balanced
/// parentheses, at least one operand, and one operand more than operators.
pub open spec fn shunting_yard_validation(ts: Seq<TokenView>) -> Result<(), Seq<char>> {
    if ts.len() == 0 {
        Err("No tokens to evaluate"@)
    } else if !parens_balanced(ts) {
        Err("Unbalanced parenthesis"@)
    } else if operand_count(ts) == 0 {
        Err("Expression must contain at least one operand"@)
    } else if operand_count(ts) != operator_count(ts) + 1 {
        Err("Unbalanced expression: check operands and operators"@)
    } else {
        Ok(())
    }
}

/// Whether the parentheses of a token list are balanced.
fn check_parens(tokens: &[Token]) -> (b: bool)
    ensures
        b == parens_balanced(token_views(tokens@)),
{
    let ghost ts = token_views(tokens@);
    let mut depth: usize = 0;
    let mut i: usize = 0;
    assert(ts.take(0) =~= Seq::<TokenView>::empty());
    while i < tokens.len()
        invariant
            ts == token_views(tokens@),
            0 <= i <= tokens.len(),
            depth <= i,
            depth == paren_depth(ts.take(i as int)),
            forall|k: int| 0 <= k <= i ==> paren_depth(#[trigger] ts.take(k)) >= 0,
        decreases tokens.len() - i,
    {
        assert(ts.take(i + 1).drop_last() =~= ts.take(i as int));
        assert(ts.take(i + 1).last() == tokens@[i as int]@);
        match &tokens[i] {
            Token::OpenParen => {
                depth = depth + 1;
            },
            Token::CloseParen => {
                if depth == 0 {
                    assert(paren_depth(ts.take(i + 1)) < 0);
                    return false;
                }
                depth = depth - 1;
            },
            _ => {},
        }
        i = i + 1;
    }
    assert(ts.take(tokens.len() as int) =~= ts);
    depth == 0
}

/// The numbers of operand and of operator tokens.
fn count_operands_and_operators(tokens: &[Token]) -> (r: (usize, usize))
    ensures
        r.0 == operand_count(token_views(tokens@)),
        r.1 == operator_count(token_views(tokens@)),
        r.0 + r.1 <= tokens.len(),
{
    let ghost ts = token_views(tokens@);
    let mut operands: usize = 0;
    let mut operators: usize = 0;
    let mut i: usize = 0;
    assert(ts.take(0) =~= Seq::<TokenView>::empty());
    while i < tokens.len()
        invariant
            ts == token_views(tokens@),
            0 <= i <= tokens.len(),
            operands + operators <= i,
            operands == operand_count(ts.take(i as int)),
            operators == operator_count(ts.take(i as int)),
        decreases tokens.len() - i,
    {
        assert(ts.take(i + 1).drop_last() =~= ts.take(i as int));
        assert(ts.take(i + 1).last() == tokens@[i as int]@);
        match &tokens[i] {
            Token::Number(_) | Token::Variable(_) => {
                operands = operands + 1;
            },
            Token::Operator(_) => {
                operators = operators + 1;
            },
            _ => {},
        }
        i = i + 1;
    }
    assert(ts.take(tokens.len() as int) =~= ts);
    (operands, operators)
}

/// The shared validation step: `Empty expression` for no tokens,
/// `Mismatched parentheses` for unbalanced ones.
fn validate_default(tokens: &[Token]) -> (r: Result<(), String>)
    ensures
        match r {
            Ok(()) => default_validation(token_views(tokens@)) == Ok::<(), Seq<char>>(()),
            Err(e) => default_validation(token_views(tokens@)) == Err::<(), Seq<char>>(e@),
        },
{
    if tokens.len() == 0 {
        return Err(String::from_str("Empty expression"));
    }
    if !check_parens(tokens) {
        return Err(String::from_str("Mismatched parentheses"));
    }
    Ok(())
}

/// The validation step of the shunting-yard evaluator.
fn validate_shunting_yard(tokens: &[Token]) -> (r: Result<(), String>)
    ensures
        match r {
            Ok(()) => shunting_yard_validation(token_views(tokens@)) == Ok::<(), Seq<char>>(()),
            Err(e) => shunting_yard_validation(token_views(tokens@)) == Err::<(), Seq<char>>(e@),
        },
{
    if tokens.len() == 0 {
        return Err(String::from_str("No tokens to evaluate"));
    }
    if !check_parens(tokens) {
        return Err(String::from_str("Unbalanced parenthesis"));
    }
    let (operands, operators) = count_operands_and_operators(tokens);
    if operands == 0 {
        return Err(String::from_str("Expression must contain at least one operand"));
    }
    if operands != operators + 1 {
        return Err(String::from_str("Unbalanced expression: check operands and operators"));
    }
    Ok(())
}

} // verus!

verus! {

// ------------------------------------------------------------------
// Recursive descent
// ------------------------------------------------------------------

/// How an operator or closing-parenthesis token is shown in diagnostics,
/// e.g. `Operator(Add)` or `CloseParen`.
pub open spec fn token_debug(t: TokenView) -> Seq<char> {
    match t {
        TokenView::Operator(op) => "Operator("@ + match op {
            Operator::Add => "Add"@,
            Operator::Subtract => "Subtract"@,
            Operator::Multiply => "Multiply"@,
            Operator::Divide => "Divide"@,
            Operator::Power => "Power"@,
        } + ")"@,
        TokenView::CloseParen => "CloseParen"@,
        _ => seq![],
    }
}

/// A whole expression: empty input is an error; otherwise a sum, whatever
/// tokens follow it.
pub open spec fn rd_expression(ts: Seq<TokenView>) -> Result<ExprView, Seq<char>> {
    if ts.len() == 0 {
        Err("Empty expression"@)
    } else {
        match rd_addition(ts, 0) {
            Ok(r) => Ok(r.0),
            Err(m) => Err(m),
        }
    }
}

/// A sum from position `pos`: products joined by `+` and `-`, grouped to
/// the left. Returns the tree and the position after it.
pub open spec fn rd_addition(ts: Seq<TokenView>, pos: nat) -> Result<(ExprView, nat), Seq<char>>
    decreases ts.len() - pos, 4int,
{
    match rd_multiplication(ts, pos) {
        Err(m) => Err(m),
        Ok(r) => if pos <= r.1 <= ts.len() {
            rd_addition_rest(ts, r.0, r.1)
        } else {
            Ok(r)
        },
    }
}

/// The rest of a sum after its first terms, which make `left`.
pub open spec fn rd_addition_rest(ts: Seq<TokenView>, left: ExprView, p: nat) -> Result<
    (ExprView, nat),
    Seq<char>,
>
    decreases ts.len() - p, 3int,
{
    if p < ts.len() && ts[p as int] is Operator && operator_precedence(
        ts[p as int]->Operator_0,
    ) == 1 {
        let op = ts[p as int]->Operator_0;
        match rd_multiplication(ts, p + 1) {
            Err(m) => Err(m),
            Ok(r) => {
                let combined = ExprView::Binary(Box::new(left), op, Box::new(r.0));
                if p < r.1 <= ts.len() {
                    rd_addition_rest(ts, combined, r.1)
                } else {
                    Ok((combined, r.1))
                }
            },
        }
    } else {
        Ok((left, p))
    }
}

/// A product from position `pos`: primaries joined by `*`, `/` and `^`,
/// grouped to the left.
pub open spec fn rd_multiplication(ts: Seq<TokenView>, pos: nat) -> Result<
    (ExprView, nat),
    Seq<char>,
>
    decreases ts.len() - pos, 2int,
{
    match rd_primary(ts, pos) {
        Err(m) => Err(m),
        Ok(r) => if pos <= r.1 <= ts.len() {
            rd_multiplication_rest(ts, r.0, r.1)
        } else {
            Ok(r)
        },
    }
}

/// The rest of a product after its first factors, which make `left`.
pub open spec fn rd_multiplication_rest(ts: Seq<TokenView>, left: ExprView, p: nat) -> Result<
    (ExprView, nat),
    Seq<char>,
>
    decreases ts.len() - p, 1int,
{
    if p < ts.len() && ts[p as int] is Operator && operator_precedence(
        ts[p as int]->Operator_0,
    ) >= 2 {
        let op = ts[p as int]->Operator_0;
        match rd_primary(ts, p + 1) {
            Err(m) => Err(m),
            Ok(r) => {
                let combined = ExprView::Binary(Box::new(left), op, Box::new(r.0));
                if p < r.1 <= ts.len() {
                    rd_multiplication_rest(ts, combined, r.1)
                } else {
                    Ok((combined, r.1))
                }
            },
        }
    } else {
        Ok((left, p))
    }
}

/// The inside of a parenthesis that opens at `pos - 1`: a sum from `pos`,
/// which must be followed by `)`; returns the sum and the position after the
/// `)`. An empty inside is an `Empty expression`; `missing` is the message
/// for a missing `)`.
pub open spec fn rd_parenthesized(ts: Seq<TokenView>, pos: nat, missing: Seq<char>) -> Result<
    (ExprView, nat),
    Seq<char>,
>
    decreases ts.len() - pos, 5int,
{
    if pos >= ts.len() {
        Err("Empty expression"@)
    } else {
        match rd_addition(ts, pos) {
            Err(m) => Err(m),
            Ok(r) => if r.1 < ts.len() && ts[r.1 as int] is CloseParen {
                Ok((r.0, r.1 + 1))
            } else {
                Err(missing)
            },
        }
    }
}

/// A primary at position `pos`: a number, a variable, `f ( sum )` or
/// `( sum )`.
pub open spec fn rd_primary(ts: Seq<TokenView>, pos: nat) -> Result<(ExprView, nat), Seq<char>>
    decreases ts.len() - pos, 0int,
{
    if pos >= ts.len() {
        Err("Unexpected end of expression"@)
    } else {
        match ts[pos as int] {
            TokenView::Number(n) => Ok((ExprView::Number(n), pos + 1)),
            TokenView::Variable(v) => Ok((ExprView::Variable(v), pos + 1)),
            TokenView::Function(f) => {
                if pos + 1 >= ts.len() || !(ts[pos + 1int] is OpenParen) {
                    Err("Expected '(' after function name"@)
                } else {
                    match rd_parenthesized(ts, pos + 2, "Expected ')' after function argument"@) {
                        Err(m) => Err(m),
                        Ok(r) => Ok((ExprView::Call(f, Box::new(r.0)), r.1)),
                    }
                }
            },
            TokenView::OpenParen => rd_parenthesized(ts, pos + 1, "Expected ')'"@),
            _ => Err("Unexpected token: "@ + token_debug(ts[pos as int])),
        }
    }
}

fn unexpected_token(t: &Token) -> (s: String)
    requires
        t is Operator || t is CloseParen,
    ensures
        s@ == "Unexpected token: "@ + token_debug(t@),
{
    let mut s = String::from_str("Unexpected token: ");
    match t {
        Token::Operator(op) => {
            s.append("Operator(");
            match op {
                Operator::Add => s.append("Add"),
                Operator::Subtract => s.append("Subtract"),
                Operator::Multiply => s.append("Multiply"),
                Operator::Divide => s.append("Divide"),
                Operator::Power => s.append("Power"),
            }
            s.append(")");
        },
        _ => {
            s.append("CloseParen");
        },
    }
    s
}

pub struct RecursiveDescentEvaluator;

impl RecursiveDescentEvaluator {
    pub fn new() -> (e: RecursiveDescentEvaluator) {
        RecursiveDescentEvaluator
    }

    fn parse_expression(&self, tokens: &[Token]) -> (r: Result<Expression, String>)
        ensures
            match r {
                Ok(e) => rd_expression(token_views(tokens@)) == Ok::<ExprView, Seq<char>>(e@),
                Err(m) => rd_expression(token_views(tokens@)) == Err::<ExprView, Seq<char>>(m@),
            },
    {
        if tokens.len() == 0 {
            return Err(String::from_str("Empty expression"));
        }
        match self.parse_addition(tokens, 0) {
            Ok((e, _)) => Ok(e),
            Err(m) => Err(m),
        }
    }

    fn parse_addition(&self, tokens: &[Token], pos: usize) -> (r: Result<(Expression, usize), String>)
        requires
            pos <= tokens@.len(),
        ensures
            match r {
                Ok((e, np)) => rd_addition(token_views(tokens@), pos as nat) == Ok::<
                    (ExprView, nat),
                    Seq<char>,
                >((e@, np as nat)) && pos < np <= tokens@.len(),
                Err(m) => rd_addition(token_views(tokens@), pos as nat) == Err::<
                    (ExprView, nat),
                    Seq<char>,
                >(m@),
            },
        decreases tokens@.len() - pos, 4int,
    {
        let ghost ts = token_views(tokens@);
        let (mut left, mut next_pos) = self.parse_multiplication(tokens, pos)?;
        loop
            invariant
                ts == token_views(tokens@),
                pos < next_pos <= tokens@.len(),
                rd_addition(ts, pos as nat) == rd_addition_rest(ts, left@, next_pos as nat),
            decreases tokens@.len() - next_pos,
        {
            if next_pos >= tokens.len() {
                return Ok((left, next_pos));
            }
            let op = match &tokens[next_pos] {
                Token::Operator(op) => if op.precedence() == 1 {
                    Some(*op)
                } else {
                    None
                },
                _ => None,
            };
            match op {
                None => {
                    return Ok((left, next_pos));
                },
                Some(op) => {
                    let (right, new_pos) = self.parse_multiplication(tokens, next_pos + 1)?;
                    left = Expression::Binary(BinaryOperation::new(Box::new(left), Box::new(right), op));
                    next_pos = new_pos;
                },
            }
        }
    }

    fn parse_multiplication(&self, tokens: &[Token], pos: usize) -> (r: Result<(Expression, usize), String>)
        requires
            pos <= tokens@.len(),
        ensures
            match r {
                Ok((e, np)) => rd_multiplication(token_views(tokens@), pos as nat) == Ok::<
                    (ExprView, nat),
                    Seq<char>,
                >((e@, np as nat)) && pos < np <= tokens@.len(),
                Err(m) => rd_multiplication(token_views(tokens@), pos as nat) == Err::<
                    (ExprView, nat),
                    Seq<char>,
                >(m@),
            },
        decreases tokens@.len() - pos, 2int,
    {
        let ghost ts = token_views(tokens@);
        let (mut left, mut next_pos) = self.parse_primary(tokens, pos)?;
        loop
            invariant
                ts == token_views(tokens@),
                pos < next_pos <= tokens@.len(),
                rd_multiplication(ts, pos as nat) == rd_multiplication_rest(
                    ts,
                    left@,
                    next_pos as nat,
                ),
            decreases tokens@.len() - next_pos,
        {
            if next_pos >= tokens.len() {
                return Ok((left, next_pos));
            }
            let op = match &tokens[next_pos] {
                Token::Operator(op) => if op.precedence() >= 2 {
                    Some(*op)
                } else {
                    None
                },
                _ => None,
            };
            match op {
                None => {
                    return Ok((left, next_pos));
                },
                Some(op) => {
                    let (right, new_pos) = self.parse_primary(tokens, next_pos + 1)?;
                    left = Expression::Binary(BinaryOperation::new(Box::new(left), Box::new(right), op));
                    next_pos = new_pos;
                },
            }
        }
    }

    /// The inside of a parenthesis, from `pos` to its `)`; see
    /// `rd_parenthesized`.
    fn parse_parenthesized(&self, tokens: &[Token], pos: usize, function_argument: bool) -> (r: Result<
        (Expression, usize),
        String,
    >)
        requires
            pos <= tokens@.len(),
        ensures
            ({
                let missing = if function_argument {
                    "Expected ')' after function argument"@
                } else {
                    "Expected ')'"@
                };
                match r {
                    Ok((e, np)) => rd_parenthesized(token_views(tokens@), pos as nat, missing)
                        == Ok::<(ExprView, nat), Seq<char>>((e@, np as nat)) && pos < np
                        <= tokens@.len(),
                    Err(m) => rd_parenthesized(token_views(tokens@), pos as nat, missing) == Err::<
                        (ExprView, nat),
                        Seq<char>,
                    >(m@),
                }
            }),
        decreases tokens@.len() - pos, 5int,
    {
        let ghost ts = token_views(tokens@);
        if pos >= tokens.len() {
            return Err(String::from_str("Empty expression"));
        }
        let (e, np) = self.parse_addition(tokens, pos)?;
        if np < tokens.len() && matches!(tokens[np], Token::CloseParen) {
            assert(ts[np as int] == tokens@[np as int]@);
            Ok((e, np + 1))
        } else {
            proof {
                if np < tokens.len() {
                    assert(ts[np as int] == tokens@[np as int]@);
                }
            }
            if function_argument {
                Err(String::from_str("Expected ')' after function argument"))
            } else {
                Err(String::from_str("Expected ')'"))
            }
        }
    }

    fn parse_primary(&self, tokens: &[Token], pos: usize) -> (r: Result<(Expression, usize), String>)
        requires
            pos <= tokens@.len(),
        ensures
            match r {
                Ok((e, np)) => rd_primary(token_views(tokens@), pos as nat) == Ok::<
                    (ExprView, nat),
                    Seq<char>,
                >((e@, np as nat)) && pos < np <= tokens@.len(),
                Err(m) => rd_primary(token_views(tokens@), pos as nat) == Err::<
                    (ExprView, nat),
                    Seq<char>,
                >(m@),
            },
        decreases tokens@.len() - pos, 0int,
    {
        let ghost ts = token_views(tokens@);
        let n = tokens.len();
        if pos >= n {
            return Err(String::from_str("Unexpected end of expression"));
        }
        assert(ts[pos as int] == tokens@[pos as int]@);
        match &tokens[pos] {
            Token::Number(num) => Ok(
                (Expression::Number(NumberExpression { value: num.clone() }), pos + 1),
            ),
            Token::Variable(name) => Ok(
                (Expression::Variable(VariableExpression { name: name.clone() }), pos + 1),
            ),
            Token::Function(f) => {
                let f = *f;
                if pos + 1 >= n || !matches!(tokens[pos + 1], Token::OpenParen) {
                    proof {
                        if pos + 1 < n {
                            assert(ts[pos + 1] == tokens@[pos + 1]@);
                        }
                    }
                    return Err(String::from_str("Expected '(' after function name"));
                }
                assert(ts[pos + 1] == tokens@[pos + 1]@);
                let (arg, next_pos) = self.parse_parenthesized(tokens, pos + 2, true)?;
                Ok((Expression::Call(FunctionCall::new(f, Box::new(arg))), next_pos))
            },
            Token::OpenParen => self.parse_parenthesized(tokens, pos + 1, false),
            other => Err(unexpected_token(other)),
        }
    }

    /// The shared validation step.
    pub fn validate_tokens(&self, tokens: &[Token]) -> (r: Result<(), String>)
        ensures
            match r {
                Ok(()) => default_validation(token_views(tokens@)) == Ok::<(), Seq<char>>(()),
                Err(e) => default_validation(token_views(tokens@)) == Err::<(), Seq<char>>(e@),
            },
    {
        validate_default(tokens)
    }

    /// Builds the tree by recursive descent.
    pub fn parse(&self, tokens: Vec<Token>) -> (r: Result<Expression, String>)
        ensures
            match r {
                Ok(e) => rd_expression(token_views(tokens@)) == Ok::<ExprView, Seq<char>>(e@),
                Err(m) => rd_expression(token_views(tokens@)) == Err::<ExprView, Seq<char>>(m@),
            },
    {
        self.parse_expression(tokens.as_slice())
    }
}

} // verus!

verus! {

// ------------------------------------------------------------------
// Shunting yard through the expression parser
// ------------------------------------------------------------------

fn render_token_exec(t: &Token) -> (s: String)
    ensures
        s@ == render_token(t@),
{
    match t {
        Token::Number(n) => n.clone(),
        Token::Variable(v) => v.clone(),
        Token::Operator(op) => op.symbol(),
        Token::Function(f) => f.name(),
        Token::OpenParen => {
            let s = String::from_str("(");
            proof {
                reveal_strlit("(");
            }
            s
        },
        Token::CloseParen => {
            let s = String::from_str(")");
            proof {
                reveal_strlit(")");
            }
            s
        },
    }
}

fn render_tokens(tokens: &[Token]) -> (s: String)
    ensures
        s@ == rendered_text(token_views(tokens@)),
{
    let ghost ts = token_views(tokens@);
    let mut s = String::new();
    let mut i: usize = 0;
    assert(rendered_words(ts).take(0) =~= Seq::<Seq<char>>::empty());
    while i < tokens.len()
        invariant
            ts == token_views(tokens@),
            0 <= i <= tokens.len(),
            s@ == join_words(rendered_words(ts).take(i as int)),
        decreases tokens.len() - i,
    {
        let w = render_token_exec(&tokens[i]);
        let ghost ws = rendered_words(ts).take(i + 1);
        assert(ws.drop_last() =~= rendered_words(ts).take(i as int));
        assert(ws.last() == w@);
        if i > 0 {
            s.append(" ");
            proof {
                reveal_strlit(" ");
            }
        } else {
            assert(ws =~= seq![w@]);
        }
        s.append(w.as_str());
        i = i + 1;
    }
    assert(rendered_words(ts).take(tokens.len() as int) =~= rendered_words(ts));
    s
}

pub struct ShuntingYardEvaluator;

impl ShuntingYardEvaluator {
    pub fn new() -> (e: ShuntingYardEvaluator) {
        ShuntingYardEvaluator
    }

    /// Its own validation step.
    pub fn validate_tokens(&self, tokens: &[Token]) -> (r: Result<(), String>)
        ensures
            match r {
                Ok(()) => shunting_yard_validation(token_views(tokens@)) == Ok::<(), Seq<char>>(
                    (),
                ),
                Err(e) => shunting_yard_validation(token_views(tokens@)) == Err::<(), Seq<char>>(
                    e@,
                ),
            },
    {
        validate_shunting_yard(tokens)
    }

    /// Writes the tokens out, separated by spaces, and hands the text to the
    /// expression parser.
    pub fn parse(&self, tokens: Vec<Token>) -> (r: Result<Expression, String>)
        ensures
            match r {
                Ok(e) => parse_spec(rendered_text(token_views(tokens@))) == Ok::<
                    ExprView,
                    Seq<char>,
                >(e@),
                Err(m) => parse_spec(rendered_text(token_views(tokens@))) == Err::<
                    ExprView,
                    Seq<char>,
                >(m@),
            },
    {
        let text = render_tokens(tokens.as_slice());
        ExpressionParser::new().parse(text.as_str())
    }
}

} // verus!

verus! {

// ------------------------------------------------------------------
// The evaluators behind one interface
// ------------------------------------------------------------------

/// An expression evaluator: tokenize, validate, parse, then evaluate. The
/// arithmetic of the last step is done on floating-point numbers by the
/// caller; this type carries out the other steps.
pub enum ExpressionEvaluator {
    RecursiveDescent(RecursiveDescentEvaluator),
    ShuntingYard(ShuntingYardEvaluator),
}

/// The validation step of an evaluator.
pub open spec fn validation_spec(e: ExpressionEvaluator, ts: Seq<TokenView>) -> Result<
    (),
    Seq<char>,
> {
    match e {
        ExpressionEvaluator::RecursiveDescent(_) => default_validation(ts),
        ExpressionEvaluator::ShuntingYard(_) => shunting_yard_validation(ts),
    }
}

/// The parsing step of an evaluator.
pub open spec fn evaluator_parse_spec(e: ExpressionEvaluator, ts: Seq<TokenView>) -> Result<
    ExprView,
    Seq<char>,
> {
    match e {
        ExpressionEvaluator::RecursiveDescent(_) => rd_expression(ts),
        ExpressionEvaluator::ShuntingYard(_) => parse_spec(rendered_text(ts)),
    }
}

/// Tokenize, validate, parse: the steps before the arithmetic, each one
/// stopping the work with its error.
pub open spec fn prepare_spec(e: ExpressionEvaluator, s: Seq<char>) -> Result<
    ExprView,
    Seq<char>,
> {
    match tokenize_spec(s) {
        Err(m) => Err(m),
        Ok(ts) => match validation_spec(e, ts) {
            Err(m) => Err(m),
            Ok(()) => evaluator_parse_spec(e, ts),
        },
    }
}

impl ExpressionEvaluator {
    /// The tokens of the input, split at whitespace.
    pub fn tokenize(&self, expression: &str) -> (r: Result<Vec<Token>, String>)
        ensures
            match r {
                Ok(ts) => tokenize_spec(expression@) == Ok::<Seq<TokenView>, Seq<char>>(
                    token_views(ts@),
                ),
                Err(e) => tokenize_spec(expression@) == Err::<Seq<TokenView>, Seq<char>>(e@),
            },
    {
        tokenize(expression)
    }

    pub fn validate_tokens(&self, tokens: &[Token]) -> (r: Result<(), String>)
        ensures
            match r {
                Ok(()) => validation_spec(*self, token_views(tokens@)) == Ok::<(), Seq<char>>(()),
                Err(e) => validation_spec(*self, token_views(tokens@)) == Err::<(), Seq<char>>(
                    e@,
                ),
            },
    {
        match self {
            ExpressionEvaluator::RecursiveDescent(e) => e.validate_tokens(tokens),
            ExpressionEvaluator::ShuntingYard(e) => e.validate_tokens(tokens),
        }
    }

    pub fn parse(&self, tokens: Vec<Token>) -> (r: Result<Expression, String>)
        ensures
            match r {
                Ok(e) => evaluator_parse_spec(*self, token_views(tokens@)) == Ok::<
                    ExprView,
                    Seq<char>,
                >(e@),
                Err(m) => evaluator_parse_spec(*self, token_views(tokens@)) == Err::<
                    ExprView,
                    Seq<char>,
                >(m@),
            },
    {
        match self {
            ExpressionEvaluator::RecursiveDescent(e) => e.parse(tokens),
            ExpressionEvaluator::ShuntingYard(e) => e.parse(tokens),
        }
    }

    /// Every step of an evaluation before the arithmetic: tokenize, validate,
    /// parse.
    pub fn prepare(&self, expression: &str) -> (r: Result<Expression, String>)
        ensures
            match r {
                Ok(e) => prepare_spec(*self, expression@) == Ok::<ExprView, Seq<char>>(e@),
                Err(m) => prepare_spec(*self, expression@) == Err::<ExprView, Seq<char>>(m@),
            },
    {
        let tokens = self.tokenize(expression)?;
        self.validate_tokens(tokens.as_slice())?;
        self.parse(tokens)
    }
}

/// The recursive-descent evaluator when asked for, the shunting-yard one
/// otherwise.
pub fn create_evaluator(use_recursive_descent: bool) -> (e: ExpressionEvaluator)
    ensures
        e is RecursiveDescent <==> use_recursive_descent,
{
    if use_recursive_descent {
        ExpressionEvaluator::RecursiveDescent(RecursiveDescentEvaluator::new())
    } else {
        ExpressionEvaluator::ShuntingYard(ShuntingYardEvaluator::new())
    }
}

} // verus!

verus! {

// ------------------------------------------------------------------
// Laws of the evaluators
// ------------------------------------------------------------------

/// The shunting-yard evaluator parses like the expression parser: after its
/// tokenizing and validation steps, it builds the tree that the expression
/// parser builds from the same text.
pub proof fn law_shunting_yard_parses_like_parser(s: Seq<char>)
    ensures
        prepare_spec(ExpressionEvaluator::ShuntingYard(ShuntingYardEvaluator), s) == match tokenize_spec(s) {
            Err(m) => Err(m),
            Ok(ts) => match shunting_yard_validation(ts) {
                Err(m) => Err(m),
                Ok(()) => parse_spec(s),
            },
        },
{
    if tokenize_spec(s) is Ok {
        law_tokenize_rendered(s);
    }
}

} // verus!

verus! {

/// The two parsing algorithms agree on two operators between three
/// operands, except when `*` or `/` is followed by `^`: recursive descent
/// puts `^` on the level of `*` and `/` and groups to the left, where the
/// shunting-yard algorithm lets `^` bind tighter.
pub proof fn law_parsers_agree_on_three_operands(
    a: TokenView,
    o1: Operator,
    b: TokenView,
    o2: Operator,
    c: TokenView,
)
    requires
        is_atom(a),
        is_atom(b),
        is_atom(c),
        !(operator_precedence(o1) == 2 && o2 == Operator::Power),
    ensures
        rd_expression(seq![a, TokenView::Operator(o1), b, TokenView::Operator(o2), c])
            == build_tree_spec(seq![a, TokenView::Operator(o1), b, TokenView::Operator(o2), c]),
{
    let ts = seq![a, TokenView::Operator(o1), b, TokenView::Operator(o2), c];
    law_operator_precedence(a, o1, b, o2, c);
    let ea = atom_tree(a);
    let eb = atom_tree(b);
    let ec = atom_tree(c);
    assert(rd_primary(ts, 0) == Ok::<(ExprView, nat), Seq<char>>((ea, 1nat)));
    assert(rd_primary(ts, 2) == Ok::<(ExprView, nat), Seq<char>>((eb, 3nat)));
    assert(rd_primary(ts, 4) == Ok::<(ExprView, nat), Seq<char>>((ec, 5nat)));
    let ab = ExprView::Binary(Box::new(ea), o1, Box::new(eb));
    let bc = ExprView::Binary(Box::new(eb), o2, Box::new(ec));
    if operator_precedence(o1) >= 2 {
        let abc = ExprView::Binary(Box::new(ab), o2, Box::new(ec));
        if operator_precedence(o2) >= 2 {
            assert(rd_multiplication_rest(ts, abc, 5) == Ok::<(ExprView, nat), Seq<char>>(
                (abc, 5nat),
            ));
            assert(rd_multiplication_rest(ts, ab, 3) == Ok::<(ExprView, nat), Seq<char>>(
                (abc, 5nat),
            ));
            assert(rd_multiplication_rest(ts, ea, 1) == Ok::<(ExprView, nat), Seq<char>>(
                (abc, 5nat),
            ));
            assert(rd_multiplication(ts, 0) == Ok::<(ExprView, nat), Seq<char>>((abc, 5nat)));
            assert(rd_addition_rest(ts, abc, 5) == Ok::<(ExprView, nat), Seq<char>>(
                (abc, 5nat),
            ));
        } else {
            assert(rd_multiplication_rest(ts, ab, 3) == Ok::<(ExprView, nat), Seq<char>>(
                (ab, 3nat),
            ));
            assert(rd_multiplication_rest(ts, ea, 1) == Ok::<(ExprView, nat), Seq<char>>(
                (ab, 3nat),
            ));
            assert(rd_multiplication(ts, 0) == Ok::<(ExprView, nat), Seq<char>>((ab, 3nat)));
            assert(rd_multiplication_rest(ts, ec, 5) == Ok::<(ExprView, nat), Seq<char>>(
                (ec, 5nat),
            ));
            assert(rd_multiplication(ts, 4) == Ok::<(ExprView, nat), Seq<char>>((ec, 5nat)));
            assert(rd_addition_rest(ts, abc, 5) == Ok::<(ExprView, nat), Seq<char>>(
                (abc, 5nat),
            ));
            assert(rd_addition_rest(ts, ab, 3) == Ok::<(ExprView, nat), Seq<char>>(
                (abc, 5nat),
            ));
        }
        assert(rd_addition(ts, 0) == Ok::<(ExprView, nat), Seq<char>>((abc, 5nat)));
    } else {
        assert(rd_multiplication_rest(ts, ea, 1) == Ok::<(ExprView, nat), Seq<char>>(
            (ea, 1nat),
        ));
        assert(rd_multiplication(ts, 0) == Ok::<(ExprView, nat), Seq<char>>((ea, 1nat)));
        if operator_precedence(o2) >= 2 {
            let whole = ExprView::Binary(Box::new(ea), o1, Box::new(bc));
            assert(rd_multiplication_rest(ts, bc, 5) == Ok::<(ExprView, nat), Seq<char>>(
                (bc, 5nat),
            ));
            assert(rd_multiplication_rest(ts, eb, 3) == Ok::<(ExprView, nat), Seq<char>>(
                (bc, 5nat),
            ));
            assert(rd_multiplication(ts, 2) == Ok::<(ExprView, nat), Seq<char>>((bc, 5nat)));
            assert(rd_addition_rest(ts, whole, 5) == Ok::<(ExprView, nat), Seq<char>>(
                (whole, 5nat),
            ));
            assert(rd_addition_rest(ts, ea, 1) == Ok::<(ExprView, nat), Seq<char>>(
                (whole, 5nat),
            ));
        } else {
            let abc = ExprView::Binary(Box::new(ab), o2, Box::new(ec));
            assert(rd_multiplication_rest(ts, eb, 3) == Ok::<(ExprView, nat), Seq<char>>(
                (eb, 3nat),
            ));
            assert(rd_multiplication(ts, 2) == Ok::<(ExprView, nat), Seq<char>>((eb, 3nat)));
            assert(rd_multiplication_rest(ts, ec, 5) == Ok::<(ExprView, nat), Seq<char>>(
                (ec, 5nat),
            ));
            assert(rd_multiplication(ts, 4) == Ok::<(ExprView, nat), Seq<char>>((ec, 5nat)));
            assert(rd_addition_rest(ts, abc, 5) == Ok::<(ExprView, nat), Seq<char>>(
                (abc, 5nat),
            ));
            assert(rd_addition_rest(ts, ab, 3) == Ok::<(ExprView, nat), Seq<char>>(
                (abc, 5nat),
            ));
            assert(rd_addition_rest(ts, ea, 1) == Ok::<(ExprView, nat), Seq<char>>(
                (abc, 5nat),
            ));
        }
    }
}

} // verus!

verus! {

/// Whether the tokens `w` stand in `ts` from position `pos` on.
pub open spec fn tokens_at(ts: Seq<TokenView>, pos: nat, w: Seq<TokenView>) -> bool {
    &&& pos + w.len() <= ts.len()
    &&& forall|i: int| 0 <= i < w.len() ==> ts[pos + i] == #[trigger] w[i]
}

/// Where the tokens of a fully parenthesised tree stand, recursive descent
/// reads that tree as one primary and stops right after its tokens, whatever
/// follows them.
#[verifier::rlimit(60)]
#[verifier::spinoff_prover]
proof fn lemma_rd_primary_tree(ts: Seq<TokenView>, pos: nat, e: ExprView)
    requires
        tokens_at(ts, pos, tree_tokens(e)),
    ensures
        rd_primary(ts, pos) == Ok::<(ExprView, nat), Seq<char>>(
            (e, pos + tree_tokens(e).len()),
        ),
    decreases e,
{
    let tt = tree_tokens(e);
    match e {
        ExprView::Number(t) => {
            assert(ts[pos as int] == tt[0]);
        },
        ExprView::Variable(n) => {
            assert(ts[pos as int] == tt[0]);
        },
        ExprView::Binary(l, op, r) => {
            let tl = tree_tokens(*l);
            let tr = tree_tokens(*r);
            let p1 = pos + 1;
            let q = p1 + tl.len();
            let z = q + 1 + tr.len();
            assert(tt.len() == tl.len() + tr.len() + 3);
            assert(tt[0] == TokenView::OpenParen);
            assert(ts[pos as int] == tt[0]);
            assert(tokens_at(ts, p1, tl)) by {
                assert forall|i: int| 0 <= i < tl.len() implies ts[p1 + i] == #[trigger] tl[i] by {
                    assert(tt[1 + i] == tl[i]);
                    assert(ts[pos + (1 + i)] == tt[1 + i]);
                }
            }
            assert(tt[1 + tl.len() as int] == TokenView::Operator(op));
            assert(ts[pos + 1 + tl.len() as int] == tt[1 + tl.len() as int]);
            assert(tokens_at(ts, q + 1, tr)) by {
                assert forall|i: int| 0 <= i < tr.len() implies ts[(q + 1) + i] == #[trigger] tr[i] by {
                    assert(tt[2 + tl.len() + i] == tr[i]);
                    assert(ts[pos + (2 + tl.len() + i)] == tt[2 + tl.len() + i]);
                }
            }
            assert(tt[tt.len() - 1] == TokenView::CloseParen);
            assert(ts[pos + tt.len() - 1] == tt[tt.len() - 1]);
            lemma_rd_primary_tree(ts, p1, *l);
            lemma_rd_primary_tree(ts, q + 1, *r);
            let b = ExprView::Binary(l, op, r);
            assert(b == e);
            assert(ts[z as int] is CloseParen);
            assert(rd_multiplication_rest(ts, b, z) == Ok::<(ExprView, nat), Seq<char>>((b, z)));
            assert(rd_addition_rest(ts, b, z) == Ok::<(ExprView, nat), Seq<char>>((b, z)));
            if operator_precedence(op) >= 2 {
                assert(rd_multiplication_rest(ts, *l, q) == Ok::<(ExprView, nat), Seq<char>>(
                    (b, z),
                ));
                assert(rd_multiplication(ts, p1) == Ok::<(ExprView, nat), Seq<char>>((b, z)));
                assert(rd_addition(ts, p1) == Ok::<(ExprView, nat), Seq<char>>((b, z)));
            } else {
                assert(rd_multiplication_rest(ts, *l, q) == Ok::<(ExprView, nat), Seq<char>>(
                    (*l, q),
                ));
                assert(rd_multiplication(ts, p1) == Ok::<(ExprView, nat), Seq<char>>((*l, q)));
                assert(rd_multiplication_rest(ts, *r, z) == Ok::<(ExprView, nat), Seq<char>>(
                    (*r, z),
                ));
                assert(rd_multiplication(ts, q + 1) == Ok::<(ExprView, nat), Seq<char>>((*r, z)));
                assert(rd_addition_rest(ts, *l, q) == Ok::<(ExprView, nat), Seq<char>>((b, z)));
                assert(rd_addition(ts, p1) == Ok::<(ExprView, nat), Seq<char>>((b, z)));
            }
            assert(rd_parenthesized(ts, p1, "Expected ')'"@) == Ok::<(ExprView, nat), Seq<char>>(
                (b, z + 1),
            ));
        },
        ExprView::Call(f, a) => {
            let ta = tree_tokens(*a);
            let p2 = pos + 2;
            let w = p2 + ta.len();
            assert(tt.len() == ta.len() + 3);
            assert(tt[0] == TokenView::Function(f));
            assert(ts[pos as int] == tt[0]);
            assert(tt[1] == TokenView::OpenParen);
            assert(ts[pos + 1int] == tt[1]);
            assert(tokens_at(ts, p2, ta)) by {
                assert forall|i: int| 0 <= i < ta.len() implies ts[p2 + i] == #[trigger] ta[i] by {
                    assert(tt[2 + i] == ta[i]);
                    assert(ts[pos + (2 + i)] == tt[2 + i]);
                }
            }
            assert(tt[tt.len() - 1] == TokenView::CloseParen);
            assert(ts[pos + tt.len() - 1] == tt[tt.len() - 1]);
            lemma_rd_primary_tree(ts, p2, *a);
            assert(ts[w as int] is CloseParen);
            assert(rd_multiplication_rest(ts, *a, w) == Ok::<(ExprView, nat), Seq<char>>((*a, w)));
            assert(rd_multiplication(ts, p2) == Ok::<(ExprView, nat), Seq<char>>((*a, w)));
            assert(rd_addition_rest(ts, *a, w) == Ok::<(ExprView, nat), Seq<char>>((*a, w)));
            assert(rd_addition(ts, p2) == Ok::<(ExprView, nat), Seq<char>>((*a, w)));
            let msg = "Expected ')' after function argument"@;
            assert(rd_parenthesized(ts, p2, msg) == Ok::<(ExprView, nat), Seq<char>>(
                (*a, w + 1),
            ));
            assert(ExprView::Call(f, a) == e);
        },
    }
}

/// The two parsing algorithms agree on every fully parenthesised
/// expression: recursive descent reads the tokens that write a tree with
/// every operation in parentheses as that tree, as the shunting-yard
/// algorithm does.
pub proof fn law_parsers_agree_on_fully_parenthesized(e: ExprView)
    ensures
        rd_expression(tree_tokens(e)) == Ok::<ExprView, Seq<char>>(e),
        rd_expression(tree_tokens(e)) == build_tree_spec(tree_tokens(e)),
{
    let ts = tree_tokens(e);
    let n = ts.len();
    assert(tokens_at(ts, 0, ts)) by {
        assert forall|i: int| 0 <= i < ts.len() implies ts[0 + i] == #[trigger] ts[i] by {}
    }
    lemma_rd_primary_tree(ts, 0, e);
    assert(rd_multiplication_rest(ts, e, n) == Ok::<(ExprView, nat), Seq<char>>((e, n)));
    assert(rd_multiplication(ts, 0) == Ok::<(ExprView, nat), Seq<char>>((e, n)));
    assert(rd_addition_rest(ts, e, n) == Ok::<(ExprView, nat), Seq<char>>((e, n)));
    assert(rd_addition(ts, 0) == Ok::<(ExprView, nat), Seq<char>>((e, n)));
    law_parse_fully_parenthesized(e);
}

} // verus!

verus! {

/// The number of open parentheses among pending tokens.
pub open spec fn open_count(ops: Seq<TokenView>) -> nat
    decreases ops.len(),
{
    if ops.len() == 0 {
        0
    } else {
        open_count(ops.drop_last()) + if ops.last() is OpenParen {
            1nat
        } else {
            0nat
        }
    }
}

/// How a token changes the parenthesis depth.
pub open spec fn depth_change(t: TokenView) -> int {
    match t {
        TokenView::OpenParen => 1int,
        TokenView::CloseParen => -1int,
        _ => 0int,
    }
}

proof fn lemma_reduce_before_opens(out: Seq<ExprView>, ops: Seq<TokenView>, op: Operator)
    requires
        reduce_before(out, ops, op) is Ok,
    ensures
        open_count(reduce_before(out, ops, op)->Ok_0.ops) == open_count(ops),
    decreases ops.len(),
{
    if ops.len() > 0 && ops.last() is Operator && operator_precedence(ops.last()->Operator_0)
        >= operator_precedence(op) {
        let o = apply_operator(out, ops.last()->Operator_0)->Some_0;
        lemma_reduce_before_opens(o, ops.drop_last(), op);
    }
}

proof fn lemma_close_paren_opens(out: Seq<ExprView>, ops: Seq<TokenView>)
    requires
        close_paren(out, ops) is Ok,
    ensures
        open_count(close_paren(out, ops)->Ok_0.ops) + 1 == open_count(ops),
    decreases ops.len(),
{
    let rest = ops.drop_last();
    match ops.last() {
        TokenView::OpenParen => {
            if rest.len() > 0 && rest.last() is Function && out.len() > 0 {
                assert(open_count(rest) == open_count(rest.drop_last()));
            }
        },
        TokenView::Operator(op) => {
            let o = apply_operator(out, op)->Some_0;
            lemma_close_paren_opens(o, rest);
        },
        _ => {},
    }
}

proof fn lemma_parse_step_opens(st: ParseState, t: TokenView)
    requires
        parse_step(st, t) is Ok,
    ensures
        open_count(parse_step(st, t)->Ok_0.ops) == open_count(st.ops) + depth_change(t),
{
    match t {
        TokenView::Operator(op) => {
            lemma_reduce_before_opens(st.out, st.ops, op);
            let s = reduce_before(st.out, st.ops, op)->Ok_0;
            assert(s.ops.push(TokenView::Operator(op)).drop_last() =~= s.ops);
        },
        TokenView::Function(f) => {
            assert(st.ops.push(t).drop_last() =~= st.ops);
        },
        TokenView::OpenParen => {
            assert(st.ops.push(t).drop_last() =~= st.ops);
        },
        TokenView::CloseParen => {
            lemma_close_paren_opens(st.out, st.ops);
        },
        _ => {},
    }
}

proof fn lemma_parse_finish_opens(out: Seq<ExprView>, ops: Seq<TokenView>)
    requires
        parse_finish(out, ops) is Ok,
    ensures
        open_count(ops) == 0,
    decreases ops.len(),
{
    if ops.len() > 0 {
        match ops.last() {
            TokenView::Operator(op) => {
                let o = apply_operator(out, op)->Some_0;
                lemma_parse_finish_opens(o, ops.drop_last());
            },
            _ => {},
        }
    }
}

/// While the machine runs without error, its pending open parentheses are
/// the depth of the tokens read, and no prefix closes more than it opened.
proof fn lemma_run_depth(ts: Seq<TokenView>)
    requires
        parse_run(ts) is Ok,
    ensures
        open_count(parse_run(ts)->Ok_0.ops) == paren_depth(ts),
        forall|k: int| 0 <= k <= ts.len() ==> paren_depth(#[trigger] ts.take(k)) >= 0,
    decreases ts.len(),
{
    if ts.len() == 0 {
        assert(ts.take(0) =~= ts);
    } else {
        let pre = ts.drop_last();
        lemma_run_depth(pre);
        let s = parse_run(pre)->Ok_0;
        lemma_parse_step_opens(s, ts.last());
        assert(paren_depth(ts) == paren_depth(pre) + depth_change(ts.last()));
        assert forall|k: int| 0 <= k <= ts.len() implies paren_depth(#[trigger] ts.take(k)) >= 0 by {
            if k < ts.len() {
                assert(ts.take(k) =~= pre.take(k));
            } else {
                assert(ts.take(k) =~= ts);
            }
        }
    }
}

/// The expression parser rejects every token list whose parentheses do not
/// balance: whatever it parses has balanced parentheses.
pub proof fn law_parser_needs_balanced_parentheses(ts: Seq<TokenView>)
    ensures
        build_tree_spec(ts) is Ok ==> parens_balanced(ts),
{
    if build_tree_spec(ts) is Ok {
        lemma_run_depth(ts);
        let st = parse_run(ts)->Ok_0;
        lemma_parse_finish_opens(st.out, st.ops);
    }
}

} // verus!

verus! {

/// The number of open parentheses in a token list.
pub open spec fn opens(ts: Seq<TokenView>) -> nat {
    count_tokens(ts, |t: TokenView| t is OpenParen)
}

/// The number of close parentheses in a token list.
pub open spec fn closes(ts: Seq<TokenView>) -> nat {
    count_tokens(ts, |t: TokenView| t is CloseParen)
}

proof fn lemma_depth_counts(ts: Seq<TokenView>)
    ensures
        paren_depth(ts) == opens(ts) - closes(ts),
    decreases ts.len(),
{
    if ts.len() > 0 {
        lemma_depth_counts(ts.drop_last());
    }
}

/// Both validations refuse a token list in which some prefix closes more
/// parentheses than it opens, or in which open and close parentheses differ
/// in number: the shared one with `Mismatched parentheses`, the
/// shunting-yard one with `Unbalanced parenthesis`.
pub proof fn law_validation_counts_parentheses(ts: Seq<TokenView>, k: int)
    requires
        0 <= k <= ts.len(),
        closes(ts.take(k)) > opens(ts.take(k)) || closes(ts) != opens(ts),
    ensures
        default_validation(ts) == Err::<(), Seq<char>>("Mismatched parentheses"@),
        shunting_yard_validation(ts) == Err::<(), Seq<char>>("Unbalanced parenthesis"@),
{
    lemma_depth_counts(ts.take(k));
    lemma_depth_counts(ts);
    assert(ts.len() > 0) by {
        if ts.len() == 0 {
            assert(ts.take(k) =~= ts);
            assert(closes(ts) == 0);
        }
    }
    assert(!parens_balanced(ts));
}

/// Both validations accept the parentheses of a non-empty token list in
/// which no prefix closes more than it opens and the whole list closes as
/// many as it opens.
pub proof fn law_validation_accepts_balanced(ts: Seq<TokenView>)
    requires
        ts.len() > 0,
        forall|k: int| 0 <= k <= ts.len() ==> closes(#[trigger] ts.take(k)) <= opens(ts.take(k)),
        closes(ts) == opens(ts),
    ensures
        default_validation(ts) == Ok::<(), Seq<char>>(()),
{
    lemma_depth_counts(ts);
    assert forall|k: int| 0 <= k <= ts.len() implies paren_depth(#[trigger] ts.take(k)) >= 0 by {
        lemma_depth_counts(ts.take(k));
    }
}

} // verus!

verus! {

/// Operands joined by `+` and `-` only: `a0 o1 a1 ... on an`.
pub open spec fn is_sum_chain(ts: Seq<TokenView>) -> bool {
    &&& ts.len() % 2 == 1
    &&& forall|i: int| 0 <= i < ts.len() && i % 2 == 0 ==> is_atom(#[trigger] ts[i])
    &&& forall|i: int|
        0 <= i < ts.len() && i % 2 == 1 ==> #[trigger] ts[i] is Operator && operator_precedence(
            ts[i]->Operator_0,
        ) == 1
}

/// The first `k` operations of a chain applied from the left:
/// `((a0 o1 a1) o2 a2) ...`.
pub open spec fn left_fold(ts: Seq<TokenView>, k: nat) -> ExprView
    decreases k,
{
    if k == 0 {
        atom_tree(ts[0])
    } else {
        ExprView::Binary(
            Box::new(left_fold(ts, (k - 1) as nat)),
            ts[2 * k - 1]->Operator_0,
            Box::new(atom_tree(ts[2 * k as int])),
        )
    }
}

proof fn lemma_rd_operand(ts: Seq<TokenView>, p: nat)
    requires
        is_sum_chain(ts),
        p < ts.len(),
        p % 2 == 0,
    ensures
        rd_multiplication(ts, p) == Ok::<(ExprView, nat), Seq<char>>((atom_tree(ts[p as int]), p + 1)),
{
    assert(is_atom(ts[p as int]));
    if p + 1 < ts.len() {
        assert((p + 1) % 2 == 1);
        assert(ts[p + 1int] is Operator && operator_precedence(ts[p + 1int]->Operator_0) == 1);
    }
    assert(rd_primary(ts, p) == Ok::<(ExprView, nat), Seq<char>>((atom_tree(ts[p as int]), p + 1)));
    assert(rd_multiplication_rest(ts, atom_tree(ts[p as int]), p + 1) == Ok::<
        (ExprView, nat),
        Seq<char>,
    >((atom_tree(ts[p as int]), p + 1)));
}

proof fn lemma_rd_sum_rest(ts: Seq<TokenView>, k: nat)
    requires
        is_sum_chain(ts),
        2 * k + 1 <= ts.len(),
    ensures
        rd_addition_rest(ts, left_fold(ts, k), 2 * k + 1) == Ok::<(ExprView, nat), Seq<char>>(
            (left_fold(ts, ((ts.len() - 1) / 2) as nat), ts.len()),
        ),
    decreases ts.len() - 2 * k,
{
    let p = 2 * k + 1;
    if p < ts.len() {
        assert(p % 2 == 1);
        assert(ts[p as int] is Operator && operator_precedence(ts[p as int]->Operator_0) == 1);
        lemma_rd_operand(ts, (p + 1) as nat);
        assert(left_fold(ts, k + 1) == ExprView::Binary(
            Box::new(left_fold(ts, k)),
            ts[p as int]->Operator_0,
            Box::new(atom_tree(ts[p + 1int])),
        ));
        lemma_rd_sum_rest(ts, k + 1);
    } else {
        assert(k == (ts.len() - 1) / 2);
    }
}

proof fn lemma_sy_sum_prefix(ts: Seq<TokenView>, k: nat)
    requires
        is_sum_chain(ts),
        2 * k + 1 <= ts.len(),
    ensures
        build_tree_spec(ts.take(2 * k + 1int)) == Ok::<ExprView, Seq<char>>(left_fold(ts, k)),
    decreases k,
{
    let pre = ts.take(2 * k + 1int);
    if k == 0 {
        assert(pre =~= seq![ts[0]]);
        assert(is_atom(ts[0]));
        lemma_leaf_parses(ts[0]);
    } else {
        let before = ts.take(2 * k - 1);
        lemma_sy_sum_prefix(ts, (k - 1) as nat);
        let o = ts[2 * k - 1]->Operator_0;
        let x = ts[2 * k as int];
        assert((2 * k - 1) % 2 == 1);
        assert(ts[2 * k - 1] is Operator && operator_precedence(o) == 1);
        assert(is_atom(x));
        assert(is_flat(before)) by {
            assert forall|i: int| 0 <= i < before.len() implies is_atom(#[trigger] before[i])
                || before[i] is Operator by {
                assert(before[i] == ts[i]);
                if i % 2 == 0 {
                } else {
                }
            }
        }
        assert(operators_at_least(before, operator_precedence(o))) by {
            assert forall|i: int| 0 <= i < before.len() && #[trigger] before[i] is Operator implies operator_precedence(
                before[i]->Operator_0,
            ) >= operator_precedence(o) by {
                assert(before[i] == ts[i]);
                if i % 2 == 0 {
                    assert(is_atom(ts[i]));
                }
            }
        }
        law_loosest_operator_applies_last(before, o, x);
        assert(before + seq![TokenView::Operator(o), x] =~= pre);
    }
}

/// A single number or variable parses to its leaf.
proof fn lemma_leaf_parses(a: TokenView)
    requires
        is_atom(a),
    ensures
        build_tree_spec(seq![a]) == Ok::<ExprView, Seq<char>>(atom_tree(a)),
{
    let s1 = ParseState { out: seq![atom_tree(a)], ops: seq![] };
    assert(seq![a].drop_last() =~= Seq::<TokenView>::empty());
    assert(Seq::<ExprView>::empty().push(atom_tree(a)) =~= s1.out);
    assert(run_from(initial_state(), Seq::<TokenView>::empty()) == Ok::<ParseState, Seq<char>>(
        initial_state(),
    ));
    assert(parse_step(initial_state(), a) == Ok::<ParseState, Seq<char>>(s1));
    assert(parse_run(seq![a]) == Ok::<ParseState, Seq<char>>(s1));
    assert(s1.ops.len() == 0);
}

/// Both parsers group a chain of `+` and `-` to the left, however long:
/// `a0 o1 a1 ... on an` is `((a0 o1 a1) o2 a2) ... on an`.
pub proof fn law_sums_group_to_the_left(ts: Seq<TokenView>)
    requires
        is_sum_chain(ts),
    ensures
        rd_expression(ts) == Ok::<ExprView, Seq<char>>(left_fold(ts, ((ts.len() - 1) / 2) as nat)),
        build_tree_spec(ts) == Ok::<ExprView, Seq<char>>(
            left_fold(ts, ((ts.len() - 1) / 2) as nat),
        ),
{
    let n = ((ts.len() - 1) / 2) as nat;
    lemma_rd_operand(ts, 0);
    lemma_rd_sum_rest(ts, 0);
    assert(rd_addition(ts, 0) == Ok::<(ExprView, nat), Seq<char>>((left_fold(ts, n), ts.len())));
    lemma_sy_sum_prefix(ts, n);
    assert(ts.take(2 * n + 1int) =~= ts);
}

} // verus!
