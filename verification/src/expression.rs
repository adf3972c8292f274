use vstd::prelude::*;
use vstd::string::StringExecFns;
use crate::token::{Operator, Function, operator_precedence, operator_char, function_name};
use crate::variables::VariableMap;

verus! {

/// A number leaf. The number is held as its numeral.
#[derive(Debug, Clone)]
pub struct NumberExpression {
    pub value: String,
}

/// A variable leaf.
#[derive(Debug, Clone)]
pub struct VariableExpression {
    pub name: String,
}

/// An operator applied to two subexpressions.
#[derive(Debug)]
pub struct BinaryOperation {
    pub left: Box<Expression>,
    pub right: Box<Expression>,
    pub operator: Operator,
}

/// A function applied to one subexpression.
#[derive(Debug)]
pub struct FunctionCall {
    pub function: Function,
    pub argument: Box<Expression>,
}

/// An expression tree: leaves are numbers and variables, inner nodes are
/// operator applications and function calls.
#[derive(Debug)]
pub enum Expression {
    Number(NumberExpression),
    Variable(VariableExpression),
    Binary(BinaryOperation),
    Call(FunctionCall),
}

/// The mathematical model of an expression tree.
pub enum ExprView {
    Number(Seq<char>),
    Variable(Seq<char>),
    Binary(Box<ExprView>, Operator, Box<ExprView>),
    Call(Function, Box<ExprView>),
}

impl View for Expression {
    type V = ExprView;

    open spec fn view(&self) -> ExprView
        decreases self,
    {
        match self {
            Expression::Number(n) => ExprView::Number(n.value@),
            Expression::Variable(v) => ExprView::Variable(v.name@),
            Expression::Binary(b) => ExprView::Binary(
                Box::new((*b.left).view()),
                b.operator,
                Box::new((*b.right).view()),
            ),
            Expression::Call(c) => ExprView::Call(c.function, Box::new((*c.argument).view())),
        }
    }
}

impl View for BinaryOperation {
    type V = ExprView;

    open spec fn view(&self) -> ExprView {
        ExprView::Binary(Box::new((*self.left)@), self.operator, Box::new((*self.right)@))
    }
}

impl View for FunctionCall {
    type V = ExprView;

    open spec fn view(&self) -> ExprView {
        ExprView::Call(self.function, Box::new((*self.argument)@))
    }
}

/// How tightly a node binds when written out: leaves 0, operators by their
/// precedence, function calls 4.
pub open spec fn expr_precedence(e: ExprView) -> u8 {
    match e {
        ExprView::Number(_) => 0,
        ExprView::Variable(_) => 0,
        ExprView::Binary(_, op, _) => operator_precedence(op),
        ExprView::Call(_, _) => 4,
    }
}

/// The text of an operand under an operator of precedence `p`: in
/// parentheses when the operand binds less tightly than `p`.
pub open spec fn operand_text(c: ExprView, p: u8) -> Seq<char>
    decreases c, 1int,
{
    if expr_precedence(c) < p {
        seq!['('] + expr_text(c) + seq![')']
    } else {
        expr_text(c)
    }
}

/// The text that writes an expression: `left op right` with the operands
/// parenthesised where needed, and `name(argument)` for calls.
pub open spec fn expr_text(e: ExprView) -> Seq<char>
    decreases e, 0int,
{
    match e {
        ExprView::Number(t) => t,
        ExprView::Variable(n) => n,
        ExprView::Binary(l, op, r) => operand_text(*l, operator_precedence(op)) + seq![
            ' ',
            operator_char(op),
            ' ',
        ] + operand_text(*r, operator_precedence(op)),
        ExprView::Call(f, a) => function_name(f) + seq!['('] + expr_text(*a) + seq![')'],
    }
}

/// The message for a variable that has no value.
pub open spec fn undefined_variable_message(name: Seq<char>) -> Seq<char> {
    "Undefined variable: "@ + name
}

impl NumberExpression {
    /// The leaf for the number whose numeral is `value`.
    pub fn new(value: &str) -> (e: NumberExpression)
        requires
            crate::token::is_number_literal(value@),
        ensures
            e.value@ == value@,
    {
        NumberExpression { value: String::from_str(value) }
    }

    pub fn precedence(&self) -> (p: u8)
        ensures
            p == 0,
    {
        0
    }

    /// The numeral of the number.
    pub fn to_string(&self) -> (s: String)
        ensures
            s@ == self.value@,
    {
        self.value.clone()
    }
}

impl VariableExpression {
    pub fn new(name: &str) -> (e: VariableExpression)
        ensures
            e.name@ == name@,
    {
        VariableExpression { name: String::from_str(name) }
    }

    pub fn precedence(&self) -> (p: u8)
        ensures
            p == 0,
    {
        0
    }

    pub fn to_string(&self) -> (s: String)
        ensures
            s@ == self.name@,
    {
        self.name.clone()
    }

    /// The value of the variable in `variables`, or `Undefined variable: <name>`.
    pub fn evaluate(&self, variables: &VariableMap) -> (r: Result<String, String>)
        ensures
            match r {
                Ok(v) => variables@.contains_key(self.name@) && v@ == variables@[self.name@]
                    && crate::token::is_number_literal(v@),
                Err(e) => !variables@.contains_key(self.name@) && e@
                    == undefined_variable_message(self.name@),
            },
    {
        match variables.get(self.name.as_str()) {
            Some(v) => Ok(v),
            None => {
                let mut e = String::from_str("Undefined variable: ");
                e.append(self.name.as_str());
                Err(e)
            },
        }
    }
}

impl BinaryOperation {
    pub fn new(left: Box<Expression>, right: Box<Expression>, operator: Operator) -> (e:
        BinaryOperation)
        ensures
            e@ == ExprView::Binary(Box::new((*left)@), operator, Box::new((*right)@)),
    {
        BinaryOperation { left, right, operator }
    }

    pub fn precedence(&self) -> (p: u8)
        ensures
            p == operator_precedence(self.operator),
    {
        self.operator.precedence()
    }

    pub fn to_string(&self) -> (s: String)
        ensures
            s@ == expr_text(self@),
        decreases self,
    {
        let p = self.precedence();
        let left = operand_string(&self.left, p);
        let right = operand_string(&self.right, p);
        let mut s = left;
        s.append(" ");
        let sym = self.operator.symbol();
        s.append(sym.as_str());
        s.append(" ");
        s.append(right.as_str());
        proof {
            reveal_strlit(" ");
            assert(s@ =~= expr_text(self@));
        }
        s
    }
}

/// The text of an operand under an operator of precedence `p`.
fn operand_string(c: &Box<Expression>, p: u8) -> (s: String)
    ensures
        s@ == operand_text((**c)@, p),
    decreases *c, 1int,
{
    let inner = c.to_string();
    if c.precedence() < p {
        let mut s = String::from_str("(");
        s.append(inner.as_str());
        s.append(")");
        proof {
            reveal_strlit("(");
            reveal_strlit(")");
            assert(s@ =~= operand_text((**c)@, p));
        }
        s
    } else {
        inner
    }
}

impl FunctionCall {
    pub fn new(function: Function, argument: Box<Expression>) -> (e: FunctionCall)
        ensures
            e@ == ExprView::Call(function, Box::new((*argument)@)),
    {
        FunctionCall { function, argument }
    }

    pub fn precedence(&self) -> (p: u8)
        ensures
            p == 4,
    {
        4
    }

    pub fn to_string(&self) -> (s: String)
        ensures
            s@ == expr_text(self@),
        decreases self,
    {
        let mut s = self.function.name();
        s.append("(");
        let inner = self.argument.to_string();
        s.append(inner.as_str());
        s.append(")");
        proof {
            reveal_strlit("(");
            reveal_strlit(")");
            assert(s@ =~= expr_text(self@));
        }
        s
    }
}

impl Expression {
    pub fn precedence(&self) -> (p: u8)
        ensures
            p == expr_precedence(self@),
    {
        match self {
            Expression::Number(n) => n.precedence(),
            Expression::Variable(v) => v.precedence(),
            Expression::Binary(b) => b.precedence(),
            Expression::Call(c) => c.precedence(),
        }
    }

    pub fn to_string(&self) -> (s: String)
        ensures
            s@ == expr_text(self@),
        decreases self, 0int,
    {
        match self {
            Expression::Number(n) => n.to_string(),
            Expression::Variable(v) => v.to_string(),
            Expression::Binary(b) => b.to_string(),
            Expression::Call(c) => c.to_string(),
        }
    }
}

} // verus!
