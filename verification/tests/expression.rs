use calculator::expression::{
    BinaryOperation, Expression, FunctionCall, NumberExpression, VariableExpression,
};
use calculator::token::{Function, Operator};
use calculator::variables::VariableMap;

fn vars() -> VariableMap {
    VariableMap::new()
}

fn number(value: f64) -> Box<Expression> {
    Box::new(Expression::Number(NumberExpression::new(&format!("{}", value))))
}

#[test]
fn variable_expression_reads_from_variables() {
    let expr = VariableExpression::new("x");
    assert_eq!(expr.to_string(), "x");

    let mut variables = vars();
    variables.insert("x", format!("{}", 7.0));
    let value: f64 = expr.evaluate(&variables).unwrap().parse().unwrap();
    assert_eq!(value, 7.0);
}

#[test]
fn variable_expression_errors_when_undefined() {
    let expr = VariableExpression::new("missing");
    let err = expr.evaluate(&vars()).unwrap_err();
    assert_eq!(err, "Undefined variable: missing");
}

#[test]
fn binary_operation_precedence() {
    assert_eq!(
        BinaryOperation::new(number(1.0), number(2.0), Operator::Add).precedence(),
        1
    );
    assert_eq!(
        BinaryOperation::new(number(1.0), number(2.0), Operator::Multiply).precedence(),
        2
    );
    assert_eq!(
        BinaryOperation::new(number(1.0), number(2.0), Operator::Power).precedence(),
        3
    );
}

#[test]
fn binary_operation_to_string_adds_parens_when_needed() {
    let simple = BinaryOperation::new(number(1.0), number(2.0), Operator::Add);
    assert_eq!(simple.to_string(), "(1) + (2)");

    let nested = BinaryOperation::new(number(1.0), number(2.0), Operator::Add);
    let outer = BinaryOperation::new(
        number(3.0),
        Box::new(Expression::Binary(nested)),
        Operator::Multiply,
    );
    assert_eq!(outer.to_string(), "(3) * ((1) + (2))");
}

#[test]
fn function_call_to_string_and_precedence() {
    let sqrt = FunctionCall::new(Function::Sqrt, number(16.0));
    assert_eq!(sqrt.to_string(), "sqrt(16)");
    assert_eq!(sqrt.precedence(), 4);

    let sin = FunctionCall::new(
        Function::Sin,
        Box::new(Expression::Variable(VariableExpression::new("x"))),
    );
    assert_eq!(sin.to_string(), "sin(x)");
}

#[test]
fn number_leaf_writes_its_numeral_and_binds_loosest() {
    let expr = NumberExpression::new("42.5");
    assert_eq!(expr.to_string(), "42.5");
    assert_eq!(expr.precedence(), 0);
    assert_eq!(VariableExpression::new("y").precedence(), 0);
}

#[test]
fn operands_that_bind_as_tightly_are_not_parenthesised() {
    // (2 * 3) under + binds tighter: no parentheses around it
    let product = BinaryOperation::new(number(2.0), number(3.0), Operator::Multiply);
    let sum = BinaryOperation::new(
        Box::new(Expression::Binary(product)),
        Box::new(Expression::Call(FunctionCall::new(Function::Cos, number(0.0)))),
        Operator::Subtract,
    );
    assert_eq!(sum.to_string(), "(2) * (3) - cos(0)");

    // an operand of equal precedence keeps no parentheses either
    let inner = BinaryOperation::new(number(8.0), number(2.0), Operator::Divide);
    let outer = BinaryOperation::new(
        Box::new(Expression::Binary(inner)),
        number(4.0),
        Operator::Multiply,
    );
    assert_eq!(outer.to_string(), "(8) / (2) * (4)");
    assert_eq!(Expression::Binary(outer).precedence(), 2);
}

#[test]
fn power_and_function_call_text() {
    let power = BinaryOperation::new(number(2.0), number(10.0), Operator::Power);
    let call = FunctionCall::new(Function::Tan, Box::new(Expression::Binary(power)));
    assert_eq!(call.to_string(), "tan((2) ^ (10))");
}

#[test]
fn variable_values_can_be_replaced_and_removed() {
    let mut variables = vars();
    assert!(variables.is_empty());
    variables.insert("a", "1".to_string());
    variables.insert("b", "2".to_string());
    variables.insert("a", "3".to_string());
    assert_eq!(variables.len(), 2);
    assert_eq!(variables.get("a"), Some("3".to_string()));
    variables.remove("a");
    assert_eq!(variables.get("a"), None);
    assert_eq!(variables.get("b"), Some("2".to_string()));
    let copy = variables.duplicate();
    variables.clear();
    assert!(variables.is_empty());
    assert_eq!(copy.get("b"), Some("2".to_string()));
}

#[test]
fn variable_names_are_listed_once_each() {
    let mut variables = vars();
    variables.insert("x", "1".to_string());
    variables.insert("y", "2".to_string());
    variables.insert("x", "3".to_string());
    let mut names = variables.names();
    names.sort();
    assert_eq!(names, vec!["x".to_string(), "y".to_string()]);
}
