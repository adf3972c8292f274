use calculator::expression::Expression;
use calculator::numeral::display_of_numeral;
use calculator::parser::ExpressionParser;
use calculator::token::{tokenize, Function, Operator, Token};

fn parse(expression: &str) -> Result<Expression, String> {
    ExpressionParser::new().parse(expression)
}

fn text(expression: &str) -> String {
    parse(expression).unwrap().to_string()
}

#[test]
fn rejects_too_few_operands() {
    assert_eq!(
        parse("5 +").unwrap_err(),
        "Invalid expression: not enough operands"
    );
    assert_eq!(parse("2 5").unwrap_err(), "Invalid expression: too many values");
}

#[test]
fn rejects_unbalanced_input() {
    assert_eq!(parse("( 1 + 2").unwrap_err(), "Mismatched parentheses");
    assert_eq!(parse("( 1 + 2 ) )").unwrap_err(), "Mismatched parentheses");
}

#[test]
fn rejects_unknown_tokens() {
    assert!(parse("5 @ 3").is_err());
}

#[test]
fn unknown_token_message_names_the_word() {
    assert_eq!(parse("5 @ 3").unwrap_err(), "Invalid token: @");
    assert_eq!(parse("1 + 2x").unwrap_err(), "Invalid token: 2x");
}

#[test]
fn precedence_and_grouping_shape_the_tree() {
    assert_eq!(text("2 + 3 * 4"), "(2) + (3) * (4)");
    assert_eq!(text("2 * 3 + 4"), "(2) * (3) + (4)");
    assert_eq!(text("( 1 + 2 ) * 3"), "((1) + (2)) * (3)");
    assert_eq!(text("10 - 3 - 1"), "(10) - (3) - (1)");
    assert_eq!(text("sqrt ( 16 )"), "sqrt(16)");
    assert_eq!(text("2 ^ 3 ^ 2"), "(2) ^ (3) ^ (2)");
}

#[test]
fn left_associative_subtraction_applies_left_first() {
    match parse("10 - 3 - 1").unwrap() {
        Expression::Binary(outer) => {
            assert_eq!(outer.operator, Operator::Subtract);
            assert!(matches!(*outer.left, Expression::Binary(_)));
            assert!(matches!(*outer.right, Expression::Number(_)));
        }
        _ => panic!("expected a binary operation"),
    }
}

#[test]
fn function_errors_of_the_parser() {
    assert_eq!(
        parse("sin ( )").unwrap_err(),
        "Invalid function call: missing argument"
    );
    assert_eq!(
        parse("sin 3").unwrap_err(),
        "Unexpected token on operator stack: Function(Sin)"
    );
    assert_eq!(
        parse("sqrt )").unwrap_err(),
        "Unexpected token on operator stack: Function(Sqrt)"
    );
}

#[test]
fn empty_input_is_too_many_values() {
    assert_eq!(parse("").unwrap_err(), "Invalid expression: too many values");
    assert_eq!(parse("   ").unwrap_err(), "Invalid expression: too many values");
}

#[test]
fn tokenize_splits_on_any_unicode_whitespace() {
    let tokens = tokenize("2\t+\u{3000}x\n(\u{2003})").unwrap();
    assert_eq!(
        tokens,
        vec![
            Token::Number("2".to_string()),
            Token::Operator(Operator::Add),
            Token::Variable("x".to_string()),
            Token::OpenParen,
            Token::CloseParen,
        ]
    );
}

#[test]
fn tokens_of_each_kind() {
    assert_eq!(Token::from_str("^"), Ok(Token::Operator(Operator::Power)));
    assert_eq!(Token::from_str("/"), Ok(Token::Operator(Operator::Divide)));
    assert_eq!(Token::from_str("cos"), Ok(Token::Function(Function::Cos)));
    assert_eq!(Token::from_str("tan"), Ok(Token::Function(Function::Tan)));
    assert_eq!(Token::from_str("_tmp1"), Ok(Token::Variable("_tmp1".to_string())));
    assert_eq!(Token::from_str("e"), Ok(Token::Variable("e".to_string())));
    assert_eq!(Token::from_str("sine"), Ok(Token::Variable("sine".to_string())));
    assert_eq!(Token::from_str("1x"), Err("Invalid token: 1x".to_string()));
    assert_eq!(Token::from_str("a-b"), Err("Invalid token: a-b".to_string()));
}

#[test]
fn numerals_follow_floating_point_syntax() {
    for word in ["0", "42", "2.5", ".5", "5.", "-3", "+7", "1e10", "2.5E-3", "inf", "-Infinity", "NaN"] {
        let value: f64 = word.parse().unwrap();
        assert_eq!(Token::from_str(word), Ok(Token::Number(format!("{}", value))), "{}", word);
    }
    for word in [".", "1.2.3", "e5", "1e", "1e+", "--1", "+", "1_000", "infinit"] {
        assert!(!matches!(Token::from_str(word), Ok(Token::Number(_))), "{}", word);
    }
}

#[test]
fn numbers_are_held_as_f64_displays_them() {
    for word in [
        "1.0", "2.50", "007", "-0", "-0.000", "0e5", "+3.25e2", "1e-7", "123456789012345",
        "0.000123450", "1E300", "-4.5e-300", "99.990", "1e21", ".5", "5.", "+inf",
        "-INFINITY", "nan", "-NaN", "12345.678901234",
    ] {
        let value: f64 = word.parse().unwrap();
        assert_eq!(display_of_numeral(word), format!("{}", value), "{}", word);
    }
    // beyond what the library displays exactly, the numeral is kept as written
    assert_eq!(display_of_numeral("0.1000000000000000055511"), "0.1000000000000000055511");
    assert_eq!(display_of_numeral("1e400"), "1e400");
}

#[test]
fn written_out_trees_show_numbers_as_f64_does() {
    let tree = ExpressionParser::new().parse("1.0 + 2").unwrap();
    assert_eq!(tree.to_string(), "(1) + (2)");
    let tree = ExpressionParser::new().parse("2.50 * 1e3").unwrap();
    assert_eq!(tree.to_string(), "(2.5) * (1000)");
}

#[test]
fn numerals_are_recognised() {
    assert!(calculator::token::is_numeral("2.5e-3"));
    assert!(calculator::token::is_numeral("-inf"));
    assert!(!calculator::token::is_numeral("abc"));
    assert!(!calculator::token::is_numeral(""));
}
