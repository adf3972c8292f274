use calculator::template::{create_evaluator, ExpressionEvaluator};
use calculator::token::{tokenize, Operator, Token};

fn prepare(evaluator: &ExpressionEvaluator, expression: &str) -> Result<String, String> {
    evaluator.prepare(expression).map(|tree| tree.to_string())
}

#[test]
fn mismatched_parentheses_are_rejected() {
    let recursive = create_evaluator(true);
    assert_eq!(prepare(&recursive, "( 1 + 2").unwrap_err(), "Mismatched parentheses");

    let shunting_yard = create_evaluator(false);
    assert_eq!(prepare(&shunting_yard, "( 1 + 2").unwrap_err(), "Unbalanced parenthesis");
}

#[test]
fn shunting_yard_rejects_unbalanced_operands() {
    let evaluator = create_evaluator(false);
    assert_eq!(
        prepare(&evaluator, "2 +").unwrap_err(),
        "Unbalanced expression: check operands and operators"
    );
}

#[test]
fn empty_input_messages() {
    assert_eq!(prepare(&create_evaluator(true), "").unwrap_err(), "Empty expression");
    assert_eq!(prepare(&create_evaluator(false), "").unwrap_err(), "No tokens to evaluate");
}

#[test]
fn validation_messages_of_both_evaluators() {
    let recursive = create_evaluator(true);
    let shunting_yard = create_evaluator(false);
    let closed_first = tokenize(") 1 (").unwrap();
    assert_eq!(recursive.validate_tokens(&closed_first).unwrap_err(), "Mismatched parentheses");
    assert_eq!(shunting_yard.validate_tokens(&closed_first).unwrap_err(), "Unbalanced parenthesis");
    let no_operand = tokenize("( )").unwrap();
    assert!(recursive.validate_tokens(&no_operand).is_ok());
    assert_eq!(
        shunting_yard.validate_tokens(&no_operand).unwrap_err(),
        "Expression must contain at least one operand"
    );
    let fine = tokenize("sqrt ( 2 * x )").unwrap();
    assert!(shunting_yard.validate_tokens(&fine).is_ok());
}

#[test]
fn recursive_descent_groups_to_the_left() {
    let evaluator = create_evaluator(true);
    assert_eq!(prepare(&evaluator, "10 - 3 + 1").unwrap(), "(10) - (3) + (1)");
    assert_eq!(prepare(&evaluator, "2 + 3 * 4").unwrap(), "(2) + (3) * (4)");
    // `^` sits with `*` and `/` here, while the shunting-yard parser binds it tighter
    assert_eq!(prepare(&evaluator, "2 * 3 ^ 2").unwrap(), "((2) * (3)) ^ (2)");
    assert_eq!(
        prepare(&create_evaluator(false), "2 * 3 ^ 2").unwrap(),
        "(2) * (3) ^ (2)"
    );
}

#[test]
fn recursive_descent_parses_parentheses_and_calls() {
    let evaluator = create_evaluator(true);
    assert_eq!(prepare(&evaluator, "( 1 + 2 ) * 3").unwrap(), "((1) + (2)) * (3)");
    assert_eq!(prepare(&evaluator, "2 * ( 3 + 4 )").unwrap(), "(2) * ((3) + (4))");
    assert_eq!(prepare(&evaluator, "sqrt ( 16 )").unwrap(), "sqrt(16)");
    assert_eq!(prepare(&evaluator, "sin ( x + 1 ) * 2").unwrap(), "sin((x) + (1)) * (2)");
    assert_eq!(
        prepare(&evaluator, "( ( 1 + 2 ) * ( 3 - 4 ) )").unwrap(),
        "((1) + (2)) * ((3) - (4))"
    );
}

#[test]
fn recursive_descent_errors() {
    let evaluator = create_evaluator(true);
    assert_eq!(prepare(&evaluator, "2 *").unwrap_err(), "Unexpected end of expression");
    assert_eq!(prepare(&evaluator, "* 2").unwrap_err(), "Unexpected token: Operator(Multiply)");
    assert_eq!(prepare(&evaluator, "sqrt 4").unwrap_err(), "Expected '(' after function name");
    assert_eq!(prepare(&evaluator, "( )").unwrap_err(), "Unexpected token: CloseParen");
    assert_eq!(prepare(&evaluator, "sqrt ( )").unwrap_err(), "Unexpected token: CloseParen");
    // an opening parenthesis with nothing after it
    assert_eq!(evaluator.parse(tokenize("(").unwrap()).unwrap_err(), "Empty expression");
    // a `)` must follow the inside of a parenthesis or a call
    let unclosed = tokenize("( 1 + 2 3 )").unwrap();
    assert_eq!(evaluator.parse(unclosed).unwrap_err(), "Expected ')'");
    let unclosed_call = tokenize("sqrt ( 16 2 )").unwrap();
    assert_eq!(
        evaluator.parse(unclosed_call).unwrap_err(),
        "Expected ')' after function argument"
    );
    // tokens after a complete sum are ignored
    assert_eq!(prepare(&evaluator, "2 3").unwrap(), "2");
}

#[test]
fn shunting_yard_parse_writes_tokens_out_for_the_parser() {
    let evaluator = create_evaluator(false);
    let tokens = vec![
        Token::OpenParen,
        Token::Number("1".to_string()),
        Token::Operator(Operator::Add),
        Token::Variable("y".to_string()),
        Token::CloseParen,
        Token::Operator(Operator::Power),
        Token::Number("2".to_string()),
    ];
    assert_eq!(evaluator.parse(tokens).unwrap().to_string(), "((1) + (y)) ^ (2)");
    // a variable whose name is no word of the language is read again as words
    let odd = vec![Token::Variable("a b".to_string())];
    assert_eq!(evaluator.parse(odd).unwrap_err(), "Invalid expression: too many values");
}

#[test]
fn parsers_agree_on_fully_parenthesized_input() {
    let recursive = create_evaluator(true);
    let shunting_yard = create_evaluator(false);
    for text in [
        "( ( 1 + 2 ) * ( 3 - 4 ) )",
        "sqrt ( ( x ^ 2 ) )",
        "( 2 * ( 3 ^ 2 ) )",
        "( sin ( y ) / 7 )",
    ] {
        let a = prepare(&recursive, text).unwrap();
        let b = prepare(&shunting_yard, text).unwrap();
        assert_eq!(a, b, "{}", text);
    }
    assert_eq!(prepare(&recursive, "( 2 * ( 3 ^ 2 ) )").unwrap(), "(2) * (3) ^ (2)");
}

#[test]
fn tokenizer_splits_where_std_sees_whitespace() {
    for code in 0u32..0x3100 {
        if let Some(c) = char::from_u32(code) {
            let text = format!("1{}2", c);
            let words = text.split_whitespace().count();
            match tokenize(&text) {
                Ok(tokens) => assert_eq!(tokens.len(), words, "U+{:04X}", code),
                Err(_) => assert!(!c.is_whitespace(), "U+{:04X}", code),
            }
        }
    }
}
