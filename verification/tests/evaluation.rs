//! Tests that carry trees through floating-point evaluation. The library
//! stops before the arithmetic; `evaluate` below does it the calculator's way.

use calculator::command::{Command, CommandProcessor, EvaluateCommand};
use calculator::config::AngleMode;
use calculator::expression::{Expression, NumberExpression};
use calculator::mediator::{
    create_mediator_system, CalculatorMediatorImpl, DisplayAction, EvaluationComponent,
    VariableStorage,
};
use calculator::parser::ExpressionParser;
use calculator::template::{create_evaluator, ExpressionEvaluator};
use calculator::token::{Function, Operator};
use calculator::variables::VariableMap;

fn evaluate(expr: &Expression, variables: &VariableMap) -> Result<f64, String> {
    match expr {
        Expression::Number(n) => Ok(n.value.parse().unwrap()),
        Expression::Variable(v) => v.evaluate(variables).map(|s| s.parse().unwrap()),
        Expression::Binary(b) => {
            let left = evaluate(&b.left, variables)?;
            let right = evaluate(&b.right, variables)?;
            match b.operator {
                Operator::Add => Ok(left + right),
                Operator::Subtract => Ok(left - right),
                Operator::Multiply => Ok(left * right),
                Operator::Divide => {
                    if right == 0.0 {
                        Err("Division by zero".to_string())
                    } else {
                        Ok(left / right)
                    }
                }
                Operator::Power => Ok(left.powf(right)),
            }
        }
        Expression::Call(c) => {
            let arg = evaluate(&c.argument, variables)?;
            match c.function {
                Function::Sin => Ok(arg.sin()),
                Function::Cos => Ok(arg.cos()),
                Function::Tan => {
                    if (arg - std::f64::consts::PI / 2.0).abs() % std::f64::consts::PI < 1e-10 {
                        Err("Tangent undefined at this value".to_string())
                    } else {
                        Ok(arg.tan())
                    }
                }
                Function::Sqrt => {
                    if arg < 0.0 {
                        Err("Cannot take square root of negative number".to_string())
                    } else {
                        Ok(arg.sqrt())
                    }
                }
            }
        }
    }
}

fn variables(values: &[(&str, f64)]) -> VariableMap {
    let mut map = VariableMap::new();
    for (name, value) in values {
        map.insert(name, format!("{}", value));
    }
    map
}

fn numeral(value: f64) -> String {
    format!("{}", value)
}

fn value_of(numeral: Option<String>) -> Option<f64> {
    numeral.map(|s| s.parse().unwrap())
}

// ---------------------------------------------------------------- leaves

#[test]
fn number_expression_evaluates_to_its_value() {
    let expr = NumberExpression::new(&numeral(42.5));
    let leaf = Expression::Number(NumberExpression::new(&numeral(42.5)));
    assert_eq!(evaluate(&leaf, &VariableMap::new()).unwrap(), 42.5);
    assert_eq!(expr.to_string(), "42.5");
    assert_eq!(expr.precedence(), 0);
}

// ---------------------------------------------------------------- parser

fn eval(expression: &str) -> Result<f64, String> {
    let tree = ExpressionParser::new().parse(expression)?;
    evaluate(&tree, &VariableMap::new())
}

fn eval_with_vars(expression: &str, values: &[(&str, f64)]) -> Result<f64, String> {
    let tree = ExpressionParser::new().parse(expression)?;
    evaluate(&tree, &variables(values))
}

#[test]
fn parses_simple_arithmetic() {
    assert_eq!(eval("2 + 3").unwrap(), 5.0);
    assert_eq!(eval("8 - 3").unwrap(), 5.0);
    assert_eq!(eval("6 * 7").unwrap(), 42.0);
    assert_eq!(eval("10 / 4").unwrap(), 2.5);
    assert_eq!(eval("2 ^ 10").unwrap(), 1024.0);
}

#[test]
fn parses_operator_precedence() {
    assert_eq!(eval("2 + 3 * 4").unwrap(), 14.0);
    assert_eq!(eval("2 * 3 + 4").unwrap(), 10.0);
    assert_eq!(eval("3 * 4 + 2 * 5").unwrap(), 22.0);
}

#[test]
fn parses_parentheses() {
    assert_eq!(eval("( 1 + 2 ) * 3").unwrap(), 9.0);
    assert_eq!(eval("2 * ( 3 + 4 )").unwrap(), 14.0);
    assert_eq!(eval("( 2 + 3 ) * ( 4 + 5 )").unwrap(), 45.0);
}

#[test]
fn parses_functions() {
    assert_eq!(eval("sqrt ( 16 )").unwrap(), 4.0);
    assert_eq!(eval("sin ( 0 )").unwrap(), 0.0);
    assert_eq!(eval("cos ( 0 )").unwrap(), 1.0);
}

#[test]
fn parses_variables() {
    assert_eq!(eval_with_vars("x + 1", &[("x", 6.0)]).unwrap(), 7.0);
    assert_eq!(eval_with_vars("2 * x - 1", &[("x", 5.0)]).unwrap(), 9.0);
}

// ---------------------------------------------------------------- template

fn template_eval(evaluator: &ExpressionEvaluator, expression: &str) -> Result<f64, String> {
    let tree = evaluator.prepare(expression)?;
    evaluate(&tree, &VariableMap::new())
}

fn template_eval_with_vars(
    evaluator: &ExpressionEvaluator,
    expression: &str,
    values: &[(&str, f64)],
) -> Result<f64, String> {
    let tree = evaluator.prepare(expression)?;
    evaluate(&tree, &variables(values))
}

#[test]
fn recursive_descent_evaluates_arithmetic() {
    let evaluator = create_evaluator(true);
    assert_eq!(template_eval(&evaluator, "2 + 3 * 4").unwrap(), 14.0);
    assert_eq!(template_eval(&evaluator, "10 - 3 + 1").unwrap(), 8.0);
    assert_eq!(template_eval(&evaluator, "6 * 7").unwrap(), 42.0);
}

#[test]
fn recursive_descent_evaluates_variable_expressions() {
    let evaluator = create_evaluator(true);
    assert_eq!(
        template_eval_with_vars(&evaluator, "x + 1", &[("x", 6.0)]).unwrap(),
        7.0
    );
    assert_eq!(
        template_eval_with_vars(&evaluator, "x * 3", &[("x", 4.0)]).unwrap(),
        12.0
    );
}

#[test]
fn recursive_descent_evaluates_parentheses_and_functions() {
    let evaluator = create_evaluator(true);
    assert_eq!(template_eval(&evaluator, "( 1 + 2 ) * 3").unwrap(), 9.0);
    assert_eq!(template_eval(&evaluator, "2 * ( 3 + 4 )").unwrap(), 14.0);
    assert_eq!(template_eval(&evaluator, "sqrt ( 16 )").unwrap(), 4.0);
    assert_eq!(template_eval(&evaluator, "( 2 + 3 ) * ( 4 + 5 )").unwrap(), 45.0);
}

#[test]
fn shunting_yard_evaluates_arithmetic() {
    let evaluator = create_evaluator(false);
    assert_eq!(template_eval(&evaluator, "2 + 3 * 4").unwrap(), 14.0);
    assert_eq!(template_eval(&evaluator, "( 1 + 2 ) * 3").unwrap(), 9.0);
    assert_eq!(template_eval(&evaluator, "2 * ( 3 + 4 )").unwrap(), 14.0);
}

#[test]
fn shunting_yard_evaluates_functions_and_variables() {
    let evaluator = create_evaluator(false);
    assert_eq!(template_eval(&evaluator, "sqrt ( 16 )").unwrap(), 4.0);
    assert_eq!(
        template_eval_with_vars(&evaluator, "x * 2", &[("x", 5.0)]).unwrap(),
        10.0
    );
}

#[test]
fn empty_expression_is_rejected() {
    let recursive = create_evaluator(true);
    assert!(template_eval(&recursive, "").is_err());

    let shunting_yard = create_evaluator(false);
    assert!(template_eval(&shunting_yard, "").is_err());
}

#[test]
fn recursive_descent_rejects_undefined_variables() {
    let evaluator = create_evaluator(true);
    assert_eq!(
        template_eval(&evaluator, "x + 1").unwrap_err(),
        "Undefined variable: x"
    );
}

#[test]
fn factory_returns_proper_types() {
    let vars = variables(&[("x", 3.0)]);

    let recursive = create_evaluator(true);
    assert!(matches!(recursive, ExpressionEvaluator::RecursiveDescent(_)));
    assert_eq!(evaluate(&recursive.prepare("x * 3").unwrap(), &vars).unwrap(), 9.0);

    let shunting_yard = create_evaluator(false);
    assert!(matches!(shunting_yard, ExpressionEvaluator::ShuntingYard(_)));
    assert_eq!(evaluate(&shunting_yard.prepare("x * 3").unwrap(), &vars).unwrap(), 9.0);
}

// ---------------------------------------------------------------- commands

fn parse(expression: &str) -> Expression {
    ExpressionParser::new().parse(expression).unwrap()
}

fn evaluation_for(command: Option<&Command>, processor: &CommandProcessor) -> Result<String, String> {
    match command.and_then(|c| c.evaluation_tree()) {
        Some(tree) => evaluate(tree, &processor.get_calculator().variables).map(numeral),
        None => Err("not an evaluation".to_string()),
    }
}

fn execute(processor: &mut CommandProcessor, command: Command) -> Result<Option<f64>, String> {
    let evaluation = evaluation_for(Some(&command), processor);
    processor.execute(command, evaluation).map(value_of)
}

fn redo(processor: &mut CommandProcessor) -> Result<(), String> {
    let evaluation = evaluation_for(processor.next_redo(), processor);
    processor.redo(evaluation)
}

fn evaluate_command(expression: &str) -> Command {
    Command::Evaluate(EvaluateCommand::new(expression.to_string(), parse(expression)))
}

fn last_result(processor: &CommandProcessor) -> Option<f64> {
    value_of(processor.get_calculator().last_result.clone())
}

#[test]
fn evaluate_command_executes_and_undoes() {
    let mut processor = CommandProcessor::default();
    let command = evaluate_command("2 + 3");

    assert_eq!(execute(&mut processor, command).unwrap(), Some(5.0));
    assert_eq!(last_result(&processor), Some(5.0));
    assert_eq!(processor.history().len(), 1);

    processor.undo().unwrap();
    assert_eq!(last_result(&processor), None);
    assert!(processor.history().is_empty());
}

#[test]
fn evaluate_command_restores_previous_result_on_undo() {
    let mut processor = CommandProcessor::default();

    execute(&mut processor, evaluate_command("3 + 4")).unwrap();
    assert_eq!(last_result(&processor), Some(7.0));

    execute(&mut processor, evaluate_command("10 - 1")).unwrap();
    assert_eq!(last_result(&processor), Some(9.0));

    processor.undo().unwrap();
    assert_eq!(last_result(&processor), Some(7.0));
    assert_eq!(processor.get_calculator().calc_history.len(), 1);
}

#[test]
fn undo_and_redo_round_trip() {
    let mut processor = CommandProcessor::default();
    execute(&mut processor, evaluate_command("7 * 6")).unwrap();

    processor.undo().unwrap();
    assert_eq!(last_result(&processor), None);

    redo(&mut processor).unwrap();
    assert_eq!(last_result(&processor), Some(42.0));
    assert_eq!(processor.history().len(), 1);
}

#[test]
fn new_command_clears_redo_stack() {
    let mut processor = CommandProcessor::default();
    execute(&mut processor, evaluate_command("1 + 1")).unwrap();
    processor.undo().unwrap();
    assert!(redo(&mut processor).is_ok());

    execute(&mut processor, evaluate_command("2 + 2")).unwrap();
    assert_eq!(redo(&mut processor).unwrap_err(), "Nothing to redo");
}

#[test]
fn history_records_descriptions() {
    let mut processor = CommandProcessor::default();
    execute(&mut processor, evaluate_command("2 + 3")).unwrap();
    execute(
        &mut processor,
        Command::SetVariable(calculator::command::SetVariableCommand::new(
            "x".to_string(),
            numeral(5.0),
        )),
    )
    .unwrap();

    let history = processor.history();
    assert_eq!(history.len(), 2);
    assert_eq!(history[0], "Evaluate: 2 + 3");
    assert_eq!(history[1], "Set: x = 5");
}

#[test]
fn command_execution_with_undefined_variable_fails() {
    let mut processor = CommandProcessor::default();
    let command = evaluate_command("x + 1");
    assert_eq!(
        execute(&mut processor, command).unwrap_err(),
        "Undefined variable: x"
    );
}

#[test]
fn failed_evaluation_changes_nothing() {
    let mut processor = CommandProcessor::default();
    execute(&mut processor, evaluate_command("1 / 0")).unwrap_err();
    assert_eq!(last_result(&processor), None);
    assert!(processor.history().is_empty());
    assert_eq!(processor.undo().unwrap_err(), "Nothing to undo");
}

// ---------------------------------------------------------------- mediator

fn show(action: Option<DisplayAction>, messages: &mut Vec<String>) {
    match action {
        Some(DisplayAction::ShowResult(r)) => messages.push(format!("result:{}", r)),
        Some(DisplayAction::ShowMessage(m)) => messages.push(format!("msg:{}", m)),
        Some(DisplayAction::ShowError(e)) => messages.push(format!("err:{}", e)),
        None => {}
    }
}

fn setup() -> CalculatorMediatorImpl {
    let mut mediator = CalculatorMediatorImpl::new();
    mediator.set_evaluator(EvaluationComponent::new());
    mediator.set_variables(VariableStorage::new());
    mediator.set_display();
    mediator
}

fn mediator_evaluate(
    mediator: &mut CalculatorMediatorImpl,
    expression: &str,
    messages: &mut Vec<String>,
) -> Result<f64, String> {
    let (tree, vars) = mediator.begin_evaluation(expression)?;
    let outcome = evaluate(&tree, &vars).map(numeral);
    let (result, action) = mediator.finish_evaluation(outcome);
    show(action, messages);
    result.map(|s| s.parse().unwrap())
}

#[test]
fn mediator_evaluates_expressions() {
    let mut mediator = setup();
    let mut messages = Vec::new();

    let result = mediator_evaluate(&mut mediator, "2 + 3", &mut messages).unwrap();
    assert_eq!(result, 5.0);
    assert_eq!(value_of(mediator.get_result()), Some(5.0));
    assert!(messages.contains(&"result:5".to_string()));
}

#[test]
fn mediator_evaluates_expressions_with_variables() {
    let mut mediator = setup();
    let mut messages = Vec::new();

    show(mediator.set_variable("x", numeral(4.0)), &mut messages);

    let result = mediator_evaluate(&mut mediator, "x + 1", &mut messages).unwrap();
    assert_eq!(result, 5.0);
}

#[test]
fn mediator_errors_without_registered_evaluator() {
    let mut mediator = CalculatorMediatorImpl::new();
    let mut messages = Vec::new();
    assert_eq!(
        mediator_evaluate(&mut mediator, "1 + 1", &mut messages).unwrap_err(),
        "Evaluator not initialized"
    );
}

#[test]
fn mediator_manages_variables() {
    let mut mediator = setup();
    let mut messages = Vec::new();

    show(mediator.set_variable("x", numeral(5.0)), &mut messages);
    assert_eq!(value_of(mediator.get_variable("x")), Some(5.0));
    assert_eq!(value_of(mediator.get_all_variables().get("x")), Some(5.0));

    assert!(messages.contains(&"msg:Variable x set to 5".to_string()));
}

#[test]
fn mediator_returns_none_for_unset_variables() {
    let mediator = CalculatorMediatorImpl::new();
    assert_eq!(mediator.get_variable("x"), None);
}

#[test]
fn change_angle_mode_is_safe_without_display() {
    let mut mediator = CalculatorMediatorImpl::new();
    let action = mediator.change_angle_mode(AngleMode::Degrees);
    assert_eq!(action, None);
    assert_eq!(mediator.angle_mode(), AngleMode::Degrees);
}

#[test]
fn create_mediator_system_initializes_all_components() {
    let system = create_mediator_system();
    assert_eq!(system.get_result(), None);
    assert_eq!(system.get_variable("x"), None);
}

#[test]
fn mediator_shows_mode_changes_and_evaluation_errors() {
    let mut mediator = create_mediator_system();
    let mut messages = Vec::new();
    show(mediator.change_angle_mode(AngleMode::Degrees), &mut messages);
    assert_eq!(messages, vec!["msg:Mode changed to Degrees".to_string()]);

    // an error is returned without being announced
    let err = mediator_evaluate(&mut mediator, "1 / 0", &mut messages).unwrap_err();
    assert_eq!(err, "Division by zero");
    assert_eq!(messages.len(), 1);
    assert_eq!(mediator.get_result(), None);

    let parse_error = mediator_evaluate(&mut mediator, "1 +", &mut messages).unwrap_err();
    assert_eq!(parse_error, "Invalid expression: not enough operands");
}

#[test]
fn mediator_without_storage_keeps_no_variables() {
    let mut mediator = CalculatorMediatorImpl::new();
    mediator.set_evaluator(EvaluationComponent::new());
    assert_eq!(mediator.set_variable("x", numeral(1.0)), None);
    assert_eq!(mediator.get_variable("x"), None);
    assert!(mediator.get_all_variables().is_empty());
    let mut messages = Vec::new();
    assert_eq!(
        mediator_evaluate(&mut mediator, "x", &mut messages).unwrap_err(),
        "Undefined variable: x"
    );
}
