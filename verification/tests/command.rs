use calculator::command::{
    Calculator, ClearVariablesCommand, Command, CommandProcessor, SetVariableCommand,
};

fn set(name: &str, value: f64) -> Command {
    Command::SetVariable(SetVariableCommand::new(name.to_string(), format!("{}", value)))
}

fn value_of(numeral: Option<String>) -> Option<f64> {
    numeral.map(|s| s.parse().unwrap())
}

fn no_evaluation() -> Result<String, String> {
    Err("not an evaluation".to_string())
}

#[test]
fn calculator_default_is_empty() {
    let calculator = Calculator::default();
    assert!(calculator.variables.is_empty());
    assert!(calculator.calc_history.is_empty());
    assert_eq!(calculator.last_result, None);
}

#[test]
fn calculator_manages_variables() {
    let mut calculator = Calculator::default();
    assert_eq!(calculator.get_variable("x"), None);

    calculator.set_variable("x", format!("{}", 5.0));
    assert_eq!(value_of(calculator.get_variable("x")), Some(5.0));

    calculator.clear_variable("x");
    assert_eq!(calculator.get_variable("x"), None);
}

#[test]
fn calculator_stores_calculations() {
    let mut calculator = Calculator::default();
    calculator.store_calculation("2 + 3".to_string(), format!("{}", 5.0));

    assert_eq!(value_of(calculator.last_result.clone()), Some(5.0));
    assert_eq!(calculator.calc_history.len(), 1);
    assert_eq!(calculator.calc_history[0].expression, "2 + 3");
    assert_eq!(calculator.calc_history[0].result.parse::<f64>().unwrap(), 5.0);
}

#[test]
fn undo_redo_error_when_empty() {
    let mut processor = CommandProcessor::default();
    assert_eq!(processor.undo().unwrap_err(), "Nothing to undo");
    assert_eq!(processor.redo(no_evaluation()).unwrap_err(), "Nothing to redo");
}

#[test]
fn set_variable_command_undo_restores_previous_value() {
    let mut processor = CommandProcessor::default();

    processor.execute(set("x", 5.0), no_evaluation()).unwrap();
    assert_eq!(value_of(processor.get_calculator().get_variable("x")), Some(5.0));

    processor.execute(set("x", 9.0), no_evaluation()).unwrap();
    assert_eq!(value_of(processor.get_calculator().get_variable("x")), Some(9.0));

    processor.undo().unwrap();
    assert_eq!(value_of(processor.get_calculator().get_variable("x")), Some(5.0));
}

#[test]
fn set_variable_command_undo_removes_new_variable() {
    let mut processor = CommandProcessor::default();
    processor.execute(set("x", 5.0), no_evaluation()).unwrap();

    processor.undo().unwrap();
    assert_eq!(processor.get_calculator().get_variable("x"), None);
}

#[test]
fn clear_variables_command_undo_restores_state() {
    let mut processor = CommandProcessor::default();
    processor.get_calculator_mut().set_variable("x", format!("{}", 5.0));
    processor.get_calculator_mut().set_variable("y", format!("{}", 6.0));

    let clear = Command::ClearVariables(ClearVariablesCommand::new());
    processor.execute(clear, no_evaluation()).unwrap();
    assert!(processor.get_calculator().variables.is_empty());

    processor.undo().unwrap();
    assert_eq!(value_of(processor.get_calculator().get_variable("x")), Some(5.0));
    assert_eq!(value_of(processor.get_calculator().get_variable("y")), Some(6.0));
}

#[test]
fn set_variable_redo_sets_again_and_history_follows() {
    let mut processor = CommandProcessor::default();
    processor.execute(set("x", 1.5), no_evaluation()).unwrap();
    processor.execute(Command::ClearVariables(ClearVariablesCommand::new()), no_evaluation()).unwrap();
    assert_eq!(processor.history(), vec!["Set: x = 1.5", "Clear all variables"]);

    processor.undo().unwrap();
    processor.undo().unwrap();
    assert!(processor.history().is_empty());
    assert_eq!(processor.get_calculator().get_variable("x"), None);
    assert!(processor.next_redo().is_some());

    processor.redo(no_evaluation()).unwrap();
    assert_eq!(value_of(processor.get_calculator().get_variable("x")), Some(1.5));
    processor.redo(no_evaluation()).unwrap();
    assert!(processor.get_calculator().variables.is_empty());
    assert!(processor.next_redo().is_none());
    assert_eq!(processor.history().len(), 2);
}

#[test]
fn a_clear_that_never_ran_cannot_be_undone() {
    let mut calculator = Calculator::default();
    let clear = Command::ClearVariables(ClearVariablesCommand::new());
    assert_eq!(
        clear.undo(&mut calculator).unwrap_err(),
        "No previous variables state saved"
    );
    assert_eq!(clear.description(), "Clear all variables");
}
