use vstd::prelude::*;
use vstd::string::StringExecFns;
use std::time::SystemTime;
use crate::expression::{ExprView, Expression};
use crate::variables::VariableMap;
use crate::token::is_number_literal;

verus! {

// ------------------------------------------------------------------
// The receiver
// ------------------------------------------------------------------

#[verifier::external_type_specification]
#[verifier::external_body]
pub struct ExSystemTime(SystemTime);

/// `SystemTime::now` from std: a reading of the system clock. Nothing is
/// stated of the value, which depends on the clock.
#[verifier::external_body]
fn current_time() -> SystemTime {
    SystemTime::now()
}

/// A finished calculation: the expression as typed, the numeral of its
/// result, and when it was stored.
#[derive(Debug)]
pub struct Calculation {
    pub expression: String,
    pub result: String,
    pub timestamp: SystemTime,
}

/// The state that commands act on: variables, the history of calculations
/// and the last result. Numbers are held as numerals.
pub struct Calculator {
    pub variables: VariableMap,
    pub calc_history: Vec<Calculation>,
    pub last_result: Option<String>,
}

/// The model of a calculator. A calculation is modelled by its expression
/// and result; the time stamp is left out.
pub struct CalculatorView {
    pub variables: Map<Seq<char>, Seq<char>>,
    pub history: Seq<(Seq<char>, Seq<char>)>,
    pub last_result: Option<Seq<char>>,
}

pub open spec fn opt_view(o: Option<String>) -> Option<Seq<char>> {
    match o {
        Some(s) => Some(s@),
        None => None,
    }
}

pub open spec fn history_view(h: Seq<Calculation>) -> Seq<(Seq<char>, Seq<char>)> {
    h.map_values(|c: Calculation| (c.expression@, c.result@))
}

/// The value stored under a key, if any.
pub open spec fn map_get(m: Map<Seq<char>, Seq<char>>, k: Seq<char>) -> Option<Seq<char>> {
    if m.contains_key(k) {
        Some(m[k])
    } else {
        None
    }
}

impl View for Calculator {
    type V = CalculatorView;

    open spec fn view(&self) -> CalculatorView {
        CalculatorView {
            variables: self.variables@,
            history: history_view(self.calc_history@),
            last_result: opt_view(self.last_result),
        }
    }
}

fn clone_option(o: &Option<String>) -> (r: Option<String>)
    ensures
        opt_view(r) == opt_view(*o),
{
    match o {
        Some(s) => Some(s.clone()),
        None => None,
    }
}

impl Default for Calculator {
    /// A calculator with no variables, no history and no last result.
    fn default() -> (c: Calculator)
        ensures
            c@ == (CalculatorView {
                variables: Map::empty(),
                history: seq![],
                last_result: None,
            }),
    {
        let c = Calculator {
            variables: VariableMap::new(),
            calc_history: Vec::new(),
            last_result: None,
        };
        assert(history_view(c.calc_history@) =~= Seq::<(Seq<char>, Seq<char>)>::empty());
        c
    }
}

impl Calculator {
    /// Sets `name` to the number whose numeral is `value`.
    pub fn set_variable(&mut self, name: &str, value: String)
        requires
            is_number_literal(value@),
        ensures
            final(self)@ == (CalculatorView {
                variables: old(self)@.variables.insert(name@, value@),
                ..old(self)@
            }),
    {
        self.variables.insert(name, value);
    }

    pub fn get_variable(&self, name: &str) -> (r: Option<String>)
        ensures
            opt_view(r) == map_get(self@.variables, name@),
            r matches Some(v) ==> is_number_literal(v@),
    {
        self.variables.get(name)
    }

    pub fn clear_variable(&mut self, name: &str)
        ensures
            final(self)@ == (CalculatorView {
                variables: old(self)@.variables.remove(name@),
                ..old(self)@
            }),
    {
        self.variables.remove(name);
    }

    pub fn set_last_result(&mut self, result: String)
        requires
            is_number_literal(result@),
        ensures
            final(self)@ == (CalculatorView { last_result: Some(result@), ..old(self)@ }),
    {
        self.last_result = Some(result);
    }

    /// Appends a calculation, stamped with the current time, to the history
    /// and makes its result the last result.
    pub fn store_calculation(&mut self, expression: String, result: String)
        requires
            is_number_literal(result@),
        ensures
            final(self)@ == (CalculatorView {
                history: old(self)@.history.push((expression@, result@)),
                last_result: Some(result@),
                ..old(self)@
            }),
    {
        let ghost old_history = self.calc_history@;
        let calculation = Calculation {
            expression,
            result: result.clone(),
            timestamp: current_time(),
        };
        self.calc_history.push(calculation);
        self.last_result = Some(result);
        assert(history_view(self.calc_history@) =~= history_view(old_history).push(
            (expression@, result@),
        ));
    }
}

} // verus!

verus! {

// ------------------------------------------------------------------
// Commands
// ------------------------------------------------------------------

/// Evaluates an expression tree and records the calculation. The
/// floating-point arithmetic is done by the caller, who hands the outcome
/// to `execute`; the command keeps the last result from before, to restore
/// it on undo.
pub struct EvaluateCommand {
    expression: String,
    expr_tree: Expression,
    previous_result: Option<String>,
}

/// Sets a variable, keeping the value it had before.
pub struct SetVariableCommand {
    name: String,
    value: String,
    previous_value: Option<String>,
}

/// Clears all variables, keeping them to restore on undo.
pub struct ClearVariablesCommand {
    previous_variables: Option<VariableMap>,
}

/// A command that the processor can execute, undo and redo.
pub enum Command {
    Evaluate(EvaluateCommand),
    SetVariable(SetVariableCommand),
    ClearVariables(ClearVariablesCommand),
}

/// The model of a command.
pub enum CommandView {
    Evaluate { expression: Seq<char>, tree: ExprView, previous_result: Option<Seq<char>> },
    SetVariable { name: Seq<char>, value: Seq<char>, previous_value: Option<Seq<char>> },
    ClearVariables { previous_variables: Option<Map<Seq<char>, Seq<char>>> },
}

impl View for EvaluateCommand {
    type V = CommandView;

    closed spec fn view(&self) -> CommandView {
        CommandView::Evaluate {
            expression: self.expression@,
            tree: self.expr_tree@,
            previous_result: opt_view(self.previous_result),
        }
    }
}

impl SetVariableCommand {
    /// The value, and the value kept for undo, are numerals.
    #[verifier::type_invariant]
    closed spec fn holds_numerals(self) -> bool {
        &&& is_number_literal(self.value@)
        &&& self.previous_value matches Some(v) ==> is_number_literal(v@)
    }
}

impl View for SetVariableCommand {
    type V = CommandView;

    closed spec fn view(&self) -> CommandView {
        CommandView::SetVariable {
            name: self.name@,
            value: self.value@,
            previous_value: opt_view(self.previous_value),
        }
    }
}

impl View for ClearVariablesCommand {
    type V = CommandView;

    closed spec fn view(&self) -> CommandView {
        CommandView::ClearVariables {
            previous_variables: match self.previous_variables {
                Some(m) => Some(m@),
                None => None,
            },
        }
    }
}

impl View for Command {
    type V = CommandView;

    open spec fn view(&self) -> CommandView {
        match self {
            Command::Evaluate(c) => c@,
            Command::SetVariable(c) => c@,
            Command::ClearVariables(c) => c@,
        }
    }
}

/// Executing a command on a calculator, given the outcome of evaluating its
/// tree (used by evaluate commands only): the command as it is afterwards,
/// the calculator afterwards, and the result.
pub open spec fn execute_spec(
    c: CommandView,
    calc: CalculatorView,
    evaluation: Result<Seq<char>, Seq<char>>,
) -> (CommandView, CalculatorView, Result<Option<Seq<char>>, Seq<char>>) {
    match c {
        CommandView::Evaluate { expression, tree, previous_result: _ } => {
            let c2 = CommandView::Evaluate {
                expression,
                tree,
                previous_result: calc.last_result,
            };
            match evaluation {
                Err(e) => (c2, calc, Err(e)),
                Ok(v) => (
                    c2,
                    CalculatorView {
                        history: calc.history.push((expression, v)),
                        last_result: Some(v),
                        ..calc
                    },
                    Ok(Some(v)),
                ),
            }
        },
        CommandView::SetVariable { name, value, previous_value: _ } => (
            CommandView::SetVariable {
                name,
                value,
                previous_value: map_get(calc.variables, name),
            },
            CalculatorView { variables: calc.variables.insert(name, value), ..calc },
            Ok(None),
        ),
        CommandView::ClearVariables { previous_variables: _ } => (
            CommandView::ClearVariables { previous_variables: Some(calc.variables) },
            CalculatorView { variables: Map::empty(), ..calc },
            Ok(None),
        ),
    }
}

pub open spec fn no_saved_variables_message() -> Seq<char> {
    "No previous variables state saved"@
}

/// Undoing a command: the calculator afterwards and the result.
pub open spec fn undo_spec(c: CommandView, calc: CalculatorView) -> (
    CalculatorView,
    Result<(), Seq<char>>,
) {
    match c {
        CommandView::Evaluate { expression: _, tree: _, previous_result } => (
            CalculatorView {
                history: if calc.history.len() > 0 {
                    calc.history.drop_last()
                } else {
                    calc.history
                },
                last_result: previous_result,
                ..calc
            },
            Ok(()),
        ),
        CommandView::SetVariable { name, value: _, previous_value } => (
            CalculatorView {
                variables: match previous_value {
                    Some(v) => calc.variables.insert(name, v),
                    None => calc.variables.remove(name),
                },
                ..calc
            },
            Ok(()),
        ),
        CommandView::ClearVariables { previous_variables } => match previous_variables {
            Some(m) => (CalculatorView { variables: m, ..calc }, Ok(())),
            None => (calc, Err(no_saved_variables_message())),
        },
    }
}

/// The line that describes a command in the history.
pub open spec fn description_spec(c: CommandView) -> Seq<char> {
    match c {
        CommandView::Evaluate { expression, .. } => "Evaluate: "@ + expression,
        CommandView::SetVariable { name, value, .. } => "Set: "@ + name + " = "@ + value,
        CommandView::ClearVariables { .. } => "Clear all variables"@,
    }
}

impl EvaluateCommand {
    /// A command for an expression, as typed, and its tree.
    pub fn new(expression: String, expr_tree: Expression) -> (c: EvaluateCommand)
        ensures
            c@ == (CommandView::Evaluate {
                expression: expression@,
                tree: expr_tree@,
                previous_result: None,
            }),
    {
        EvaluateCommand { expression, expr_tree, previous_result: None }
    }

    /// The tree whose value the command records.
    pub fn expr_tree(&self) -> (t: &Expression)
        ensures
            self@ matches CommandView::Evaluate { tree, .. } && t@ == tree,
    {
        &self.expr_tree
    }
}

impl SetVariableCommand {
    /// A command that sets `name` to the number whose numeral is `value`.
    pub fn new(name: String, value: String) -> (c: SetVariableCommand)
        requires
            is_number_literal(value@),
        ensures
            c@ == (CommandView::SetVariable { name: name@, value: value@, previous_value: None }),
    {
        SetVariableCommand { name, value, previous_value: None }
    }
}

impl ClearVariablesCommand {
    pub fn new() -> (c: ClearVariablesCommand)
        ensures
            c@ == (CommandView::ClearVariables { previous_variables: None }),
    {
        ClearVariablesCommand { previous_variables: None }
    }
}

impl Command {
    /// The tree that an evaluate command needs evaluated, if this is one.
    pub fn evaluation_tree(&self) -> (t: Option<&Expression>)
        ensures
            match self@ {
                CommandView::Evaluate { tree, .. } => t is Some && t->Some_0@ == tree,
                _ => t is None,
            },
    {
        match self {
            Command::Evaluate(c) => Some(&c.expr_tree),
            _ => None,
        }
    }

    /// Executes the command on `calculator`. `evaluation` is the outcome of
    /// evaluating the tree of an evaluate command on the calculator's
    /// variables; other commands do not look at it. Returns the command,
    /// now holding what undo needs, and the result.
    pub fn execute(self, calculator: &mut Calculator, evaluation: Result<String, String>) -> (r: (
        Command,
        Result<Option<String>, String>,
    ))
        requires
            evaluation matches Ok(v) ==> is_number_literal(v@),
        ensures
            ({
                let ev = match evaluation {
                    Ok(v) => Ok::<Seq<char>, Seq<char>>(v@),
                    Err(e) => Err::<Seq<char>, Seq<char>>(e@),
                };
                let (c2, calc2, res) = execute_spec(self@, old(calculator)@, ev);
                &&& r.0@ == c2
                &&& final(calculator)@ == calc2
                &&& match r.1 {
                    Ok(Some(v)) => res == Ok::<Option<Seq<char>>, Seq<char>>(Some(v@)),
                    Ok(None) => res == Ok::<Option<Seq<char>>, Seq<char>>(None),
                    Err(e) => res == Err::<Option<Seq<char>>, Seq<char>>(e@),
                }
            }),
    {
        match self {
            Command::Evaluate(mut c) => {
                c.previous_result = clone_option(&calculator.last_result);
                match evaluation {
                    Err(e) => (Command::Evaluate(c), Err(e)),
                    Ok(v) => {
                        calculator.store_calculation(c.expression.clone(), v.clone());
                        (Command::Evaluate(c), Ok(Some(v)))
                    },
                }
            },
            Command::SetVariable(mut c) => {
                proof {
                    use_type_invariant(&c);
                }
                c.previous_value = calculator.get_variable(c.name.as_str());
                calculator.set_variable(c.name.as_str(), c.value.clone());
                (Command::SetVariable(c), Ok(None))
            },
            Command::ClearVariables(mut c) => {
                c.previous_variables = Some(calculator.variables.duplicate());
                calculator.variables.clear();
                (Command::ClearVariables(c), Ok(None))
            },
        }
    }

    /// Undoes the command on `calculator`.
    pub fn undo(&self, calculator: &mut Calculator) -> (r: Result<(), String>)
        ensures
            final(calculator)@ == undo_spec(self@, old(calculator)@).0,
            match r {
                Ok(()) => undo_spec(self@, old(calculator)@).1 == Ok::<(), Seq<char>>(()),
                Err(e) => undo_spec(self@, old(calculator)@).1 == Err::<(), Seq<char>>(e@),
            },
    {
        match self {
            Command::Evaluate(c) => {
                if calculator.calc_history.len() > 0 {
                    let ghost h = calculator.calc_history@;
                    calculator.calc_history.pop();
                    assert(history_view(calculator.calc_history@) =~= history_view(h).drop_last());
                }
                calculator.last_result = clone_option(&c.previous_result);
                Ok(())
            },
            Command::SetVariable(c) => {
                proof {
                    use_type_invariant(c);
                }
                match &c.previous_value {
                    Some(v) => calculator.set_variable(c.name.as_str(), v.clone()),
                    None => calculator.clear_variable(c.name.as_str()),
                }
                Ok(())
            },
            Command::ClearVariables(c) => {
                match &c.previous_variables {
                    Some(vars) => {
                        calculator.variables = vars.duplicate();
                        Ok(())
                    },
                    None => Err(String::from_str("No previous variables state saved")),
                }
            },
        }
    }

    /// The line that describes the command in the history.
    pub fn description(&self) -> (s: String)
        ensures
            s@ == description_spec(self@),
    {
        match self {
            Command::Evaluate(c) => {
                let mut s = String::from_str("Evaluate: ");
                s.append(c.expression.as_str());
                s
            },
            Command::SetVariable(c) => {
                let mut s = String::from_str("Set: ");
                s.append(c.name.as_str());
                s.append(" = ");
                s.append(c.value.as_str());
                s
            },
            Command::ClearVariables(_) => String::from_str("Clear all variables"),
        }
    }
}

} // verus!

verus! {

// ------------------------------------------------------------------
// The command processor
// ------------------------------------------------------------------

/// Executes commands on a calculator and keeps them for undo and redo.
pub struct CommandProcessor {
    calculator: Calculator,
    undo_stack: Vec<Command>,
    redo_stack: Vec<Command>,
}

/// The model of a processor: its calculator, the executed commands (oldest
/// first) and the undone commands awaiting redo (most recently undone
/// last).
pub struct ProcessorView {
    pub calculator: CalculatorView,
    pub undo: Seq<CommandView>,
    pub redo: Seq<CommandView>,
}

pub open spec fn command_views(cs: Seq<Command>) -> Seq<CommandView> {
    cs.map_values(|c: Command| c@)
}

impl View for CommandProcessor {
    type V = ProcessorView;

    closed spec fn view(&self) -> ProcessorView {
        ProcessorView {
            calculator: self.calculator@,
            undo: command_views(self.undo_stack@),
            redo: command_views(self.redo_stack@),
        }
    }
}

/// The outcome of an evaluation as a model.
pub open spec fn evaluation_view(e: Result<String, String>) -> Result<Seq<char>, Seq<char>> {
    match e {
        Ok(v) => Ok(v@),
        Err(m) => Err(m@),
    }
}

/// Executing a new command: on success it joins the undo stack and the
/// redo stack is emptied; on failure nothing changes.
pub open spec fn processor_execute(
    p: ProcessorView,
    c: CommandView,
    evaluation: Result<Seq<char>, Seq<char>>,
) -> (ProcessorView, Result<Option<Seq<char>>, Seq<char>>) {
    let (c2, calc2, r) = execute_spec(c, p.calculator, evaluation);
    match r {
        Err(e) => (p, Err(e)),
        Ok(v) => (ProcessorView { calculator: calc2, undo: p.undo.push(c2), redo: seq![] }, Ok(v)),
    }
}

pub open spec fn nothing_to_undo_message() -> Seq<char> {
    "Nothing to undo"@
}

pub open spec fn nothing_to_redo_message() -> Seq<char> {
    "Nothing to redo"@
}

/// Undoing the most recent command: it moves to the redo stack; a command
/// whose undo fails is dropped.
pub open spec fn processor_undo(p: ProcessorView) -> (ProcessorView, Result<(), Seq<char>>) {
    if p.undo.len() == 0 {
        (p, Err(nothing_to_undo_message()))
    } else {
        let c = p.undo.last();
        let (calc2, r) = undo_spec(c, p.calculator);
        match r {
            Err(e) => (
                ProcessorView { calculator: calc2, undo: p.undo.drop_last(), redo: p.redo },
                Err(e),
            ),
            Ok(()) => (
                ProcessorView { calculator: calc2, undo: p.undo.drop_last(), redo: p.redo.push(c) },
                Ok(()),
            ),
        }
    }
}

/// Redoing the most recently undone command: it is executed again and
/// returns to the undo stack; a command whose execution fails is dropped.
pub open spec fn processor_redo(p: ProcessorView, evaluation: Result<Seq<char>, Seq<char>>) -> (
    ProcessorView,
    Result<(), Seq<char>>,
) {
    if p.redo.len() == 0 {
        (p, Err(nothing_to_redo_message()))
    } else {
        let (c2, calc2, r) = execute_spec(p.redo.last(), p.calculator, evaluation);
        match r {
            Err(e) => (
                ProcessorView { calculator: calc2, undo: p.undo, redo: p.redo.drop_last() },
                Err(e),
            ),
            Ok(_) => (
                ProcessorView { calculator: calc2, undo: p.undo.push(c2), redo: p.redo.drop_last() },
                Ok(()),
            ),
        }
    }
}

impl Default for CommandProcessor {
    /// A processor with a fresh calculator and no commands.
    fn default() -> (p: CommandProcessor)
        ensures
            p@ == (ProcessorView {
                calculator: CalculatorView {
                    variables: Map::empty(),
                    history: seq![],
                    last_result: None,
                },
                undo: seq![],
                redo: seq![],
            }),
    {
        let p = CommandProcessor {
            calculator: Calculator::default(),
            undo_stack: Vec::new(),
            redo_stack: Vec::new(),
        };
        assert(command_views(p.undo_stack@) =~= Seq::<CommandView>::empty());
        assert(command_views(p.redo_stack@) =~= Seq::<CommandView>::empty());
        p
    }
}

impl CommandProcessor {
    /// Executes a new command. `evaluation` is the outcome of evaluating the
    /// tree of an evaluate command on the calculator's variables; other
    /// commands do not look at it.
    pub fn execute(&mut self, command: Command, evaluation: Result<String, String>) -> (r: Result<
        Option<String>,
        String,
    >)
        requires
            evaluation matches Ok(v) ==> is_number_literal(v@),
        ensures
            ({
                let (p2, res) = processor_execute(old(self)@, command@, evaluation_view(evaluation));
                &&& final(self)@ == p2
                &&& match r {
                    Ok(Some(v)) => res == Ok::<Option<Seq<char>>, Seq<char>>(Some(v@)),
                    Ok(None) => res == Ok::<Option<Seq<char>>, Seq<char>>(None),
                    Err(e) => res == Err::<Option<Seq<char>>, Seq<char>>(e@),
                }
            }),
    {
        let ghost undo0 = command_views(self.undo_stack@);
        let (command, result) = command.execute(&mut self.calculator, evaluation);
        match result {
            Err(e) => Err(e),
            Ok(v) => {
                self.undo_stack.push(command);
                self.redo_stack.clear();
                proof {
                    assert(command_views(self.undo_stack@) =~= undo0.push(command@));
                    assert(command_views(self.redo_stack@) =~= Seq::<CommandView>::empty());
                }
                Ok(v)
            },
        }
    }

    /// Undoes the most recent command, or fails with `Nothing to undo`.
    pub fn undo(&mut self) -> (r: Result<(), String>)
        ensures
            ({
                let (p2, res) = processor_undo(old(self)@);
                &&& final(self)@ == p2
                &&& match r {
                    Ok(()) => res == Ok::<(), Seq<char>>(()),
                    Err(e) => res == Err::<(), Seq<char>>(e@),
                }
            }),
    {
        let ghost undo0 = command_views(self.undo_stack@);
        let ghost redo0 = command_views(self.redo_stack@);
        match self.undo_stack.pop() {
            None => Err(String::from_str("Nothing to undo")),
            Some(command) => {
                proof {
                    assert(command_views(self.undo_stack@) =~= undo0.drop_last());
                }
                command.undo(&mut self.calculator)?;
                self.redo_stack.push(command);
                proof {
                    assert(command_views(self.redo_stack@) =~= redo0.push(command@));
                }
                Ok(())
            },
        }
    }

    /// Executes the most recently undone command again, or fails with
    /// `Nothing to redo`. `evaluation` is as for [`CommandProcessor::execute`],
    /// for that command (see [`CommandProcessor::next_redo`]).
    pub fn redo(&mut self, evaluation: Result<String, String>) -> (r: Result<(), String>)
        requires
            evaluation matches Ok(v) ==> is_number_literal(v@),
        ensures
            ({
                let (p2, res) = processor_redo(old(self)@, evaluation_view(evaluation));
                &&& final(self)@ == p2
                &&& match r {
                    Ok(()) => res == Ok::<(), Seq<char>>(()),
                    Err(e) => res == Err::<(), Seq<char>>(e@),
                }
            }),
    {
        let ghost undo0 = command_views(self.undo_stack@);
        let ghost redo0 = command_views(self.redo_stack@);
        match self.redo_stack.pop() {
            None => Err(String::from_str("Nothing to redo")),
            Some(command) => {
                proof {
                    assert(command_views(self.redo_stack@) =~= redo0.drop_last());
                }
                let (command, result) = command.execute(&mut self.calculator, evaluation);
                match result {
                    Err(e) => Err(e),
                    Ok(_) => {
                        self.undo_stack.push(command);
                        proof {
                            assert(command_views(self.undo_stack@) =~= undo0.push(command@));
                        }
                        Ok(())
                    },
                }
            },
        }
    }

    /// The command that `redo` would execute next, if any.
    pub fn next_redo(&self) -> (c: Option<&Command>)
        ensures
            match c {
                Some(c) => self@.redo.len() > 0 && c@ == self@.redo.last(),
                None => self@.redo.len() == 0,
            },
    {
        let n = self.redo_stack.len();
        if n == 0 {
            None
        } else {
            Some(&self.redo_stack[n - 1])
        }
    }

    /// The descriptions of the executed commands, oldest first.
    pub fn history(&self) -> (h: Vec<String>)
        ensures
            h@.map_values(|s: String| s@) == self@.undo.map_values(
                |c: CommandView| description_spec(c),
            ),
    {
        let mut h: Vec<String> = Vec::new();
        let mut i: usize = 0;
        while i < self.undo_stack.len()
            invariant
                0 <= i <= self.undo_stack.len(),
                h@.len() == i,
                forall|j: int| 0 <= j < i ==> #[trigger] h@[j]@ == description_spec(self.undo_stack@[j]@),
            decreases self.undo_stack.len() - i,
        {
            let d = self.undo_stack[i].description();
            h.push(d);
            i = i + 1;
        }
        assert(h@.map_values(|s: String| s@) =~= self@.undo.map_values(
            |c: CommandView| description_spec(c),
        ));
        h
    }

    pub fn get_calculator(&self) -> (c: &Calculator)
        ensures
            c@ == self@.calculator,
    {
        &self.calculator
    }

    pub fn get_calculator_mut(&mut self) -> (c: &mut Calculator)
        ensures
            c@ == old(self)@.calculator,
            final(self)@ == (ProcessorView { calculator: final(c)@, ..old(self)@ }),
    {
        &mut self.calculator
    }
}

} // verus!

verus! {

// ------------------------------------------------------------------
// Laws of undo and redo
// ------------------------------------------------------------------

/// Undo takes back what a successful execute did: the calculator returns to
/// its state before the command, the undo stack to what it was, and the
/// command waits alone on the redo stack.
pub proof fn law_undo_after_execute(
    p: ProcessorView,
    c: CommandView,
    evaluation: Result<Seq<char>, Seq<char>>,
)
    requires
        processor_execute(p, c, evaluation).1 is Ok,
    ensures
        ({
            let p1 = processor_execute(p, c, evaluation).0;
            let (p2, r) = processor_undo(p1);
            &&& r == Ok::<(), Seq<char>>(())
            &&& p2.calculator == p.calculator
            &&& p2.undo == p.undo
            &&& p2.redo == seq![p1.undo.last()]
        }),
{
    let p1 = processor_execute(p, c, evaluation).0;
    let (p2, r) = processor_undo(p1);
    assert(p1.undo.drop_last() =~= p.undo);
    assert(Seq::<CommandView>::empty().push(p1.undo.last()) =~= seq![p1.undo.last()]);
    match c {
        CommandView::Evaluate { .. } => {
            assert(p1.calculator.history.drop_last() =~= p.calculator.history);
        },
        CommandView::SetVariable { name, value, .. } => {
            let m = p.calculator.variables;
            if m.contains_key(name) {
                assert(m.insert(name, value).insert(name, m[name]) =~= m);
            } else {
                assert(m.insert(name, value).remove(name) =~= m);
            }
        },
        CommandView::ClearVariables { .. } => {},
    }
}

/// Redo after undo restores the state right after the execute, provided the
/// evaluation comes out the same (it is made on the same variables).
pub proof fn law_redo_after_undo(
    p: ProcessorView,
    c: CommandView,
    evaluation: Result<Seq<char>, Seq<char>>,
)
    requires
        processor_execute(p, c, evaluation).1 is Ok,
    ensures
        ({
            let p1 = processor_execute(p, c, evaluation).0;
            let p2 = processor_undo(p1).0;
            processor_redo(p2, evaluation) == (p1, Ok::<(), Seq<char>>(()))
        }),
{
    law_undo_after_execute(p, c, evaluation);
    let p1 = processor_execute(p, c, evaluation).0;
    let p2 = processor_undo(p1).0;
    let p3 = processor_redo(p2, evaluation).0;
    assert(p2.redo.last() == p1.undo.last());
    assert(p2.redo.drop_last() =~= Seq::<CommandView>::empty());
    assert(p2.undo.push(p1.undo.last()) =~= p1.undo);
    assert(p3.redo =~= p1.redo);
}

/// A successful execute leaves nothing to redo.
pub proof fn law_execute_clears_redo(
    p: ProcessorView,
    c: CommandView,
    evaluation: Result<Seq<char>, Seq<char>>,
)
    requires
        processor_execute(p, c, evaluation).1 is Ok,
    ensures
        processor_execute(p, c, evaluation).0.redo.len() == 0,
        processor_redo(processor_execute(p, c, evaluation).0, evaluation).1 == Err::<
            (),
            Seq<char>,
        >(nothing_to_redo_message()),
{
}

/// With nothing executed, undo fails with `Nothing to undo`; with nothing
/// undone, redo fails with `Nothing to redo`; neither changes anything.
pub proof fn law_nothing_to_undo_or_redo(p: ProcessorView, evaluation: Result<Seq<char>, Seq<char>>)
    ensures
        p.undo.len() == 0 ==> processor_undo(p) == (p, Err::<(), Seq<char>>(nothing_to_undo_message())),
        p.redo.len() == 0 ==> processor_redo(p, evaluation) == (p, Err::<(), Seq<char>>(
            nothing_to_redo_message(),
        )),
{
}

/// A variable reads back the value it was last set to, and reads as unset
/// once cleared.
pub proof fn law_calculator_variables(calc: CalculatorView, name: Seq<char>, value: Seq<char>)
    ensures
        map_get(calc.variables.insert(name, value), name) == Some(value),
        map_get(calc.variables.remove(name), name) is None,
{
}

} // verus!

verus! {

/// A failed execute changes nothing: the calculator, the executed commands
/// and the undone commands awaiting redo all stay as they were.
pub proof fn law_failed_execute_changes_nothing(
    p: ProcessorView,
    c: CommandView,
    evaluation: Result<Seq<char>, Seq<char>>,
)
    ensures
        processor_execute(p, c, evaluation).1 is Err ==> processor_execute(p, c, evaluation).0
            == p,
{
}

/// A failed redo leaves the calculator and the executed commands as they
/// were and drops the command it tried.
pub proof fn law_failed_redo_drops_command(p: ProcessorView, evaluation: Result<Seq<char>, Seq<char>>)
    requires
        p.redo.len() > 0,
    ensures
        processor_redo(p, evaluation).1 is Err ==> {
            let q = processor_redo(p, evaluation).0;
            &&& q.calculator == p.calculator
            &&& q.undo == p.undo
            &&& q.redo == p.redo.drop_last()
        },
{
    let c = p.redo.last();
    match c {
        CommandView::Evaluate { .. } => {},
        _ => {},
    }
}

} // verus!
