use vstd::prelude::*;
use vstd::string::StringExecFns;
use crate::config::AngleMode;
use crate::expression::{ExprView, Expression};
use crate::parser::{ExpressionParser, parse_spec};
use crate::variables::VariableMap;
use crate::token::is_number_literal;

verus! {

// ------------------------------------------------------------------
// Events and display requests
// ------------------------------------------------------------------

/// Events that components announce to the mediator. Numbers are numerals.
pub enum CalculatorEvent {
    ResultComputed(String),
    VariableChanged(String, String),
    ModeChanged(String),
    DisplayUpdate(String),
    ErrorOccurred(String),
}

/// What the mediator asks the registered display to show.
#[derive(Debug, PartialEq, Eq)]
pub enum DisplayAction {
    ShowResult(String),
    ShowMessage(String),
    ShowError(String),
}

/// The model of a display request.
pub enum DisplayActionView {
    ShowResult(Seq<char>),
    ShowMessage(Seq<char>),
    ShowError(Seq<char>),
}

impl View for DisplayAction {
    type V = DisplayActionView;

    open spec fn view(&self) -> DisplayActionView {
        match self {
            DisplayAction::ShowResult(s) => DisplayActionView::ShowResult(s@),
            DisplayAction::ShowMessage(s) => DisplayActionView::ShowMessage(s@),
            DisplayAction::ShowError(s) => DisplayActionView::ShowError(s@),
        }
    }
}

/// The model of an event.
pub enum EventView {
    ResultComputed(Seq<char>),
    VariableChanged(Seq<char>, Seq<char>),
    ModeChanged(Seq<char>),
    DisplayUpdate(Seq<char>),
    ErrorOccurred(Seq<char>),
}

impl View for CalculatorEvent {
    type V = EventView;

    open spec fn view(&self) -> EventView {
        match self {
            CalculatorEvent::ResultComputed(s) => EventView::ResultComputed(s@),
            CalculatorEvent::VariableChanged(n, v) => EventView::VariableChanged(n@, v@),
            CalculatorEvent::ModeChanged(s) => EventView::ModeChanged(s@),
            CalculatorEvent::DisplayUpdate(s) => EventView::DisplayUpdate(s@),
            CalculatorEvent::ErrorOccurred(s) => EventView::ErrorOccurred(s@),
        }
    }
}

/// The display request for an event: a result is shown as a result,
/// variable and mode changes and updates as messages, errors as errors.
pub open spec fn event_display(e: EventView) -> DisplayActionView {
    match e {
        EventView::ResultComputed(r) => DisplayActionView::ShowResult(r),
        EventView::VariableChanged(n, v) => DisplayActionView::ShowMessage(
            "Variable "@ + n + " set to "@ + v,
        ),
        EventView::ModeChanged(m) => DisplayActionView::ShowMessage("Mode changed to "@ + m),
        EventView::DisplayUpdate(m) => DisplayActionView::ShowMessage(m),
        EventView::ErrorOccurred(e) => DisplayActionView::ShowError(e),
    }
}

pub open spec fn opt_action_view(a: Option<DisplayAction>) -> Option<DisplayActionView> {
    match a {
        Some(a) => Some(a@),
        None => None,
    }
}

// ------------------------------------------------------------------
// Components
// ------------------------------------------------------------------

/// Turns expressions into trees; the arithmetic on them is done by the
/// caller.
pub struct EvaluationComponent {
    parser: ExpressionParser,
}

impl EvaluationComponent {
    pub fn new() -> (c: EvaluationComponent) {
        EvaluationComponent { parser: ExpressionParser::new() }
    }

    /// The tree of an expression: the step of an evaluation before the
    /// arithmetic.
    pub fn parse(&self, expression: &str) -> (r: Result<Expression, String>)
        ensures
            match r {
                Ok(e) => parse_spec(expression@) == Ok::<ExprView, Seq<char>>(e@),
                Err(m) => parse_spec(expression@) == Err::<ExprView, Seq<char>>(m@),
            },
    {
        self.parser.parse(expression)
    }
}

/// Holds the variables.
pub struct VariableStorage {
    variables: VariableMap,
}

impl View for VariableStorage {
    type V = Map<Seq<char>, Seq<char>>;

    closed spec fn view(&self) -> Map<Seq<char>, Seq<char>> {
        self.variables@
    }
}

impl VariableStorage {
    pub fn new() -> (s: VariableStorage)
        ensures
            s@ == Map::<Seq<char>, Seq<char>>::empty(),
    {
        VariableStorage { variables: VariableMap::new() }
    }

    /// Sets `name` to the number whose numeral is `value`.
    pub fn set_variable(&mut self, name: &str, value: String)
        requires
            is_number_literal(value@),
        ensures
            final(self)@ == old(self)@.insert(name@, value@),
    {
        self.variables.insert(name, value);
    }

    pub fn get_variable(&self, name: &str) -> (r: Option<String>)
        ensures
            match r {
                Some(v) => self@.contains_key(name@) && v@ == self@[name@] && is_number_literal(
                    v@,
                ),
                None => !self@.contains_key(name@),
            },
    {
        self.variables.get(name)
    }

    /// A copy of all variables.
    pub fn get_all_variables(&self) -> (m: VariableMap)
        ensures
            m@ == self@,
    {
        self.variables.duplicate()
    }

    pub fn clear(&mut self)
        ensures
            final(self)@ == Map::<Seq<char>, Seq<char>>::empty(),
    {
        self.variables.clear();
    }
}

/// The console display component; what it prints is up to the program that
/// owns it.
pub struct ConsoleDisplay;

impl ConsoleDisplay {
    pub fn new() -> (d: ConsoleDisplay) {
        ConsoleDisplay
    }
}

} // verus!

verus! {

// ------------------------------------------------------------------
// The mediator
// ------------------------------------------------------------------

/// Coordinates the components. The display is owned by the program that
/// runs the mediator: the mediator records whether one is registered and
/// returns, from each operation, what that display is to show.
pub struct CalculatorMediatorImpl {
    evaluator: Option<EvaluationComponent>,
    variables: Option<VariableStorage>,
    display: bool,
    last_result: Option<String>,
    angle_mode: AngleMode,
}

impl CalculatorMediatorImpl {
    /// The last result is a numeral.
    #[verifier::type_invariant]
    closed spec fn result_is_numeral(self) -> bool {
        self.last_result matches Some(r) ==> is_number_literal(r@)
    }
}

/// The model of a mediator: which components are registered, the stored
/// variables (if a storage is registered), the last result and the angle
/// mode.
pub struct MediatorView {
    pub has_evaluator: bool,
    pub variables: Option<Map<Seq<char>, Seq<char>>>,
    pub has_display: bool,
    pub last_result: Option<Seq<char>>,
    pub angle_mode: AngleMode,
}

impl View for CalculatorMediatorImpl {
    type V = MediatorView;

    closed spec fn view(&self) -> MediatorView {
        MediatorView {
            has_evaluator: self.evaluator is Some,
            variables: match self.variables {
                Some(v) => Some(v@),
                None => None,
            },
            has_display: self.display,
            last_result: match self.last_result {
                Some(r) => Some(r@),
                None => None,
            },
            angle_mode: self.angle_mode,
        }
    }
}

/// All variables as the mediator sees them: none without a storage.
pub open spec fn all_variables(m: MediatorView) -> Map<Seq<char>, Seq<char>> {
    match m.variables {
        Some(v) => v,
        None => Map::empty(),
    }
}

/// The mediator after an event, and what the display is to show: a
/// computed result becomes the last result; every event is shown when a
/// display is registered.
pub open spec fn notify_spec(m: MediatorView, e: EventView) -> (MediatorView, Option<
    DisplayActionView,
>) {
    let m2 = match e {
        EventView::ResultComputed(r) => MediatorView { last_result: Some(r), ..m },
        _ => m,
    };
    (m2, if m.has_display {
        Some(event_display(e))
    } else {
        None
    })
}

pub open spec fn evaluator_missing_message() -> Seq<char> {
    "Evaluator not initialized"@
}

/// The name of an angle mode.
pub open spec fn angle_mode_name(mode: AngleMode) -> Seq<char> {
    match mode {
        AngleMode::Degrees => "Degrees"@,
        AngleMode::Radians => "Radians"@,
    }
}

impl CalculatorMediatorImpl {
    /// A mediator with no components, no result, in radians.
    pub fn new() -> (m: CalculatorMediatorImpl)
        ensures
            m@ == (MediatorView {
                has_evaluator: false,
                variables: None,
                has_display: false,
                last_result: None,
                angle_mode: AngleMode::Radians,
            }),
    {
        CalculatorMediatorImpl {
            evaluator: None,
            variables: None,
            display: false,
            last_result: None,
            angle_mode: AngleMode::Radians,
        }
    }

    pub fn set_evaluator(&mut self, evaluator: EvaluationComponent)
        ensures
            final(self)@ == (MediatorView { has_evaluator: true, ..old(self)@ }),
    {
        proof {
            use_type_invariant(&*self);
        }
        self.evaluator = Some(evaluator);
    }

    pub fn set_variables(&mut self, variables: VariableStorage)
        ensures
            final(self)@ == (MediatorView { variables: Some(variables@), ..old(self)@ }),
    {
        proof {
            use_type_invariant(&*self);
        }
        self.variables = Some(variables);
    }

    /// Registers a display: from now on events are shown.
    pub fn set_display(&mut self)
        ensures
            final(self)@ == (MediatorView { has_display: true, ..old(self)@ }),
    {
        proof {
            use_type_invariant(&*self);
        }
        self.display = true;
    }

    /// Receives an event from a component.
    pub fn notify(&mut self, sender: &str, event: CalculatorEvent) -> (a: Option<DisplayAction>)
        requires
            event@ matches EventView::ResultComputed(r) ==> is_number_literal(r),
        ensures
            (final(self)@, opt_action_view(a)) == notify_spec(old(self)@, event@),
    {
        let _ = sender;
        let show = self.display;
        match event {
            CalculatorEvent::ResultComputed(result) => {
                self.last_result = Some(result.clone());
                if show {
                    Some(DisplayAction::ShowResult(result))
                } else {
                    None
                }
            },
            CalculatorEvent::VariableChanged(name, value) => {
                if show {
                    let mut s = String::from_str("Variable ");
                    s.append(name.as_str());
                    s.append(" set to ");
                    s.append(value.as_str());
                    Some(DisplayAction::ShowMessage(s))
                } else {
                    None
                }
            },
            CalculatorEvent::ModeChanged(mode) => {
                if show {
                    let mut s = String::from_str("Mode changed to ");
                    s.append(mode.as_str());
                    Some(DisplayAction::ShowMessage(s))
                } else {
                    None
                }
            },
            CalculatorEvent::DisplayUpdate(message) => {
                if show {
                    Some(DisplayAction::ShowMessage(message))
                } else {
                    None
                }
            },
            CalculatorEvent::ErrorOccurred(error) => {
                if show {
                    Some(DisplayAction::ShowError(error))
                } else {
                    None
                }
            },
        }
    }

    pub fn get_result(&self) -> (r: Option<String>)
        ensures
            match r {
                Some(v) => self@.last_result == Some(v@) && is_number_literal(v@),
                None => self@.last_result is None,
            },
    {
        proof {
            use_type_invariant(self);
        }
        match &self.last_result {
            Some(v) => Some(v.clone()),
            None => None,
        }
    }

    /// The value of a variable; none without a storage.
    pub fn get_variable(&self, name: &str) -> (r: Option<String>)
        ensures
            match r {
                Some(v) => all_variables(self@).contains_key(name@) && v@ == all_variables(
                    self@,
                )[name@] && is_number_literal(v@),
                None => !all_variables(self@).contains_key(name@),
            },
    {
        match &self.variables {
            Some(variables) => variables.get_variable(name),
            None => None,
        }
    }

    /// A copy of all variables; empty without a storage.
    pub fn get_all_variables(&self) -> (m: VariableMap)
        ensures
            m@ == all_variables(self@),
    {
        match &self.variables {
            Some(variables) => variables.get_all_variables(),
            None => VariableMap::new(),
        }
    }

    /// Stores a variable (when a storage is registered) and announces the
    /// change. `value` is the numeral of the number.
    pub fn set_variable(&mut self, name: &str, value: String) -> (a: Option<DisplayAction>)
        requires
            is_number_literal(value@),
        ensures
            ({
                let m1 = MediatorView {
                    variables: match old(self)@.variables {
                        Some(v) => Some(v.insert(name@, value@)),
                        None => None,
                    },
                    ..old(self)@
                };
                (final(self)@, opt_action_view(a)) == notify_spec(
                    m1,
                    EventView::VariableChanged(name@, value@),
                )
            }),
    {
        proof {
            use_type_invariant(&*self);
        }
        let v2 = value.clone();
        let mut storage: Option<VariableStorage> = None;
        core::mem::swap(&mut storage, &mut self.variables);
        match storage {
            Some(mut variables) => {
                variables.set_variable(name, value);
                self.variables = Some(variables);
            },
            None => {},
        }
        self.notify("variables", CalculatorEvent::VariableChanged(String::from_str(name), v2))
    }

    /// The first half of an evaluation: the tree of the expression and the
    /// variables to evaluate it with, or `Evaluator not initialized` when no
    /// evaluator is registered, or the parser's error.
    pub fn begin_evaluation(&self, expression: &str) -> (r: Result<(Expression, VariableMap), String>)
        ensures
            match r {
                Ok((e, vars)) => self@.has_evaluator && parse_spec(expression@) == Ok::<
                    ExprView,
                    Seq<char>,
                >(e@) && vars@ == all_variables(self@),
                Err(m) => if self@.has_evaluator {
                    parse_spec(expression@) == Err::<ExprView, Seq<char>>(m@)
                } else {
                    m@ == evaluator_missing_message()
                },
            },
    {
        match &self.evaluator {
            None => Err(String::from_str("Evaluator not initialized")),
            Some(evaluator) => {
                let variables = self.get_all_variables();
                let tree = evaluator.parse(expression)?;
                Ok((tree, variables))
            },
        }
    }

    /// The second half of an evaluation: a computed result is announced and
    /// returned; an error is returned as it is.
    pub fn finish_evaluation(&mut self, outcome: Result<String, String>) -> (r: (
        Result<String, String>,
        Option<DisplayAction>,
    ))
        requires
            outcome matches Ok(v) ==> is_number_literal(v@),
        ensures
            match outcome {
                Ok(v) => (r.0 matches Ok(w) && w@ == v@) && (final(self)@, opt_action_view(r.1))
                    == notify_spec(old(self)@, EventView::ResultComputed(v@)),
                Err(e) => (r.0 matches Err(f) && f@ == e@) && r.1 is None && final(self)@ == old(
                    self,
                )@,
            },
    {
        match outcome {
            Err(e) => (Err(e), None),
            Ok(v) => {
                let action = self.notify("evaluator", CalculatorEvent::ResultComputed(v.clone()));
                (Ok(v), action)
            },
        }
    }

    /// Switches the angle mode and announces it.
    pub fn change_angle_mode(&mut self, mode: AngleMode) -> (a: Option<DisplayAction>)
        ensures
            (final(self)@, opt_action_view(a)) == notify_spec(
                MediatorView { angle_mode: mode, ..old(self)@ },
                EventView::ModeChanged(angle_mode_name(mode)),
            ),
    {
        proof {
            use_type_invariant(&*self);
        }
        self.angle_mode = mode;
        let name = match mode {
            AngleMode::Degrees => String::from_str("Degrees"),
            AngleMode::Radians => String::from_str("Radians"),
        };
        self.notify("mediator", CalculatorEvent::ModeChanged(name))
    }

    /// The angle mode.
    pub fn angle_mode(&self) -> (m: AngleMode)
        ensures
            m == self@.angle_mode,
    {
        self.angle_mode
    }
}

/// A mediator with an evaluator, an empty variable storage and a display
/// registered.
pub fn create_mediator_system() -> (m: CalculatorMediatorImpl)
    ensures
        m@ == (MediatorView {
            has_evaluator: true,
            variables: Some(Map::empty()),
            has_display: true,
            last_result: None,
            angle_mode: AngleMode::Radians,
        }),
{
    let mut mediator = CalculatorMediatorImpl::new();
    mediator.set_evaluator(EvaluationComponent::new());
    mediator.set_variables(VariableStorage::new());
    mediator.set_display();
    mediator
}

} // verus!

verus! {

// ------------------------------------------------------------------
// Laws of the mediator
// ------------------------------------------------------------------

/// Events never touch the variables or the angle mode, only a computed
/// result changes the last result, and a display is asked to show every
/// event exactly when one is registered.
pub proof fn law_notify_effects(m: MediatorView, e: EventView)
    ensures
        notify_spec(m, e).0.variables == m.variables,
        notify_spec(m, e).0.angle_mode == m.angle_mode,
        notify_spec(m, e).0.last_result == match e {
            EventView::ResultComputed(r) => Some(r),
            _ => m.last_result,
        },
        notify_spec(m, e).1 is Some <==> m.has_display,
{
}

/// With a storage registered, a variable that the mediator sets reads back
/// as the value set, and the other variables are unchanged.
pub proof fn law_mediator_set_then_get(m: MediatorView, name: Seq<char>, value: Seq<char>)
    requires
        m.variables is Some,
    ensures
        ({
            let m1 = MediatorView {
                variables: match m.variables {
                    Some(v) => Some(v.insert(name, value)),
                    None => None,
                },
                ..m
            };
            let m2 = notify_spec(m1, EventView::VariableChanged(name, value)).0;
            &&& all_variables(m2).contains_key(name)
            &&& all_variables(m2)[name] == value
            &&& forall|k: Seq<char>|
                k != name ==> (#[trigger] all_variables(m2).contains_key(k)
                    == all_variables(m).contains_key(k) && (all_variables(m).contains_key(k)
                    ==> all_variables(m2)[k] == all_variables(m)[k]))
        }),
{
}

/// After an evaluation that computed `v`, the mediator's result is `v`.
pub proof fn law_result_after_evaluation(m: MediatorView, v: Seq<char>)
    ensures
        notify_spec(m, EventView::ResultComputed(v)).0.last_result == Some(v),
{
}

} // verus!

verus! {

/// Each event is shown by its own kind of display request when a display is
/// registered: a computed result as a result, an error as an error, and a
/// variable change, a mode change or a display update as a message with its
/// text; with no display nothing is shown.
pub proof fn law_events_shown_by_kind(
    m: MediatorView,
    r: Seq<char>,
    name: Seq<char>,
    value: Seq<char>,
    mode: Seq<char>,
    text: Seq<char>,
    error: Seq<char>,
)
    ensures
        m.has_display ==> notify_spec(m, EventView::ResultComputed(r)).1 == Some(
            DisplayActionView::ShowResult(r),
        ),
        m.has_display ==> notify_spec(m, EventView::ErrorOccurred(error)).1 == Some(
            DisplayActionView::ShowError(error),
        ),
        m.has_display ==> notify_spec(m, EventView::DisplayUpdate(text)).1 == Some(
            DisplayActionView::ShowMessage(text),
        ),
        m.has_display ==> notify_spec(m, EventView::VariableChanged(name, value)).1 == Some(
            DisplayActionView::ShowMessage("Variable "@ + name + " set to "@ + value),
        ),
        m.has_display ==> notify_spec(m, EventView::ModeChanged(mode)).1 == Some(
            DisplayActionView::ShowMessage("Mode changed to "@ + mode),
        ),
        !m.has_display ==> notify_spec(m, EventView::ErrorOccurred(error)).1 is None,
        !m.has_display ==> notify_spec(m, EventView::ResultComputed(r)).1 is None,
{
}

} // verus!
