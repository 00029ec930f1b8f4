//! The outcome of a match: success with a position and a value, or failure
//! with a position.

use vstd::prelude::*;

verus! {

/// The value of a successful match.
#[derive(Debug, PartialEq, Eq)]
pub enum Value {
    /// No value: what the primitives, the assertions and the repetitions
    /// whose values are not used give.
    Unit,
    /// The value of an optional expression that did not match.
    Absent,
    /// The value of an optional expression that matched.
    Present(Box<Value>),
    /// The values of the rounds of a repetition, in order.
    List(Vec<Value>),
    /// The value of an action: the action's code, which the target language
    /// evaluates, with the named values and the matched text it can refer to.
    Action(String, Vec<Binding>, Vec<char>),
}

/// A value bound to a name.
#[derive(Debug, PartialEq, Eq)]
pub struct Binding {
    pub name: String,
    pub value: Value,
}

/// The outcome of matching an expression at a position.
#[derive(Debug, PartialEq, Eq)]
pub enum Outcome {
    /// The match succeeded: the position after it, and its value.
    Success(usize, Value),
    /// The match failed: the position at which the failing match was tried.
    Failure(usize),
}

/// Why a match has no outcome.
#[derive(Clone, Copy, Debug, PartialEq, Eq)]
pub enum MatchError {
    /// A rule was called that the grammar does not define.
    UndefinedRule,
    /// The rule has no entry function: it is not exported.
    NotExported,
    /// An expression holds a construct that has no compilation rule.
    NotImplemented,
    /// Rule calls were nested deeper than the given bound.
    DepthExceeded,
    /// A round of a repetition succeeded without moving forward, so the
    /// repetition never ends.
    NoProgress,
}

/// The mathematical value of a `Value`.
pub enum ValueView {
    Unit,
    Absent,
    Present(Box<ValueView>),
    List(Seq<ValueView>),
    Action(Seq<char>, Seq<BindingView>, Seq<char>),
}

/// The mathematical value of a `Binding`.
pub struct BindingView {
    pub name: Seq<char>,
    pub value: ValueView,
}

/// The mathematical value of an `Outcome`.
pub enum OutcomeView {
    Success(nat, ValueView),
    Failure(nat),
}

/// The views of a list of values, in order.
pub open spec fn value_views(values: Seq<Value>) -> Seq<ValueView>
    decreases values,
{
    Seq::new(
        values.len(),
        |i: int|
            if 0 <= i < values.len() {
                values[i].view()
            } else {
                arbitrary()
            },
    )
}

/// The views of a list of bindings, in order.
pub open spec fn binding_views(bindings: Seq<Binding>) -> Seq<BindingView>
    decreases bindings,
{
    Seq::new(
        bindings.len(),
        |i: int|
            if 0 <= i < bindings.len() {
                bindings[i].view()
            } else {
                arbitrary()
            },
    )
}

impl View for Value {
    type V = ValueView;

    open spec fn view(&self) -> ValueView
        decreases self,
    {
        match self {
            Value::Unit => ValueView::Unit,
            Value::Absent => ValueView::Absent,
            Value::Present(inner) => ValueView::Present(Box::new((**inner).view())),
            Value::List(values) => ValueView::List(value_views(values@)),
            Value::Action(code, bindings, text) => ValueView::Action(
                code@,
                binding_views(bindings@),
                text@,
            ),
        }
    }
}

impl View for Binding {
    type V = BindingView;

    open spec fn view(&self) -> BindingView
        decreases self,
    {
        BindingView { name: self.name@, value: self.value.view() }
    }
}

impl View for Outcome {
    type V = OutcomeView;

    open spec fn view(&self) -> OutcomeView {
        match self {
            Outcome::Success(pos, value) => OutcomeView::Success(*pos as nat, value@),
            Outcome::Failure(pos) => OutcomeView::Failure(*pos as nat),
        }
    }
}

/// The view of a match's result.
pub open spec fn result_view(out: Result<Outcome, MatchError>) -> Result<OutcomeView, MatchError> {
    match out {
        Ok(outcome) => Ok(outcome@),
        Err(error) => Err(error),
    }
}

} // verus!
