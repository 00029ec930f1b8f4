//! What a program of the target language computes.
//!
//! A block runs in an environment of variables. A variable bound in a block
//! is gone when the block is left; an assignment reaches the variable where
//! it was bound. Loops and calls use up fuel, so that every run ends: a run
//! that would not end runs out of fuel, however much it is given.
//!
//! Positions count characters, as in the matcher: `pos + ch.len_utf8()` is
//! the position after the character at `pos`. The three functions that the
//! emitted code calls do what `runtime` says of them, and the code of an
//! action gives the action's value: the code with the values bound to names
//! since the action started, and the text matched.

use vstd::prelude::*;
use crate::matcher::in_ranges;
use crate::runtime::{any_char_outcome, line_of, slice_eq_outcome};
use crate::text::decimal;
use crate::target::{Arm, Body, Pattern, Term, Var};
use crate::value::{BindingView, OutcomeView, ValueView};

verus! {

/// What a variable holds, or a block has as its value.
pub enum Val {
    /// A position of the input.
    Pos(nat),
    /// The value of a match.
    Value(ValueView),
    /// The outcome of a match.
    Outcome(OutcomeView),
    /// A character.
    Char(char),
    /// A part of the input.
    Text(Seq<char>),
    /// What an entry function gives: a value, or a message.
    Answer(Result<ValueView, Seq<char>>),
}

/// A variable's value, and the depth of the block that bound it.
pub struct Slot {
    pub val: Val,
    pub level: nat,
}

/// The variables in scope, and the values that the action under way has bound
/// to names so far.
pub struct Env {
    pub vars: Map<Var, Slot>,
    pub captured: Seq<BindingView>,
}

/// How the run of a block ended.
pub enum Flow {
    /// With the value of the block.
    Value(Val),
    /// At the end of a block that has no value.
    End,
    /// With `break`.
    Break,
    /// Not at all: the code has no meaning here. A variable is not bound or
    /// holds a value of another kind, a function is not defined, an index is
    /// out of range.
    Stuck,
    /// The fuel did not suffice.
    OutOfFuel,
}

impl Env {
    /// The position that a variable holds.
    pub open spec fn pos(self, v: Var) -> Option<nat> {
        if self.vars.dom().contains(v) {
            match self.vars[v].val {
                Val::Pos(p) => Some(p),
                _ => None,
            }
        } else {
            None
        }
    }

    /// The value that a variable holds.
    pub open spec fn value(self, v: Var) -> Option<ValueView> {
        if self.vars.dom().contains(v) {
            match self.vars[v].val {
                Val::Value(x) => Some(x),
                _ => None,
            }
        } else {
            None
        }
    }

    /// The environment with `v` bound to `val` in a block of depth `level`.
    pub open spec fn bind(self, v: Var, val: Val, level: nat) -> Env {
        Env { vars: self.vars.insert(v, Slot { val, level }), captured: self.captured }
    }

    /// The environment with `val` assigned to `v`, where `v` is bound.
    pub open spec fn assign(self, v: Var, val: Val) -> Env {
        Env {
            vars: self.vars.insert(v, Slot { val, level: self.vars[v].level }),
            captured: self.captured,
        }
    }
}

/// The environment of a block after an inner block of depth `level` is left,
/// where `inner` is the inner block's environment at its end: what the inner
/// block bound is gone, what it assigned to variables bound outside stays.
/// (This takes a block not to bind anew a variable that it has assigned to,
/// as none of the emitted code does.)
pub open spec fn leave(outer: Env, inner: Env, level: nat) -> Env {
    Env {
        vars: Map::new(
            |v: Var| outer.vars.dom().contains(v),
            |v: Var|
                if inner.vars.dom().contains(v) && inner.vars[v].level < level {
                    inner.vars[v]
                } else {
                    outer.vars[v]
                },
        ),
        captured: outer.captured,
    }
}

/// The environment at the start of a function called at `pos`.
pub open spec fn entry(pos: nat) -> Env {
    Env {
        vars: Map::empty().insert(Var::Pos, Slot { val: Val::Pos(pos), level: 0 }),
        captured: Seq::empty(),
    }
}

/// The value of a term that is no call.
pub open spec fn eval(t: Term, env: Env, input: Seq<char>) -> Option<Val> {
    match t {
        Term::Var(v) => if env.vars.dom().contains(v) {
            Some(env.vars[v].val)
        } else {
            None
        },
        Term::AnyChar => match env.pos(Var::Pos) {
            Some(p) => Some(Val::Outcome(any_char_outcome(input, p))),
            None => None,
        },
        Term::SliceEq(text) => match env.pos(Var::Pos) {
            Some(p) => Some(Val::Outcome(slice_eq_outcome(input, p, text))),
            None => None,
        },
        Term::Call(_) => None,
        Term::Failure => match env.pos(Var::Pos) {
            Some(p) => Some(Val::Outcome(OutcomeView::Failure(p))),
            None => None,
        },
        Term::Success => match env.pos(Var::Pos) {
            Some(p) => Some(Val::Outcome(OutcomeView::Success(p, ValueView::Unit))),
            None => None,
        },
        Term::SuccessNext => match env.pos(Var::Next) {
            Some(p) => Some(Val::Outcome(OutcomeView::Success(p, ValueView::Unit))),
            None => None,
        },
        Term::SuccessValue => match (env.pos(Var::Pos), env.value(Var::Value)) {
            (Some(p), Some(x)) => Some(Val::Outcome(OutcomeView::Success(p, x))),
            _ => None,
        },
        Term::SuccessPresent => match (env.pos(Var::Newpos), env.value(Var::Value)) {
            (Some(p), Some(x)) => Some(
                Val::Outcome(OutcomeView::Success(p, ValueView::Present(Box::new(x)))),
            ),
            _ => None,
        },
        Term::SuccessAbsent => match env.pos(Var::Pos) {
            Some(p) => Some(Val::Outcome(OutcomeView::Success(p, ValueView::Absent))),
            None => None,
        },
        Term::SuccessRepeat(used) => match env.pos(Var::RepeatPos) {
            Some(p) => if used {
                match env.value(Var::RepeatValue) {
                    Some(ValueView::List(values)) => Some(
                        Val::Outcome(OutcomeView::Success(p, ValueView::List(values))),
                    ),
                    _ => None,
                }
            } else {
                Some(Val::Outcome(OutcomeView::Success(p, ValueView::Unit)))
            },
            None => None,
        },
        Term::SuccessAction(code) => if env.vars.dom().contains(Var::MatchStr) {
            match (env.pos(Var::Pos), env.vars[Var::MatchStr].val) {
                (Some(p), Val::Text(text)) => Some(
                    Val::Outcome(
                        OutcomeView::Success(p, ValueView::Action(code, env.captured, text)),
                    ),
                ),
                _ => None,
            }
        } else {
            None
        },
        Term::CharAt => match env.pos(Var::Pos) {
            Some(p) => if p < input.len() {
                Some(Val::Char(input[p as int]))
            } else {
                None
            },
            None => None,
        },
        Term::After => if env.vars.dom().contains(Var::Ch) {
            match (env.pos(Var::Pos), env.vars[Var::Ch].val) {
                (Some(p), Val::Char(_)) => Some(Val::Pos(p + 1)),
                _ => None,
            }
        } else {
            None
        },
        Term::Matched => match (env.pos(Var::StartPos), env.pos(Var::Pos)) {
            (Some(start), Some(p)) => if start <= p <= input.len() {
                Some(Val::Text(input.subrange(start as int, p as int)))
            } else {
                None
            },
            _ => None,
        },
        Term::Empty => Some(Val::Value(ValueView::List(Seq::empty()))),
        Term::First => match env.value(Var::FirstValue) {
            Some(x) => Some(Val::Value(ValueView::List(seq![x]))),
            None => None,
        },
        Term::Answer => match env.value(Var::Value) {
            Some(x) => Some(Val::Answer(Ok(x))),
            None => None,
        },
        Term::Expected => match env.pos(Var::Pos) {
            Some(p) => Some(
                Val::Answer(Err("Expected end of input at line "@ + decimal(line_of(input, p)))),
            ),
            None => None,
        },
        Term::ErrorAt => match env.pos(Var::Pos) {
            Some(p) => Some(Val::Answer(Err("Error at line "@ + decimal(line_of(input, p))))),
            None => None,
        },
    }
}

/// The environment of a case whose pattern matches the outcome, with what the
/// pattern binds; none where the pattern does not match.
pub open spec fn case_env(pattern: Pattern, outcome: OutcomeView, env: Env, level: nat) -> Option<
    Env,
> {
    match (pattern, outcome) {
        (Pattern::Failure, OutcomeView::Failure(at)) => Some(
            env.bind(Var::Pos, Val::Pos(at), level),
        ),
        (Pattern::AnyFailure, OutcomeView::Failure(_)) => Some(env),
        (Pattern::AnySuccess, OutcomeView::Success(_, _)) => Some(env),
        (Pattern::Success(variable), OutcomeView::Success(end, value)) => {
            let at = env.bind(Var::Pos, Val::Pos(end), level);
            match variable {
                None => Some(at),
                Some(Var::Captured(name)) => Some(
                    Env {
                        vars: at.vars.insert(
                            Var::Captured(name),
                            Slot { val: Val::Value(value), level },
                        ),
                        captured: at.captured.push(BindingView { name, value }),
                    },
                ),
                Some(v) => Some(at.bind(v, Val::Value(value), level)),
            }
        },
        (Pattern::SuccessValue, OutcomeView::Success(end, value)) => Some(
            env.bind(Var::Pos, Val::Pos(end), level).bind(Var::Value, Val::Value(value), level),
        ),
        (Pattern::Round(used), OutcomeView::Success(end, value)) => {
            let at = env.bind(Var::Newpos, Val::Pos(end), level);
            if used {
                Some(at.bind(Var::Value, Val::Value(value), level))
            } else {
                Some(at)
            }
        },
        _ => None,
    }
}

/// The run of a term that is no call.
pub open spec fn run_term(t: Term, env: Env, input: Seq<char>) -> Flow {
    match eval(t, env, input) {
        Some(val) => Flow::Value(val),
        None => Flow::Stuck,
    }
}

/// The run of a case.
pub open spec fn run_arm(
    funs: Map<Seq<char>, Body>,
    a: Arm,
    env: Env,
    level: nat,
    input: Seq<char>,
    fuel: nat,
) -> (Flow, Env)
    decreases fuel, a, 0nat,
{
    match a {
        Arm::Inline(_, term) => (run_term(term, env, input), env),
        Arm::Nested(_, body) => run(funs, body, env, level, input, fuel),
    }
}

/// The pattern of a case.
pub open spec fn arm_pattern(a: Arm) -> Pattern {
    match a {
        Arm::Inline(pattern, _) => pattern,
        Arm::Nested(pattern, _) => pattern,
    }
}

/// The run of a block of depth `level`: how it ends, and the environment at
/// its end. A call, which stands at the end of a block, runs the body of the
/// function at the position that `pos` holds, in an environment of its own.
pub open spec fn run(
    funs: Map<Seq<char>, Body>,
    b: Body,
    env: Env,
    level: nat,
    input: Seq<char>,
    fuel: nat,
) -> (Flow, Env)
    decreases fuel, b, 0nat,
{
    match b {
        Body::Tail(Term::Call(name)) => match env.pos(Var::Pos) {
            Some(p) => if !funs.dom().contains(name) {
                (Flow::Stuck, env)
            } else if fuel == 0 {
                (Flow::OutOfFuel, env)
            } else {
                match run(funs, funs[name], entry(p), 0, input, (fuel - 1) as nat).0 {
                    Flow::Value(Val::Outcome(outcome)) => (
                        Flow::Value(Val::Outcome(outcome)),
                        env,
                    ),
                    Flow::OutOfFuel => (Flow::OutOfFuel, env),
                    _ => (Flow::Stuck, env),
                }
            },
            None => (Flow::Stuck, env),
        },
        Body::Tail(term) => (run_term(term, env, input), env),
        Body::End => (Flow::End, env),
        Body::Break => (Flow::Break, env),
        Body::Let(v, term, rest) => match eval(term, env, input) {
            Some(val) => run(funs, *rest, env.bind(v, val, level), level, input, fuel),
            None => (Flow::Stuck, env),
        },
        Body::LetMut(v, term, rest) => match eval(term, env, input) {
            Some(val) => run(funs, *rest, env.bind(v, val, level), level, input, fuel),
            None => (Flow::Stuck, env),
        },
        Body::Start(rest) => match env.pos(Var::Pos) {
            Some(p) => run(
                funs,
                *rest,
                Env {
                    vars: env.vars.insert(Var::StartPos, Slot { val: Val::Pos(p), level }),
                    captured: Seq::empty(),
                },
                level,
                input,
                fuel,
            ),
            None => (Flow::Stuck, env),
        },
        Body::LetBlock(v, inner, rest) => {
            let (flow, last) = run(funs, *inner, env, level + 1, input, fuel);
            let back = leave(env, last, level + 1);
            match flow {
                Flow::Value(val) => run(funs, *rest, back.bind(v, val, level), level, input, fuel),
                Flow::End => (Flow::Stuck, back),
                other => (other, back),
            }
        },
        Body::Advance(rest) => match env.pos(Var::Newpos) {
            Some(p) => if env.vars.dom().contains(Var::RepeatPos) {
                run(funs, *rest, env.assign(Var::RepeatPos, Val::Pos(p)), level, input, fuel)
            } else {
                (Flow::Stuck, env)
            },
            None => (Flow::Stuck, env),
        },
        Body::Collect(rest) => match (env.value(Var::RepeatValue), env.value(Var::Value)) {
            (Some(ValueView::List(values)), Some(x)) => run(
                funs,
                *rest,
                env.assign(Var::RepeatValue, Val::Value(ValueView::List(values.push(x)))),
                level,
                input,
                fuel,
            ),
            _ => (Flow::Stuck, env),
        },
        Body::Loop(body, rest) => {
            let (flow, after) = run_loop(funs, *body, env, level, input, fuel);
            match flow {
                Flow::End => run(funs, *rest, after, level, input, fuel),
                other => (other, after),
            }
        },
        Body::Match(v, first, second) => if env.vars.dom().contains(v) {
            match env.vars[v].val {
                Val::Outcome(outcome) => match case_env(
                    arm_pattern(*first),
                    outcome,
                    env,
                    level + 1,
                ) {
                    Some(inside) => {
                        let (flow, last) = run_arm(funs, *first, inside, level + 1, input, fuel);
                        (flow, leave(env, last, level + 1))
                    },
                    None => match case_env(arm_pattern(*second), outcome, env, level + 1) {
                        Some(inside) => {
                            let (flow, last) = run_arm(
                                funs,
                                *second,
                                inside,
                                level + 1,
                                input,
                                fuel,
                            );
                            (flow, leave(env, last, level + 1))
                        },
                        None => (Flow::Stuck, env),
                    },
                },
                _ => (Flow::Stuck, env),
            }
        } else {
            (Flow::Stuck, env)
        },
        Body::MatchChar(cases, hit, miss) => if env.vars.dom().contains(Var::Ch) {
            match env.vars[Var::Ch].val {
                Val::Char(c) => (
                    run_term(
                        if in_ranges(c, cases) {
                            hit
                        } else {
                            miss
                        },
                        env,
                        input,
                    ),
                    env,
                ),
                _ => (Flow::Stuck, env),
            }
        } else {
            (Flow::Stuck, env)
        },
        Body::IfMore(then, otherwise) => match env.pos(Var::Pos) {
            Some(p) => {
                let (flow, last) = if p < input.len() {
                    run(funs, *then, env, level + 1, input, fuel)
                } else {
                    run(funs, *otherwise, env, level + 1, input, fuel)
                };
                (flow, leave(env, last, level + 1))
            },
            None => (Flow::Stuck, env),
        },
        Body::IfEnd(then, otherwise) => match env.pos(Var::Pos) {
            Some(p) => {
                let (flow, last) = if p == input.len() {
                    run(funs, *then, env, level + 1, input, fuel)
                } else {
                    run(funs, *otherwise, env, level + 1, input, fuel)
                };
                (flow, leave(env, last, level + 1))
            },
            None => (Flow::Stuck, env),
        },
        Body::MatchCall(name, first, second) => if !funs.dom().contains(name) {
            (Flow::Stuck, env)
        } else if fuel == 0 {
            (Flow::OutOfFuel, env)
        } else {
            match run(funs, funs[name], entry(0), 0, input, (fuel - 1) as nat).0 {
                Flow::Value(Val::Outcome(outcome)) => match case_env(
                    arm_pattern(*first),
                    outcome,
                    env,
                    level + 1,
                ) {
                    Some(inside) => {
                        let (flow, last) = run_arm(funs, *first, inside, level + 1, input, fuel);
                        (flow, leave(env, last, level + 1))
                    },
                    None => match case_env(arm_pattern(*second), outcome, env, level + 1) {
                        Some(inside) => {
                            let (flow, last) = run_arm(
                                funs,
                                *second,
                                inside,
                                level + 1,
                                input,
                                fuel,
                            );
                            (flow, leave(env, last, level + 1))
                        },
                        None => (Flow::Stuck, env),
                    },
                },
                Flow::OutOfFuel => (Flow::OutOfFuel, env),
                _ => (Flow::Stuck, env),
            }
        },
    }
}

/// The run of a loop in a block of depth `level`: its body is run again and
/// again until it ends with `break`.
pub open spec fn run_loop(
    funs: Map<Seq<char>, Body>,
    body: Body,
    env: Env,
    level: nat,
    input: Seq<char>,
    fuel: nat,
) -> (Flow, Env)
    decreases fuel, body, 1nat,
{
    if fuel == 0 {
        (Flow::OutOfFuel, env)
    } else {
        let (flow, last) = run(funs, body, env, level + 1, input, (fuel - 1) as nat);
        let back = leave(env, last, level + 1);
        match flow {
            Flow::Break => (Flow::End, back),
            Flow::End => run_loop(funs, body, back, level, input, (fuel - 1) as nat),
            Flow::Value(_) => (Flow::Stuck, back),
            other => (other, back),
        }
    }
}

} // verus!
