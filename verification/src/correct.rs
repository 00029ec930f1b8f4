//! The emitted code does what the matcher does: wherever a match has an
//! outcome, the program emitted for the expression, run at the same position
//! with enough fuel, ends with that outcome. The theorems are at the end:
//! `lemma_emitted_code_matches` for an expression, `lemma_emitted_rule_matches`
//! for the function of a rule and `lemma_emitted_entry_matches` for the entry
//! function of an exported rule.
//!
//! A match has no outcome where the grammar calls a rule it does not define,
//! recurses without end or repeats an expression that consumes nothing. That
//! the emitted program then ends with no value either is shown in `converse`.

use vstd::prelude::*;
use crate::grammar::{CharSetCase, Expr, Grammar, TaggedExpr};
use crate::laws::{lemma_expr_in_bounds, lemma_repeat_in_bounds};
use crate::lower::{
    entry_body, round, and_then, capture, char_set, lower, lower_action, lower_choice, lower_seq,
    repeat,
};
use crate::matcher::{
    entry_result, action_outcome, bind, char_set_outcome, choice_outcome, expr_outcome, find_rule,
    in_ranges, repeat_outcome, rule_outcome, seq_outcome,
};
use crate::meaning::{
    arm_pattern, case_env, entry, eval, leave, run, run_arm, run_loop, run_term, Env, Flow, Slot,
    Val,
};
use crate::target::{Arm, Body, Pattern, Term, Var};
use crate::value::{BindingView, OutcomeView, ValueView};

verus! {

/// The functions of the parser emitted for a grammar: for each rule, the
/// program emitted for its expression.
pub open spec fn program(grammar: Grammar) -> Map<Seq<char>, Body> {
    Map::new(
        |name: Seq<char>| find_rule(grammar.rules@, name, 0) is Some,
        |name: Seq<char>|
            {
                let rule = find_rule(grammar.rules@, name, 0)->0;
                lower(*rule.expr, rule.value_used())
            },
    )
}

/// Whether the variables bound outside a block of depth `level` hold after
/// the block what they held before it.
pub open spec fn preserved(before: Env, after: Env, level: nat) -> bool {
    forall|v: Var| #[trigger]
        after.vars.dom().contains(v) && after.vars[v].level < level ==> before.vars.dom().contains(
            v,
        ) && before.vars[v] == after.vars[v]
}

/// Whether a block, run with at least `fuel`, ends with the outcome `out` as
/// its value and leaves the variables bound outside it as they were.
pub open spec fn gives(
    funs: Map<Seq<char>, Body>,
    b: Body,
    env: Env,
    level: nat,
    input: Seq<char>,
    fuel: nat,
    out: OutcomeView,
) -> bool {
    forall|f: nat|
        f >= fuel ==> {
            let r = #[trigger] run(funs, b, env, level, input, f);
            r.0 == Flow::Value(Val::Outcome(out)) && preserved(env, r.1, level)
        }
}

/// Leaving a block that changed nothing outside gives the outer environment
/// back.
pub proof fn lemma_leave(outer: Env, inner: Env, level: nat)
    requires
        preserved(outer, inner, level),
    ensures
        leave(outer, inner, level) == outer,
{
    assert(leave(outer, inner, level).vars =~= outer.vars);
}

/// What a block preserves of an environment, it preserves of an environment
/// that differs from it only in variables bound at the block's depth or
/// deeper.
pub proof fn lemma_preserved_trans(a: Env, b: Env, c: Env, level: nat)
    requires
        preserved(a, b, level),
        preserved(b, c, level),
    ensures
        preserved(a, c, level),
{
}

/// The larger of two numbers.
pub open spec fn max(a: nat, b: nat) -> nat {
    if a >= b {
        a
    } else {
        b
    }
}

/// A binding runs the rest of its block with the variable bound.
pub proof fn lemma_let_runs(
    funs: Map<Seq<char>, Body>,
    v: Var,
    term: Term,
    rest: Body,
    env: Env,
    level: nat,
    input: Seq<char>,
    fuel: nat,
)
    requires
        eval(term, env, input) is Some,
    ensures
        run(funs, Body::Let(v, term, Box::new(rest)), env, level, input, fuel) == run(
            funs,
            rest,
            env.bind(v, eval(term, env, input)->0, level),
            level,
            input,
            fuel,
        ),
        run(funs, Body::LetMut(v, term, Box::new(rest)), env, level, input, fuel) == run(
            funs,
            rest,
            env.bind(v, eval(term, env, input)->0, level),
            level,
            input,
            fuel,
        ),
{
}

/// A binding to a block runs the block, leaves it, and runs the rest with the
/// variable bound to the block's value.
pub proof fn lemma_let_block_runs(
    funs: Map<Seq<char>, Body>,
    v: Var,
    inner: Body,
    rest: Body,
    env: Env,
    level: nat,
    input: Seq<char>,
    fuel: nat,
)
    requires
        run(funs, inner, env, level + 1, input, fuel).0 is Value,
    ensures
        run(funs, Body::LetBlock(v, Box::new(inner), Box::new(rest)), env, level, input, fuel)
            == run(
            funs,
            rest,
            leave(env, run(funs, inner, env, level + 1, input, fuel).1, level + 1).bind(
                v,
                run(funs, inner, env, level + 1, input, fuel).0->Value_0,
                level,
            ),
            level,
            input,
            fuel,
        ),
{
}

/// A dispatch runs the first of its two cases whose pattern matches, in the
/// environment of the case, and leaves it.
pub proof fn lemma_match_runs(
    funs: Map<Seq<char>, Body>,
    v: Var,
    first: Arm,
    second: Arm,
    env: Env,
    level: nat,
    input: Seq<char>,
    fuel: nat,
    outcome: OutcomeView,
)
    requires
        env.vars.dom().contains(v),
        env.vars[v].val == Val::Outcome(outcome),
    ensures
        ({
            let whole = run(
                funs,
                Body::Match(v, Box::new(first), Box::new(second)),
                env,
                level,
                input,
                fuel,
            );
            let one = case_env(arm_pattern(first), outcome, env, level + 1);
            let two = case_env(arm_pattern(second), outcome, env, level + 1);
            if one is Some {
                let r = run_arm(funs, first, one->0, level + 1, input, fuel);
                whole == (r.0, leave(env, r.1, level + 1))
            } else if two is Some {
                let r = run_arm(funs, second, two->0, level + 1, input, fuel);
                whole == (r.0, leave(env, r.1, level + 1))
            } else {
                whole.0 == Flow::Stuck
            }
        }),
{
}

/// `and_then` runs its first part and, where that succeeds, its second part
/// in the environment of the case; where the first part fails, that failure
/// is the outcome.
pub proof fn lemma_and_then_runs(
    funs: Map<Seq<char>, Body>,
    inner: Body,
    name: Option<Var>,
    then: Body,
    env: Env,
    level: nat,
    input: Seq<char>,
    first_fuel: nat,
    first: OutcomeView,
    then_fuel: nat,
    second: OutcomeView,
)
    requires
        gives(funs, inner, env, level + 1, input, first_fuel, first),
        first is Success ==> gives(
            funs,
            then,
            case_env(
                Pattern::Success(name),
                first,
                env.bind(Var::SeqRes, Val::Outcome(first), level),
                level + 1,
            )->0,
            level + 1,
            input,
            then_fuel,
            second,
        ),
    ensures
        gives(
            funs,
            and_then(inner, name, then),
            env,
            level,
            input,
            max(first_fuel, then_fuel),
            if first is Success {
                second
            } else {
                first
            },
        ),
{
    let fuel = max(first_fuel, then_fuel);
    let whole = and_then(inner, name, then);
    let out = if first is Success {
        second
    } else {
        first
    };
    assert forall|f: nat| f >= fuel implies ({
        let r = #[trigger] run(funs, whole, env, level, input, f);
        r.0 == Flow::Value(Val::Outcome(out)) && preserved(env, r.1, level)
    }) by {
        reveal_with_fuel(run, 3);
        let r1 = run(funs, inner, env, level + 1, input, f);
        assert(r1.0 == Flow::Value(Val::Outcome(first)));
        lemma_leave(env, r1.1, level + 1);
        let bound = env.bind(Var::SeqRes, Val::Outcome(first), level);
        let dispatch = Body::Match(
            Var::SeqRes,
            Box::new(Arm::Inline(Pattern::Failure, Term::Failure)),
            Box::new(Arm::Nested(Pattern::Success(name), then)),
        );
        assert(run(funs, whole, env, level, input, f) == run(
            funs,
            dispatch,
            bound,
            level,
            input,
            f,
        ));
        match first {
            OutcomeView::Failure(at) => {
                let inside = bound.bind(Var::Pos, Val::Pos(at), level + 1);
                assert(case_env(Pattern::Failure, first, bound, level + 1) == Some(inside));
                assert(run_term(Term::Failure, inside, input) == Flow::Value(
                    Val::Outcome(first),
                ));
                lemma_leave(bound, inside, level + 1);
            },
            OutcomeView::Success(end, value) => {
                assert(case_env(Pattern::Failure, first, bound, level + 1) is None);
                let inside = case_env(Pattern::Success(name), first, bound, level + 1)->0;
                let r2 = run(funs, then, inside, level + 1, input, f);
                assert(r2.0 == Flow::Value(Val::Outcome(second)));
                assert(preserved(bound, inside, level + 1));
                lemma_preserved_trans(bound, inside, r2.1, level + 1);
                lemma_leave(bound, r2.1, level + 1);
            },
        }
    }
}

/// What a pattern binds, it binds at the depth of its case.
pub proof fn lemma_case_env_preserved(pattern: Pattern, outcome: OutcomeView, env: Env, level: nat)
    ensures
        case_env(pattern, outcome, env, level) matches Some(inside) ==> preserved(
            env,
            inside,
            level,
        ),
{
}

/// A binding to the outcome of a block, followed by a dispatch on it whose
/// two cases are terms: the value is that of the first case that matches.
pub proof fn lemma_dispatch_runs(
    funs: Map<Seq<char>, Body>,
    v: Var,
    inner: Body,
    first: Arm,
    second: Arm,
    env: Env,
    level: nat,
    input: Seq<char>,
    fuel: nat,
    outcome: OutcomeView,
    out: OutcomeView,
)
    requires
        gives(funs, inner, env, level + 1, input, fuel, outcome),
        first is Inline,
        second is Inline,
        ({
            let bound = env.bind(v, Val::Outcome(outcome), level);
            let one = case_env(arm_pattern(first), outcome, bound, level + 1);
            let two = case_env(arm_pattern(second), outcome, bound, level + 1);
            if one is Some {
                eval(first->Inline_1, one->0, input) == Some(Val::Outcome(out))
            } else {
                two is Some && eval(second->Inline_1, two->0, input) == Some(Val::Outcome(out))
            }
        }),
    ensures
        gives(
            funs,
            Body::LetBlock(
                v,
                Box::new(inner),
                Box::new(Body::Match(v, Box::new(first), Box::new(second))),
            ),
            env,
            level,
            input,
            fuel,
            out,
        ),
{
    let whole = Body::LetBlock(
        v,
        Box::new(inner),
        Box::new(Body::Match(v, Box::new(first), Box::new(second))),
    );
    assert forall|f: nat| f >= fuel implies ({
        let r = #[trigger] run(funs, whole, env, level, input, f);
        r.0 == Flow::Value(Val::Outcome(out)) && preserved(env, r.1, level)
    }) by {
        reveal_with_fuel(run, 3);
        let r1 = run(funs, inner, env, level + 1, input, f);
        assert(r1.0 == Flow::Value(Val::Outcome(outcome)));
        lemma_leave(env, r1.1, level + 1);
        let bound = env.bind(v, Val::Outcome(outcome), level);
        let one = case_env(arm_pattern(first), outcome, bound, level + 1);
        let two = case_env(arm_pattern(second), outcome, bound, level + 1);
        lemma_case_env_preserved(arm_pattern(first), outcome, bound, level + 1);
        lemma_case_env_preserved(arm_pattern(second), outcome, bound, level + 1);
        if one is Some {
            lemma_leave(bound, one->0, level + 1);
        } else {
            lemma_leave(bound, two->0, level + 1);
        }
    }
}

/// The program of a character class gives the outcome of the class.
pub proof fn lemma_char_set_runs(
    funs: Map<Seq<char>, Body>,
    invert: bool,
    cases: Seq<CharSetCase>,
    input: Seq<char>,
    pos: nat,
    env: Env,
    level: nat,
)
    requires
        env.pos(Var::Pos) == Some(pos),
    ensures
        gives(
            funs,
            char_set(invert, cases),
            env,
            level,
            input,
            0,
            char_set_outcome(invert, cases, input, pos),
        ),
{
    let out = char_set_outcome(invert, cases, input, pos);
    let hit = if invert {
        Term::Failure
    } else {
        Term::SuccessNext
    };
    let miss = if invert {
        Term::SuccessNext
    } else {
        Term::Failure
    };
    let dispatch = Body::MatchChar(cases, hit, miss);
    let step = Body::Let(Var::Next, Term::After, Box::new(dispatch));
    let then = Body::Let(Var::Ch, Term::CharAt, Box::new(step));
    let otherwise = Body::Tail(Term::Failure);
    assert(char_set(invert, cases) == Body::IfMore(Box::new(then), Box::new(otherwise)));
    assert forall|f: nat| f >= 0 implies ({
        let r = #[trigger] run(funs, char_set(invert, cases), env, level, input, f);
        r.0 == Flow::Value(Val::Outcome(out)) && preserved(env, r.1, level)
    }) by {
        if pos < input.len() {
            let c = input[pos as int];
            let read = env.bind(Var::Ch, Val::Char(c), level + 1);
            let stepped = read.bind(Var::Next, Val::Pos(pos + 1), level + 1);
            assert(eval(Term::CharAt, env, input) == Some(Val::Char(c)));
            lemma_let_runs(funs, Var::Ch, Term::CharAt, step, env, level + 1, input, f);
            assert(eval(Term::After, read, input) == Some(Val::Pos(pos + 1)));
            lemma_let_runs(funs, Var::Next, Term::After, dispatch, read, level + 1, input, f);
            let chosen = if in_ranges(c, cases) {
                hit
            } else {
                miss
            };
            assert(run(funs, dispatch, stepped, level + 1, input, f) == (
                run_term(chosen, stepped, input),
                stepped,
            ));
            assert(run_term(chosen, stepped, input) == Flow::Value(Val::Outcome(out)));
            assert(run(funs, then, env, level + 1, input, f) == (
                Flow::Value(Val::Outcome(out)),
                stepped,
            ));
            assert(preserved(env, stepped, level + 1));
            lemma_leave(env, stepped, level + 1);
        } else {
            assert(run(funs, otherwise, env, level + 1, input, f) == (
                Flow::Value(Val::Outcome(out)),
                env,
            ));
            lemma_leave(env, env, level + 1);
        }
    }
}

/// Whether two environments differ at most in what `repeat_pos` holds and,
/// where the values are used, in what `repeat_value` holds.
pub open spec fn same_but_repeat(before: Env, after: Env, used: bool) -> bool {
    &&& after.captured == before.captured
    &&& after.vars.dom() == before.vars.dom()
    &&& forall|v: Var| #[trigger]
        before.vars.dom().contains(v) ==> after.vars[v].level == before.vars[v].level && (v
            != Var::RepeatPos && (v != Var::RepeatValue || !used) ==> after.vars[v]
            == before.vars[v])
}

/// The environment of a loop after a round whose expression succeeded at
/// `end` with `value`.
pub open spec fn advanced(env: Env, used: bool, end: nat, value: ValueView) -> Env {
    let at = env.assign(Var::RepeatPos, Val::Pos(end));
    if used {
        match env.value(Var::RepeatValue) {
            Some(ValueView::List(values)) => at.assign(
                Var::RepeatValue,
                Val::Value(ValueView::List(values.push(value))),
            ),
            _ => at,
        }
    } else {
        at
    }
}

/// How one round ends, and the environment at its end, where the expression
/// of the repetition has the outcome `first`.
pub open spec fn round_end(env: Env, level: nat, used: bool, first: OutcomeView) -> (Flow, Env) {
    let stepped = env.bind(Var::StepRes, Val::Outcome(first), level + 1);
    match first {
        OutcomeView::Failure(_) => (Flow::Break, stepped),
        OutcomeView::Success(end, value) => (Flow::End, advanced(stepped, used, end, value)),
    }
}

/// The case of a round that succeeded moves `repeat_pos` on and adds the
/// value to `repeat_value`.
proof fn lemma_advance_runs(
    funs: Map<Seq<char>, Body>,
    used: bool,
    env: Env,
    level: nat,
    input: Seq<char>,
    fuel: nat,
    end: nat,
    value: ValueView,
    values: Seq<ValueView>,
)
    requires
        env.vars.dom().contains(Var::RepeatPos),
        env.vars[Var::RepeatPos].level < level,
        used ==> env.value(Var::RepeatValue) == Some(ValueView::List(values))
            && env.vars[Var::RepeatValue].level < level,
    ensures
        ({
            let inside = case_env(
                Pattern::Round(used),
                OutcomeView::Success(end, value),
                env,
                level,
            )->0;
            let arm = Body::Advance(
                Box::new(
                    if used {
                        Body::Collect(Box::new(Body::End))
                    } else {
                        Body::End
                    },
                ),
            );
            let r = run(funs, arm, inside, level, input, fuel);
            r.0 == Flow::End && leave(env, r.1, level) == advanced(env, used, end, value)
        }),
{
    let outcome = OutcomeView::Success(end, value);
    let inside = case_env(Pattern::Round(used), outcome, env, level)->0;
    let moved = inside.assign(Var::RepeatPos, Val::Pos(end));
    let rest = if used {
        Body::Collect(Box::new(Body::End))
    } else {
        Body::End
    };
    assert(inside.pos(Var::Newpos) == Some(end));
    assert(run(funs, Body::Advance(Box::new(rest)), inside, level, input, fuel) == run(
        funs,
        rest,
        moved,
        level,
        input,
        fuel,
    ));
    if used {
        let kept = moved.assign(
            Var::RepeatValue,
            Val::Value(ValueView::List(values.push(value))),
        );
        assert(moved.value(Var::RepeatValue) == Some(ValueView::List(values)));
        assert(moved.value(Var::Value) == Some(value));
        assert(run(funs, rest, moved, level, input, fuel) == run(
            funs,
            Body::End,
            kept,
            level,
            input,
            fuel,
        ));
        assert(leave(env, kept, level).vars =~= advanced(env, used, end, value).vars);
    } else {
        assert(leave(env, moved, level).vars =~= advanced(env, used, end, value).vars);
    }
}

/// One round of a repetition: where the expression fails, the round ends
/// with `break`; where it succeeds, the round moves `repeat_pos` on and adds
/// the value to `repeat_value`.
pub proof fn lemma_round_runs(
    funs: Map<Seq<char>, Body>,
    inner: Body,
    used: bool,
    env: Env,
    level: nat,
    input: Seq<char>,
    fuel: nat,
    pos: nat,
    values: Seq<ValueView>,
    first: OutcomeView,
)
    requires
        env.pos(Var::RepeatPos) == Some(pos),
        env.vars[Var::RepeatPos].level <= level,
        used ==> env.value(Var::RepeatValue) == Some(ValueView::List(values))
            && env.vars[Var::RepeatValue].level <= level,
        ({
            let started = env.bind(Var::Pos, Val::Pos(pos), level + 2);
            let r = run(funs, inner, started, level + 2, input, fuel);
            r.0 == Flow::Value(Val::Outcome(first)) && preserved(started, r.1, level + 2)
        }),
    ensures
        run(funs, round(inner, used), env, level + 1, input, fuel) == round_end(
            env,
            level,
            used,
            first,
        ),
{
    let started = env.bind(Var::Pos, Val::Pos(pos), level + 2);
    let r1 = run(funs, inner, started, level + 2, input, fuel);
    let step = Body::Let(Var::Pos, Term::Var(Var::RepeatPos), Box::new(inner));
    let advance = Arm::Nested(
        Pattern::Round(used),
        Body::Advance(
            Box::new(
                if used {
                    Body::Collect(Box::new(Body::End))
                } else {
                    Body::End
                },
            ),
        ),
    );
    let stop = Arm::Nested(Pattern::AnyFailure, Body::Break);
    let dispatch = Body::Match(Var::StepRes, Box::new(advance), Box::new(stop));
    assert(round(inner, used) == Body::LetBlock(Var::StepRes, Box::new(step), Box::new(dispatch)));
    assert(eval(Term::Var(Var::RepeatPos), env, input) == Some(Val::Pos(pos)));
    lemma_let_runs(funs, Var::Pos, Term::Var(Var::RepeatPos), inner, env, level + 2, input, fuel);
    assert(run(funs, step, env, level + 2, input, fuel) == r1);
    lemma_let_block_runs(funs, Var::StepRes, step, dispatch, env, level + 1, input, fuel);
    assert(preserved(env, started, level + 2));
    lemma_preserved_trans(env, started, r1.1, level + 2);
    lemma_leave(env, r1.1, level + 2);
    let stepped = env.bind(Var::StepRes, Val::Outcome(first), level + 1);
    assert(run(funs, round(inner, used), env, level + 1, input, fuel) == run(
        funs,
        dispatch,
        stepped,
        level + 1,
        input,
        fuel,
    ));
    lemma_match_runs(funs, Var::StepRes, advance, stop, stepped, level + 1, input, fuel, first);
    match first {
        OutcomeView::Failure(_) => {
            assert(case_env(Pattern::Round(used), first, stepped, level + 2) is None);
            assert(case_env(Pattern::AnyFailure, first, stepped, level + 2) == Some(stepped));
            assert(run_arm(funs, stop, stepped, level + 2, input, fuel) == (Flow::Break, stepped));
            lemma_leave(stepped, stepped, level + 2);
        },
        OutcomeView::Success(end, value) => {
            lemma_advance_runs(funs, used, stepped, level + 2, input, fuel, end, value, values);
        },
    }
}

/// After a round that succeeded, and outside the loop's body, `repeat_pos`
/// and `repeat_value` hold what the round gave them, and the rest is as it
/// was before the round.
pub proof fn lemma_round_leaves(
    env: Env,
    level: nat,
    used: bool,
    end: nat,
    value: ValueView,
    values: Seq<ValueView>,
)
    requires
        env.pos(Var::RepeatPos) is Some,
        env.vars[Var::RepeatPos].level <= level,
        used ==> env.value(Var::RepeatValue) == Some(ValueView::List(values))
            && env.vars[Var::RepeatValue].level <= level,
    ensures
        ({
            let stepped = env.bind(
                Var::StepRes,
                Val::Outcome(OutcomeView::Success(end, value)),
                level + 1,
            );
            let next = leave(env, advanced(stepped, used, end, value), level + 1);
            &&& next.pos(Var::RepeatPos) == Some(end)
            &&& used ==> next.value(Var::RepeatValue) == Some(ValueView::List(values.push(value)))
            &&& same_but_repeat(env, next, used)
        }),
{
    let stepped = env.bind(Var::StepRes, Val::Outcome(OutcomeView::Success(end, value)), level + 1);
    let next = leave(env, advanced(stepped, used, end, value), level + 1);
    assert(next.vars.dom() =~= env.vars.dom());
}

/// The value of a repetition is a list where its values are used, and no
/// value otherwise.
pub proof fn lemma_repeat_gives_list(
    grammar: Grammar,
    e: Expr,
    used: bool,
    input: Seq<char>,
    pos: nat,
    depth: nat,
    values: Seq<ValueView>,
)
    ensures
        repeat_outcome(grammar, e, used, input, pos, depth, values) matches Ok(
            OutcomeView::Success(_, value),
        ) ==> if used {
            value is List
        } else {
            value == ValueView::Unit
        },
    decreases input.len() - pos,
{
    match expr_outcome(grammar, e, used, input, pos, depth) {
        Ok(OutcomeView::Success(end, value)) => {
            if pos < end <= input.len() {
                lemma_repeat_gives_list(
                    grammar,
                    e,
                    used,
                    input,
                    end,
                    depth,
                    if used {
                        values.push(value)
                    } else {
                        values
                    },
                );
            }
        },
        _ => {},
    }
}

/// Whether the loop of a repetition, run with at least `fuel`, ends with
/// `repeat_pos` and `repeat_value` holding the position and the value of
/// `out`, and everything else as it was.
pub open spec fn loop_gives(
    funs: Map<Seq<char>, Body>,
    body: Body,
    used: bool,
    env: Env,
    level: nat,
    input: Seq<char>,
    fuel: nat,
    out: OutcomeView,
) -> bool {
    forall|f: nat|
        f >= fuel ==> {
            let r = #[trigger] run_loop(funs, body, env, level, input, f);
            &&& r.0 == Flow::End
            &&& same_but_repeat(env, r.1, used)
            &&& out matches OutcomeView::Success(end, value) && r.1.pos(Var::RepeatPos) == Some(end)
                && (used ==> r.1.value(Var::RepeatValue) == Some(value))
        }
}

/// The loop of a repetition does what the repetition does: it ends where the
/// first round fails, with the position and the values reached.
pub proof fn lemma_rounds_run(
    grammar: Grammar,
    e: Expr,
    used: bool,
    input: Seq<char>,
    pos: nat,
    depth: nat,
    values: Seq<ValueView>,
    env: Env,
    level: nat,
) -> (fuel: nat)
    requires
        repeat_outcome(grammar, e, used, input, pos, depth, values) is Ok,
        pos <= input.len(),
        env.pos(Var::RepeatPos) == Some(pos),
        env.vars[Var::RepeatPos].level <= level,
        used ==> env.value(Var::RepeatValue) == Some(ValueView::List(values))
            && env.vars[Var::RepeatValue].level <= level,
    ensures
        loop_gives(
            program(grammar),
            round(lower(e, used), used),
            used,
            env,
            level,
            input,
            fuel,
            repeat_outcome(grammar, e, used, input, pos, depth, values)->Ok_0,
        ),
    decreases depth, e, 1nat, input.len() - pos,
{
    let funs = program(grammar);
    let body = round(lower(e, used), used);
    let out = repeat_outcome(grammar, e, used, input, pos, depth, values)->Ok_0;
    lemma_repeat_in_bounds(grammar, e, used, input, pos, depth, values);
    let first = expr_outcome(grammar, e, used, input, pos, depth)->Ok_0;
    let started = env.bind(Var::Pos, Val::Pos(pos), level + 2);
    let inner_fuel = lemma_expr_runs(grammar, e, used, input, pos, depth, started, level + 2);
    let stepped = env.bind(Var::StepRes, Val::Outcome(first), level + 1);
    match first {
        OutcomeView::Failure(_) => {
            assert(preserved(env, stepped, level + 1));
            lemma_leave(env, stepped, level + 1);
            assert forall|f: nat| f >= inner_fuel + 1 implies ({
                let r = #[trigger] run_loop(funs, body, env, level, input, f);
                &&& r.0 == Flow::End
                &&& same_but_repeat(env, r.1, used)
                &&& out matches OutcomeView::Success(end, value) && r.1.pos(Var::RepeatPos) == Some(
                    end,
                ) && (used ==> r.1.value(Var::RepeatValue) == Some(value))
            }) by {
                let g = (f - 1) as nat;
                let r1 = run(funs, lower(e, used), started, level + 2, input, g);
                assert(r1.0 == Flow::Value(Val::Outcome(first)));
                lemma_round_runs(funs, lower(e, used), used, env, level, input, g, pos, values, first);
                assert(run(funs, body, env, level + 1, input, g) == (Flow::Break, stepped));
                assert(run_loop(funs, body, env, level, input, f) == (Flow::End, env));
            }
            inner_fuel + 1
        },
        OutcomeView::Success(end, value) => {
            lemma_expr_in_bounds(grammar, e, used, input, pos, depth);
            let more = if used {
                values.push(value)
            } else {
                values
            };
            let next = leave(env, advanced(stepped, used, end, value), level + 1);
            lemma_round_leaves(env, level, used, end, value, values);
            let rest_fuel = lemma_rounds_run(
                grammar,
                e,
                used,
                input,
                end,
                depth,
                more,
                next,
                level,
            );
            let fuel = max(inner_fuel, rest_fuel) + 1;
            assert forall|f: nat| f >= fuel implies ({
                let r = #[trigger] run_loop(funs, body, env, level, input, f);
                &&& r.0 == Flow::End
                &&& same_but_repeat(env, r.1, used)
                &&& out matches OutcomeView::Success(end, value) && r.1.pos(Var::RepeatPos) == Some(
                    end,
                ) && (used ==> r.1.value(Var::RepeatValue) == Some(value))
            }) by {
                let g = (f - 1) as nat;
                let r1 = run(funs, lower(e, used), started, level + 2, input, g);
                assert(r1.0 == Flow::Value(Val::Outcome(first)));
                lemma_round_runs(funs, lower(e, used), used, env, level, input, g, pos, values, first);
                assert(run(funs, body, env, level + 1, input, g) == (
                    Flow::End,
                    advanced(stepped, used, end, value),
                ));
                let r2 = run_loop(funs, body, next, level, input, g);
                assert(r2.0 == Flow::End);
                assert(run_loop(funs, body, env, level, input, f) == r2);
            }
            fuel
        },
    }
}

/// The program of a repetition gives the outcome of the repetition.
pub proof fn lemma_repeat_runs(
    grammar: Grammar,
    e: Expr,
    used: bool,
    first: bool,
    input: Seq<char>,
    pos: nat,
    depth: nat,
    values: Seq<ValueView>,
    env: Env,
    level: nat,
) -> (fuel: nat)
    requires
        repeat_outcome(grammar, e, used, input, pos, depth, values) is Ok,
        pos <= input.len(),
        env.pos(Var::Pos) == Some(pos),
        used ==> if first {
            values.len() == 1 && env.value(Var::FirstValue) == Some(values[0])
        } else {
            values.len() == 0
        },
    ensures
        gives(
            program(grammar),
            repeat(lower(e, used), used, first),
            env,
            level,
            input,
            fuel,
            repeat_outcome(grammar, e, used, input, pos, depth, values)->Ok_0,
        ),
    decreases depth, e, 2nat, 0nat,
{
    let funs = program(grammar);
    let inner = lower(e, used);
    let out = repeat_outcome(grammar, e, used, input, pos, depth, values)->Ok_0;
    lemma_repeat_in_bounds(grammar, e, used, input, pos, depth, values);
    lemma_repeat_gives_list(grammar, e, used, input, pos, depth, values);
    let at = env.bind(Var::RepeatPos, Val::Pos(pos), level);
    let start = if used {
        at.bind(Var::RepeatValue, Val::Value(ValueView::List(values)), level)
    } else {
        at
    };
    let init = if first {
        Term::First
    } else {
        Term::Empty
    };
    let tail = Body::Tail(Term::SuccessRepeat(used));
    let rounds = Body::Loop(Box::new(round(inner, used)), Box::new(tail));
    let listed = Body::LetMut(Var::RepeatValue, init, Box::new(rounds));
    let after_pos = if used {
        listed
    } else {
        rounds
    };
    assert(repeat(inner, used, first) == Body::LetMut(
        Var::RepeatPos,
        Term::Var(Var::Pos),
        Box::new(after_pos),
    ));
    if used {
        if first {
            assert(values =~= seq![values[0]]);
        } else {
            assert(values =~= Seq::empty());
        }
        assert(eval(init, at, input) == Some(Val::Value(ValueView::List(values))));
    }
    let fuel = lemma_rounds_run(grammar, e, used, input, pos, depth, values, start, level);
    assert forall|f: nat| f >= fuel implies ({
        let r = #[trigger] run(funs, repeat(inner, used, first), env, level, input, f);
        r.0 == Flow::Value(Val::Outcome(out)) && preserved(env, r.1, level)
    }) by {
        assert(eval(Term::Var(Var::Pos), env, input) == Some(Val::Pos(pos)));
        lemma_let_runs(funs, Var::RepeatPos, Term::Var(Var::Pos), after_pos, env, level, input, f);
        if used {
            lemma_let_runs(funs, Var::RepeatValue, init, rounds, at, level, input, f);
        }
        assert(run(funs, repeat(inner, used, first), env, level, input, f) == run(
            funs,
            rounds,
            start,
            level,
            input,
            f,
        ));
        let r = run_loop(funs, round(inner, used), start, level, input, f);
        assert(r.0 == Flow::End);
        assert(same_but_repeat(start, r.1, used));
        assert(run(funs, rounds, start, level, input, f) == run(funs, tail, r.1, level, input, f));
        assert(run_term(Term::SuccessRepeat(used), r.1, input) == Flow::Value(Val::Outcome(out)));
        assert(run(funs, tail, r.1, level, input, f) == (Flow::Value(Val::Outcome(out)), r.1));
        assert(preserved(env, r.1, level));
    }
    fuel
}

/// The program emitted for an expression gives the outcome of the expression.
pub proof fn lemma_expr_runs(
    grammar: Grammar,
    e: Expr,
    used: bool,
    input: Seq<char>,
    pos: nat,
    depth: nat,
    env: Env,
    level: nat,
) -> (fuel: nat)
    requires
        expr_outcome(grammar, e, used, input, pos, depth) is Ok,
        pos <= input.len(),
        env.pos(Var::Pos) == Some(pos),
    ensures
        gives(
            program(grammar),
            lower(e, used),
            env,
            level,
            input,
            fuel,
            expr_outcome(grammar, e, used, input, pos, depth)->Ok_0,
        ),
    decreases depth, e, 0nat, 0nat,
{
    let funs = program(grammar);
    let out = expr_outcome(grammar, e, used, input, pos, depth)->Ok_0;
    match e {
        Expr::AnyCharExpr => {
            assert(gives(funs, lower(e, used), env, level, input, 0, out));
            0
        },
        Expr::LiteralExpr(_) => {
            assert(gives(funs, lower(e, used), env, level, input, 0, out));
            0
        },
        Expr::CharSetExpr(invert, cases) => {
            lemma_char_set_runs(funs, invert, cases@, input, pos, env, level);
            0
        },
        Expr::RuleExpr(name) => {
            let rule = find_rule(grammar.rules@, name@, 0)->0;
            let body_fuel = lemma_expr_runs(
                grammar,
                *rule.expr,
                rule.value_used(),
                input,
                pos,
                (depth - 1) as nat,
                entry(pos),
                0,
            );
            assert forall|f: nat| f >= body_fuel + 1 implies ({
                let r = #[trigger] run(funs, lower(e, used), env, level, input, f);
                r.0 == Flow::Value(Val::Outcome(out)) && preserved(env, r.1, level)
            }) by {
                assert(funs.dom().contains(name@));
                let r = run(funs, funs[name@], entry(pos), 0, input, (f - 1) as nat);
                assert(r.0 == Flow::Value(Val::Outcome(out)));
            }
            body_fuel + 1
        },
        Expr::SequenceExpr(exprs) => lemma_seq_runs(
            grammar,
            exprs@,
            0,
            input,
            pos,
            depth,
            env,
            level,
        ),
        Expr::ChoiceExpr(exprs) => lemma_choice_runs(
            grammar,
            exprs@,
            0,
            used,
            input,
            pos,
            depth,
            env,
            level,
        ),
        Expr::OptionalExpr(inner) => {
            let first = expr_outcome(grammar, *inner, used, input, pos, depth)->Ok_0;
            let fuel = lemma_expr_runs(grammar, *inner, used, input, pos, depth, env, level + 1);
            lemma_dispatch_runs(
                funs,
                Var::OptionalRes,
                lower(*inner, used),
                Arm::Inline(Pattern::Round(true), Term::SuccessPresent),
                Arm::Inline(Pattern::AnyFailure, Term::SuccessAbsent),
                env,
                level,
                input,
                fuel,
                first,
                out,
            );
            fuel
        },
        Expr::ZeroOrMore(inner) => lemma_repeat_runs(
            grammar,
            *inner,
            used,
            false,
            input,
            pos,
            depth,
            Seq::empty(),
            env,
            level,
        ),
        Expr::OneOrMore(inner) => {
            let first = expr_outcome(grammar, *inner, used, input, pos, depth)->Ok_0;
            let first_fuel = lemma_expr_runs(
                grammar,
                *inner,
                used,
                input,
                pos,
                depth,
                env,
                level + 1,
            );
            let name = if used {
                Some(Var::FirstValue)
            } else {
                None
            };
            match first {
                OutcomeView::Success(end, value) => {
                    lemma_expr_in_bounds(grammar, *inner, used, input, pos, depth);
                    let inside = case_env(
                        Pattern::Success(name),
                        first,
                        env.bind(Var::SeqRes, Val::Outcome(first), level),
                        level + 1,
                    )->0;
                    let rest_fuel = lemma_repeat_runs(
                        grammar,
                        *inner,
                        used,
                        true,
                        input,
                        end,
                        depth,
                        if used {
                            seq![value]
                        } else {
                            Seq::empty()
                        },
                        inside,
                        level + 1,
                    );
                    lemma_and_then_runs(
                        funs,
                        lower(*inner, used),
                        name,
                        repeat(lower(*inner, used), used, true),
                        env,
                        level,
                        input,
                        first_fuel,
                        first,
                        rest_fuel,
                        out,
                    );
                    max(first_fuel, rest_fuel)
                },
                OutcomeView::Failure(_) => {
                    lemma_and_then_runs(
                        funs,
                        lower(*inner, used),
                        name,
                        repeat(lower(*inner, used), used, true),
                        env,
                        level,
                        input,
                        first_fuel,
                        first,
                        0,
                        out,
                    );
                    max(first_fuel, 0)
                },
            }
        },
        Expr::DelimitedExpr(_, _) => 0,
        Expr::PosAssertExpr(inner) => {
            let first = expr_outcome(grammar, *inner, false, input, pos, depth)->Ok_0;
            let fuel = lemma_expr_runs(grammar, *inner, false, input, pos, depth, env, level + 1);
            lemma_dispatch_runs(
                funs,
                Var::AssertRes,
                lower(*inner, false),
                Arm::Inline(Pattern::AnySuccess, Term::Success),
                Arm::Inline(Pattern::AnyFailure, Term::Failure),
                env,
                level,
                input,
                fuel,
                first,
                out,
            );
            fuel
        },
        Expr::NegAssertExpr(inner) => {
            let first = expr_outcome(grammar, *inner, false, input, pos, depth)->Ok_0;
            let fuel = lemma_expr_runs(grammar, *inner, false, input, pos, depth, env, level + 1);
            lemma_dispatch_runs(
                funs,
                Var::NegAssertRes,
                lower(*inner, false),
                Arm::Inline(Pattern::AnyFailure, Term::Success),
                Arm::Inline(Pattern::AnySuccess, Term::Failure),
                env,
                level,
                input,
                fuel,
                first,
                out,
            );
            fuel
        },
        Expr::StringifyExpr(_) => 0,
        Expr::ActionExpr(tagged, code) => {
            let started = Env {
                vars: env.vars.insert(Var::StartPos, Slot { val: Val::Pos(pos), level }),
                captured: Seq::empty(),
            };
            let fuel = lemma_action_runs(
                grammar,
                tagged@,
                0,
                code@,
                input,
                pos,
                pos,
                depth,
                Seq::empty(),
                started,
                level,
            );
            assert forall|f: nat| f >= fuel implies ({
                let r = #[trigger] run(funs, lower(e, used), env, level, input, f);
                r.0 == Flow::Value(Val::Outcome(out)) && preserved(env, r.1, level)
            }) by {
                let r = run(funs, lower_action(tagged@, 0, code@), started, level, input, f);
                assert(r.0 == Flow::Value(Val::Outcome(out)));
                assert(preserved(env, started, level));
                lemma_preserved_trans(env, started, r.1, level);
            }
            fuel
        },
    }
}

/// The program emitted for the elements of a sequence from the `i`-th on
/// gives the outcome of those elements.
pub proof fn lemma_seq_runs(
    grammar: Grammar,
    exprs: Seq<Expr>,
    i: nat,
    input: Seq<char>,
    pos: nat,
    depth: nat,
    env: Env,
    level: nat,
) -> (fuel: nat)
    requires
        seq_outcome(grammar, exprs, i, input, pos, depth) is Ok,
        pos <= input.len(),
        env.pos(Var::Pos) == Some(pos),
    ensures
        gives(
            program(grammar),
            lower_seq(exprs, i),
            env,
            level,
            input,
            fuel,
            seq_outcome(grammar, exprs, i, input, pos, depth)->Ok_0,
        ),
    decreases depth, exprs, exprs.len() - i, 0nat,
{
    let funs = program(grammar);
    let out = seq_outcome(grammar, exprs, i, input, pos, depth)->Ok_0;
    if i >= exprs.len() {
        assert(gives(funs, lower_seq(exprs, i), env, level, input, 0, out));
        0
    } else if i + 1 == exprs.len() {
        lemma_expr_runs(grammar, exprs[i as int], false, input, pos, depth, env, level)
    } else {
        let first = expr_outcome(grammar, exprs[i as int], false, input, pos, depth)->Ok_0;
        let first_fuel = lemma_expr_runs(
            grammar,
            exprs[i as int],
            false,
            input,
            pos,
            depth,
            env,
            level + 1,
        );
        let then_fuel = match first {
            OutcomeView::Success(end, _) => {
                lemma_expr_in_bounds(grammar, exprs[i as int], false, input, pos, depth);
                let inside = case_env(
                    Pattern::Success(None),
                    first,
                    env.bind(Var::SeqRes, Val::Outcome(first), level),
                    level + 1,
                )->0;
                lemma_seq_runs(grammar, exprs, i + 1, input, end, depth, inside, level + 1)
            },
            OutcomeView::Failure(_) => 0,
        };
        lemma_and_then_runs(
            funs,
            lower(exprs[i as int], false),
            None,
            lower_seq(exprs, i + 1),
            env,
            level,
            input,
            first_fuel,
            first,
            then_fuel,
            out,
        );
        max(first_fuel, then_fuel)
    }
}

/// The program emitted for the alternatives of a choice from the `i`-th on
/// gives the outcome of those alternatives.
pub proof fn lemma_choice_runs(
    grammar: Grammar,
    exprs: Seq<Expr>,
    i: nat,
    used: bool,
    input: Seq<char>,
    pos: nat,
    depth: nat,
    env: Env,
    level: nat,
) -> (fuel: nat)
    requires
        choice_outcome(grammar, exprs, i, used, input, pos, depth) is Ok,
        pos <= input.len(),
        env.pos(Var::Pos) == Some(pos),
    ensures
        gives(
            program(grammar),
            lower_choice(exprs, i, used),
            env,
            level,
            input,
            fuel,
            choice_outcome(grammar, exprs, i, used, input, pos, depth)->Ok_0,
        ),
    decreases depth, exprs, exprs.len() - i, 0nat,
{
    let funs = program(grammar);
    let out = choice_outcome(grammar, exprs, i, used, input, pos, depth)->Ok_0;
    if i >= exprs.len() {
        assert(gives(funs, lower_choice(exprs, i, used), env, level, input, 0, out));
        0
    } else if i + 1 == exprs.len() {
        lemma_expr_runs(grammar, exprs[i as int], used, input, pos, depth, env, level)
    } else {
        let first = expr_outcome(grammar, exprs[i as int], used, input, pos, depth)->Ok_0;
        let first_fuel = lemma_expr_runs(
            grammar,
            exprs[i as int],
            used,
            input,
            pos,
            depth,
            env,
            level + 1,
        );
        let bound = env.bind(Var::ChoiceRes, Val::Outcome(first), level);
        let rest_fuel = match first {
            OutcomeView::Failure(_) => lemma_choice_runs(
                grammar,
                exprs,
                i + 1,
                used,
                input,
                pos,
                depth,
                bound,
                level + 1,
            ),
            OutcomeView::Success(_, _) => 0,
        };
        let fuel = max(first_fuel, rest_fuel);
        assert forall|f: nat| f >= fuel implies ({
            let r = #[trigger] run(funs, lower_choice(exprs, i, used), env, level, input, f);
            r.0 == Flow::Value(Val::Outcome(out)) && preserved(env, r.1, level)
        }) by {
            let inner = lower(exprs[i as int], used);
            let take = Arm::Inline(Pattern::SuccessValue, Term::SuccessValue);
            let retry = Arm::Nested(Pattern::AnyFailure, lower_choice(exprs, i + 1, used));
            let dispatch = Body::Match(Var::ChoiceRes, Box::new(take), Box::new(retry));
            assert(lower_choice(exprs, i, used) == Body::LetBlock(
                Var::ChoiceRes,
                Box::new(inner),
                Box::new(dispatch),
            ));
            let r1 = run(funs, inner, env, level + 1, input, f);
            assert(r1.0 == Flow::Value(Val::Outcome(first)));
            lemma_leave(env, r1.1, level + 1);
            lemma_let_block_runs(funs, Var::ChoiceRes, inner, dispatch, env, level, input, f);
            lemma_match_runs(funs, Var::ChoiceRes, take, retry, bound, level, input, f, first);
            match first {
                OutcomeView::Success(end, value) => {
                    let inside = bound.bind(Var::Pos, Val::Pos(end), level + 1).bind(
                        Var::Value,
                        Val::Value(value),
                        level + 1,
                    );
                    assert(case_env(Pattern::SuccessValue, first, bound, level + 1) == Some(
                        inside,
                    ));
                    assert(run_arm(funs, take, inside, level + 1, input, f) == (
                        Flow::Value(Val::Outcome(first)),
                        inside,
                    ));
                    lemma_leave(bound, inside, level + 1);
                },
                OutcomeView::Failure(_) => {
                    assert(case_env(Pattern::SuccessValue, first, bound, level + 1) is None);
                    assert(case_env(Pattern::AnyFailure, first, bound, level + 1) == Some(bound));
                    let r2 = run(funs, lower_choice(exprs, i + 1, used), bound, level + 1, input, f);
                    assert(r2.0 == Flow::Value(Val::Outcome(out)));
                    assert(run_arm(funs, retry, bound, level + 1, input, f) == r2);
                    lemma_leave(bound, r2.1, level + 1);
                },
            }
        }
        fuel
    }
}

/// The program emitted for the tagged expressions of an action from the
/// `i`-th on gives the outcome of the action.
pub proof fn lemma_action_runs(
    grammar: Grammar,
    tagged: Seq<TaggedExpr>,
    i: nat,
    code: Seq<char>,
    input: Seq<char>,
    start: nat,
    pos: nat,
    depth: nat,
    bound: Seq<BindingView>,
    env: Env,
    level: nat,
) -> (fuel: nat)
    requires
        action_outcome(grammar, tagged, i, code, input, start, pos, depth, bound) is Ok,
        start <= pos <= input.len(),
        env.pos(Var::Pos) == Some(pos),
        env.pos(Var::StartPos) == Some(start),
        env.captured == bound,
    ensures
        gives(
            program(grammar),
            lower_action(tagged, i, code),
            env,
            level,
            input,
            fuel,
            action_outcome(grammar, tagged, i, code, input, start, pos, depth, bound)->Ok_0,
        ),
    decreases depth, tagged, tagged.len() - i, 0nat,
{
    let funs = program(grammar);
    let out = action_outcome(grammar, tagged, i, code, input, start, pos, depth, bound)->Ok_0;
    if i >= tagged.len() {
        assert forall|f: nat| f >= 0 implies ({
            let r = #[trigger] run(funs, lower_action(tagged, i, code), env, level, input, f);
            r.0 == Flow::Value(Val::Outcome(out)) && preserved(env, r.1, level)
        }) by {
            reveal_with_fuel(run, 2);
            let text = input.subrange(start as int, pos as int);
            assert(eval(Term::Matched, env, input) == Some(Val::Text(text)));
            let named = env.bind(Var::MatchStr, Val::Text(text), level);
            assert(eval(Term::SuccessAction(code), named, input) == Some(Val::Outcome(out)));
        }
        0
    } else {
        let e = *tagged[i as int].expr;
        let named = tagged[i as int].name is Some;
        let first = expr_outcome(grammar, e, named, input, pos, depth)->Ok_0;
        let first_fuel = lemma_expr_runs(grammar, e, named, input, pos, depth, env, level + 1);
        let then_fuel = match first {
            OutcomeView::Success(end, value) => {
                lemma_expr_in_bounds(grammar, e, named, input, pos, depth);
                let inside = case_env(
                    Pattern::Success(capture(tagged[i as int].name)),
                    first,
                    env.bind(Var::SeqRes, Val::Outcome(first), level),
                    level + 1,
                )->0;
                lemma_action_runs(
                    grammar,
                    tagged,
                    i + 1,
                    code,
                    input,
                    start,
                    end,
                    depth,
                    bind(bound, tagged[i as int].name, value),
                    inside,
                    level + 1,
                )
            },
            OutcomeView::Failure(_) => 0,
        };
        lemma_and_then_runs(
            funs,
            lower(e, named),
            capture(tagged[i as int].name),
            lower_action(tagged, i + 1, code),
            env,
            level,
            input,
            first_fuel,
            first,
            then_fuel,
            out,
        );
        max(first_fuel, then_fuel)
    }
}

/// The program of an entry function gives what the entry of the matcher
/// gives.
pub proof fn lemma_entry_runs(
    grammar: Grammar,
    name: Seq<char>,
    input: Seq<char>,
    depth: nat,
) -> (fuel: nat)
    requires
        entry_result(grammar, name, input, depth) is Ok,
    ensures
        answers(
            program(grammar),
            entry_body(name),
            input,
            fuel,
            entry_result(grammar, name, input, depth)->Ok_0,
        ),
{
    let funs = program(grammar);
    let answer = entry_result(grammar, name, input, depth)->Ok_0;
    let rule = find_rule(grammar.rules@, name, 0)->0;
    let outcome = rule_outcome(grammar, name, input, 0, depth)->Ok_0;
    let body_fuel = lemma_expr_runs(
        grammar,
        *rule.expr,
        rule.value_used(),
        input,
        0,
        (depth - 1) as nat,
        entry(0),
        0,
    );
    let at_end = Body::IfEnd(
        Box::new(Body::Tail(Term::Answer)),
        Box::new(Body::Tail(Term::Expected)),
    );
    let take = Arm::Nested(Pattern::SuccessValue, at_end);
    let fail = Arm::Inline(Pattern::Failure, Term::ErrorAt);
    assert(entry_body(name) == Body::MatchCall(name, Box::new(take), Box::new(fail)));
    assert forall|f: nat| f >= body_fuel + 1 implies (#[trigger] run(
        funs,
        entry_body(name),
        outside(),
        0,
        input,
        f,
    )).0 == Flow::Value(Val::Answer(answer)) by {
        assert(funs.dom().contains(name));
        let called = run(funs, funs[name], entry(0), 0, input, (f - 1) as nat);
        assert(called.0 == Flow::Value(Val::Outcome(outcome)));
        match outcome {
            OutcomeView::Success(end, value) => {
                let inside = outside().bind(Var::Pos, Val::Pos(end), 1).bind(
                    Var::Value,
                    Val::Value(value),
                    1,
                );
                assert(case_env(Pattern::SuccessValue, outcome, outside(), 1) == Some(inside));
                assert(inside.pos(Var::Pos) == Some(end));
                assert(inside.value(Var::Value) == Some(value));
                let chosen = if end == input.len() {
                    Term::Answer
                } else {
                    Term::Expected
                };
                assert(run(funs, Body::Tail(chosen), inside, 2, input, f).0 == run_term(
                    chosen,
                    inside,
                    input,
                ));
                assert(run_term(chosen, inside, input) == Flow::Value(Val::Answer(answer)));
                assert(run(funs, at_end, inside, 1, input, f).0 == Flow::Value(
                    Val::Answer(answer),
                ));
                assert(run_arm(funs, take, inside, 1, input, f).0 == Flow::Value(
                    Val::Answer(answer),
                ));
            },
            OutcomeView::Failure(at) => {
                let inside = outside().bind(Var::Pos, Val::Pos(at), 1);
                assert(case_env(Pattern::SuccessValue, outcome, outside(), 1) is None);
                assert(case_env(Pattern::Failure, outcome, outside(), 1) == Some(inside));
                assert(run_term(Term::ErrorAt, inside, input) == Flow::Value(Val::Answer(answer)));
                assert(run_arm(funs, fail, inside, 1, input, f).0 == Flow::Value(
                    Val::Answer(answer),
                ));
            },
        }
    }
    assert(answers(funs, entry_body(name), input, body_fuel + 1, answer));
    body_fuel + 1
}

/// More fuel changes nothing: a run that does not run out of fuel ends in the
/// same way, with the same environment, however much more fuel it is given.
pub proof fn lemma_run_monotone(
    funs: Map<Seq<char>, Body>,
    b: Body,
    env: Env,
    level: nat,
    input: Seq<char>,
    fuel: nat,
    more: nat,
)
    requires
        fuel <= more,
        run(funs, b, env, level, input, fuel).0 != Flow::OutOfFuel,
    ensures
        run(funs, b, env, level, input, more) == run(funs, b, env, level, input, fuel),
    decreases fuel, b, 0nat,
{
    match b {
        Body::Tail(Term::Call(name)) => {
            if env.pos(Var::Pos) is Some && funs.dom().contains(name) {
                lemma_run_monotone(
                    funs,
                    funs[name],
                    entry(env.pos(Var::Pos)->0),
                    0,
                    input,
                    (fuel - 1) as nat,
                    (more - 1) as nat,
                );
            }
        },
        Body::Tail(_) => {},
        Body::End => {},
        Body::Break => {},
        Body::Let(v, term, rest) => {
            if eval(term, env, input) is Some {
                let next = env.bind(v, eval(term, env, input)->0, level);
                lemma_run_monotone(funs, *rest, next, level, input, fuel, more);
            }
        },
        Body::LetMut(v, term, rest) => {
            if eval(term, env, input) is Some {
                let next = env.bind(v, eval(term, env, input)->0, level);
                lemma_run_monotone(funs, *rest, next, level, input, fuel, more);
            }
        },
        Body::Start(rest) => {
            if env.pos(Var::Pos) is Some {
                let next = Env {
                    vars: env.vars.insert(
                        Var::StartPos,
                        Slot { val: Val::Pos(env.pos(Var::Pos)->0), level },
                    ),
                    captured: Seq::empty(),
                };
                lemma_run_monotone(funs, *rest, next, level, input, fuel, more);
            }
        },
        Body::LetBlock(v, inner, rest) => {
            let r = run(funs, *inner, env, level + 1, input, fuel);
            lemma_run_monotone(funs, *inner, env, level + 1, input, fuel, more);
            if r.0 is Value {
                let next = leave(env, r.1, level + 1).bind(v, r.0->Value_0, level);
                lemma_run_monotone(funs, *rest, next, level, input, fuel, more);
            }
        },
        Body::Advance(rest) => {
            if env.pos(Var::Newpos) is Some && env.vars.dom().contains(Var::RepeatPos) {
                let next = env.assign(Var::RepeatPos, Val::Pos(env.pos(Var::Newpos)->0));
                lemma_run_monotone(funs, *rest, next, level, input, fuel, more);
            }
        },
        Body::Collect(rest) => {
            match (env.value(Var::RepeatValue), env.value(Var::Value)) {
                (Some(ValueView::List(values)), Some(x)) => {
                    let next = env.assign(
                        Var::RepeatValue,
                        Val::Value(ValueView::List(values.push(x))),
                    );
                    lemma_run_monotone(funs, *rest, next, level, input, fuel, more);
                },
                _ => {},
            }
        },
        Body::Loop(body, rest) => {
            let r = run_loop(funs, *body, env, level, input, fuel);
            lemma_loop_monotone(funs, *body, env, level, input, fuel, more);
            if r.0 == Flow::End {
                lemma_run_monotone(funs, *rest, r.1, level, input, fuel, more);
            }
        },
        Body::Match(v, first, second) => {
            if env.vars.dom().contains(v) {
                match env.vars[v].val {
                    Val::Outcome(outcome) => {
                        let one = case_env(arm_pattern(*first), outcome, env, level + 1);
                        let two = case_env(arm_pattern(*second), outcome, env, level + 1);
                        if one is Some {
                            lemma_arm_monotone(funs, *first, one->0, level + 1, input, fuel, more);
                        } else if two is Some {
                            lemma_arm_monotone(funs, *second, two->0, level + 1, input, fuel, more);
                        }
                    },
                    _ => {},
                }
            }
        },
        Body::MatchChar(_, _, _) => {},
        Body::IfMore(then, otherwise) => {
            if env.pos(Var::Pos) is Some {
                if env.pos(Var::Pos)->0 < input.len() {
                    lemma_run_monotone(funs, *then, env, level + 1, input, fuel, more);
                } else {
                    lemma_run_monotone(funs, *otherwise, env, level + 1, input, fuel, more);
                }
            }
        },
        Body::IfEnd(then, otherwise) => {
            if env.pos(Var::Pos) is Some {
                if env.pos(Var::Pos)->0 == input.len() {
                    lemma_run_monotone(funs, *then, env, level + 1, input, fuel, more);
                } else {
                    lemma_run_monotone(funs, *otherwise, env, level + 1, input, fuel, more);
                }
            }
        },
        Body::MatchCall(name, first, second) => {
            if funs.dom().contains(name) {
                lemma_run_monotone(
                    funs,
                    funs[name],
                    entry(0),
                    0,
                    input,
                    (fuel - 1) as nat,
                    (more - 1) as nat,
                );
                match run(funs, funs[name], entry(0), 0, input, (fuel - 1) as nat).0 {
                    Flow::Value(Val::Outcome(outcome)) => {
                        let one = case_env(arm_pattern(*first), outcome, env, level + 1);
                        let two = case_env(arm_pattern(*second), outcome, env, level + 1);
                        if one is Some {
                            lemma_arm_monotone(funs, *first, one->0, level + 1, input, fuel, more);
                        } else if two is Some {
                            lemma_arm_monotone(funs, *second, two->0, level + 1, input, fuel, more);
                        }
                    },
                    _ => {},
                }
            }
        },
    }
}

/// More fuel changes nothing in a case.
proof fn lemma_arm_monotone(
    funs: Map<Seq<char>, Body>,
    a: Arm,
    env: Env,
    level: nat,
    input: Seq<char>,
    fuel: nat,
    more: nat,
)
    requires
        fuel <= more,
    ensures
        run_arm(funs, a, env, level, input, fuel).0 != Flow::OutOfFuel ==> run_arm(
            funs,
            a,
            env,
            level,
            input,
            more,
        ) == run_arm(funs, a, env, level, input, fuel),
    decreases fuel, a, 0nat,
{
    match a {
        Arm::Nested(_, body) => {
            if run(funs, body, env, level, input, fuel).0 != Flow::OutOfFuel {
                lemma_run_monotone(funs, body, env, level, input, fuel, more);
            }
        },
        _ => {},
    }
}

/// More fuel changes nothing in a loop that does not run out of fuel.
pub proof fn lemma_loop_monotone(
    funs: Map<Seq<char>, Body>,
    body: Body,
    env: Env,
    level: nat,
    input: Seq<char>,
    fuel: nat,
    more: nat,
)
    requires
        fuel <= more,
        run_loop(funs, body, env, level, input, fuel).0 != Flow::OutOfFuel,
    ensures
        run_loop(funs, body, env, level, input, more) == run_loop(
            funs,
            body,
            env,
            level,
            input,
            fuel,
        ),
    decreases fuel, body, 1nat,
{
    let r = run(funs, body, env, level + 1, input, (fuel - 1) as nat);
    lemma_run_monotone(funs, body, env, level + 1, input, (fuel - 1) as nat, (more - 1) as nat);
    if r.0 == Flow::End {
        lemma_loop_monotone(
            funs,
            body,
            leave(env, r.1, level + 1),
            level,
            input,
            (fuel - 1) as nat,
            (more - 1) as nat,
        );
    }
}

/// The environment at the start of an entry function.
pub open spec fn outside() -> Env {
    Env { vars: Map::empty(), captured: Seq::empty() }
}

/// Whether an entry function, run with at least `fuel`, ends with `answer`.
pub open spec fn answers(
    funs: Map<Seq<char>, Body>,
    b: Body,
    input: Seq<char>,
    fuel: nat,
    answer: Result<ValueView, Seq<char>>,
) -> bool {
    forall|f: nat|
        f >= fuel ==> (#[trigger] run(funs, b, outside(), 0, input, f)).0 == Flow::Value(
            Val::Answer(answer),
        )
}

/// The emitted code does what the matcher does. Where the match of an
/// expression at a position of the input has an outcome, the program emitted
/// for the expression, run at that position as the body of a function, ends
/// with that outcome as its value once it has enough fuel, and with less
/// fuel it runs out of fuel and ends in no other way.
pub proof fn lemma_emitted_code_matches(
    grammar: Grammar,
    e: Expr,
    used: bool,
    input: Seq<char>,
    pos: nat,
    depth: nat,
    fuel: nat,
)
    requires
        expr_outcome(grammar, e, used, input, pos, depth) is Ok,
        pos <= input.len(),
    ensures
        exists|enough: nat|
            gives(
                program(grammar),
                lower(e, used),
                entry(pos),
                0,
                input,
                enough,
                expr_outcome(grammar, e, used, input, pos, depth)->Ok_0,
            ),
        ({
            let flow = run(program(grammar), lower(e, used), entry(pos), 0, input, fuel).0;
            flow == Flow::OutOfFuel || flow == Flow::Value(
                Val::Outcome(expr_outcome(grammar, e, used, input, pos, depth)->Ok_0),
            )
        }),
{
    let funs = program(grammar);
    let out = expr_outcome(grammar, e, used, input, pos, depth)->Ok_0;
    let enough = lemma_expr_runs(grammar, e, used, input, pos, depth, entry(pos), 0);
    assert(gives(funs, lower(e, used), entry(pos), 0, input, enough, out));
    let most = max(fuel, enough);
    assert(run(funs, lower(e, used), entry(pos), 0, input, most).0 == Flow::Value(
        Val::Outcome(out),
    ));
    if run(funs, lower(e, used), entry(pos), 0, input, fuel).0 != Flow::OutOfFuel {
        lemma_run_monotone(funs, lower(e, used), entry(pos), 0, input, fuel, most);
    }
}

/// The function emitted for a rule does what a call of the rule does. Where
/// the call at a position of the input has an outcome, the parser has a
/// function for the rule, and its body, run at that position, ends with that
/// outcome as its value once it has enough fuel, and with less fuel it runs
/// out of fuel and ends in no other way.
pub proof fn lemma_emitted_rule_matches(
    grammar: Grammar,
    name: Seq<char>,
    input: Seq<char>,
    pos: nat,
    depth: nat,
    fuel: nat,
)
    requires
        rule_outcome(grammar, name, input, pos, depth) is Ok,
        pos <= input.len(),
    ensures
        program(grammar).dom().contains(name),
        exists|enough: nat|
            gives(
                program(grammar),
                program(grammar)[name],
                entry(pos),
                0,
                input,
                enough,
                rule_outcome(grammar, name, input, pos, depth)->Ok_0,
            ),
        ({
            let flow = run(program(grammar), program(grammar)[name], entry(pos), 0, input, fuel).0;
            flow == Flow::OutOfFuel || flow == Flow::Value(
                Val::Outcome(rule_outcome(grammar, name, input, pos, depth)->Ok_0),
            )
        }),
{
    let funs = program(grammar);
    let rule = find_rule(grammar.rules@, name, 0)->0;
    let out = rule_outcome(grammar, name, input, pos, depth)->Ok_0;
    let enough = lemma_expr_runs(
        grammar,
        *rule.expr,
        rule.value_used(),
        input,
        pos,
        (depth - 1) as nat,
        entry(pos),
        0,
    );
    assert(gives(funs, funs[name], entry(pos), 0, input, enough, out));
    let most = max(fuel, enough);
    assert(run(funs, funs[name], entry(pos), 0, input, most).0 == Flow::Value(Val::Outcome(out)));
    if run(funs, funs[name], entry(pos), 0, input, fuel).0 != Flow::OutOfFuel {
        lemma_run_monotone(funs, funs[name], entry(pos), 0, input, fuel, most);
    }
}

/// The emitted entry function does what the entry of the matcher does. Where
/// that gives a value or a message for an input, the program of the entry
/// function ends with the same once it has enough fuel, and with less fuel
/// it runs out of fuel and ends in no other way.
pub proof fn lemma_emitted_entry_matches(
    grammar: Grammar,
    name: Seq<char>,
    input: Seq<char>,
    depth: nat,
    fuel: nat,
)
    requires
        entry_result(grammar, name, input, depth) is Ok,
    ensures
        exists|enough: nat|
            answers(
                program(grammar),
                entry_body(name),
                input,
                enough,
                entry_result(grammar, name, input, depth)->Ok_0,
            ),
        ({
            let flow = run(program(grammar), entry_body(name), outside(), 0, input, fuel).0;
            flow == Flow::OutOfFuel || flow == Flow::Value(
                Val::Answer(entry_result(grammar, name, input, depth)->Ok_0),
            )
        }),
{
    let funs = program(grammar);
    let answer = entry_result(grammar, name, input, depth)->Ok_0;
    let enough = lemma_entry_runs(grammar, name, input, depth);
    let most = max(fuel, enough);
    assert(run(funs, entry_body(name), outside(), 0, input, most).0 == Flow::Value(
        Val::Answer(answer),
    ));
    if run(funs, entry_body(name), outside(), 0, input, fuel).0 != Flow::OutOfFuel {
        lemma_run_monotone(funs, entry_body(name), outside(), 0, input, fuel, most);
    }
}

} // verus!
