//! The converse of `correct`: whatever value the emitted program ends with is
//! the outcome of the match. So the emitted program and the matcher agree on
//! which inputs have an outcome, and on the outcome.

use vstd::prelude::*;
use crate::correct::{
    advanced, lemma_emitted_entry_matches, lemma_expr_runs, lemma_leave, lemma_let_block_runs,
    lemma_let_runs, lemma_match_runs, lemma_round_leaves, lemma_round_runs, lemma_run_monotone, max,
    outside, preserved, program,
};
use crate::grammar::{Expr, Grammar, TaggedExpr};
use crate::laws::{
    lemma_deeper_action, lemma_deeper_changes_nothing, lemma_deeper_choice, lemma_deeper_repeat,
    lemma_deeper_seq, lemma_expr_in_bounds,
};
use crate::lower::{
    and_then, capture, entry_body, lower, lower_action, lower_choice, lower_seq, repeat, round,
};
use crate::matcher::{
    action_outcome, bind, choice_outcome, entry_result, expr_outcome, find_rule, repeat_outcome,
    rule_outcome, seq_outcome,
};
use crate::meaning::{
    arm_pattern, case_env, entry, eval, leave, run, run_arm, run_loop, Env, Flow, Slot, Val,
};
use crate::target::{Arm, Body, Pattern, Term, Var};
use crate::value::{BindingView, OutcomeView, ValueView};

verus! {

/// Whether every `break` of a block stands in a loop of the block.
pub open spec fn closed(b: Body) -> bool
    decreases b,
{
    match b {
        Body::Tail(_) => true,
        Body::End => true,
        Body::Break => false,
        Body::Let(_, _, rest) => closed(*rest),
        Body::LetMut(_, _, rest) => closed(*rest),
        Body::Start(rest) => closed(*rest),
        Body::LetBlock(_, inner, rest) => closed(*inner) && closed(*rest),
        Body::Advance(rest) => closed(*rest),
        Body::Collect(rest) => closed(*rest),
        Body::Loop(_, rest) => closed(*rest),
        Body::Match(_, first, second) => closed_arm(*first) && closed_arm(*second),
        Body::MatchChar(_, _, _) => true,
        Body::IfMore(then, otherwise) => closed(*then) && closed(*otherwise),
        Body::IfEnd(then, otherwise) => closed(*then) && closed(*otherwise),
        Body::MatchCall(_, first, second) => closed_arm(*first) && closed_arm(*second),
    }
}

/// The same for a case.
pub open spec fn closed_arm(a: Arm) -> bool
    decreases a,
{
    match a {
        Arm::Inline(_, _) => true,
        Arm::Nested(_, body) => closed(body),
    }
}

/// A block whose every `break` stands in a loop does not end with `break`.
pub proof fn lemma_closed_never_breaks(
    funs: Map<Seq<char>, Body>,
    b: Body,
    env: Env,
    level: nat,
    input: Seq<char>,
    fuel: nat,
)
    requires
        closed(b),
    ensures
        run(funs, b, env, level, input, fuel).0 != Flow::Break,
    decreases fuel, b, 0nat,
{
    match b {
        Body::Tail(_) => {},
        Body::End => {},
        Body::Break => {},
        Body::Let(v, term, rest) => {
            if eval(term, env, input) is Some {
                let next = env.bind(v, eval(term, env, input)->0, level);
                lemma_closed_never_breaks(funs, *rest, next, level, input, fuel);
            }
        },
        Body::LetMut(v, term, rest) => {
            if eval(term, env, input) is Some {
                let next = env.bind(v, eval(term, env, input)->0, level);
                lemma_closed_never_breaks(funs, *rest, next, level, input, fuel);
            }
        },
        Body::Start(rest) => {
            if env.pos(Var::Pos) is Some {
                let next = Env {
                    vars: env.vars.insert(
                        Var::StartPos,
                        Slot { val: Val::Pos(env.pos(Var::Pos)->0), level },
                    ),
                    captured: Seq::empty(),
                };
                lemma_closed_never_breaks(funs, *rest, next, level, input, fuel);
            }
        },
        Body::LetBlock(v, inner, rest) => {
            let r = run(funs, *inner, env, level + 1, input, fuel);
            lemma_closed_never_breaks(funs, *inner, env, level + 1, input, fuel);
            if r.0 is Value {
                let next = leave(env, r.1, level + 1).bind(v, r.0->Value_0, level);
                lemma_closed_never_breaks(funs, *rest, next, level, input, fuel);
            }
        },
        Body::Advance(rest) => {
            if env.pos(Var::Newpos) is Some && env.vars.dom().contains(Var::RepeatPos) {
                let next = env.assign(Var::RepeatPos, Val::Pos(env.pos(Var::Newpos)->0));
                lemma_closed_never_breaks(funs, *rest, next, level, input, fuel);
            }
        },
        Body::Collect(rest) => {
            match (env.value(Var::RepeatValue), env.value(Var::Value)) {
                (Some(ValueView::List(values)), Some(x)) => {
                    let next = env.assign(
                        Var::RepeatValue,
                        Val::Value(ValueView::List(values.push(x))),
                    );
                    lemma_closed_never_breaks(funs, *rest, next, level, input, fuel);
                },
                _ => {},
            }
        },
        Body::Loop(body, rest) => {
            let r = run_loop(funs, *body, env, level, input, fuel);
            lemma_loop_never_breaks(funs, *body, env, level, input, fuel);
            if r.0 == Flow::End {
                lemma_closed_never_breaks(funs, *rest, r.1, level, input, fuel);
            }
        },
        Body::Match(v, first, second) => {
            if env.vars.dom().contains(v) {
                match env.vars[v].val {
                    Val::Outcome(outcome) => {
                        let one = case_env(arm_pattern(*first), outcome, env, level + 1);
                        let two = case_env(arm_pattern(*second), outcome, env, level + 1);
                        if one is Some {
                            lemma_arm_never_breaks(funs, *first, one->0, level + 1, input, fuel);
                        } else if two is Some {
                            lemma_arm_never_breaks(funs, *second, two->0, level + 1, input, fuel);
                        }
                    },
                    _ => {},
                }
            }
        },
        Body::MatchChar(_, _, _) => {},
        Body::IfMore(then, otherwise) => {
            if env.pos(Var::Pos) is Some {
                lemma_closed_never_breaks(funs, *then, env, level + 1, input, fuel);
                lemma_closed_never_breaks(funs, *otherwise, env, level + 1, input, fuel);
            }
        },
        Body::IfEnd(then, otherwise) => {
            if env.pos(Var::Pos) is Some {
                lemma_closed_never_breaks(funs, *then, env, level + 1, input, fuel);
                lemma_closed_never_breaks(funs, *otherwise, env, level + 1, input, fuel);
            }
        },
        Body::MatchCall(name, first, second) => {
            if funs.dom().contains(name) && fuel > 0 {
                match run(funs, funs[name], entry(0), 0, input, (fuel - 1) as nat).0 {
                    Flow::Value(Val::Outcome(outcome)) => {
                        let one = case_env(arm_pattern(*first), outcome, env, level + 1);
                        let two = case_env(arm_pattern(*second), outcome, env, level + 1);
                        if one is Some {
                            lemma_arm_never_breaks(funs, *first, one->0, level + 1, input, fuel);
                        } else if two is Some {
                            lemma_arm_never_breaks(funs, *second, two->0, level + 1, input, fuel);
                        }
                    },
                    _ => {},
                }
            }
        },
    }
}

/// A case whose every `break` stands in a loop does not end with `break`.
proof fn lemma_arm_never_breaks(
    funs: Map<Seq<char>, Body>,
    a: Arm,
    env: Env,
    level: nat,
    input: Seq<char>,
    fuel: nat,
)
    requires
        closed_arm(a),
    ensures
        run_arm(funs, a, env, level, input, fuel).0 != Flow::Break,
    decreases fuel, a, 0nat,
{
    match a {
        Arm::Nested(_, body) => {
            lemma_closed_never_breaks(funs, body, env, level, input, fuel);
        },
        _ => {},
    }
}

/// A loop does not end with `break`: a `break` in its body ends the loop.
pub proof fn lemma_loop_never_breaks(
    funs: Map<Seq<char>, Body>,
    body: Body,
    env: Env,
    level: nat,
    input: Seq<char>,
    fuel: nat,
)
    ensures
        run_loop(funs, body, env, level, input, fuel).0 != Flow::Break,
        !(run_loop(funs, body, env, level, input, fuel).0 is Value),
    decreases fuel, body, 1nat,
{
    if fuel > 0 {
        let r = run(funs, body, env, level + 1, input, (fuel - 1) as nat);
        if r.0 == Flow::End {
            lemma_loop_never_breaks(
                funs,
                body,
                leave(env, r.1, level + 1),
                level,
                input,
                (fuel - 1) as nat,
            );
        }
    }
}

/// In the program emitted for an expression every `break` stands in a loop.
pub proof fn lemma_lower_closed(e: Expr, used: bool)
    ensures
        closed(lower(e, used)),
    decreases e, 0nat, 0nat,
{
    reveal_with_fuel(closed, 8);
    reveal_with_fuel(closed_arm, 3);
    match e {
        Expr::SequenceExpr(exprs) => {
            lemma_lower_seq_closed(exprs@, 0);
        },
        Expr::ChoiceExpr(exprs) => {
            lemma_lower_choice_closed(exprs@, 0, used);
        },
        Expr::OptionalExpr(inner) => {
            lemma_lower_closed(*inner, used);
        },
        Expr::ZeroOrMore(inner) => {
            lemma_lower_closed(*inner, used);
        },
        Expr::OneOrMore(inner) => {
            lemma_lower_closed(*inner, used);
        },
        Expr::PosAssertExpr(inner) => {
            lemma_lower_closed(*inner, false);
        },
        Expr::NegAssertExpr(inner) => {
            lemma_lower_closed(*inner, false);
        },
        Expr::ActionExpr(tagged, code) => {
            lemma_lower_action_closed(tagged@, 0, code@);
        },
        _ => {},
    }
}

/// The same for the elements of a sequence from the `i`-th on.
pub proof fn lemma_lower_seq_closed(exprs: Seq<Expr>, i: nat)
    ensures
        closed(lower_seq(exprs, i)),
    decreases exprs, exprs.len() - i, 0nat,
{
    reveal_with_fuel(closed, 3);
    reveal_with_fuel(closed_arm, 2);
    if i < exprs.len() {
        lemma_lower_closed(exprs[i as int], false);
        if i + 1 < exprs.len() {
            lemma_lower_seq_closed(exprs, i + 1);
        }
    }
}

/// The same for the alternatives of a choice from the `i`-th on.
pub proof fn lemma_lower_choice_closed(exprs: Seq<Expr>, i: nat, used: bool)
    ensures
        closed(lower_choice(exprs, i, used)),
    decreases exprs, exprs.len() - i, 0nat,
{
    reveal_with_fuel(closed, 3);
    reveal_with_fuel(closed_arm, 2);
    if i < exprs.len() {
        lemma_lower_closed(exprs[i as int], used);
        if i + 1 < exprs.len() {
            lemma_lower_choice_closed(exprs, i + 1, used);
        }
    }
}

/// The same for the tagged expressions of an action from the `i`-th on.
pub proof fn lemma_lower_action_closed(tagged: Seq<TaggedExpr>, i: nat, code: Seq<char>)
    ensures
        closed(lower_action(tagged, i, code)),
    decreases tagged, tagged.len() - i, 0nat,
{
    reveal_with_fuel(closed, 3);
    reveal_with_fuel(closed_arm, 2);
    if i < tagged.len() {
        lemma_lower_closed(*tagged[i as int].expr, tagged[i as int].name is Some);
        lemma_lower_action_closed(tagged, i + 1, code);
    }
}

/// Where the matcher has an outcome, a run of the emitted program that does
/// not run out of fuel ends with that outcome and leaves the variables bound
/// outside it as they were.
pub proof fn lemma_agree(
    grammar: Grammar,
    e: Expr,
    used: bool,
    input: Seq<char>,
    pos: nat,
    depth: nat,
    env: Env,
    level: nat,
    fuel: nat,
)
    requires
        expr_outcome(grammar, e, used, input, pos, depth) is Ok,
        pos <= input.len(),
        env.pos(Var::Pos) == Some(pos),
        run(program(grammar), lower(e, used), env, level, input, fuel).0 != Flow::OutOfFuel,
    ensures
        ({
            let r = run(program(grammar), lower(e, used), env, level, input, fuel);
            &&& r.0 == Flow::Value(
                Val::Outcome(expr_outcome(grammar, e, used, input, pos, depth)->Ok_0),
            )
            &&& preserved(env, r.1, level)
        }),
{
    let funs = program(grammar);
    let enough = lemma_expr_runs(grammar, e, used, input, pos, depth, env, level);
    let most = max(fuel, enough);
    let r = run(funs, lower(e, used), env, level, input, most);
    assert(preserved(env, r.1, level));
    lemma_run_monotone(funs, lower(e, used), env, level, input, fuel, most);
}

/// A binding to a block whose run ends with a value needs the value of the
/// block.
pub proof fn lemma_let_block_inner(
    funs: Map<Seq<char>, Body>,
    v: Var,
    inner: Body,
    rest: Body,
    env: Env,
    level: nat,
    input: Seq<char>,
    fuel: nat,
)
    requires
        run(funs, Body::LetBlock(v, Box::new(inner), Box::new(rest)), env, level, input, fuel).0
            is Value,
        closed(inner),
    ensures
        run(funs, inner, env, level + 1, input, fuel).0 is Value,
{
    lemma_closed_never_breaks(funs, inner, env, level + 1, input, fuel);
}

/// Where `and_then` ends with a value after its first part succeeded, its
/// second part ends with a value.
pub proof fn lemma_and_then_ends(
    funs: Map<Seq<char>, Body>,
    inner: Body,
    name: Option<Var>,
    then: Body,
    env: Env,
    level: nat,
    input: Seq<char>,
    fuel: nat,
    first: OutcomeView,
)
    requires
        run(funs, and_then(inner, name, then), env, level, input, fuel).0 is Value,
        run(funs, inner, env, level + 1, input, fuel).0 == Flow::Value(Val::Outcome(first)),
        preserved(env, run(funs, inner, env, level + 1, input, fuel).1, level + 1),
        first is Success,
    ensures
        run(
            funs,
            then,
            case_env(
                Pattern::Success(name),
                first,
                env.bind(Var::SeqRes, Val::Outcome(first), level),
                level + 1,
            )->0,
            level + 1,
            input,
            fuel,
        ).0 is Value,
{
    let fail = Arm::Inline(Pattern::Failure, Term::Failure);
    let go = Arm::Nested(Pattern::Success(name), then);
    let dispatch = Body::Match(Var::SeqRes, Box::new(fail), Box::new(go));
    let bound = env.bind(Var::SeqRes, Val::Outcome(first), level);
    assert(and_then(inner, name, then) == Body::LetBlock(
        Var::SeqRes,
        Box::new(inner),
        Box::new(dispatch),
    ));
    lemma_leave(env, run(funs, inner, env, level + 1, input, fuel).1, level + 1);
    lemma_let_block_runs(funs, Var::SeqRes, inner, dispatch, env, level, input, fuel);
    lemma_match_runs(funs, Var::SeqRes, fail, go, bound, level, input, fuel, first);
    assert(case_env(Pattern::Failure, first, bound, level + 1) is None);
}

/// Whatever value the program emitted for an expression ends with, the match
/// of the expression has an outcome.
pub proof fn lemma_expr_ends(
    grammar: Grammar,
    e: Expr,
    used: bool,
    input: Seq<char>,
    pos: nat,
    env: Env,
    level: nat,
    fuel: nat,
) -> (depth: nat)
    requires
        run(program(grammar), lower(e, used), env, level, input, fuel).0 is Value,
        pos <= input.len(),
        env.pos(Var::Pos) == Some(pos),
    ensures
        expr_outcome(grammar, e, used, input, pos, depth) is Ok,
    decreases fuel, e, 0nat, 0nat,
{
    let funs = program(grammar);
    match e {
        Expr::AnyCharExpr => 0,
        Expr::LiteralExpr(_) => 0,
        Expr::CharSetExpr(_, _) => 0,
        Expr::RuleExpr(name) => {
            assert(funs.dom().contains(name@));
            assert(fuel > 0);
            let rule = find_rule(grammar.rules@, name@, 0)->0;
            let inner = lemma_expr_ends(
                grammar,
                *rule.expr,
                rule.value_used(),
                input,
                pos,
                entry(pos),
                0,
                (fuel - 1) as nat,
            );
            inner + 1
        },
        Expr::SequenceExpr(exprs) => lemma_seq_ends(
            grammar,
            exprs@,
            0,
            input,
            pos,
            env,
            level,
            fuel,
        ),
        Expr::ChoiceExpr(exprs) => lemma_choice_ends(
            grammar,
            exprs@,
            0,
            used,
            input,
            pos,
            env,
            level,
            fuel,
        ),
        Expr::OptionalExpr(inner) => {
            lemma_lower_closed(*inner, used);
            lemma_let_block_inner(
                funs,
                Var::OptionalRes,
                lower(*inner, used),
                Body::Match(
                    Var::OptionalRes,
                    Box::new(Arm::Inline(Pattern::Round(true), Term::SuccessPresent)),
                    Box::new(Arm::Inline(Pattern::AnyFailure, Term::SuccessAbsent)),
                ),
                env,
                level,
                input,
                fuel,
            );
            lemma_expr_ends(grammar, *inner, used, input, pos, env, level + 1, fuel)
        },
        Expr::ZeroOrMore(inner) => lemma_repeat_ends(
            grammar,
            *inner,
            used,
            false,
            input,
            pos,
            Seq::empty(),
            env,
            level,
            fuel,
        ),
        Expr::OneOrMore(inner) => {
            let name = if used {
                Some(Var::FirstValue)
            } else {
                None
            };
            let rest = repeat(lower(*inner, used), used, true);
            lemma_lower_closed(*inner, used);
            lemma_let_block_inner(
                funs,
                Var::SeqRes,
                lower(*inner, used),
                Body::Match(
                    Var::SeqRes,
                    Box::new(Arm::Inline(Pattern::Failure, Term::Failure)),
                    Box::new(Arm::Nested(Pattern::Success(name), rest)),
                ),
                env,
                level,
                input,
                fuel,
            );
            let d1 = lemma_expr_ends(grammar, *inner, used, input, pos, env, level + 1, fuel);
            lemma_agree(grammar, *inner, used, input, pos, d1, env, level + 1, fuel);
            let first = expr_outcome(grammar, *inner, used, input, pos, d1)->Ok_0;
            match first {
                OutcomeView::Failure(_) => d1,
                OutcomeView::Success(end, value) => {
                    lemma_expr_in_bounds(grammar, *inner, used, input, pos, d1);
                    lemma_and_then_ends(
                        funs,
                        lower(*inner, used),
                        name,
                        rest,
                        env,
                        level,
                        input,
                        fuel,
                        first,
                    );
                    let inside = case_env(
                        Pattern::Success(name),
                        first,
                        env.bind(Var::SeqRes, Val::Outcome(first), level),
                        level + 1,
                    )->0;
                    let values = if used {
                        seq![value]
                    } else {
                        Seq::empty()
                    };
                    let d2 = lemma_repeat_ends(
                        grammar,
                        *inner,
                        used,
                        true,
                        input,
                        end,
                        values,
                        inside,
                        level + 1,
                        fuel,
                    );
                    let d = max(d1, d2);
                    lemma_deeper_changes_nothing(
                        grammar,
                        *inner,
                        used,
                        input,
                        pos,
                        d1,
                        d,
                    );
                    lemma_deeper_repeat(
                        grammar,
                        *inner,
                        used,
                        input,
                        end,
                        d2,
                        d,
                        values,
                    );
                    d
                },
            }
        },
        Expr::DelimitedExpr(_, _) => 0,
        Expr::PosAssertExpr(inner) => {
            lemma_lower_closed(*inner, false);
            lemma_let_block_inner(
                funs,
                Var::AssertRes,
                lower(*inner, false),
                Body::Match(
                    Var::AssertRes,
                    Box::new(Arm::Inline(Pattern::AnySuccess, Term::Success)),
                    Box::new(Arm::Inline(Pattern::AnyFailure, Term::Failure)),
                ),
                env,
                level,
                input,
                fuel,
            );
            lemma_expr_ends(grammar, *inner, false, input, pos, env, level + 1, fuel)
        },
        Expr::NegAssertExpr(inner) => {
            lemma_lower_closed(*inner, false);
            lemma_let_block_inner(
                funs,
                Var::NegAssertRes,
                lower(*inner, false),
                Body::Match(
                    Var::NegAssertRes,
                    Box::new(Arm::Inline(Pattern::AnyFailure, Term::Success)),
                    Box::new(Arm::Inline(Pattern::AnySuccess, Term::Failure)),
                ),
                env,
                level,
                input,
                fuel,
            );
            lemma_expr_ends(grammar, *inner, false, input, pos, env, level + 1, fuel)
        },
        Expr::StringifyExpr(_) => 0,
        Expr::ActionExpr(tagged, code) => {
            let started = Env {
                vars: env.vars.insert(Var::StartPos, Slot { val: Val::Pos(pos), level }),
                captured: Seq::empty(),
            };
            assert(run(funs, lower(e, used), env, level, input, fuel) == run(
                funs,
                lower_action(tagged@, 0, code@),
                started,
                level,
                input,
                fuel,
            ));
            lemma_action_ends(
                grammar,
                tagged@,
                0,
                code@,
                input,
                pos,
                pos,
                Seq::empty(),
                started,
                level,
                fuel,
            )
        },
    }
}

/// The same for the elements of a sequence from the `i`-th on.
pub proof fn lemma_seq_ends(
    grammar: Grammar,
    exprs: Seq<Expr>,
    i: nat,
    input: Seq<char>,
    pos: nat,
    env: Env,
    level: nat,
    fuel: nat,
) -> (depth: nat)
    requires
        run(program(grammar), lower_seq(exprs, i), env, level, input, fuel).0 is Value,
        pos <= input.len(),
        env.pos(Var::Pos) == Some(pos),
    ensures
        seq_outcome(grammar, exprs, i, input, pos, depth) is Ok,
    decreases fuel, exprs, exprs.len() - i, 0nat,
{
    let funs = program(grammar);
    if i >= exprs.len() {
        0
    } else if i + 1 == exprs.len() {
        lemma_expr_ends(grammar, exprs[i as int], false, input, pos, env, level, fuel)
    } else {
        let e = exprs[i as int];
        let then = lower_seq(exprs, i + 1);
        lemma_lower_closed(e, false);
        lemma_let_block_inner(
            funs,
            Var::SeqRes,
            lower(e, false),
            Body::Match(
                Var::SeqRes,
                Box::new(Arm::Inline(Pattern::Failure, Term::Failure)),
                Box::new(Arm::Nested(Pattern::Success(None), then)),
            ),
            env,
            level,
            input,
            fuel,
        );
        let d1 = lemma_expr_ends(grammar, e, false, input, pos, env, level + 1, fuel);
        lemma_agree(grammar, e, false, input, pos, d1, env, level + 1, fuel);
        let first = expr_outcome(grammar, e, false, input, pos, d1)->Ok_0;
        match first {
            OutcomeView::Failure(_) => d1,
            OutcomeView::Success(end, _) => {
                lemma_expr_in_bounds(grammar, e, false, input, pos, d1);
                lemma_and_then_ends(funs, lower(e, false), None, then, env, level, input, fuel, first);
                let inside = case_env(
                    Pattern::Success(None),
                    first,
                    env.bind(Var::SeqRes, Val::Outcome(first), level),
                    level + 1,
                )->0;
                let d2 = lemma_seq_ends(grammar, exprs, i + 1, input, end, inside, level + 1, fuel);
                let d = max(d1, d2);
                lemma_deeper_changes_nothing(grammar, e, false, input, pos, d1, d);
                lemma_deeper_seq(grammar, exprs, i + 1, input, end, d2, d);
                d
            },
        }
    }
}

/// The same for the alternatives of a choice from the `i`-th on.
pub proof fn lemma_choice_ends(
    grammar: Grammar,
    exprs: Seq<Expr>,
    i: nat,
    used: bool,
    input: Seq<char>,
    pos: nat,
    env: Env,
    level: nat,
    fuel: nat,
) -> (depth: nat)
    requires
        run(program(grammar), lower_choice(exprs, i, used), env, level, input, fuel).0 is Value,
        pos <= input.len(),
        env.pos(Var::Pos) == Some(pos),
    ensures
        choice_outcome(grammar, exprs, i, used, input, pos, depth) is Ok,
    decreases fuel, exprs, exprs.len() - i, 0nat,
{
    let funs = program(grammar);
    if i >= exprs.len() {
        0
    } else if i + 1 == exprs.len() {
        lemma_expr_ends(grammar, exprs[i as int], used, input, pos, env, level, fuel)
    } else {
        let e = exprs[i as int];
        let inner = lower(e, used);
        let rest = lower_choice(exprs, i + 1, used);
        let take = Arm::Inline(Pattern::SuccessValue, Term::SuccessValue);
        let retry = Arm::Nested(Pattern::AnyFailure, rest);
        let dispatch = Body::Match(Var::ChoiceRes, Box::new(take), Box::new(retry));
        assert(lower_choice(exprs, i, used) == Body::LetBlock(
            Var::ChoiceRes,
            Box::new(inner),
            Box::new(dispatch),
        ));
        lemma_lower_closed(e, used);
        lemma_let_block_inner(funs, Var::ChoiceRes, inner, dispatch, env, level, input, fuel);
        let d1 = lemma_expr_ends(grammar, e, used, input, pos, env, level + 1, fuel);
        lemma_agree(grammar, e, used, input, pos, d1, env, level + 1, fuel);
        let first = expr_outcome(grammar, e, used, input, pos, d1)->Ok_0;
        match first {
            OutcomeView::Success(_, _) => d1,
            OutcomeView::Failure(_) => {
                let bound = env.bind(Var::ChoiceRes, Val::Outcome(first), level);
                lemma_leave(
                    env,
                    run(funs, inner, env, level + 1, input, fuel).1,
                    level + 1,
                );
                lemma_let_block_runs(
                    funs,
                    Var::ChoiceRes,
                    inner,
                    dispatch,
                    env,
                    level,
                    input,
                    fuel,
                );
                lemma_match_runs(
                    funs,
                    Var::ChoiceRes,
                    take,
                    retry,
                    bound,
                    level,
                    input,
                    fuel,
                    first,
                );
                assert(case_env(Pattern::SuccessValue, first, bound, level + 1) is None);
                assert(case_env(Pattern::AnyFailure, first, bound, level + 1) == Some(bound));
                let d2 = lemma_choice_ends(
                    grammar,
                    exprs,
                    i + 1,
                    used,
                    input,
                    pos,
                    bound,
                    level + 1,
                    fuel,
                );
                let d = max(d1, d2);
                lemma_deeper_changes_nothing(grammar, e, used, input, pos, d1, d);
                lemma_deeper_choice(grammar, exprs, i + 1, used, input, pos, d2, d);
                d
            },
        }
    }
}

/// The same for the tagged expressions of an action from the `i`-th on.
pub proof fn lemma_action_ends(
    grammar: Grammar,
    tagged: Seq<TaggedExpr>,
    i: nat,
    code: Seq<char>,
    input: Seq<char>,
    start: nat,
    pos: nat,
    bound: Seq<BindingView>,
    env: Env,
    level: nat,
    fuel: nat,
) -> (depth: nat)
    requires
        run(program(grammar), lower_action(tagged, i, code), env, level, input, fuel).0 is Value,
        pos <= input.len(),
        env.pos(Var::Pos) == Some(pos),
    ensures
        action_outcome(grammar, tagged, i, code, input, start, pos, depth, bound) is Ok,
    decreases fuel, tagged, tagged.len() - i, 0nat,
{
    let funs = program(grammar);
    if i >= tagged.len() {
        0
    } else {
        let e = *tagged[i as int].expr;
        let named = tagged[i as int].name is Some;
        let name = capture(tagged[i as int].name);
        let then = lower_action(tagged, i + 1, code);
        lemma_lower_closed(e, named);
        lemma_let_block_inner(
            funs,
            Var::SeqRes,
            lower(e, named),
            Body::Match(
                Var::SeqRes,
                Box::new(Arm::Inline(Pattern::Failure, Term::Failure)),
                Box::new(Arm::Nested(Pattern::Success(name), then)),
            ),
            env,
            level,
            input,
            fuel,
        );
        let d1 = lemma_expr_ends(grammar, e, named, input, pos, env, level + 1, fuel);
        lemma_agree(grammar, e, named, input, pos, d1, env, level + 1, fuel);
        let first = expr_outcome(grammar, e, named, input, pos, d1)->Ok_0;
        match first {
            OutcomeView::Failure(_) => d1,
            OutcomeView::Success(end, value) => {
                lemma_expr_in_bounds(grammar, e, named, input, pos, d1);
                lemma_and_then_ends(funs, lower(e, named), name, then, env, level, input, fuel, first);
                let inside = case_env(
                    Pattern::Success(name),
                    first,
                    env.bind(Var::SeqRes, Val::Outcome(first), level),
                    level + 1,
                )->0;
                let more = bind(bound, tagged[i as int].name, value);
                let d2 = lemma_action_ends(
                    grammar,
                    tagged,
                    i + 1,
                    code,
                    input,
                    start,
                    end,
                    more,
                    inside,
                    level + 1,
                    fuel,
                );
                let d = max(d1, d2);
                lemma_deeper_changes_nothing(grammar, e, named, input, pos, d1, d);
                lemma_deeper_action(
                    grammar,
                    tagged,
                    i + 1,
                    code,
                    input,
                    start,
                    end,
                    d2,
                    d,
                    more,
                );
                d
            },
        }
    }
}

/// The same for the loop of a repetition: where the loop ends, the
/// repetition has an outcome.
pub proof fn lemma_rounds_end(
    grammar: Grammar,
    e: Expr,
    used: bool,
    input: Seq<char>,
    pos: nat,
    values: Seq<ValueView>,
    env: Env,
    level: nat,
    fuel: nat,
) -> (depth: nat)
    requires
        run_loop(program(grammar), round(lower(e, used), used), env, level, input, fuel).0
            == Flow::End,
        pos <= input.len(),
        env.pos(Var::RepeatPos) == Some(pos),
        env.vars[Var::RepeatPos].level <= level,
        used ==> env.value(Var::RepeatValue) == Some(ValueView::List(values))
            && env.vars[Var::RepeatValue].level <= level,
    ensures
        repeat_outcome(grammar, e, used, input, pos, depth, values) is Ok,
    decreases fuel, e, 1nat, 0nat,
{
    let funs = program(grammar);
    let inner = lower(e, used);
    let body = round(inner, used);
    let g = (fuel - 1) as nat;
    let started = env.bind(Var::Pos, Val::Pos(pos), level + 2);
    let step = Body::Let(Var::Pos, Term::Var(Var::RepeatPos), Box::new(inner));
    let r = run(funs, body, env, level + 1, input, g);
    assert(r.0 == Flow::Break || r.0 == Flow::End);
    lemma_lower_closed(e, used);
    assert(eval(Term::Var(Var::RepeatPos), env, input) == Some(Val::Pos(pos)));
    lemma_let_runs(
        funs,
        Var::Pos,
        Term::Var(Var::RepeatPos),
        inner,
        env,
        level + 2,
        input,
        g,
    );
    lemma_closed_never_breaks(funs, inner, started, level + 2, input, g);
    assert(run(funs, step, env, level + 2, input, g) == run(
        funs,
        inner,
        started,
        level + 2,
        input,
        g,
    ));
    assert(run(funs, inner, started, level + 2, input, g).0 is Value);
    let d1 = lemma_expr_ends(grammar, e, used, input, pos, started, level + 2, g);
    lemma_agree(grammar, e, used, input, pos, d1, started, level + 2, g);
    let first = expr_outcome(grammar, e, used, input, pos, d1)->Ok_0;
    lemma_round_runs(funs, inner, used, env, level, input, g, pos, values, first);
    match first {
        OutcomeView::Failure(_) => d1,
        OutcomeView::Success(end, value) => {
            lemma_expr_in_bounds(grammar, e, used, input, pos, d1);
            let more = if used {
                values.push(value)
            } else {
                values
            };
            let stepped = env.bind(Var::StepRes, Val::Outcome(first), level + 1);
            let next = leave(
                env,
                advanced(stepped, used, end, value),
                level + 1,
            );
            lemma_round_leaves(env, level, used, end, value, values);
            assert(run_loop(funs, body, env, level, input, fuel) == run_loop(
                funs,
                body,
                next,
                level,
                input,
                g,
            ));
            let d2 = lemma_rounds_end(grammar, e, used, input, end, more, next, level, g);
            let d = max(d1, d2);
            lemma_deeper_changes_nothing(grammar, e, used, input, pos, d1, d);
            lemma_deeper_changes_nothing(grammar, e, used, input, pos, d1, max(d1, d2));
            if end == pos {
                lemma_deeper_changes_nothing(grammar, e, used, input, pos, d2, d);
            }
            lemma_deeper_repeat(grammar, e, used, input, end, d2, d, more);
            d
        },
    }
}

/// The same for a repetition.
pub proof fn lemma_repeat_ends(
    grammar: Grammar,
    e: Expr,
    used: bool,
    first: bool,
    input: Seq<char>,
    pos: nat,
    values: Seq<ValueView>,
    env: Env,
    level: nat,
    fuel: nat,
) -> (depth: nat)
    requires
        run(program(grammar), repeat(lower(e, used), used, first), env, level, input, fuel).0
            is Value,
        pos <= input.len(),
        env.pos(Var::Pos) == Some(pos),
        used ==> if first {
            values.len() == 1 && env.value(Var::FirstValue) == Some(values[0])
        } else {
            values.len() == 0
        },
    ensures
        repeat_outcome(grammar, e, used, input, pos, depth, values) is Ok,
    decreases fuel, e, 2nat, 0nat,
{
    let funs = program(grammar);
    let inner = lower(e, used);
    let at = env.bind(Var::RepeatPos, Val::Pos(pos), level);
    let start = if used {
        at.bind(Var::RepeatValue, Val::Value(ValueView::List(values)), level)
    } else {
        at
    };
    let init = if first {
        Term::First
    } else {
        Term::Empty
    };
    let tail = Body::Tail(Term::SuccessRepeat(used));
    let rounds = Body::Loop(Box::new(round(inner, used)), Box::new(tail));
    let listed = Body::LetMut(Var::RepeatValue, init, Box::new(rounds));
    let after_pos = if used {
        listed
    } else {
        rounds
    };
    assert(repeat(inner, used, first) == Body::LetMut(
        Var::RepeatPos,
        Term::Var(Var::Pos),
        Box::new(after_pos),
    ));
    assert(eval(Term::Var(Var::Pos), env, input) == Some(Val::Pos(pos)));
    lemma_let_runs(
        funs,
        Var::RepeatPos,
        Term::Var(Var::Pos),
        after_pos,
        env,
        level,
        input,
        fuel,
    );
    if used {
        if first {
            assert(values =~= seq![values[0]]);
        } else {
            assert(values =~= Seq::empty());
        }
        assert(eval(init, at, input) == Some(Val::Value(ValueView::List(values))));
        lemma_let_runs(funs, Var::RepeatValue, init, rounds, at, level, input, fuel);
    }
    assert(run(funs, repeat(inner, used, first), env, level, input, fuel) == run(
        funs,
        rounds,
        start,
        level,
        input,
        fuel,
    ));
    lemma_loop_never_breaks(funs, round(inner, used), start, level, input, fuel);
    assert(run_loop(funs, round(inner, used), start, level, input, fuel).0 == Flow::End);
    lemma_rounds_end(grammar, e, used, input, pos, values, start, level, fuel)
}

/// Whatever value the program emitted for an expression ends with is the
/// outcome of the match: where the program, run at a position of the input
/// as the body of a function, ends with a value, the match of the expression
/// at that position has an outcome within some depth, and the value is that
/// outcome. The depth is the result.
pub proof fn lemma_emitted_code_ends(
    grammar: Grammar,
    e: Expr,
    used: bool,
    input: Seq<char>,
    pos: nat,
    fuel: nat,
) -> (depth: nat)
    requires
        run(program(grammar), lower(e, used), entry(pos), 0, input, fuel).0 is Value,
        pos <= input.len(),
    ensures
        expr_outcome(grammar, e, used, input, pos, depth) is Ok,
        run(program(grammar), lower(e, used), entry(pos), 0, input, fuel).0 == Flow::Value(
            Val::Outcome(expr_outcome(grammar, e, used, input, pos, depth)->Ok_0),
        ),
{
    let depth = lemma_expr_ends(grammar, e, used, input, pos, entry(pos), 0, fuel);
    lemma_agree(grammar, e, used, input, pos, depth, entry(pos), 0, fuel);
    depth
}

/// Whatever value the function emitted for a rule ends with is the outcome of
/// a call of the rule within some depth. The depth is the result.
pub proof fn lemma_emitted_rule_ends(
    grammar: Grammar,
    name: Seq<char>,
    input: Seq<char>,
    pos: nat,
    fuel: nat,
) -> (depth: nat)
    requires
        program(grammar).dom().contains(name),
        run(program(grammar), program(grammar)[name], entry(pos), 0, input, fuel).0 is Value,
        pos <= input.len(),
    ensures
        rule_outcome(grammar, name, input, pos, depth) is Ok,
        run(program(grammar), program(grammar)[name], entry(pos), 0, input, fuel).0
            == Flow::Value(Val::Outcome(rule_outcome(grammar, name, input, pos, depth)->Ok_0)),
{
    let rule = find_rule(grammar.rules@, name, 0)->0;
    let inner = lemma_emitted_code_ends(
        grammar,
        *rule.expr,
        rule.value_used(),
        input,
        pos,
        fuel,
    );
    inner + 1
}

/// Whatever the entry function emitted for an exported rule ends with is what
/// the entry of the matcher gives within some depth. The depth is the result.
pub proof fn lemma_emitted_entry_ends(
    grammar: Grammar,
    name: Seq<char>,
    input: Seq<char>,
    fuel: nat,
) -> (depth: nat)
    requires
        find_rule(grammar.rules@, name, 0) matches Some(rule) && rule.exported,
        run(program(grammar), entry_body(name), outside(), 0, input, fuel).0 is Value,
    ensures
        entry_result(grammar, name, input, depth) is Ok,
        run(program(grammar), entry_body(name), outside(), 0, input, fuel).0 == Flow::Value(
            Val::Answer(entry_result(grammar, name, input, depth)->Ok_0),
        ),
{
    let funs = program(grammar);
    assert(funs.dom().contains(name));
    assert(fuel > 0);
    let called = run(funs, funs[name], entry(0), 0, input, (fuel - 1) as nat);
    assert(called.0 is Value);
    let depth = lemma_emitted_rule_ends(grammar, name, input, 0, (fuel - 1) as nat);
    lemma_emitted_entry_matches(grammar, name, input, depth, fuel);
    depth
}

} // verus!
