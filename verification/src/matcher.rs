//! What the emitted matchers do, as a matcher that runs on the grammar itself:
//! backtracking recursive descent with ordered choice, greedy repetition and
//! lookahead that consumes nothing.
//!
//! Positions count characters. Rule calls nest at most `depth` deep: a match
//! that would nest deeper, or whose repetition would never end, has no
//! outcome and gives a `MatchError` instead.

use vstd::prelude::*;
use vstd::string::*;
use crate::grammar::{CharSetCase, Expr, Grammar, Rule, TaggedExpr};
use crate::laws::{in_bounds, lemma_expr_in_bounds};
use crate::runtime::{any_char, any_char_outcome, line_of, pos_to_line, slice_eq, slice_eq_outcome};
use crate::text::{chars_of, decimal, push_decimal};
use crate::value::{
    binding_views, result_view, value_views, Binding, BindingView, MatchError, Outcome, OutcomeView,
    Value, ValueView,
};

verus! {

/// Whether a character lies in one of the ranges.
pub open spec fn in_ranges(c: char, cases: Seq<CharSetCase>) -> bool {
    exists|i: int| 0 <= i < cases.len() && (#[trigger] cases[i]).start <= c <= cases[i].end
}

/// The outcome of matching a character class at `pos`: success after one
/// character where that character lies in one of the ranges, or, inverted,
/// where it lies in none; failure at `pos` otherwise.
pub open spec fn char_set_outcome(
    invert: bool,
    cases: Seq<CharSetCase>,
    input: Seq<char>,
    pos: nat,
) -> OutcomeView {
    if pos < input.len() && in_ranges(input[pos as int], cases) != invert {
        OutcomeView::Success(pos + 1, ValueView::Unit)
    } else {
        OutcomeView::Failure(pos)
    }
}

/// The first rule named `name` among those from the `from`-th on.
pub open spec fn find_rule(rules: Seq<Rule>, name: Seq<char>, from: nat) -> Option<Rule>
    decreases rules.len() - from,
{
    if from >= rules.len() {
        None
    } else if rules[from as int].name@ == name {
        Some(rules[from as int])
    } else {
        find_rule(rules, name, from + 1)
    }
}

/// The text matched between two positions.
pub open spec fn matched_text(input: Seq<char>, start: nat, end: nat) -> Seq<char> {
    if start <= end <= input.len() {
        input.subrange(start as int, end as int)
    } else {
        Seq::empty()
    }
}

/// The bindings with the value of a tagged expression added, where the
/// expression has a name.
pub open spec fn bind(bound: Seq<BindingView>, name: Option<String>, value: ValueView) -> Seq<
    BindingView,
> {
    match name {
        Some(n) => bound.push(BindingView { name: n@, value }),
        None => bound,
    }
}

/// The value of a finished repetition: the values of its rounds where they
/// are used, no value otherwise.
pub open spec fn repeat_value(used: bool, values: Seq<ValueView>) -> ValueView {
    if used {
        ValueView::List(values)
    } else {
        ValueView::Unit
    }
}

/// The outcome of matching `e` at `pos`, with rule calls nested at most
/// `depth` deep.
///
/// The primitives are those of the runtime. A rule call is the match of the
/// rule's expression. A sequence matches its elements one after another. A
/// choice gives the first alternative that succeeds at `pos`. An optional
/// expression succeeds at `pos` where its expression fails. An assertion
/// succeeds or fails at `pos`, whatever its expression consumed.
pub open spec fn expr_outcome(
    grammar: Grammar,
    e: Expr,
    used: bool,
    input: Seq<char>,
    pos: nat,
    depth: nat,
) -> Result<OutcomeView, MatchError>
    decreases depth, e, 0nat, 0nat,
{
    match e {
        Expr::AnyCharExpr => Ok(any_char_outcome(input, pos)),
        Expr::LiteralExpr(s) => Ok(slice_eq_outcome(input, pos, s@)),
        Expr::CharSetExpr(invert, cases) => Ok(char_set_outcome(invert, cases@, input, pos)),
        Expr::RuleExpr(name) => match find_rule(grammar.rules@, name@, 0) {
            None => Err(MatchError::UndefinedRule),
            Some(rule) => if depth == 0 {
                Err(MatchError::DepthExceeded)
            } else {
                expr_outcome(grammar, *rule.expr, rule.value_used(), input, pos, (depth - 1) as nat)
            },
        },
        Expr::SequenceExpr(exprs) => seq_outcome(grammar, exprs@, 0, input, pos, depth),
        Expr::ChoiceExpr(exprs) => choice_outcome(grammar, exprs@, 0, used, input, pos, depth),
        Expr::OptionalExpr(inner) => match expr_outcome(grammar, *inner, used, input, pos, depth) {
            Ok(OutcomeView::Success(end, value)) => Ok(
                OutcomeView::Success(end, ValueView::Present(Box::new(value))),
            ),
            Ok(OutcomeView::Failure(_)) => Ok(OutcomeView::Success(pos, ValueView::Absent)),
            Err(error) => Err(error),
        },
        Expr::ZeroOrMore(inner) => repeat_outcome(
            grammar,
            *inner,
            used,
            input,
            pos,
            depth,
            Seq::empty(),
        ),
        Expr::OneOrMore(inner) => match expr_outcome(grammar, *inner, used, input, pos, depth) {
            Ok(OutcomeView::Success(end, value)) => repeat_outcome(
                grammar,
                *inner,
                used,
                input,
                end,
                depth,
                if used {
                    seq![value]
                } else {
                    Seq::empty()
                },
            ),
            other => other,
        },
        Expr::DelimitedExpr(_, _) => Err(MatchError::NotImplemented),
        Expr::PosAssertExpr(inner) => match expr_outcome(grammar, *inner, false, input, pos, depth) {
            Ok(OutcomeView::Success(_, _)) => Ok(OutcomeView::Success(pos, ValueView::Unit)),
            Ok(OutcomeView::Failure(_)) => Ok(OutcomeView::Failure(pos)),
            Err(error) => Err(error),
        },
        Expr::NegAssertExpr(inner) => match expr_outcome(grammar, *inner, false, input, pos, depth) {
            Ok(OutcomeView::Success(_, _)) => Ok(OutcomeView::Failure(pos)),
            Ok(OutcomeView::Failure(_)) => Ok(OutcomeView::Success(pos, ValueView::Unit)),
            Err(error) => Err(error),
        },
        Expr::StringifyExpr(_) => Err(MatchError::NotImplemented),
        Expr::ActionExpr(tagged, code) => action_outcome(
            grammar,
            tagged@,
            0,
            code@,
            input,
            pos,
            pos,
            depth,
            Seq::empty(),
        ),
    }
}

/// The outcome of matching the elements of a sequence from the `i`-th on:
/// each starts where the one before it ended, the first failure is the
/// failure of the sequence, and the value is that of the last element. Past
/// the last element the sequence succeeds where it stands.
pub open spec fn seq_outcome(
    grammar: Grammar,
    exprs: Seq<Expr>,
    i: nat,
    input: Seq<char>,
    pos: nat,
    depth: nat,
) -> Result<OutcomeView, MatchError>
    decreases depth, exprs, exprs.len() - i, 0nat,
{
    if i >= exprs.len() {
        Ok(OutcomeView::Success(pos, ValueView::Unit))
    } else if i + 1 == exprs.len() {
        expr_outcome(grammar, exprs[i as int], false, input, pos, depth)
    } else {
        match expr_outcome(grammar, exprs[i as int], false, input, pos, depth) {
            Ok(OutcomeView::Success(end, _)) => seq_outcome(grammar, exprs, i + 1, input, end, depth),
            other => other,
        }
    }
}

/// The outcome of trying the alternatives of a choice from the `i`-th on, each
/// at `pos`: the outcome of the first that succeeds, or else the failure of
/// the last. Past the last alternative the choice fails where it stands.
pub open spec fn choice_outcome(
    grammar: Grammar,
    exprs: Seq<Expr>,
    i: nat,
    used: bool,
    input: Seq<char>,
    pos: nat,
    depth: nat,
) -> Result<OutcomeView, MatchError>
    decreases depth, exprs, exprs.len() - i, 0nat,
{
    if i >= exprs.len() {
        Ok(OutcomeView::Failure(pos))
    } else if i + 1 == exprs.len() {
        expr_outcome(grammar, exprs[i as int], used, input, pos, depth)
    } else {
        match expr_outcome(grammar, exprs[i as int], used, input, pos, depth) {
            Ok(OutcomeView::Failure(_)) => choice_outcome(
                grammar,
                exprs,
                i + 1,
                used,
                input,
                pos,
                depth,
            ),
            other => other,
        }
    }
}

/// The outcome of repeating `e` from `pos` on, after rounds whose values are
/// `values`: each round starts where the one before it ended, and the first
/// round that fails ends the repetition, which succeeds where that round
/// started. A round that succeeds without reaching a later position of the
/// input would be repeated for ever.
pub open spec fn repeat_outcome(
    grammar: Grammar,
    e: Expr,
    used: bool,
    input: Seq<char>,
    pos: nat,
    depth: nat,
    values: Seq<ValueView>,
) -> Result<OutcomeView, MatchError>
    decreases depth, e, 1nat, input.len() - pos,
{
    match expr_outcome(grammar, e, used, input, pos, depth) {
        Ok(OutcomeView::Success(end, value)) => if pos < end <= input.len() {
            repeat_outcome(
                grammar,
                e,
                used,
                input,
                end,
                depth,
                if used {
                    values.push(value)
                } else {
                    values
                },
            )
        } else {
            Err(MatchError::NoProgress)
        },
        Ok(OutcomeView::Failure(_)) => Ok(OutcomeView::Success(pos, repeat_value(used, values))),
        Err(error) => Err(error),
    }
}

/// The outcome of an action that started at `start`, from its `i`-th tagged
/// expression on, with the values bound so far: the tagged expressions are
/// matched as a sequence, and after the last the action gives its value at
/// the position reached.
pub open spec fn action_outcome(
    grammar: Grammar,
    tagged: Seq<TaggedExpr>,
    i: nat,
    code: Seq<char>,
    input: Seq<char>,
    start: nat,
    pos: nat,
    depth: nat,
    bound: Seq<BindingView>,
) -> Result<OutcomeView, MatchError>
    decreases depth, tagged, tagged.len() - i, 0nat,
{
    if i >= tagged.len() {
        Ok(
            OutcomeView::Success(
                pos,
                ValueView::Action(code, bound, matched_text(input, start, pos)),
            ),
        )
    } else {
        match expr_outcome(
            grammar,
            *tagged[i as int].expr,
            tagged[i as int].name is Some,
            input,
            pos,
            depth,
        ) {
            Ok(OutcomeView::Success(end, value)) => action_outcome(
                grammar,
                tagged,
                i + 1,
                code,
                input,
                start,
                end,
                depth,
                bind(bound, tagged[i as int].name, value),
            ),
            other => other,
        }
    }
}

/// The outcome of calling the rule `name` at `pos`.
pub open spec fn rule_outcome(
    grammar: Grammar,
    name: Seq<char>,
    input: Seq<char>,
    pos: nat,
    depth: nat,
) -> Result<OutcomeView, MatchError> {
    match find_rule(grammar.rules@, name, 0) {
        None => Err(MatchError::UndefinedRule),
        Some(rule) => if depth == 0 {
            Err(MatchError::DepthExceeded)
        } else {
            expr_outcome(grammar, *rule.expr, rule.value_used(), input, pos, (depth - 1) as nat)
        },
    }
}

/// What the entry function of an exported rule gives for an input: the value
/// of the rule where it matches the whole input, and otherwise a message with
/// the line of the position at which the match ended or failed.
pub open spec fn entry_result(grammar: Grammar, name: Seq<char>, input: Seq<char>, depth: nat) -> Result<
    Result<ValueView, Seq<char>>,
    MatchError,
> {
    match find_rule(grammar.rules@, name, 0) {
        None => Err(MatchError::UndefinedRule),
        Some(rule) => if !rule.exported {
            Err(MatchError::NotExported)
        } else {
            match rule_outcome(grammar, name, input, 0, depth) {
                Ok(OutcomeView::Success(end, value)) => if end == input.len() {
                    Ok(Ok(value))
                } else {
                    Ok(Err("Expected end of input at line "@ + decimal(line_of(input, end))))
                },
                Ok(OutcomeView::Failure(at)) => Ok(
                    Err("Error at line "@ + decimal(line_of(input, at))),
                ),
                Err(error) => Err(error),
            }
        },
    }
}

/// The view of what an entry function gives.
pub open spec fn entry_view(out: Result<Result<Value, String>, MatchError>) -> Result<
    Result<ValueView, Seq<char>>,
    MatchError,
> {
    match out {
        Ok(Ok(value)) => Ok(Ok(value@)),
        Ok(Err(message)) => Ok(Err(message@)),
        Err(error) => Err(error),
    }
}

/// Finds the first rule of the grammar with the given name.
pub fn lookup<'a>(grammar: &'a Grammar, name: &str) -> (found: Option<&'a Rule>)
    ensures
        match found {
            Some(rule) => find_rule(grammar.rules@, name@, 0) == Some(*rule),
            None => find_rule(grammar.rules@, name@, 0) is None,
        },
{
    let key = String::from_str(name);
    let mut i: usize = 0;
    while i < grammar.rules.len()
        invariant
            i <= grammar.rules.len(),
            key@ == name@,
            find_rule(grammar.rules@, name@, 0) == find_rule(grammar.rules@, name@, i as nat),
        decreases grammar.rules.len() - i,
    {
        if grammar.rules[i].name == key {
            return Some(&grammar.rules[i]);
        }
        i += 1;
    }
    None
}

/// The characters of the input from `start` up to `end`.
fn copy_text(input: &[char], start: usize, end: usize) -> (text: Vec<char>)
    ensures
        text@ == matched_text(input@, start as nat, end as nat),
{
    let mut text: Vec<char> = Vec::new();
    if start <= end && end <= input.len() {
        let mut i: usize = start;
        while i < end
            invariant
                start <= i <= end <= input.len(),
                text@ == input@.subrange(start as int, i as int),
            decreases end - i,
        {
            text.push(input[i]);
            assert(input@.subrange(start as int, i + 1) =~= input@.subrange(
                start as int,
                i as int,
            ).push(input[i as int]));
            i += 1;
        }
    }
    text
}

/// Decides whether a character lies in one of the ranges.
fn char_in_ranges(c: char, cases: &Vec<CharSetCase>) -> (found: bool)
    ensures
        found == in_ranges(c, cases@),
{
    let mut i: usize = 0;
    while i < cases.len()
        invariant
            i <= cases.len(),
            forall|j: int| 0 <= j < i ==> !((#[trigger] cases[j]).start <= c <= cases[j].end),
        decreases cases.len() - i,
    {
        if cases[i].start <= c && c <= cases[i].end {
            return true;
        }
        i += 1;
    }
    false
}

/// Matches a sequence.
fn match_seq(grammar: &Grammar, exprs: &Vec<Expr>, input: &[char], pos: usize, depth: usize) -> (out:
    Result<Outcome, MatchError>)
    ensures
        result_view(out) == seq_outcome(*grammar, exprs@, 0, input@, pos as nat, depth as nat),
    decreases depth, exprs, 0nat, 0nat,
{
    let n = exprs.len();
    if n == 0 {
        return Ok(Outcome::Success(pos, Value::Unit));
    }
    let mut i: usize = 0;
    let mut cur: usize = pos;
    while i + 1 < n
        invariant
            i < n,
            n == exprs.len(),
            seq_outcome(*grammar, exprs@, 0, input@, pos as nat, depth as nat) == seq_outcome(
                *grammar,
                exprs@,
                i as nat,
                input@,
                cur as nat,
                depth as nat,
            ),
        decreases n - i,
    {
        match match_expr(grammar, &exprs[i], false, input, cur, depth) {
            Ok(Outcome::Success(end, _)) => {
                cur = end;
            },
            Ok(Outcome::Failure(at)) => {
                return Ok(Outcome::Failure(at));
            },
            Err(error) => {
                return Err(error);
            },
        }
        i += 1;
    }
    match_expr(grammar, &exprs[i], false, input, cur, depth)
}

/// Matches a choice.
fn match_choice(
    grammar: &Grammar,
    exprs: &Vec<Expr>,
    used: bool,
    input: &[char],
    pos: usize,
    depth: usize,
) -> (out: Result<Outcome, MatchError>)
    ensures
        result_view(out) == choice_outcome(
            *grammar,
            exprs@,
            0,
            used,
            input@,
            pos as nat,
            depth as nat,
        ),
    decreases depth, exprs, 0nat, 0nat,
{
    let n = exprs.len();
    if n == 0 {
        return Ok(Outcome::Failure(pos));
    }
    let mut i: usize = 0;
    while i + 1 < n
        invariant
            i < n,
            n == exprs.len(),
            choice_outcome(*grammar, exprs@, 0, used, input@, pos as nat, depth as nat)
                == choice_outcome(*grammar, exprs@, i as nat, used, input@, pos as nat, depth as nat),
        decreases n - i,
    {
        match match_expr(grammar, &exprs[i], used, input, pos, depth) {
            Ok(Outcome::Success(end, value)) => {
                return Ok(Outcome::Success(end, value));
            },
            Ok(Outcome::Failure(_)) => {},
            Err(error) => {
                return Err(error);
            },
        }
        i += 1;
    }
    match_expr(grammar, &exprs[i], used, input, pos, depth)
}

/// Repeats the match of `e` until it fails.
fn match_repeat(
    grammar: &Grammar,
    e: &Expr,
    used: bool,
    input: &[char],
    pos: usize,
    depth: usize,
    first: Vec<Value>,
) -> (out: Result<Outcome, MatchError>)
    ensures
        result_view(out) == repeat_outcome(
            *grammar,
            *e,
            used,
            input@,
            pos as nat,
            depth as nat,
            value_views(first@),
        ),
    decreases depth, e, 1nat, 0nat,
{
    let mut cur: usize = pos;
    let mut values = first;
    loop
        invariant
            repeat_outcome(
                *grammar,
                *e,
                used,
                input@,
                pos as nat,
                depth as nat,
                value_views(first@),
            ) == repeat_outcome(
                *grammar,
                *e,
                used,
                input@,
                cur as nat,
                depth as nat,
                value_views(values@),
            ),
        decreases input.len() - cur,
    {
        match match_expr(grammar, e, used, input, cur, depth) {
            Ok(Outcome::Success(end, value)) => {
                if cur < end && end <= input.len() {
                    if used {
                        let ghost before = values@;
                        values.push(value);
                        assert(value_views(values@) =~= value_views(before).push(value@));
                    }
                    cur = end;
                } else {
                    return Err(MatchError::NoProgress);
                }
            },
            Ok(Outcome::Failure(_)) => {
                if used {
                    return Ok(Outcome::Success(cur, Value::List(values)));
                } else {
                    return Ok(Outcome::Success(cur, Value::Unit));
                }
            },
            Err(error) => {
                return Err(error);
            },
        }
    }
}

/// Matches the tagged expressions of an action and gives the action's value.
fn match_action(
    grammar: &Grammar,
    tagged: &Vec<TaggedExpr>,
    code: &str,
    input: &[char],
    pos: usize,
    depth: usize,
) -> (out: Result<Outcome, MatchError>)
    ensures
        result_view(out) == action_outcome(
            *grammar,
            tagged@,
            0,
            code@,
            input@,
            pos as nat,
            pos as nat,
            depth as nat,
            Seq::empty(),
        ),
    decreases depth, tagged, 0nat, 0nat,
{
    let mut i: usize = 0;
    let mut cur: usize = pos;
    let mut bound: Vec<Binding> = Vec::new();
    assert(binding_views(bound@) =~= Seq::empty());
    while i < tagged.len()
        invariant
            i <= tagged.len(),
            action_outcome(
                *grammar,
                tagged@,
                0,
                code@,
                input@,
                pos as nat,
                pos as nat,
                depth as nat,
                Seq::empty(),
            ) == action_outcome(
                *grammar,
                tagged@,
                i as nat,
                code@,
                input@,
                pos as nat,
                cur as nat,
                depth as nat,
                binding_views(bound@),
            ),
        decreases tagged.len() - i,
    {
        match match_expr(grammar, &tagged[i].expr, tagged[i].name.is_some(), input, cur, depth) {
            Ok(Outcome::Success(end, value)) => {
                match &tagged[i].name {
                    Some(name) => {
                        let ghost before = bound@;
                        let binding = Binding { name: name.clone(), value };
                        bound.push(binding);
                        assert(binding_views(bound@) =~= binding_views(before).push(binding@));
                    },
                    None => {},
                }
                cur = end;
            },
            Ok(Outcome::Failure(at)) => {
                return Ok(Outcome::Failure(at));
            },
            Err(error) => {
                return Err(error);
            },
        }
        i += 1;
    }
    let text = copy_text(input, pos, cur);
    Ok(Outcome::Success(cur, Value::Action(String::from_str(code), bound, text)))
}

/// Matches `e` at `pos` in `input`, with rule calls nested at most `depth`
/// deep.
pub fn match_expr(
    grammar: &Grammar,
    e: &Expr,
    used: bool,
    input: &[char],
    pos: usize,
    depth: usize,
) -> (out: Result<Outcome, MatchError>)
    ensures
        result_view(out) == expr_outcome(*grammar, *e, used, input@, pos as nat, depth as nat),
        in_bounds(result_view(out), input@, pos as nat),
    decreases depth, e, 0nat, 0nat,
{
    proof {
        lemma_expr_in_bounds(*grammar, *e, used, input@, pos as nat, depth as nat);
    }
    match e {
        Expr::AnyCharExpr => Ok(any_char(input, pos)),
        Expr::LiteralExpr(s) => {
            let m = chars_of(s.as_str());
            Ok(slice_eq(input, pos, m.as_slice()))
        },
        Expr::CharSetExpr(invert, cases) => {
            if pos < input.len() && char_in_ranges(input[pos], cases) != *invert {
                Ok(Outcome::Success(pos + 1, Value::Unit))
            } else {
                Ok(Outcome::Failure(pos))
            }
        },
        Expr::RuleExpr(name) => match lookup(grammar, name.as_str()) {
            None => Err(MatchError::UndefinedRule),
            Some(rule) => if depth == 0 {
                Err(MatchError::DepthExceeded)
            } else {
                match_expr(grammar, &rule.expr, rule.is_value_used(), input, pos, depth - 1)
            },
        },
        Expr::SequenceExpr(exprs) => match_seq(grammar, exprs, input, pos, depth),
        Expr::ChoiceExpr(exprs) => match_choice(grammar, exprs, used, input, pos, depth),
        Expr::OptionalExpr(inner) => match match_expr(grammar, inner, used, input, pos, depth) {
            Ok(Outcome::Success(end, value)) => Ok(
                Outcome::Success(end, Value::Present(Box::new(value))),
            ),
            Ok(Outcome::Failure(_)) => Ok(Outcome::Success(pos, Value::Absent)),
            Err(error) => Err(error),
        },
        Expr::ZeroOrMore(inner) => {
            let first: Vec<Value> = Vec::new();
            assert(value_views(first@) =~= Seq::empty());
            match_repeat(grammar, inner, used, input, pos, depth, first)
        },
        Expr::OneOrMore(inner) => match match_expr(grammar, inner, used, input, pos, depth) {
            Ok(Outcome::Success(end, value)) => {
                let mut first: Vec<Value> = Vec::new();
                if used {
                    first.push(value);
                }
                assert(value_views(first@) =~= if used {
                    seq![value@]
                } else {
                    Seq::empty()
                });
                match_repeat(grammar, inner, used, input, end, depth, first)
            },
            other => other,
        },
        Expr::DelimitedExpr(_, _) => Err(MatchError::NotImplemented),
        Expr::PosAssertExpr(inner) => match match_expr(grammar, inner, false, input, pos, depth) {
            Ok(Outcome::Success(_, _)) => Ok(Outcome::Success(pos, Value::Unit)),
            Ok(Outcome::Failure(_)) => Ok(Outcome::Failure(pos)),
            Err(error) => Err(error),
        },
        Expr::NegAssertExpr(inner) => match match_expr(grammar, inner, false, input, pos, depth) {
            Ok(Outcome::Success(_, _)) => Ok(Outcome::Failure(pos)),
            Ok(Outcome::Failure(_)) => Ok(Outcome::Success(pos, Value::Unit)),
            Err(error) => Err(error),
        },
        Expr::StringifyExpr(_) => Err(MatchError::NotImplemented),
        Expr::ActionExpr(tagged, code) => match_action(
            grammar,
            tagged,
            code.as_str(),
            input,
            pos,
            depth,
        ),
    }
}

/// Calls the rule `name` at `pos`.
pub fn parse_rule(grammar: &Grammar, name: &str, input: &[char], pos: usize, depth: usize) -> (out:
    Result<Outcome, MatchError>)
    ensures
        result_view(out) == rule_outcome(*grammar, name@, input@, pos as nat, depth as nat),
        in_bounds(result_view(out), input@, pos as nat),
{
    match lookup(grammar, name) {
        None => Err(MatchError::UndefinedRule),
        Some(rule) => if depth == 0 {
            Err(MatchError::DepthExceeded)
        } else {
            match_expr(grammar, &rule.expr, rule.is_value_used(), input, pos, depth - 1)
        },
    }
}

/// Runs the entry function of the exported rule `name` on `input`: the
/// rule must match the whole input.
pub fn parse(grammar: &Grammar, name: &str, input: &str, depth: usize) -> (out: Result<
    Result<Value, String>,
    MatchError,
>)
    ensures
        entry_view(out) == entry_result(*grammar, name@, input@, depth as nat),
{
    match lookup(grammar, name) {
        None => Err(MatchError::UndefinedRule),
        Some(rule) => {
            if !rule.exported {
                return Err(MatchError::NotExported);
            }
            let chars = chars_of(input);
            match parse_rule(grammar, name, chars.as_slice(), 0, depth) {
                Ok(Outcome::Success(end, value)) => {
                    if end == chars.len() {
                        Ok(Ok(value))
                    } else {
                        let mut message = String::from_str("Expected end of input at line ");
                        push_decimal(&mut message, pos_to_line(chars.as_slice(), end));
                        Ok(Err(message))
                    }
                },
                Ok(Outcome::Failure(at)) => {
                    let mut message = String::from_str("Error at line ");
                    push_decimal(&mut message, pos_to_line(chars.as_slice(), at));
                    Ok(Err(message))
                },
                Err(error) => Err(error),
            }
        },
    }
}

} // verus!
