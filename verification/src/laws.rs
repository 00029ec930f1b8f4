//! Laws of matching: what holds of the outcome of a match for every grammar,
//! expression and input.

use vstd::prelude::*;
use crate::grammar::{CharSetCase, Expr, Grammar, TaggedExpr};
use crate::matcher::{
    action_outcome, bind, char_set_outcome, choice_outcome, entry_result, expr_outcome, find_rule,
    in_ranges, repeat_outcome, rule_outcome, seq_outcome,
};
use crate::value::{BindingView, MatchError, OutcomeView, ValueView};

verus! {

/// Whether an outcome of a match at `pos` lies where it must: a success ends,
/// and a failure is reported, at `pos` or later, and past `pos` only within
/// the input.
pub open spec fn in_bounds(out: Result<OutcomeView, MatchError>, input: Seq<char>, pos: nat) -> bool {
    match out {
        Ok(OutcomeView::Success(end, _)) => pos <= end && (end == pos || end <= input.len()),
        Ok(OutcomeView::Failure(at)) => pos <= at && (at == pos || at <= input.len()),
        Err(_) => true,
    }
}

/// A match never moves backwards: whatever the expression, a success ends at
/// or after the position the match started at, and a failure is reported at
/// or after it; neither lies past the end of the input unless the match
/// started there.
pub proof fn lemma_expr_in_bounds(
    grammar: Grammar,
    e: Expr,
    used: bool,
    input: Seq<char>,
    pos: nat,
    depth: nat,
)
    ensures
        in_bounds(expr_outcome(grammar, e, used, input, pos, depth), input, pos),
    decreases depth, e, 0nat, 0nat,
{
    match e {
        Expr::AnyCharExpr => {},
        Expr::LiteralExpr(_) => {},
        Expr::CharSetExpr(_, _) => {},
        Expr::RuleExpr(name) => {
            match find_rule(grammar.rules@, name@, 0) {
                None => {},
                Some(rule) => {
                    if depth > 0 {
                        lemma_expr_in_bounds(
                            grammar,
                            *rule.expr,
                            rule.value_used(),
                            input,
                            pos,
                            (depth - 1) as nat,
                        );
                    }
                },
            }
        },
        Expr::SequenceExpr(exprs) => {
            lemma_seq_in_bounds(grammar, exprs@, 0, input, pos, depth);
        },
        Expr::ChoiceExpr(exprs) => {
            lemma_choice_in_bounds(grammar, exprs@, 0, used, input, pos, depth);
        },
        Expr::OptionalExpr(inner) => {
            lemma_expr_in_bounds(grammar, *inner, used, input, pos, depth);
        },
        Expr::ZeroOrMore(inner) => {
            lemma_repeat_in_bounds(grammar, *inner, used, input, pos, depth, Seq::empty());
        },
        Expr::OneOrMore(inner) => {
            lemma_expr_in_bounds(grammar, *inner, used, input, pos, depth);
            match expr_outcome(grammar, *inner, used, input, pos, depth) {
                Ok(OutcomeView::Success(end, value)) => {
                    lemma_repeat_in_bounds(
                        grammar,
                        *inner,
                        used,
                        input,
                        end,
                        depth,
                        if used {
                            seq![value]
                        } else {
                            Seq::empty()
                        },
                    );
                },
                _ => {},
            }
        },
        Expr::DelimitedExpr(_, _) => {},
        Expr::PosAssertExpr(inner) => {},
        Expr::NegAssertExpr(inner) => {},
        Expr::StringifyExpr(_) => {},
        Expr::ActionExpr(tagged, code) => {
            lemma_action_in_bounds(grammar, tagged@, 0, code@, input, pos, pos, depth, Seq::empty());
        },
    }
}

/// The elements of a sequence from the `i`-th on never move backwards.
pub proof fn lemma_seq_in_bounds(
    grammar: Grammar,
    exprs: Seq<Expr>,
    i: nat,
    input: Seq<char>,
    pos: nat,
    depth: nat,
)
    ensures
        in_bounds(seq_outcome(grammar, exprs, i, input, pos, depth), input, pos),
    decreases depth, exprs, exprs.len() - i, 0nat,
{
    if i < exprs.len() {
        lemma_expr_in_bounds(grammar, exprs[i as int], false, input, pos, depth);
        if i + 1 < exprs.len() {
            match expr_outcome(grammar, exprs[i as int], false, input, pos, depth) {
                Ok(OutcomeView::Success(end, _)) => {
                    lemma_seq_in_bounds(grammar, exprs, i + 1, input, end, depth);
                },
                _ => {},
            }
        }
    }
}

/// The alternatives of a choice from the `i`-th on never move backwards.
pub proof fn lemma_choice_in_bounds(
    grammar: Grammar,
    exprs: Seq<Expr>,
    i: nat,
    used: bool,
    input: Seq<char>,
    pos: nat,
    depth: nat,
)
    ensures
        in_bounds(choice_outcome(grammar, exprs, i, used, input, pos, depth), input, pos),
    decreases depth, exprs, exprs.len() - i, 0nat,
{
    if i < exprs.len() {
        lemma_expr_in_bounds(grammar, exprs[i as int], used, input, pos, depth);
        if i + 1 < exprs.len() {
            lemma_choice_in_bounds(grammar, exprs, i + 1, used, input, pos, depth);
        }
    }
}

/// A repetition never moves backwards, and it never fails.
pub proof fn lemma_repeat_in_bounds(
    grammar: Grammar,
    e: Expr,
    used: bool,
    input: Seq<char>,
    pos: nat,
    depth: nat,
    values: Seq<ValueView>,
)
    ensures
        in_bounds(repeat_outcome(grammar, e, used, input, pos, depth, values), input, pos),
        !(repeat_outcome(grammar, e, used, input, pos, depth, values) matches Ok(
            OutcomeView::Failure(_),
        )),
    decreases depth, e, 1nat, input.len() - pos,
{
    match expr_outcome(grammar, e, used, input, pos, depth) {
        Ok(OutcomeView::Success(end, value)) => {
            if pos < end <= input.len() {
                lemma_repeat_in_bounds(
                    grammar,
                    e,
                    used,
                    input,
                    end,
                    depth,
                    if used {
                        values.push(value)
                    } else {
                        values
                    },
                );
            }
        },
        _ => {},
    }
}

/// The tagged expressions of an action from the `i`-th on never move
/// backwards.
pub proof fn lemma_action_in_bounds(
    grammar: Grammar,
    tagged: Seq<TaggedExpr>,
    i: nat,
    code: Seq<char>,
    input: Seq<char>,
    start: nat,
    pos: nat,
    depth: nat,
    bound: Seq<BindingView>,
)
    ensures
        in_bounds(
            action_outcome(grammar, tagged, i, code, input, start, pos, depth, bound),
            input,
            pos,
        ),
    decreases depth, tagged, tagged.len() - i, 0nat,
{
    if i < tagged.len() {
        let used = tagged[i as int].name is Some;
        lemma_expr_in_bounds(grammar, *tagged[i as int].expr, used, input, pos, depth);
        match expr_outcome(grammar, *tagged[i as int].expr, used, input, pos, depth) {
            Ok(OutcomeView::Success(end, value)) => {
                lemma_action_in_bounds(
                    grammar,
                    tagged,
                    i + 1,
                    code,
                    input,
                    start,
                    end,
                    depth,
                    bind(bound, tagged[i as int].name, value),
                );
            },
            _ => {},
        }
    }
}

/// An outcome with the value of a success left out.
pub open spec fn without_value(out: Result<OutcomeView, MatchError>) -> Result<
    OutcomeView,
    MatchError,
> {
    match out {
        Ok(OutcomeView::Success(end, _)) => Ok(OutcomeView::Success(end, ValueView::Unit)),
        other => other,
    }
}

/// Whether the value of a match is used changes nothing but the value:
/// with and without it an expression succeeds on the same inputs and ends at
/// the same position, and fails on the same inputs at the same position.
pub proof fn lemma_used_changes_value_only(
    grammar: Grammar,
    e: Expr,
    input: Seq<char>,
    pos: nat,
    depth: nat,
)
    ensures
        without_value(expr_outcome(grammar, e, true, input, pos, depth)) == without_value(
            expr_outcome(grammar, e, false, input, pos, depth),
        ),
    decreases e, 0nat, 0nat,
{
    match e {
        Expr::ChoiceExpr(exprs) => {
            lemma_used_choice(grammar, exprs@, 0, input, pos, depth);
        },
        Expr::OptionalExpr(inner) => {
            lemma_used_changes_value_only(grammar, *inner, input, pos, depth);
        },
        Expr::ZeroOrMore(inner) => {
            lemma_used_repeat(grammar, *inner, input, pos, depth, Seq::empty(), Seq::empty());
        },
        Expr::OneOrMore(inner) => {
            lemma_used_changes_value_only(grammar, *inner, input, pos, depth);
            match expr_outcome(grammar, *inner, true, input, pos, depth) {
                Ok(OutcomeView::Success(end, value)) => {
                    lemma_used_repeat(grammar, *inner, input, end, depth, seq![value], Seq::empty());
                },
                _ => {},
            }
        },
        _ => {},
    }
}

/// The alternatives of a choice from the `i`-th on succeed and fail alike
/// whether the value is used or not.
pub proof fn lemma_used_choice(
    grammar: Grammar,
    exprs: Seq<Expr>,
    i: nat,
    input: Seq<char>,
    pos: nat,
    depth: nat,
)
    ensures
        without_value(choice_outcome(grammar, exprs, i, true, input, pos, depth)) == without_value(
            choice_outcome(grammar, exprs, i, false, input, pos, depth),
        ),
    decreases exprs, exprs.len() - i, 0nat,
{
    if i < exprs.len() {
        lemma_used_changes_value_only(grammar, exprs[i as int], input, pos, depth);
        if i + 1 < exprs.len() {
            lemma_used_choice(grammar, exprs, i + 1, input, pos, depth);
        }
    }
}

/// A repetition ends at the same position whether its values are used or
/// not, and whatever values the rounds before gave.
pub proof fn lemma_used_repeat(
    grammar: Grammar,
    e: Expr,
    input: Seq<char>,
    pos: nat,
    depth: nat,
    kept: Seq<ValueView>,
    dropped: Seq<ValueView>,
)
    ensures
        without_value(repeat_outcome(grammar, e, true, input, pos, depth, kept)) == without_value(
            repeat_outcome(grammar, e, false, input, pos, depth, dropped),
        ),
    decreases e, 1nat, input.len() - pos,
{
    lemma_used_changes_value_only(grammar, e, input, pos, depth);
    match expr_outcome(grammar, e, true, input, pos, depth) {
        Ok(OutcomeView::Success(end, value)) => {
            if pos < end <= input.len() {
                lemma_used_repeat(grammar, e, input, end, depth, kept.push(value), dropped);
            }
        },
        _ => {},
    }
}

/// A character class consumes exactly one character: where the character at
/// `pos` lies in one of the ranges, the class matches and ends one character
/// later, and its inverse fails at `pos`; where it lies in none, it is the
/// other way round; at the end of the input both fail.
pub proof fn lemma_char_set_consumes_one(
    invert: bool,
    cases: Seq<CharSetCase>,
    input: Seq<char>,
    pos: nat,
)
    ensures
        pos < input.len() && in_ranges(input[pos as int], cases) != invert ==> char_set_outcome(
            invert,
            cases,
            input,
            pos,
        ) == OutcomeView::Success(pos + 1, ValueView::Unit),
        pos < input.len() && in_ranges(input[pos as int], cases) == invert ==> char_set_outcome(
            invert,
            cases,
            input,
            pos,
        ) == OutcomeView::Failure(pos),
        pos >= input.len() ==> char_set_outcome(invert, cases, input, pos) == OutcomeView::Failure(
            pos,
        ),
{
}

/// A character that lies between the two ends of one range of a class lies in
/// the class.
pub proof fn lemma_in_ranges(c: char, cases: Seq<CharSetCase>, i: int)
    requires
        0 <= i < cases.len(),
        cases[i].start <= c <= cases[i].end,
    ensures
        in_ranges(c, cases),
{
}

/// Choice is ordered: the first alternative that succeeds gives the outcome,
/// whatever the later ones would do.
pub proof fn lemma_choice_first_success(
    grammar: Grammar,
    exprs: Vec<Expr>,
    k: nat,
    used: bool,
    input: Seq<char>,
    pos: nat,
    depth: nat,
)
    requires
        k < exprs.len(),
        forall|j: int|
            0 <= j < k ==> (#[trigger] expr_outcome(grammar, exprs[j], used, input, pos, depth))
                matches Ok(OutcomeView::Failure(_)),
        expr_outcome(grammar, exprs[k as int], used, input, pos, depth) matches Ok(
            OutcomeView::Success(_, _),
        ),
    ensures
        expr_outcome(grammar, Expr::ChoiceExpr(exprs), used, input, pos, depth) == expr_outcome(
            grammar,
            exprs[k as int],
            used,
            input,
            pos,
            depth,
        ),
{
    lemma_choice_from(grammar, exprs@, 0, k, used, input, pos, depth);
}

/// Where the alternatives from the `i`-th up to the `k`-th fail, the choice
/// from the `i`-th on is the choice from the `k`-th on.
proof fn lemma_choice_from(
    grammar: Grammar,
    exprs: Seq<Expr>,
    i: nat,
    k: nat,
    used: bool,
    input: Seq<char>,
    pos: nat,
    depth: nat,
)
    requires
        i <= k < exprs.len(),
        forall|j: int|
            i <= j < k ==> (#[trigger] expr_outcome(grammar, exprs[j], used, input, pos, depth))
                matches Ok(OutcomeView::Failure(_)),
        expr_outcome(grammar, exprs[k as int], used, input, pos, depth) matches Ok(
            OutcomeView::Success(_, _),
        ),
    ensures
        choice_outcome(grammar, exprs, i, used, input, pos, depth) == expr_outcome(
            grammar,
            exprs[k as int],
            used,
            input,
            pos,
            depth,
        ),
    decreases k - i,
{
    if i < k {
        assert(expr_outcome(grammar, exprs[i as int], used, input, pos, depth) matches Ok(
            OutcomeView::Failure(_),
        ));
        lemma_choice_from(grammar, exprs, i + 1, k, used, input, pos, depth);
    }
}

/// Where every alternative of a choice fails, the choice fails as its last
/// alternative does.
pub proof fn lemma_choice_all_fail(
    grammar: Grammar,
    exprs: Vec<Expr>,
    used: bool,
    input: Seq<char>,
    pos: nat,
    depth: nat,
)
    requires
        exprs.len() > 0,
        forall|j: int|
            0 <= j < exprs.len() ==> (#[trigger] expr_outcome(
                grammar,
                exprs[j],
                used,
                input,
                pos,
                depth,
            )) matches Ok(OutcomeView::Failure(_)),
    ensures
        expr_outcome(grammar, Expr::ChoiceExpr(exprs), used, input, pos, depth) == expr_outcome(
            grammar,
            exprs[exprs.len() - 1],
            used,
            input,
            pos,
            depth,
        ),
{
    lemma_choice_all_fail_from(grammar, exprs@, 0, used, input, pos, depth);
}

proof fn lemma_choice_all_fail_from(
    grammar: Grammar,
    exprs: Seq<Expr>,
    i: nat,
    used: bool,
    input: Seq<char>,
    pos: nat,
    depth: nat,
)
    requires
        i < exprs.len(),
        forall|j: int|
            i <= j < exprs.len() ==> (#[trigger] expr_outcome(
                grammar,
                exprs[j],
                used,
                input,
                pos,
                depth,
            )) matches Ok(OutcomeView::Failure(_)),
    ensures
        choice_outcome(grammar, exprs, i, used, input, pos, depth) == expr_outcome(
            grammar,
            exprs[exprs.len() - 1],
            used,
            input,
            pos,
            depth,
        ),
    decreases exprs.len() - i,
{
    if i + 1 < exprs.len() {
        assert(expr_outcome(grammar, exprs[i as int], used, input, pos, depth) matches Ok(
            OutcomeView::Failure(_),
        ));
        lemma_choice_all_fail_from(grammar, exprs, i + 1, used, input, pos, depth);
    }
}

/// An optional expression never fails: where its expression fails, it
/// succeeds at the position it started at, with the absent value.
pub proof fn lemma_optional_never_fails(
    grammar: Grammar,
    e: Expr,
    used: bool,
    input: Seq<char>,
    pos: nat,
    depth: nat,
)
    ensures
        !(expr_outcome(grammar, Expr::OptionalExpr(Box::new(e)), used, input, pos, depth)
            matches Ok(OutcomeView::Failure(_))),
        expr_outcome(grammar, e, used, input, pos, depth) matches Ok(OutcomeView::Failure(_))
            ==> expr_outcome(grammar, Expr::OptionalExpr(Box::new(e)), used, input, pos, depth)
            == Ok::<OutcomeView, MatchError>(OutcomeView::Success(pos, ValueView::Absent)),
{
}

/// A zero-or-more repetition never fails, and where the first round fails it
/// succeeds at the position it started at, with no values.
pub proof fn lemma_zero_or_more_never_fails(
    grammar: Grammar,
    e: Expr,
    used: bool,
    input: Seq<char>,
    pos: nat,
    depth: nat,
)
    ensures
        !(expr_outcome(grammar, Expr::ZeroOrMore(Box::new(e)), used, input, pos, depth) matches Ok(
            OutcomeView::Failure(_),
        )),
        expr_outcome(grammar, e, used, input, pos, depth) matches Ok(OutcomeView::Failure(_))
            ==> expr_outcome(grammar, Expr::ZeroOrMore(Box::new(e)), used, input, pos, depth)
            == Ok::<OutcomeView, MatchError>(
            OutcomeView::Success(
                pos,
                if used {
                    ValueView::List(Seq::empty())
                } else {
                    ValueView::Unit
                },
            ),
        ),
{
    lemma_repeat_in_bounds(grammar, e, used, input, pos, depth, Seq::empty());
}

/// A one-or-more repetition needs one match: where its expression fails at
/// the start, it fails with that failure; where the expression succeeds, it
/// does not fail.
pub proof fn lemma_one_or_more_needs_one(
    grammar: Grammar,
    e: Expr,
    used: bool,
    input: Seq<char>,
    pos: nat,
    depth: nat,
)
    ensures
        expr_outcome(grammar, e, used, input, pos, depth) matches Ok(OutcomeView::Failure(_))
            ==> expr_outcome(grammar, Expr::OneOrMore(Box::new(e)), used, input, pos, depth)
            == expr_outcome(grammar, e, used, input, pos, depth),
        expr_outcome(grammar, e, used, input, pos, depth) matches Ok(OutcomeView::Success(_, _))
            ==> !(expr_outcome(grammar, Expr::OneOrMore(Box::new(e)), used, input, pos, depth)
            matches Ok(OutcomeView::Failure(_))),
{
    match expr_outcome(grammar, e, used, input, pos, depth) {
        Ok(OutcomeView::Success(end, value)) => {
            lemma_repeat_in_bounds(
                grammar,
                e,
                used,
                input,
                end,
                depth,
                if used {
                    seq![value]
                } else {
                    Seq::empty()
                },
            );
        },
        _ => {},
    }
}

/// Lookahead consumes nothing. A positive assertion succeeds where its
/// expression succeeds and fails where it fails, a negative assertion the
/// other way round, and both succeed and fail at the position they started
/// at.
pub proof fn lemma_lookahead_consumes_nothing(
    grammar: Grammar,
    e: Expr,
    used: bool,
    input: Seq<char>,
    pos: nat,
    depth: nat,
)
    ensures
        expr_outcome(grammar, e, false, input, pos, depth) matches Ok(OutcomeView::Success(_, _))
            ==> {
            &&& expr_outcome(grammar, Expr::PosAssertExpr(Box::new(e)), used, input, pos, depth)
                == Ok::<OutcomeView, MatchError>(OutcomeView::Success(pos, ValueView::Unit))
            &&& expr_outcome(grammar, Expr::NegAssertExpr(Box::new(e)), used, input, pos, depth)
                == Ok::<OutcomeView, MatchError>(OutcomeView::Failure(pos))
        },
        expr_outcome(grammar, e, false, input, pos, depth) matches Ok(OutcomeView::Failure(_))
            ==> {
            &&& expr_outcome(grammar, Expr::PosAssertExpr(Box::new(e)), used, input, pos, depth)
                == Ok::<OutcomeView, MatchError>(OutcomeView::Failure(pos))
            &&& expr_outcome(grammar, Expr::NegAssertExpr(Box::new(e)), used, input, pos, depth)
                == Ok::<OutcomeView, MatchError>(OutcomeView::Success(pos, ValueView::Unit))
        },
{
}

/// An entry function gives a value only for a match of the whole input: where
/// it gives one, the rule is exported and its match from the start ends at
/// the end of the input with that value.
pub proof fn lemma_entry_full_match(
    grammar: Grammar,
    name: Seq<char>,
    input: Seq<char>,
    depth: nat,
    value: ValueView,
)
    requires
        entry_result(grammar, name, input, depth) == Ok::<Result<ValueView, Seq<char>>, MatchError>(
            Ok(value),
        ),
    ensures
        find_rule(grammar.rules@, name, 0) matches Some(rule) && rule.exported,
        rule_outcome(grammar, name, input, 0, depth) == Ok::<OutcomeView, MatchError>(
            OutcomeView::Success(input.len(), value),
        ),
{
}

/// The depth bound only bounds: a match that has an outcome within a bound
/// has the same outcome within every greater bound.
pub proof fn lemma_deeper_changes_nothing(
    grammar: Grammar,
    e: Expr,
    used: bool,
    input: Seq<char>,
    pos: nat,
    depth: nat,
    deeper: nat,
)
    requires
        depth <= deeper,
        expr_outcome(grammar, e, used, input, pos, depth) != Err::<OutcomeView, MatchError>(
            MatchError::DepthExceeded,
        ),
    ensures
        expr_outcome(grammar, e, used, input, pos, deeper) == expr_outcome(
            grammar,
            e,
            used,
            input,
            pos,
            depth,
        ),
    decreases depth, e, 0nat, 0nat,
{
    match e {
        Expr::RuleExpr(name) => {
            match find_rule(grammar.rules@, name@, 0) {
                None => {},
                Some(rule) => {
                    lemma_deeper_changes_nothing(
                        grammar,
                        *rule.expr,
                        rule.value_used(),
                        input,
                        pos,
                        (depth - 1) as nat,
                        (deeper - 1) as nat,
                    );
                },
            }
        },
        Expr::SequenceExpr(exprs) => {
            lemma_deeper_seq(grammar, exprs@, 0, input, pos, depth, deeper);
        },
        Expr::ChoiceExpr(exprs) => {
            lemma_deeper_choice(grammar, exprs@, 0, used, input, pos, depth, deeper);
        },
        Expr::OptionalExpr(inner) => {
            lemma_deeper_changes_nothing(grammar, *inner, used, input, pos, depth, deeper);
        },
        Expr::ZeroOrMore(inner) => {
            lemma_deeper_repeat(grammar, *inner, used, input, pos, depth, deeper, Seq::empty());
        },
        Expr::OneOrMore(inner) => {
            lemma_deeper_changes_nothing(grammar, *inner, used, input, pos, depth, deeper);
            match expr_outcome(grammar, *inner, used, input, pos, depth) {
                Ok(OutcomeView::Success(end, value)) => {
                    lemma_deeper_repeat(
                        grammar,
                        *inner,
                        used,
                        input,
                        end,
                        depth,
                        deeper,
                        if used {
                            seq![value]
                        } else {
                            Seq::empty()
                        },
                    );
                },
                _ => {},
            }
        },
        Expr::PosAssertExpr(inner) => {
            lemma_deeper_changes_nothing(grammar, *inner, false, input, pos, depth, deeper);
        },
        Expr::NegAssertExpr(inner) => {
            lemma_deeper_changes_nothing(grammar, *inner, false, input, pos, depth, deeper);
        },
        Expr::ActionExpr(tagged, code) => {
            lemma_deeper_action(
                grammar,
                tagged@,
                0,
                code@,
                input,
                pos,
                pos,
                depth,
                deeper,
                Seq::empty(),
            );
        },
        _ => {},
    }
}

/// The same for the elements of a sequence from the `i`-th on.
pub proof fn lemma_deeper_seq(
    grammar: Grammar,
    exprs: Seq<Expr>,
    i: nat,
    input: Seq<char>,
    pos: nat,
    depth: nat,
    deeper: nat,
)
    requires
        depth <= deeper,
        seq_outcome(grammar, exprs, i, input, pos, depth) != Err::<OutcomeView, MatchError>(
            MatchError::DepthExceeded,
        ),
    ensures
        seq_outcome(grammar, exprs, i, input, pos, deeper) == seq_outcome(
            grammar,
            exprs,
            i,
            input,
            pos,
            depth,
        ),
    decreases depth, exprs, exprs.len() - i, 0nat,
{
    if i < exprs.len() {
        lemma_deeper_changes_nothing(grammar, exprs[i as int], false, input, pos, depth, deeper);
        if i + 1 < exprs.len() {
            match expr_outcome(grammar, exprs[i as int], false, input, pos, depth) {
                Ok(OutcomeView::Success(end, _)) => {
                    lemma_deeper_seq(grammar, exprs, i + 1, input, end, depth, deeper);
                },
                _ => {},
            }
        }
    }
}

/// The same for the alternatives of a choice from the `i`-th on.
pub proof fn lemma_deeper_choice(
    grammar: Grammar,
    exprs: Seq<Expr>,
    i: nat,
    used: bool,
    input: Seq<char>,
    pos: nat,
    depth: nat,
    deeper: nat,
)
    requires
        depth <= deeper,
        choice_outcome(grammar, exprs, i, used, input, pos, depth) != Err::<
            OutcomeView,
            MatchError,
        >(MatchError::DepthExceeded),
    ensures
        choice_outcome(grammar, exprs, i, used, input, pos, deeper) == choice_outcome(
            grammar,
            exprs,
            i,
            used,
            input,
            pos,
            depth,
        ),
    decreases depth, exprs, exprs.len() - i, 0nat,
{
    if i < exprs.len() {
        lemma_deeper_changes_nothing(grammar, exprs[i as int], used, input, pos, depth, deeper);
        if i + 1 < exprs.len() {
            match expr_outcome(grammar, exprs[i as int], used, input, pos, depth) {
                Ok(OutcomeView::Failure(_)) => {
                    lemma_deeper_choice(grammar, exprs, i + 1, used, input, pos, depth, deeper);
                },
                _ => {},
            }
        }
    }
}

/// The same for a repetition.
pub proof fn lemma_deeper_repeat(
    grammar: Grammar,
    e: Expr,
    used: bool,
    input: Seq<char>,
    pos: nat,
    depth: nat,
    deeper: nat,
    values: Seq<ValueView>,
)
    requires
        depth <= deeper,
        repeat_outcome(grammar, e, used, input, pos, depth, values) != Err::<
            OutcomeView,
            MatchError,
        >(MatchError::DepthExceeded),
    ensures
        repeat_outcome(grammar, e, used, input, pos, deeper, values) == repeat_outcome(
            grammar,
            e,
            used,
            input,
            pos,
            depth,
            values,
        ),
    decreases depth, e, 1nat, input.len() - pos,
{
    lemma_deeper_changes_nothing(grammar, e, used, input, pos, depth, deeper);
    match expr_outcome(grammar, e, used, input, pos, depth) {
        Ok(OutcomeView::Success(end, value)) => {
            if pos < end <= input.len() {
                lemma_deeper_repeat(
                    grammar,
                    e,
                    used,
                    input,
                    end,
                    depth,
                    deeper,
                    if used {
                        values.push(value)
                    } else {
                        values
                    },
                );
            }
        },
        _ => {},
    }
}

/// The same for the tagged expressions of an action from the `i`-th on.
pub proof fn lemma_deeper_action(
    grammar: Grammar,
    tagged: Seq<TaggedExpr>,
    i: nat,
    code: Seq<char>,
    input: Seq<char>,
    start: nat,
    pos: nat,
    depth: nat,
    deeper: nat,
    bound: Seq<BindingView>,
)
    requires
        depth <= deeper,
        action_outcome(grammar, tagged, i, code, input, start, pos, depth, bound) != Err::<
            OutcomeView,
            MatchError,
        >(MatchError::DepthExceeded),
    ensures
        action_outcome(grammar, tagged, i, code, input, start, pos, deeper, bound)
            == action_outcome(grammar, tagged, i, code, input, start, pos, depth, bound),
    decreases depth, tagged, tagged.len() - i, 0nat,
{
    if i < tagged.len() {
        let used = tagged[i as int].name is Some;
        lemma_deeper_changes_nothing(grammar, *tagged[i as int].expr, used, input, pos, depth, deeper);
        match expr_outcome(grammar, *tagged[i as int].expr, used, input, pos, depth) {
            Ok(OutcomeView::Success(end, value)) => {
                lemma_deeper_action(
                    grammar,
                    tagged,
                    i + 1,
                    code,
                    input,
                    start,
                    end,
                    depth,
                    deeper,
                    bind(bound, tagged[i as int].name, value),
                );
            },
            _ => {},
        }
    }
}

} // verus!
