//! From expressions to programs of the target language: the program whose
//! text the compiler emits.

use vstd::prelude::*;
use crate::code::{
    if_else_code, match_inline_case_code, let_block_code, let_stmt_code, loop_block_code,
    match_block_code, match_case_code, CodeView,
};
use crate::compile::{char_set_code, match_and_then_code, zero_or_more_code};
use crate::grammar::{CharSetCase, Expr, TaggedExpr};
use crate::target::{
    arm_code, body_code, pattern_text, term_text, var_text, Arm, Body, Pattern, Term, Var,
};

verus! {

/// Runs `inner` and, where it succeeds, goes on with `then` at the position
/// it reached, its value bound to `name`; a failure is handed on.
pub open spec fn and_then(inner: Body, name: Option<Var>, then: Body) -> Body {
    Body::LetBlock(
        Var::SeqRes,
        Box::new(inner),
        Box::new(
            Body::Match(
                Var::SeqRes,
                Box::new(Arm::Inline(Pattern::Failure, Term::Failure)),
                Box::new(Arm::Nested(Pattern::Success(name), then)),
            ),
        ),
    )
}

/// The program of one round of a repetition.
pub open spec fn round(inner: Body, used: bool) -> Body {
    Body::LetBlock(
        Var::StepRes,
        Box::new(Body::Let(Var::Pos, Term::Var(Var::RepeatPos), Box::new(inner))),
        Box::new(
            Body::Match(
                Var::StepRes,
                Box::new(
                    Arm::Nested(
                        Pattern::Round(used),
                        Body::Advance(
                            Box::new(
                                if used {
                                    Body::Collect(Box::new(Body::End))
                                } else {
                                    Body::End
                                },
                            ),
                        ),
                    ),
                ),
                Box::new(Arm::Nested(Pattern::AnyFailure, Body::Break)),
            ),
        ),
    )
}

/// Repeats `inner` until it fails. With `first` the list of values starts
/// with the value of a round that went before.
pub open spec fn repeat(inner: Body, used: bool, first: bool) -> Body {
    let rounds = Body::Loop(
        Box::new(round(inner, used)),
        Box::new(Body::Tail(Term::SuccessRepeat(used))),
    );
    Body::LetMut(
        Var::RepeatPos,
        Term::Var(Var::Pos),
        Box::new(
            if used {
                Body::LetMut(
                    Var::RepeatValue,
                    if first {
                        Term::First
                    } else {
                        Term::Empty
                    },
                    Box::new(rounds),
                )
            } else {
                rounds
            },
        ),
    )
}

/// Reads one character and matches it against the ranges.
pub open spec fn char_set(invert: bool, cases: Seq<CharSetCase>) -> Body {
    let hit = if invert {
        Term::Failure
    } else {
        Term::SuccessNext
    };
    let miss = if invert {
        Term::SuccessNext
    } else {
        Term::Failure
    };
    Body::IfMore(
        Box::new(
            Body::Let(
                Var::Ch,
                Term::CharAt,
                Box::new(
                    Body::Let(Var::Next, Term::After, Box::new(Body::MatchChar(cases, hit, miss))),
                ),
            ),
        ),
        Box::new(Body::Tail(Term::Failure)),
    )
}

/// The variable that the value of a tagged expression is bound to.
pub open spec fn capture(name: Option<String>) -> Option<Var> {
    match name {
        Some(n) => Some(Var::Captured(n@)),
        None => None,
    }
}

/// The code emitted for an expression: the text of its program.
/// `result_used` says whether the value of a successful match is needed;
/// repetitions collect values only then.
pub open spec fn expr_code(e: Expr, result_used: bool) -> Seq<CodeView> {
    body_code(lower(e, result_used))
}

/// The program emitted for an expression.
pub open spec fn lower(e: Expr, used: bool) -> Body
    decreases e, 0nat, 0nat,
{
    match e {
        Expr::AnyCharExpr => Body::Tail(Term::AnyChar),
        Expr::LiteralExpr(s) => Body::Tail(Term::SliceEq(s@)),
        Expr::CharSetExpr(invert, cases) => char_set(invert, cases@),
        Expr::RuleExpr(name) => Body::Tail(Term::Call(name@)),
        Expr::SequenceExpr(exprs) => lower_seq(exprs@, 0),
        Expr::ChoiceExpr(exprs) => lower_choice(exprs@, 0, used),
        Expr::OptionalExpr(inner) => Body::LetBlock(
            Var::OptionalRes,
            Box::new(lower(*inner, used)),
            Box::new(
                Body::Match(
                    Var::OptionalRes,
                    Box::new(Arm::Inline(Pattern::Round(true), Term::SuccessPresent)),
                    Box::new(Arm::Inline(Pattern::AnyFailure, Term::SuccessAbsent)),
                ),
            ),
        ),
        Expr::ZeroOrMore(inner) => repeat(lower(*inner, used), used, false),
        Expr::OneOrMore(inner) => and_then(
            lower(*inner, used),
            if used {
                Some(Var::FirstValue)
            } else {
                None
            },
            repeat(lower(*inner, used), used, true),
        ),
        Expr::DelimitedExpr(_, _) => Body::End,
        Expr::PosAssertExpr(inner) => Body::LetBlock(
            Var::AssertRes,
            Box::new(lower(*inner, false)),
            Box::new(
                Body::Match(
                    Var::AssertRes,
                    Box::new(Arm::Inline(Pattern::AnySuccess, Term::Success)),
                    Box::new(Arm::Inline(Pattern::AnyFailure, Term::Failure)),
                ),
            ),
        ),
        Expr::NegAssertExpr(inner) => Body::LetBlock(
            Var::NegAssertRes,
            Box::new(lower(*inner, false)),
            Box::new(
                Body::Match(
                    Var::NegAssertRes,
                    Box::new(Arm::Inline(Pattern::AnyFailure, Term::Success)),
                    Box::new(Arm::Inline(Pattern::AnySuccess, Term::Failure)),
                ),
            ),
        ),
        Expr::StringifyExpr(_) => Body::End,
        Expr::ActionExpr(tagged, code) => Body::Start(Box::new(lower_action(tagged@, 0, code@))),
    }
}

/// The program emitted for the elements of a sequence from the `i`-th on.
pub open spec fn lower_seq(exprs: Seq<Expr>, i: nat) -> Body
    decreases exprs, exprs.len() - i, 0nat,
{
    if i >= exprs.len() {
        Body::Tail(Term::Success)
    } else if i + 1 == exprs.len() {
        lower(exprs[i as int], false)
    } else {
        and_then(lower(exprs[i as int], false), None, lower_seq(exprs, i + 1))
    }
}

/// The program emitted for the alternatives of a choice from the `i`-th on.
pub open spec fn lower_choice(exprs: Seq<Expr>, i: nat, used: bool) -> Body
    decreases exprs, exprs.len() - i, 0nat,
{
    if i >= exprs.len() {
        Body::Tail(Term::Failure)
    } else if i + 1 == exprs.len() {
        lower(exprs[i as int], used)
    } else {
        Body::LetBlock(
            Var::ChoiceRes,
            Box::new(lower(exprs[i as int], used)),
            Box::new(
                Body::Match(
                    Var::ChoiceRes,
                    Box::new(Arm::Inline(Pattern::SuccessValue, Term::SuccessValue)),
                    Box::new(Arm::Nested(Pattern::AnyFailure, lower_choice(exprs, i + 1, used))),
                ),
            ),
        )
    }
}

/// The program emitted for the tagged expressions of an action from the
/// `i`-th on, and for the action itself.
pub open spec fn lower_action(tagged: Seq<TaggedExpr>, i: nat, code: Seq<char>) -> Body
    decreases tagged, tagged.len() - i, 0nat,
{
    if i >= tagged.len() {
        Body::Let(Var::MatchStr, Term::Matched, Box::new(Body::Tail(Term::SuccessAction(code))))
    } else {
        and_then(
            lower(*tagged[i as int].expr, tagged[i as int].name is Some),
            capture(tagged[i as int].name),
            lower_action(tagged, i + 1, code),
        )
    }
}

/// The program of the entry function of the exported rule `name`: it calls
/// the rule at the start of the input and gives the value where the match
/// ends at the end of the input, and otherwise a message with the line of
/// the position at which the match ended or failed.
pub open spec fn entry_body(name: Seq<char>) -> Body {
    Body::MatchCall(
        name,
        Box::new(
            Arm::Nested(
                Pattern::SuccessValue,
                Body::IfEnd(
                    Box::new(Body::Tail(Term::Answer)),
                    Box::new(Body::Tail(Term::Expected)),
                ),
            ),
        ),
        Box::new(Arm::Inline(Pattern::Failure, Term::ErrorAt)),
    )
}

/// The code of the entry function.
pub proof fn lemma_entry_code(name: Seq<char>)
    ensures
        body_code(entry_body(name)) == seq![
            match_block_code(
                "parse_"@ + name + "(input, 0)"@,
                seq![
                    match_case_code(
                        "Ok((pos, value))"@,
                        if_else_code(
                            "pos == input.len()"@,
                            seq![CodeView::Line(term_text(Term::Answer))],
                            seq![CodeView::Line(term_text(Term::Expected))],
                        ),
                    ),
                    match_inline_case_code("Err(pos)"@, term_text(Term::ErrorAt)),
                ],
            ),
        ],
{
    reveal_with_fuel(body_code, 3);
    reveal_with_fuel(arm_code, 2);
    let answer = Body::Tail(Term::Answer);
    let expected = Body::Tail(Term::Expected);
    let at_end = Body::IfEnd(Box::new(answer), Box::new(expected));
    assert(body_code(answer) =~= seq![CodeView::Line(term_text(Term::Answer))]);
    assert(body_code(expected) =~= seq![CodeView::Line(term_text(Term::Expected))]);
    assert(body_code(at_end) == if_else_code(
        "pos == input.len()"@,
        body_code(answer),
        body_code(expected),
    ));
    let take = Arm::Nested(Pattern::SuccessValue, at_end);
    let fail = Arm::Inline(Pattern::Failure, Term::ErrorAt);
    assert(arm_code(take) == match_case_code("Ok((pos, value))"@, body_code(at_end)));
    assert(arm_code(fail) == match_inline_case_code("Err(pos)"@, term_text(Term::ErrorAt)));
    assert(body_code(entry_body(name)) =~= seq![
        match_block_code("parse_"@ + name + "(input, 0)"@, seq![arm_code(take), arm_code(fail)]),
    ]);
}

/// The code of `and_then`.
pub proof fn lemma_and_then_code(inner: Body, name: Option<Var>, then: Body)
    ensures
        body_code(and_then(inner, name, then)) == match_and_then_code(
            body_code(inner),
            match name {
                Some(v) => Some(var_text(v)),
                None => None,
            },
            body_code(then),
        ),
{
    reveal_with_fuel(body_code, 3);
    reveal_with_fuel(arm_code, 2);
    let arms = seq![
        arm_code(Arm::Inline(Pattern::Failure, Term::Failure)),
        arm_code(Arm::Nested(Pattern::Success(name), then)),
    ];
    assert(body_code(
        Body::Match(
            Var::SeqRes,
            Box::new(Arm::Inline(Pattern::Failure, Term::Failure)),
            Box::new(Arm::Nested(Pattern::Success(name), then)),
        ),
    ) =~= seq![match_block_code("seq_res"@, arms)]);
    assert(body_code(and_then(inner, name, then)) =~= match_and_then_code(
        body_code(inner),
        match name {
            Some(v) => Some(var_text(v)),
            None => None,
        },
        body_code(then),
    ));
}

/// The code of `repeat`.
pub proof fn lemma_repeat_code(inner: Body, used: bool, first: bool)
    ensures
        body_code(repeat(inner, used, first)) == zero_or_more_code(
            body_code(inner),
            if used {
                Some(
                    if first {
                        "vec![first_value]"@
                    } else {
                        "vec![]"@
                    },
                )
            } else {
                None
            },
        ),
{
    reveal_with_fuel(body_code, 4);
    reveal_with_fuel(arm_code, 2);
    let advance = Body::Advance(
        Box::new(
            if used {
                Body::Collect(Box::new(Body::End))
            } else {
                Body::End
            },
        ),
    );
    assert(body_code(advance) =~= seq![CodeView::Line("repeat_pos = newpos;"@)] + (if used {
        seq![CodeView::Line("repeat_value.push(value);"@)]
    } else {
        Seq::empty()
    }));
    let step = Body::Let(Var::Pos, Term::Var(Var::RepeatPos), Box::new(inner));
    assert(body_code(step) =~= seq![let_stmt_code("pos"@, "repeat_pos"@)] + body_code(inner));
    let dispatch = Body::Match(
        Var::StepRes,
        Box::new(Arm::Nested(Pattern::Round(used), advance)),
        Box::new(Arm::Nested(Pattern::AnyFailure, Body::Break)),
    );
    assert(body_code(Body::Break) =~= seq![CodeView::Line("break;"@)]);
    assert(body_code(dispatch) =~= seq![
        match_block_code(
            "step_res"@,
            seq![
                match_case_code(pattern_text(Pattern::Round(used)), body_code(advance)),
                match_case_code("Err(..)"@, seq![CodeView::Line("break;"@)]),
            ],
        ),
    ]);
    let round = Body::LetBlock(Var::StepRes, Box::new(step), Box::new(dispatch));
    assert(body_code(round) =~= seq![
        let_block_code("step_res"@, body_code(step)),
        body_code(dispatch)[0],
    ]);
    let rounds = Body::Loop(Box::new(round), Box::new(Body::Tail(Term::SuccessRepeat(used))));
    assert(body_code(rounds) =~= seq![
        loop_block_code(body_code(round)),
        CodeView::Line(term_text(Term::SuccessRepeat(used))),
    ]);
    assert(body_code(repeat(inner, used, first)) =~= zero_or_more_code(
        body_code(inner),
        if used {
            Some(
                if first {
                    "vec![first_value]"@
                } else {
                    "vec![]"@
                },
            )
        } else {
            None
        },
    ));
}

/// The code of a character class.
pub proof fn lemma_char_set_code(invert: bool, cases: Seq<CharSetCase>)
    ensures
        body_code(char_set(invert, cases)) == char_set_code(invert, cases),
{
    reveal_with_fuel(body_code, 4);
    let hit = if invert {
        Term::Failure
    } else {
        Term::SuccessNext
    };
    let miss = if invert {
        Term::SuccessNext
    } else {
        Term::Failure
    };
    let dispatch = Body::MatchChar(cases, hit, miss);
    let read = Body::Let(
        Var::Ch,
        Term::CharAt,
        Box::new(Body::Let(Var::Next, Term::After, Box::new(dispatch))),
    );
    assert(body_code(read) =~= seq![
        let_stmt_code("ch"@, "input[pos..].chars().next().unwrap()"@),
        let_stmt_code("next"@, "pos + ch.len_utf8()"@),
        body_code(dispatch)[0],
    ]);
    assert(body_code(char_set(invert, cases)) =~= char_set_code(invert, cases));
}

/// The code of a binding to the outcome of a block, followed by a dispatch on
/// it.
pub proof fn lemma_dispatch_code(v: Var, inner: Body, first: Arm, second: Arm)
    ensures
        body_code(
            Body::LetBlock(
                v,
                Box::new(inner),
                Box::new(Body::Match(v, Box::new(first), Box::new(second))),
            ),
        ) == seq![
            let_block_code(var_text(v), body_code(inner)),
            match_block_code(var_text(v), seq![arm_code(first), arm_code(second)]),
        ],
{
    reveal_with_fuel(body_code, 3);
    assert(body_code(
        Body::LetBlock(
            v,
            Box::new(inner),
            Box::new(Body::Match(v, Box::new(first), Box::new(second))),
        ),
    ) =~= seq![
        let_block_code(var_text(v), body_code(inner)),
        match_block_code(var_text(v), seq![arm_code(first), arm_code(second)]),
    ]);
}

} // verus!
