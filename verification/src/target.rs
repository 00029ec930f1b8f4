//! The emitted code as a program: the few constructs of the target language
//! that the compiler uses, each with the text it stands for.
//!
//! A block here is a chain: each statement holds the rest of its block. Its
//! text is the emitted code; what it computes is given in `meaning`.
//!
//! Variables are told apart by what they are for. Their names tell them apart
//! as well, so long as no tagged expression is named like a variable that
//! the emitted code uses for itself: see `lemma_var_text_injective`.

use vstd::prelude::*;
use crate::code::{
    if_else_code, let_block_code, let_mut_stmt_code, let_stmt_code, loop_block_code,
    match_block_code, match_case_code, match_inline_case_code, CodeView,
};
use crate::grammar::CharSetCase;
use crate::text::{escape, escape_char};

verus! {

/// A variable of the emitted code.
pub enum Var {
    /// `pos`: the position at which to match.
    Pos,
    /// `next`: the position after the character just read.
    Next,
    /// `newpos`: the position a round of a repetition reached.
    Newpos,
    /// `repeat_pos`: the position a repetition has reached.
    RepeatPos,
    /// `start_pos`: the position at which an action started.
    StartPos,
    /// `ch`: the character just read.
    Ch,
    /// `value`: the value of a successful match.
    Value,
    /// `first_value`: the value of the first round of a repetition.
    FirstValue,
    /// `repeat_value`: the values of the rounds of a repetition.
    RepeatValue,
    /// `match_str`: the text an action matched.
    MatchStr,
    /// `seq_res`, `choice_res`, `optional_res`, `step_res`, `assert_res`,
    /// `neg_assert_res`: the outcome of a part of an expression.
    SeqRes,
    ChoiceRes,
    OptionalRes,
    StepRes,
    AssertRes,
    NegAssertRes,
    /// The name of a tagged expression.
    Captured(Seq<char>),
}

/// An expression of the emitted code.
pub enum Term {
    /// A variable.
    Var(Var),
    /// `any_char(input, pos)`
    AnyChar,
    /// `slice_eq(input, pos, "text")`
    SliceEq(Seq<char>),
    /// `parse_name(input, pos)`
    Call(Seq<char>),
    /// `Err(pos)`
    Failure,
    /// `Ok((pos, ()))`
    Success,
    /// `Ok((next, ()))`
    SuccessNext,
    /// `Ok((pos, value))`
    SuccessValue,
    /// `Ok((newpos, Some(value)))`
    SuccessPresent,
    /// `Ok((pos, None))`
    SuccessAbsent,
    /// `Ok((repeat_pos, repeat_value))`, or `Ok((repeat_pos, ()))` where the
    /// values are not used.
    SuccessRepeat(bool),
    /// `Ok((pos, {code}))`: the value is what the code of an action gives.
    SuccessAction(Seq<char>),
    /// `input[pos..].chars().next().unwrap()`
    CharAt,
    /// `pos + ch.len_utf8()`
    After,
    /// `&input[start_pos..pos]`
    Matched,
    /// `vec![]`
    Empty,
    /// `vec![first_value]`
    First,
    /// `Ok(value)`: what an entry function gives for a match of the whole
    /// input.
    Answer,
    /// `Err("Expected end of input at line ".to_string() +
    /// &pos_to_line(input, pos).to_string())`
    Expected,
    /// `Err("Error at line ".to_string() + &pos_to_line(input, pos).to_string())`
    ErrorAt,
}

/// The pattern of a case.
pub enum Pattern {
    /// `Err(pos)`
    Failure,
    /// `Err(..)`
    AnyFailure,
    /// `Ok(..)`
    AnySuccess,
    /// `Ok((pos, variable))`, or `Ok((pos, _))` without a variable.
    Success(Option<Var>),
    /// `Ok((pos, value))`
    SuccessValue,
    /// `Ok((newpos, value))`, or `Ok((newpos, _))` where the value is not
    /// used.
    Round(bool),
}

/// A case of a dispatch.
pub enum Arm {
    /// `pattern => term,`
    Inline(Pattern, Term),
    /// `pattern => { block }`
    Nested(Pattern, Body),
}

/// A block of the emitted code: a function body, or the body of a case, a
/// branch, a loop or a binding.
pub enum Body {
    /// The term that gives the block its value.
    Tail(Term),
    /// The end of a block without a value.
    End,
    /// `break;`
    Break,
    /// `let variable = term;`
    Let(Var, Term, Box<Body>),
    /// `let mut variable = term;`
    LetMut(Var, Term, Box<Body>),
    /// `let start_pos = pos;` at the start of an action.
    Start(Box<Body>),
    /// `let variable = { block };`
    LetBlock(Var, Box<Body>, Box<Body>),
    /// `repeat_pos = newpos;`
    Advance(Box<Body>),
    /// `repeat_value.push(value);`
    Collect(Box<Body>),
    /// `loop { block }`
    Loop(Box<Body>, Box<Body>),
    /// `match variable { case case }`
    Match(Var, Box<Arm>, Box<Arm>),
    /// `match ch { ranges => { term } _ => term, }`
    MatchChar(Seq<CharSetCase>, Term, Term),
    /// `if input.len() > pos { block } else { block }`
    IfMore(Box<Body>, Box<Body>),
    /// `if pos == input.len() { block } else { block }`
    IfEnd(Box<Body>, Box<Body>),
    /// `match parse_name(input, 0) { case case }`
    MatchCall(Seq<char>, Box<Arm>, Box<Arm>),
}

/// The pattern that binds the value of a successful match to `name`, or
/// drops it where there is no name.
pub open spec fn ok_pattern(name: Option<Seq<char>>) -> Seq<char> {
    "Ok((pos, "@ + (match name {
        Some(n) => n,
        None => "_"@,
    }) + "))"@
}

/// The pattern of one range of a character class.
pub open spec fn case_pattern(case: CharSetCase) -> Seq<char> {
    if case.start == case.end {
        "'"@ + escape_char(case.start) + "'"@
    } else {
        "'"@ + escape_char(case.start) + "'..='"@ + escape_char(case.end) + "'"@
    }
}

/// The pattern of the first `n` ranges of a character class, joined by bars.
pub open spec fn cases_pattern(cases: Seq<CharSetCase>, n: nat) -> Seq<char>
    decreases n,
{
    if n == 0 {
        Seq::empty()
    } else if n == 1 {
        case_pattern(cases[0])
    } else {
        cases_pattern(cases, (n - 1) as nat) + " | "@ + case_pattern(cases[n - 1])
    }
}

/// The name of a variable.
pub open spec fn var_text(v: Var) -> Seq<char> {
    match v {
        Var::Pos => "pos"@,
        Var::Next => "next"@,
        Var::Newpos => "newpos"@,
        Var::RepeatPos => "repeat_pos"@,
        Var::StartPos => "start_pos"@,
        Var::Ch => "ch"@,
        Var::Value => "value"@,
        Var::FirstValue => "first_value"@,
        Var::RepeatValue => "repeat_value"@,
        Var::MatchStr => "match_str"@,
        Var::SeqRes => "seq_res"@,
        Var::ChoiceRes => "choice_res"@,
        Var::OptionalRes => "optional_res"@,
        Var::StepRes => "step_res"@,
        Var::AssertRes => "assert_res"@,
        Var::NegAssertRes => "neg_assert_res"@,
        Var::Captured(name) => name,
    }
}

/// Whether a name is one that the emitted code uses for itself.
pub open spec fn reserved(name: Seq<char>) -> bool {
    ||| name == "input"@
    ||| name == "pos"@
    ||| name == "next"@
    ||| name == "newpos"@
    ||| name == "repeat_pos"@
    ||| name == "start_pos"@
    ||| name == "ch"@
    ||| name == "value"@
    ||| name == "first_value"@
    ||| name == "repeat_value"@
    ||| name == "match_str"@
    ||| name == "seq_res"@
    ||| name == "choice_res"@
    ||| name == "optional_res"@
    ||| name == "step_res"@
    ||| name == "assert_res"@
    ||| name == "neg_assert_res"@
}

/// Whether a variable is one of the emitted code's own, or the name of a
/// tagged expression that is not named like one of those.
pub open spec fn apart(v: Var) -> bool {
    match v {
        Var::Captured(name) => !reserved(name),
        _ => true,
    }
}

/// Two variables with the same name are the same variable.
pub proof fn lemma_var_text_injective(a: Var, b: Var)
    requires
        apart(a),
        apart(b),
        var_text(a) == var_text(b),
    ensures
        a == b,
{
    broadcast use vstd::string::group_string_axioms;

    reveal_strlit("pos");
    reveal_strlit("next");
    reveal_strlit("newpos");
    reveal_strlit("repeat_pos");
    reveal_strlit("start_pos");
    reveal_strlit("ch");
    reveal_strlit("value");
    reveal_strlit("first_value");
    reveal_strlit("repeat_value");
    reveal_strlit("match_str");
    reveal_strlit("seq_res");
    reveal_strlit("choice_res");
    reveal_strlit("optional_res");
    reveal_strlit("step_res");
    reveal_strlit("assert_res");
    reveal_strlit("neg_assert_res");
    assert("pos"@.len() == 3 && "pos"@[0] == 'p');
    assert("next"@.len() == 4 && "next"@[0] == 'n');
    assert("newpos"@.len() == 6 && "newpos"@[0] == 'n');
    assert("repeat_pos"@.len() == 10 && "repeat_pos"@[0] == 'r');
    assert("start_pos"@.len() == 9 && "start_pos"@[0] == 's');
    assert("ch"@.len() == 2 && "ch"@[0] == 'c');
    assert("value"@.len() == 5 && "value"@[0] == 'v');
    assert("first_value"@.len() == 11 && "first_value"@[0] == 'f');
    assert("repeat_value"@.len() == 12 && "repeat_value"@[0] == 'r');
    assert("match_str"@.len() == 9 && "match_str"@[0] == 'm');
    assert("seq_res"@.len() == 7 && "seq_res"@[0] == 's');
    assert("choice_res"@.len() == 10 && "choice_res"@[0] == 'c');
    assert("optional_res"@.len() == 12 && "optional_res"@[0] == 'o');
    assert("step_res"@.len() == 8 && "step_res"@[0] == 's');
    assert("assert_res"@.len() == 10 && "assert_res"@[0] == 'a');
    assert("neg_assert_res"@.len() == 14 && "neg_assert_res"@[0] == 'n');
    let x = var_text(a);
    assert(x.len() == var_text(b).len());
    assert(x[0] == var_text(b)[0]);
    if a is Captured {
        assert(!(b is Captured) ==> reserved(var_text(b)));
        assert(b->Captured_0 == a->Captured_0);
    } else {
        assert(reserved(x));
    }
}

/// The text of a term.
pub open spec fn term_text(t: Term) -> Seq<char> {
    match t {
        Term::Var(v) => var_text(v),
        Term::AnyChar => "any_char(input, pos)"@,
        Term::SliceEq(text) => "slice_eq(input, pos, \""@ + escape(text) + "\")"@,
        Term::Call(name) => "parse_"@ + name + "(input, pos)"@,
        Term::Failure => "Err(pos)"@,
        Term::Success => "Ok((pos, ()))"@,
        Term::SuccessNext => "Ok((next, ()))"@,
        Term::SuccessValue => "Ok((pos, value))"@,
        Term::SuccessPresent => "Ok((newpos, Some(value)))"@,
        Term::SuccessAbsent => "Ok((pos, None))"@,
        Term::SuccessRepeat(used) => if used {
            "Ok((repeat_pos, repeat_value))"@
        } else {
            "Ok((repeat_pos, ()))"@
        },
        Term::SuccessAction(code) => "Ok((pos, {"@ + code + "}))"@,
        Term::CharAt => "input[pos..].chars().next().unwrap()"@,
        Term::After => "pos + ch.len_utf8()"@,
        Term::Matched => "&input[start_pos..pos]"@,
        Term::Empty => "vec![]"@,
        Term::First => "vec![first_value]"@,
        Term::Answer => "Ok(value)"@,
        Term::Expected => "Err(\"Expected end of input at line \".to_string() + &pos_to_line(input, pos).to_string())"@,
        Term::ErrorAt => "Err(\"Error at line \".to_string() + &pos_to_line(input, pos).to_string())"@,
    }
}

/// The text of a pattern.
pub open spec fn pattern_text(p: Pattern) -> Seq<char> {
    match p {
        Pattern::Failure => "Err(pos)"@,
        Pattern::AnyFailure => "Err(..)"@,
        Pattern::AnySuccess => "Ok(..)"@,
        Pattern::Success(value) => ok_pattern(
            match value {
                Some(v) => Some(var_text(v)),
                None => None,
            },
        ),
        Pattern::SuccessValue => "Ok((pos, value))"@,
        Pattern::Round(used) => if used {
            "Ok((newpos, value))"@
        } else {
            "Ok((newpos, _))"@
        },
    }
}

/// The code of a case.
pub open spec fn arm_code(a: Arm) -> CodeView
    decreases a,
{
    match a {
        Arm::Inline(pattern, term) => match_inline_case_code(pattern_text(pattern), term_text(term)),
        Arm::Nested(pattern, block) => match_case_code(pattern_text(pattern), body_code(block)),
    }
}

/// The code of a block: the emitted lines and blocks, in order.
pub open spec fn body_code(b: Body) -> Seq<CodeView>
    decreases b,
{
    match b {
        Body::Tail(term) => seq![CodeView::Line(term_text(term))],
        Body::End => Seq::empty(),
        Body::Break => seq![CodeView::Line("break;"@)],
        Body::Let(v, term, rest) => seq![let_stmt_code(var_text(v), term_text(term))]
            + body_code(*rest),
        Body::LetMut(v, term, rest) => seq![let_mut_stmt_code(var_text(v), term_text(term))]
            + body_code(*rest),
        Body::Start(rest) => seq![let_stmt_code("start_pos"@, "pos"@)] + body_code(*rest),
        Body::LetBlock(v, inner, rest) => seq![let_block_code(var_text(v), body_code(*inner))]
            + body_code(*rest),
        Body::Advance(rest) => seq![CodeView::Line("repeat_pos = newpos;"@)] + body_code(*rest),
        Body::Collect(rest) => seq![CodeView::Line("repeat_value.push(value);"@)] + body_code(
            *rest,
        ),
        Body::Loop(body, rest) => seq![loop_block_code(body_code(*body))] + body_code(
            *rest,
        ),
        Body::Match(v, first, second) => seq![
            match_block_code(var_text(v), seq![arm_code(*first), arm_code(*second)]),
        ],
        Body::MatchChar(cases, hit, miss) => seq![
            match_block_code(
                "ch"@,
                (if cases.len() == 0 {
                    Seq::empty()
                } else {
                    seq![
                        CodeView::Line(
                            cases_pattern(cases, cases.len()) + " => { "@ + term_text(hit) + " }"@,
                        ),
                    ]
                }) + seq![match_inline_case_code("_"@, term_text(miss))],
            ),
        ],
        Body::IfMore(then, otherwise) => if_else_code(
            "input.len() > pos"@,
            body_code(*then),
            body_code(*otherwise),
        ),
        Body::IfEnd(then, otherwise) => if_else_code(
            "pos == input.len()"@,
            body_code(*then),
            body_code(*otherwise),
        ),
        Body::MatchCall(name, first, second) => seq![
            match_block_code(
                "parse_"@ + name + "(input, 0)"@,
                seq![arm_code(*first), arm_code(*second)],
            ),
        ],
    }
}

} // verus!
