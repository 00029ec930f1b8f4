//! The compiler: from expressions, rules and grammars to emitted code.

use vstd::prelude::*;
use vstd::string::*;
use crate::code::{
    append_code, def_fn, def_fn_code, if_else, if_else_code, let_block, let_block_code,
    let_mut_stmt, let_mut_stmt_code, let_stmt, let_stmt_code, loop_block, loop_block_code,
    match_block, match_block_code, match_case, match_case_code, match_inline_case,
    match_inline_case_code, one, push_code, text_line, two, views, Code, CodeView,
};
use crate::grammar::{CharSetCase, Expr, Grammar, Rule, TaggedExpr};
use crate::lower::{
    entry_body, lemma_entry_code, capture, char_set, expr_code, lemma_and_then_code,
    lemma_char_set_code, lemma_dispatch_code, lemma_repeat_code, lower, lower_action, lower_choice,
    lower_seq, repeat,
};
use crate::target::{body_code, case_pattern, cases_pattern, ok_pattern, Arm, Pattern, Term, Var};
use crate::render::{code_text, render};
use crate::text::{cat2, cat3, escape_char_default, escape_default};

verus! {

/// Why a grammar could not be compiled.
#[derive(Clone, Copy, Debug, PartialEq, Eq)]
pub enum CompileError {
    /// The grammar holds a construct that has no compilation rule.
    NotImplemented,
}

/// The first lines of every emitted parser.
pub const PRELUDE: &'static str = "// A recursive-descent parser for a parsing expression grammar.\n\n";

/// The functions that every emitted parser calls: the match of an exact text
/// at a position, the consumption of one character, and the line of a
/// position.
pub const RUNTIME: &'static str = "
#[inline]
fn slice_eq(input: &str, pos: usize, m: &str) -> Result<(usize, ()), usize> {
    let l = m.len();
    if input.len() >= pos + l && &input.as_bytes()[pos..pos + l] == m.as_bytes() {
        Ok((pos + l, ()))
    } else {
        Err(pos)
    }
}

#[inline]
fn any_char(input: &str, pos: usize) -> Result<(usize, ()), usize> {
    if input.len() > pos {
        let ch = input[pos..].chars().next().unwrap();
        Ok((pos + ch.len_utf8(), ()))
    } else {
        Err(pos)
    }
}

fn pos_to_line(input: &str, pos: usize) -> usize {
    let mut consumed = 0;
    let mut lineno = 0;
    for line in input.split_terminator('\\n') {
        lineno += 1;
        consumed += line.len() + 1;
        if pos < consumed {
            return lineno;
        }
    }
    if lineno == 0 {
        1
    } else {
        lineno
    }
}

";

/// The view of an optional string slice.
pub open spec fn name_view(name: Option<&str>) -> Option<Seq<char>> {
    match name {
        Some(s) => Some(s@),
        None => None,
    }
}

/// Code that runs `inner` and, where it succeeds, goes on with `then` at the
/// position it reached, its value bound to `name`; where it fails, the
/// failure is handed on as it is.
pub open spec fn match_and_then_code(
    inner: Seq<CodeView>,
    name: Option<Seq<char>>,
    then: Seq<CodeView>,
) -> Seq<CodeView> {
    seq![
        let_block_code("seq_res"@, inner),
        match_block_code(
            "seq_res"@,
            seq![
                match_inline_case_code("Err(pos)"@, "Err(pos)"@),
                match_case_code(ok_pattern(name), then),
            ],
        ),
    ]
}

/// Code that repeats `inner` from the position each round reached until it
/// fails, and then succeeds at the position reached before the failed round.
/// With an initial list the values of the rounds are collected in it.
pub open spec fn zero_or_more_code(inner: Seq<CodeView>, list_initial: Option<Seq<char>>) -> Seq<
    CodeView,
> {
    let used = list_initial is Some;
    let step = let_block_code("step_res"@, seq![let_stmt_code("pos"@, "repeat_pos"@)] + inner);
    let advance = match_case_code(
        if used {
            "Ok((newpos, value))"@
        } else {
            "Ok((newpos, _))"@
        },
        seq![CodeView::Line("repeat_pos = newpos;"@)] + (if used {
            seq![CodeView::Line("repeat_value.push(value);"@)]
        } else {
            Seq::empty()
        }),
    );
    let stop = match_case_code("Err(..)"@, seq![CodeView::Line("break;"@)]);
    seq![let_mut_stmt_code("repeat_pos"@, "pos"@)] + (match list_initial {
        Some(init) => seq![let_mut_stmt_code("repeat_value"@, init)],
        None => Seq::empty(),
    }) + seq![
        loop_block_code(seq![step, match_block_code("step_res"@, seq![advance, stop])]),
        CodeView::Line(
            if used {
                "Ok((repeat_pos, repeat_value))"@
            } else {
                "Ok((repeat_pos, ()))"@
            },
        ),
    ]
}

/// Code that consumes one character and succeeds where the character lies in
/// one of the ranges, or, inverted, where it lies in none.
pub open spec fn char_set_code(invert: bool, cases: Seq<CharSetCase>) -> Seq<CodeView> {
    let hit = if invert {
        "Err(pos)"@
    } else {
        "Ok((next, ()))"@
    };
    let miss = if invert {
        "Ok((next, ()))"@
    } else {
        "Err(pos)"@
    };
    if_else_code(
        "input.len() > pos"@,
        seq![
            let_stmt_code("ch"@, "input[pos..].chars().next().unwrap()"@),
            let_stmt_code("next"@, "pos + ch.len_utf8()"@),
            match_block_code(
                "ch"@,
                (if cases.len() == 0 {
                    Seq::empty()
                } else {
                    seq![CodeView::Line(cases_pattern(cases, cases.len()) + " => { "@ + hit + " }"@)]
                }) + seq![match_inline_case_code("_"@, miss)],
            ),
        ],
        seq![CodeView::Line("Err(pos)"@)],
    )
}

/// Emits the code that matches `e` and then, on success, goes on with `then`
/// at the position reached, the value of `e` bound to `value_name`. Where
/// `then` is the text of a program, the code is the text of `and_then`.
pub fn compile_match_and_then(e: &Expr, value_name: Option<&str>, then: Vec<Code>) -> (code: Vec<
    Code,
>)
    requires
        e.supported(),
    ensures
        views(code@) == match_and_then_code(
            expr_code(*e, value_name is Some),
            name_view(value_name),
            views(then@),
        ),
    decreases e, 1nat, 0nat,
{
    let inner = compile_expr(e, value_name.is_some());
    let pattern = match value_name {
        Some(name) => cat3("Ok((pos, ", name, "))"),
        None => cat3("Ok((pos, ", "_", "))"),
    };
    let arms = two(match_inline_case("Err(pos)", "Err(pos)"), match_case(pattern.as_str(), then));
    two(let_block("seq_res", inner), match_block("seq_res", arms))
}

/// Emits the code that repeats `e` until it fails and collects the values of
/// the rounds in a list that starts as `list_initial`, or drops them where
/// there is none. With one of the two lists that the compiler starts with,
/// the code is the text of `repeat`.
pub fn compile_zero_or_more(e: &Expr, list_initial: Option<&str>) -> (code: Vec<Code>)
    requires
        e.supported(),
    ensures
        views(code@) == zero_or_more_code(
            expr_code(*e, list_initial is Some),
            name_view(list_initial),
        ),
    decreases e, 1nat, 0nat,
{
    let result_used = list_initial.is_some();
    let mut code = one(let_mut_stmt("repeat_pos", "pos"));
    match list_initial {
        Some(init) => {
            push_code(&mut code, let_mut_stmt("repeat_value", init));
        },
        None => {},
    }
    let mut step = one(let_stmt("pos", "repeat_pos"));
    append_code(&mut step, compile_expr(e, result_used));
    let mut advance = one(text_line("repeat_pos = newpos;"));
    if result_used {
        push_code(&mut advance, text_line("repeat_value.push(value);"));
    }
    assert(views(advance@) =~= seq![CodeView::Line("repeat_pos = newpos;"@)] + (if result_used {
        seq![CodeView::Line("repeat_value.push(value);"@)]
    } else {
        Seq::empty()
    }));
    let match_arm = if result_used {
        "Ok((newpos, value))"
    } else {
        "Ok((newpos, _))"
    };
    let arms = two(match_case(match_arm, advance), match_case("Err(..)", one(text_line("break;"))));
    push_code(
        &mut code,
        loop_block(two(let_block("step_res", step), match_block("step_res", arms))),
    );
    if result_used {
        push_code(&mut code, text_line("Ok((repeat_pos, repeat_value))"));
    } else {
        push_code(&mut code, text_line("Ok((repeat_pos, ()))"));
    }
    assert(views(code@) =~= zero_or_more_code(
        expr_code(*e, list_initial is Some),
        name_view(list_initial),
    ));
    code
}

/// The pattern of one range of a character class.
fn compile_case_pattern(case: &CharSetCase) -> (pattern: String)
    ensures
        pattern@ == case_pattern(*case),
{
    let start = escape_char_default(case.start);
    if case.start == case.end {
        cat3("'", start.as_str(), "'")
    } else {
        let end = escape_char_default(case.end);
        let head = cat3("'", start.as_str(), "'..='");
        cat3(head.as_str(), end.as_str(), "'")
    }
}

/// Emits the code that matches one character against a character class.
fn compile_char_set(invert: bool, cases: &Vec<CharSetCase>) -> (code: Vec<Code>)
    ensures
        views(code@) == body_code(char_set(invert, cases@)),
{
    proof {
        lemma_char_set_code(invert, cases@);
    }
    let hit = if invert {
        "Err(pos)"
    } else {
        "Ok((next, ()))"
    };
    let miss = if invert {
        "Ok((next, ()))"
    } else {
        "Err(pos)"
    };
    let mut arms: Vec<Code> = Vec::new();
    assert(views(arms@) =~= Seq::empty());
    if cases.len() != 0 {
        let mut pattern = String::new();
        let mut i: usize = 0;
        while i < cases.len()
            invariant
                i <= cases.len(),
                pattern@ == cases_pattern(cases@, i as nat),
            decreases cases.len() - i,
        {
            if i != 0 {
                pattern.append(" | ");
            }
            let case = compile_case_pattern(&cases[i]);
            pattern.append(case.as_str());
            assert(pattern@ =~= cases_pattern(cases@, (i + 1) as nat));
            i += 1;
        }
        let head = cat3(pattern.as_str(), " => { ", hit);
        push_code(&mut arms, Code::Line(cat2(head.as_str(), " }")));
    }
    push_code(&mut arms, match_inline_case("_", miss));
    assert(views(arms@) =~= (if cases.len() == 0 {
        Seq::empty()
    } else {
        seq![CodeView::Line(cases_pattern(cases@, cases@.len()) + " => { "@ + hit@ + " }"@)]
    }) + seq![match_inline_case_code("_"@, miss@)]);
    let mut then_body = two(
        let_stmt("ch", "input[pos..].chars().next().unwrap()"),
        let_stmt("next", "pos + ch.len_utf8()"),
    );
    push_code(&mut then_body, match_block("ch", arms));
    assert(views(then_body@) =~= seq![
        let_stmt_code("ch"@, "input[pos..].chars().next().unwrap()"@),
        let_stmt_code("next"@, "pos + ch.len_utf8()"@),
        match_block_code("ch"@, views(arms@)),
    ]);
    let code = if_else("input.len() > pos", then_body, one(text_line("Err(pos)")));
    assert(views(code@) =~= char_set_code(invert, cases@));
    code
}

/// Emits the code that matches the elements of a sequence one after another.
fn write_seq(exprs: &Vec<Expr>) -> (code: Vec<Code>)
    requires
        forall|i: int| 0 <= i < exprs.len() ==> (#[trigger] exprs[i]).supported(),
    ensures
        views(code@) == body_code(lower_seq(exprs@, 0)),
    decreases exprs, 0nat, 0nat,
{
    let n = exprs.len();
    if n == 0 {
        return one(text_line("Ok((pos, ()))"));
    }
    let mut i: usize = n - 1;
    let mut code = compile_expr(&exprs[i], false);
    while i > 0
        invariant
            i < n,
            n == exprs.len(),
            forall|j: int| 0 <= j < exprs.len() ==> (#[trigger] exprs[j]).supported(),
            views(code@) == body_code(lower_seq(exprs@, i as nat)),
        decreases i,
    {
        i -= 1;
        proof {
            lemma_and_then_code(
                lower(exprs[i as int], false),
                None,
                lower_seq(exprs@, (i + 1) as nat),
            );
        }
        code = compile_match_and_then(&exprs[i], None, code);
    }
    code
}

/// Emits the code that tries the alternatives of a choice in order.
fn write_choice(exprs: &Vec<Expr>, result_used: bool) -> (code: Vec<Code>)
    requires
        forall|i: int| 0 <= i < exprs.len() ==> (#[trigger] exprs[i]).supported(),
    ensures
        views(code@) == body_code(lower_choice(exprs@, 0, result_used)),
    decreases exprs, 0nat, 0nat,
{
    let n = exprs.len();
    if n == 0 {
        return one(text_line("Err(pos)"));
    }
    let mut i: usize = n - 1;
    let mut code = compile_expr(&exprs[i], result_used);
    while i > 0
        invariant
            i < n,
            n == exprs.len(),
            forall|j: int| 0 <= j < exprs.len() ==> (#[trigger] exprs[j]).supported(),
            views(code@) == body_code(lower_choice(exprs@, i as nat, result_used)),
        decreases i,
    {
        i -= 1;
        proof {
            lemma_dispatch_code(
                Var::ChoiceRes,
                lower(exprs[i as int], result_used),
                Arm::Inline(Pattern::SuccessValue, Term::SuccessValue),
                Arm::Nested(
                    Pattern::AnyFailure,
                    lower_choice(exprs@, (i + 1) as nat, result_used),
                ),
            );
        }
        let first = compile_expr(&exprs[i], result_used);
        let arms = two(
            match_inline_case("Ok((pos, value))", "Ok((pos, value))"),
            match_case("Err(..)", code),
        );
        code = two(let_block("choice_res", first), match_block("choice_res", arms));
    }
    code
}

/// Emits the code that matches the tagged expressions of an action, binds the
/// named values and the matched text, and evaluates the action's code.
fn write_action(tagged: &Vec<TaggedExpr>, action: &str) -> (code: Vec<Code>)
    requires
        forall|i: int| 0 <= i < tagged.len() ==> (#[trigger] tagged[i]).expr.supported(),
    ensures
        views(code@) == body_code(lower_action(tagged@, 0, action@)),
    decreases tagged, 0nat, 0nat,
{
    let mut i: usize = tagged.len();
    let mut code = two(
        let_stmt("match_str", "&input[start_pos..pos]"),
        Code::Line(cat3("Ok((pos, {", action, "}))")),
    );
    proof {
        reveal_with_fuel(body_code, 2);
        assert(views(code@) =~= body_code(lower_action(tagged@, i as nat, action@)));
    }
    while i > 0
        invariant
            i <= tagged.len(),
            forall|j: int| 0 <= j < tagged.len() ==> (#[trigger] tagged[j]).expr.supported(),
            views(code@) == body_code(lower_action(tagged@, i as nat, action@)),
        decreases i,
    {
        i -= 1;
        let name = match &tagged[i].name {
            Some(s) => Some(s.as_str()),
            None => None,
        };
        proof {
            lemma_and_then_code(
                lower(*tagged[i as int].expr, tagged[i as int].name is Some),
                capture(tagged[i as int].name),
                lower_action(tagged@, (i + 1) as nat, action@),
            );
        }
        code = compile_match_and_then(&tagged[i].expr, name, code);
    }
    code
}

/// Emits the code that matches `e` at `pos` in `input` and evaluates to the
/// outcome of the match: the text of the program `lower(e, result_used)`.
pub fn compile_expr(e: &Expr, result_used: bool) -> (code: Vec<Code>)
    requires
        e.supported(),
    ensures
        views(code@) == expr_code(*e, result_used),
    decreases e, 0nat, 0nat,
{
    match e {
        Expr::AnyCharExpr => one(text_line("any_char(input, pos)")),
        Expr::LiteralExpr(s) => {
            let escaped = escape_default(s.as_str());
            one(Code::Line(cat3("slice_eq(input, pos, \"", escaped.as_str(), "\")")))
        },
        Expr::CharSetExpr(invert, cases) => compile_char_set(*invert, cases),
        Expr::RuleExpr(rule_name) => one(
            Code::Line(cat3("parse_", rule_name.as_str(), "(input, pos)")),
        ),
        Expr::SequenceExpr(exprs) => write_seq(exprs),
        Expr::ChoiceExpr(exprs) => write_choice(exprs, result_used),
        Expr::OptionalExpr(inner) => {
            proof {
                lemma_dispatch_code(
                    Var::OptionalRes,
                    lower(**inner, result_used),
                    Arm::Inline(Pattern::Round(true), Term::SuccessPresent),
                    Arm::Inline(Pattern::AnyFailure, Term::SuccessAbsent),
                );
            }
            let arms = two(
                match_inline_case("Ok((newpos, value))", "Ok((newpos, Some(value)))"),
                match_inline_case("Err(..)", "Ok((pos, None))"),
            );
            two(
                let_block("optional_res", compile_expr(inner, result_used)),
                match_block("optional_res", arms),
            )
        },
        Expr::ZeroOrMore(inner) => {
            proof {
                lemma_repeat_code(lower(**inner, result_used), result_used, false);
            }
            compile_zero_or_more(
                inner,
                if result_used {
                    Some("vec![]")
                } else {
                    None
                },
            )
        },
        Expr::OneOrMore(inner) => {
            proof {
                lemma_repeat_code(lower(**inner, result_used), result_used, true);
                lemma_and_then_code(
                    lower(**inner, result_used),
                    if result_used {
                        Some(Var::FirstValue)
                    } else {
                        None
                    },
                    repeat(lower(**inner, result_used), result_used, true),
                );
            }
            let rest = compile_zero_or_more(
                inner,
                if result_used {
                    Some("vec![first_value]")
                } else {
                    None
                },
            );
            compile_match_and_then(
                inner,
                if result_used {
                    Some("first_value")
                } else {
                    None
                },
                rest,
            )
        },
        Expr::DelimitedExpr(_, _) => Vec::new(),
        Expr::PosAssertExpr(inner) => {
            proof {
                lemma_dispatch_code(
                    Var::AssertRes,
                    lower(**inner, false),
                    Arm::Inline(Pattern::AnySuccess, Term::Success),
                    Arm::Inline(Pattern::AnyFailure, Term::Failure),
                );
            }
            let arms = two(
                match_inline_case("Ok(..)", "Ok((pos, ()))"),
                match_inline_case("Err(..)", "Err(pos)"),
            );
            two(let_block("assert_res", compile_expr(inner, false)), match_block("assert_res", arms))
        },
        Expr::NegAssertExpr(inner) => {
            proof {
                lemma_dispatch_code(
                    Var::NegAssertRes,
                    lower(**inner, false),
                    Arm::Inline(Pattern::AnyFailure, Term::Success),
                    Arm::Inline(Pattern::AnySuccess, Term::Failure),
                );
            }
            let arms = two(
                match_inline_case("Err(..)", "Ok((pos, ()))"),
                match_inline_case("Ok(..)", "Err(pos)"),
            );
            two(
                let_block("neg_assert_res", compile_expr(inner, false)),
                match_block("neg_assert_res", arms),
            )
        },
        Expr::StringifyExpr(_) => Vec::new(),
        Expr::ActionExpr(tagged, action) => {
            let mut code = one(let_stmt("start_pos", "pos"));
            append_code(&mut code, write_action(tagged, action.as_str()));
            proof {
                reveal_with_fuel(body_code, 2);
            }
            code
        },
    }
}

/// The name of the function that matches the rule `name`.
pub open spec fn rule_fn_name(name: Seq<char>) -> Seq<char> {
    "parse_"@ + name
}

/// The entry function of an exported rule: it matches the rule at the start
/// of the input and succeeds only where the match ends at the end of the
/// input; otherwise it gives a message with the line of the position at
/// which the match ended or failed.
pub open spec fn rule_export_code(rule: Rule) -> CodeView {
    def_fn_code(
        true,
        rule.name@,
        "input: &str"@,
        "Result<"@ + rule.ret_type@ + ", String>"@,
        body_code(entry_body(rule.name@)),
    )
}

/// The code emitted for a rule: its matching function, and for an exported
/// rule its entry function.
pub open spec fn rule_code(rule: Rule) -> Seq<CodeView> {
    seq![
        CodeView::Line("#[allow(unused_variables)]"@),
        def_fn_code(
            false,
            rule_fn_name(rule.name@),
            "input: &str, pos: usize"@,
            "Result<(usize, "@ + rule.ret_type@ + "), usize>"@,
            expr_code(*rule.expr, rule.value_used()),
        ),
    ] + (if rule.exported {
        seq![rule_export_code(rule)]
    } else {
        Seq::empty()
    })
}

/// The code emitted for the first `n` rules of a list, in order.
pub open spec fn rules_code(rules: Seq<Rule>, n: nat) -> Seq<CodeView>
    decreases n,
{
    if n == 0 {
        Seq::empty()
    } else {
        rules_code(rules, (n - 1) as nat) + rule_code(rules[n - 1])
    }
}

/// The text that every emitted parser starts with: the first lines, the
/// grammar's own code, and the functions that the matchers call.
pub open spec fn header_text(header: Seq<char>) -> Seq<char> {
    PRELUDE@ + header + RUNTIME@
}

/// The grammar's own code, empty where it has none.
pub open spec fn initializer_text(grammar: Grammar) -> Seq<char> {
    match grammar.initializer {
        Some(text) => text@,
        None => ""@,
    }
}

/// The text of the parser emitted for a grammar.
pub open spec fn grammar_text(grammar: Grammar) -> Seq<char> {
    header_text(initializer_text(grammar)) + code_text(
        rules_code(grammar.rules@, grammar.rules.len() as nat),
    )
}

/// Emits the entry function of an exported rule.
pub fn compile_rule_export(rule: &Rule) -> (code: Code)
    ensures
        code@ == rule_export_code(*rule),
{
    proof {
        lemma_entry_code(rule.name@);
    }
    let at_end = if_else(
        "pos == input.len()",
        one(text_line("Ok(value)")),
        one(
            text_line(
                "Err(\"Expected end of input at line \".to_string() + &pos_to_line(input, pos).to_string())",
            ),
        ),
    );
    let arms = two(
        match_case("Ok((pos, value))", at_end),
        match_inline_case(
            "Err(pos)",
            "Err(\"Error at line \".to_string() + &pos_to_line(input, pos).to_string())",
        ),
    );
    let call = cat3("parse_", rule.name.as_str(), "(input, 0)");
    let ret = cat3("Result<", rule.ret_type.as_str(), ", String>");
    def_fn(
        true,
        rule.name.as_str(),
        "input: &str",
        ret.as_str(),
        one(match_block(call.as_str(), arms)),
    )
}

/// Emits the functions of a rule.
pub fn compile_rule(rule: &Rule) -> (code: Vec<Code>)
    requires
        rule.supported(),
    ensures
        views(code@) == rule_code(*rule),
{
    let body = compile_expr(&rule.expr, rule.is_value_used());
    let name = cat2("parse_", rule.name.as_str());
    let ret = cat3("Result<(usize, ", rule.ret_type.as_str(), "), usize>");
    let mut code = two(
        text_line("#[allow(unused_variables)]"),
        def_fn(false, name.as_str(), "input: &str, pos: usize", ret.as_str(), body),
    );
    if rule.exported {
        push_code(&mut code, compile_rule_export(rule));
    }
    assert(views(code@) =~= rule_code(*rule));
    code
}

/// The text that the emitted parser starts with.
pub fn compile_header(header: &str) -> (text: String)
    ensures
        text@ == header_text(header@),
{
    cat3(PRELUDE, header, RUNTIME)
}

/// Compiles a grammar to the text of its parser. A grammar that holds a
/// delimited repetition or a stringify node is refused, and nothing is
/// emitted for it.
pub fn compile_grammar(grammar: &Grammar) -> (out: Result<String, CompileError>)
    ensures
        out is Ok <==> grammar.supported(),
        out is Ok ==> out->Ok_0@ == grammar_text(*grammar),
        out is Err ==> out->Err_0 == CompileError::NotImplemented,
{
    if !grammar.is_supported() {
        return Err(CompileError::NotImplemented);
    }
    let mut text = match &grammar.initializer {
        Some(initializer) => compile_header(initializer.as_str()),
        None => compile_header(""),
    };
    let mut code: Vec<Code> = Vec::new();
    assert(views(code@) =~= rules_code(grammar.rules@, 0));
    let mut i: usize = 0;
    while i < grammar.rules.len()
        invariant
            i <= grammar.rules.len(),
            grammar.supported(),
            views(code@) == rules_code(grammar.rules@, i as nat),
        decreases grammar.rules.len() - i,
    {
        append_code(&mut code, compile_rule(&grammar.rules[i]));
        i += 1;
    }
    let functions = render(&code);
    text.append(functions.as_str());
    Ok(text)
}

} // verus!
