use peg::code::{
    def_fn, if_else, let_block, let_mut_stmt, let_stmt, loop_block, match_block, match_case,
    match_inline_case, text_line, Code,
};
use peg::compile::{
    compile_expr, compile_grammar, compile_header, compile_match_and_then, compile_rule,
    compile_rule_export, compile_zero_or_more, CompileError, PRELUDE, RUNTIME,
};
use peg::grammar::{CharSetCase, Expr, Grammar, Rule, TaggedExpr};
use peg::render::render;

fn lit(s: &str) -> Expr {
    Expr::LiteralExpr(s.to_string())
}

fn call(name: &str) -> Expr {
    Expr::RuleExpr(name.to_string())
}

fn case(start: char, end: char) -> CharSetCase {
    CharSetCase { start, end }
}

fn tagged(name: Option<&str>, expr: Expr) -> TaggedExpr {
    TaggedExpr { name: name.map(|n| n.to_string()), expr: Box::new(expr) }
}

fn rule(name: &str, expr: Expr, ret_type: &str, exported: bool) -> Rule {
    Rule { name: name.to_string(), expr: Box::new(expr), ret_type: ret_type.to_string(), exported }
}

fn emitted(e: &Expr, result_used: bool) -> String {
    render(&compile_expr(e, result_used))
}

fn text(s: &str) -> Code {
    Code::Line(s.to_string())
}

#[test]
fn render_lays_out_lines_and_blocks() {
    let code = vec![
        text("// first"),
        Code::Block(
            "fn f()".to_string(),
            vec![
                text("let a = 1;"),
                Code::Block(
                    "let b =".to_string(),
                    vec![text("a")],
                    Some(";".to_string()),
                ),
                Code::Block("loop".to_string(), vec![], None),
            ],
            None,
        ),
        text("// last"),
    ];
    assert_eq!(
        render(&code),
        "// first\nfn f() {\n    let a = 1;\n    let b = {\n        a\n    };\n    loop {\n    }\n}\n// last\n"
    );
    assert_eq!(render(&vec![]), "");
}

#[test]
fn render_indents_each_line_of_a_text() {
    let code = vec![Code::Block("outer".to_string(), vec![text("one\ntwo\n\nthree")], None)];
    assert_eq!(render(&code), "outer {\n    one\n    two\n\n    three\n}\n");
}

#[test]
fn constructs_of_the_target_language() {
    assert_eq!(text_line("x"), text("x"));
    assert_eq!(let_stmt("a", "b"), text("let a = b;"));
    assert_eq!(let_mut_stmt("a", "b"), text("let mut a = b;"));
    assert_eq!(match_inline_case("Some(x)", "x"), text("Some(x) => x,"));
    assert_eq!(
        let_block("a", vec![text("b")]),
        Code::Block("let a =".to_string(), vec![text("b")], Some(";".to_string()))
    );
    assert_eq!(
        match_block("a", vec![text("b")]),
        Code::Block("match a".to_string(), vec![text("b")], None)
    );
    assert_eq!(
        match_case("a", vec![text("b")]),
        Code::Block("a =>".to_string(), vec![text("b")], None)
    );
    assert_eq!(loop_block(vec![text("b")]), Code::Block("loop".to_string(), vec![text("b")], None));
    assert_eq!(
        if_else("c", vec![text("a")], vec![text("b")]),
        vec![
            Code::Block("if c".to_string(), vec![text("a")], None),
            Code::Block("else".to_string(), vec![text("b")], None),
        ]
    );
    assert_eq!(
        def_fn(false, "f", "x: u8", "u8", vec![text("x")]),
        Code::Block("fn f(x: u8) -> u8".to_string(), vec![text("x")], None)
    );
    assert_eq!(
        def_fn(true, "f", "", "()", vec![]),
        Code::Block("pub fn f() -> ()".to_string(), vec![], None)
    );
}

#[test]
fn primitive_code() {
    assert_eq!(compile_expr(&Expr::AnyCharExpr, false), vec![text("any_char(input, pos)")]);
    assert_eq!(compile_expr(&lit("ab"), true), vec![text("slice_eq(input, pos, \"ab\")")]);
    assert_eq!(compile_expr(&call("item"), true), vec![text("parse_item(input, pos)")]);
}

#[test]
fn literal_code_is_escaped() {
    assert_eq!(
        compile_expr(&lit("a\"b\\c\n\u{e9}"), false),
        vec![text("slice_eq(input, pos, \"a\\\"b\\\\c\\n\\u{e9}\")")]
    );
}

#[test]
fn empty_sequence_and_choice_code() {
    assert_eq!(compile_expr(&Expr::SequenceExpr(vec![]), true), vec![text("Ok((pos, ()))")]);
    assert_eq!(compile_expr(&Expr::ChoiceExpr(vec![]), true), vec![text("Err(pos)")]);
}

#[test]
fn single_element_sequence_and_choice_code() {
    assert_eq!(
        compile_expr(&Expr::SequenceExpr(vec![lit("a")]), true),
        compile_expr(&lit("a"), false)
    );
    let many = Expr::ZeroOrMore(Box::new(lit("a")));
    assert_eq!(
        emitted(&Expr::ChoiceExpr(vec![Expr::ZeroOrMore(Box::new(lit("a")))]), true),
        emitted(&many, true)
    );
    assert_eq!(
        emitted(&Expr::SequenceExpr(vec![Expr::ZeroOrMore(Box::new(lit("a")))]), true),
        emitted(&many, false)
    );
}

#[test]
fn match_and_then_code() {
    let then = vec![text("next")];
    assert_eq!(
        render(&compile_match_and_then(&lit("a"), Some("v"), then)),
        "let seq_res = {\n    slice_eq(input, pos, \"a\")\n};\nmatch seq_res {\n    Err(pos) => Err(pos),\n    Ok((pos, v)) => {\n        next\n    }\n}\n"
    );
    assert_eq!(
        render(&compile_match_and_then(&lit("a"), None, vec![])),
        "let seq_res = {\n    slice_eq(input, pos, \"a\")\n};\nmatch seq_res {\n    Err(pos) => Err(pos),\n    Ok((pos, _)) => {\n    }\n}\n"
    );
}

#[test]
fn zero_or_more_code_with_an_initial_list() {
    let code = render(&compile_zero_or_more(&lit("a"), Some("vec![first]")));
    assert!(code.starts_with("let mut repeat_pos = pos;\nlet mut repeat_value = vec![first];\nloop {\n"));
    assert!(code.ends_with("}\nOk((repeat_pos, repeat_value))\n"));
    let code = render(&compile_zero_or_more(&lit("a"), None));
    assert!(code.starts_with("let mut repeat_pos = pos;\nloop {\n"));
    assert!(code.ends_with("}\nOk((repeat_pos, ()))\n"));
}

#[test]
fn sequence_code() {
    let e = Expr::SequenceExpr(vec![lit("a"), Expr::AnyCharExpr, call("b")]);
    assert_eq!(
        emitted(&e, false),
        r#"let seq_res = {
    slice_eq(input, pos, "a")
};
match seq_res {
    Err(pos) => Err(pos),
    Ok((pos, _)) => {
        let seq_res = {
            any_char(input, pos)
        };
        match seq_res {
            Err(pos) => Err(pos),
            Ok((pos, _)) => {
                parse_b(input, pos)
            }
        }
    }
}
"#
    );
}

#[test]
fn choice_code() {
    let e = Expr::ChoiceExpr(vec![lit("a"), lit("ab"), Expr::AnyCharExpr]);
    assert_eq!(
        emitted(&e, true),
        r#"let choice_res = {
    slice_eq(input, pos, "a")
};
match choice_res {
    Ok((pos, value)) => Ok((pos, value)),
    Err(..) => {
        let choice_res = {
            slice_eq(input, pos, "ab")
        };
        match choice_res {
            Ok((pos, value)) => Ok((pos, value)),
            Err(..) => {
                any_char(input, pos)
            }
        }
    }
}
"#
    );
}

#[test]
fn optional_code() {
    let e = Expr::OptionalExpr(Box::new(lit("a")));
    assert_eq!(
        emitted(&e, true),
        r#"let optional_res = {
    slice_eq(input, pos, "a")
};
match optional_res {
    Ok((newpos, value)) => Ok((newpos, Some(value))),
    Err(..) => Ok((pos, None)),
}
"#
    );
}

#[test]
fn zero_or_more_code_with_values() {
    let e = Expr::ZeroOrMore(Box::new(lit("x")));
    assert_eq!(
        emitted(&e, true),
        r#"let mut repeat_pos = pos;
let mut repeat_value = vec![];
loop {
    let step_res = {
        let pos = repeat_pos;
        slice_eq(input, pos, "x")
    };
    match step_res {
        Ok((newpos, value)) => {
            repeat_pos = newpos;
            repeat_value.push(value);
        }
        Err(..) => {
            break;
        }
    }
}
Ok((repeat_pos, repeat_value))
"#
    );
}

#[test]
fn zero_or_more_code_without_values() {
    let e = Expr::ZeroOrMore(Box::new(lit("x")));
    assert_eq!(
        emitted(&e, false),
        r#"let mut repeat_pos = pos;
loop {
    let step_res = {
        let pos = repeat_pos;
        slice_eq(input, pos, "x")
    };
    match step_res {
        Ok((newpos, _)) => {
            repeat_pos = newpos;
        }
        Err(..) => {
            break;
        }
    }
}
Ok((repeat_pos, ()))
"#
    );
}

#[test]
fn one_or_more_code_with_values() {
    let e = Expr::OneOrMore(Box::new(lit("x")));
    assert_eq!(
        emitted(&e, true),
        r#"let seq_res = {
    slice_eq(input, pos, "x")
};
match seq_res {
    Err(pos) => Err(pos),
    Ok((pos, first_value)) => {
        let mut repeat_pos = pos;
        let mut repeat_value = vec![first_value];
        loop {
            let step_res = {
                let pos = repeat_pos;
                slice_eq(input, pos, "x")
            };
            match step_res {
                Ok((newpos, value)) => {
                    repeat_pos = newpos;
                    repeat_value.push(value);
                }
                Err(..) => {
                    break;
                }
            }
        }
        Ok((repeat_pos, repeat_value))
    }
}
"#
    );
}

#[test]
fn one_or_more_code_without_values() {
    let e = Expr::OneOrMore(Box::new(lit("x")));
    assert_eq!(
        emitted(&e, false),
        r#"let seq_res = {
    slice_eq(input, pos, "x")
};
match seq_res {
    Err(pos) => Err(pos),
    Ok((pos, _)) => {
        let mut repeat_pos = pos;
        loop {
            let step_res = {
                let pos = repeat_pos;
                slice_eq(input, pos, "x")
            };
            match step_res {
                Ok((newpos, _)) => {
                    repeat_pos = newpos;
                }
                Err(..) => {
                    break;
                }
            }
        }
        Ok((repeat_pos, ()))
    }
}
"#
    );
}

#[test]
fn positive_assertion_code() {
    let e = Expr::PosAssertExpr(Box::new(Expr::ZeroOrMore(Box::new(lit("x")))));
    assert_eq!(
        emitted(&e, true),
        r#"let assert_res = {
    let mut repeat_pos = pos;
    loop {
        let step_res = {
            let pos = repeat_pos;
            slice_eq(input, pos, "x")
        };
        match step_res {
            Ok((newpos, _)) => {
                repeat_pos = newpos;
            }
            Err(..) => {
                break;
            }
        }
    }
    Ok((repeat_pos, ()))
};
match assert_res {
    Ok(..) => Ok((pos, ())),
    Err(..) => Err(pos),
}
"#
    );
}

#[test]
fn negative_assertion_code() {
    let e = Expr::NegAssertExpr(Box::new(lit("x")));
    assert_eq!(
        emitted(&e, true),
        r#"let neg_assert_res = {
    slice_eq(input, pos, "x")
};
match neg_assert_res {
    Err(..) => Ok((pos, ())),
    Ok(..) => Err(pos),
}
"#
    );
}

#[test]
fn char_set_code() {
    let e = Expr::CharSetExpr(false, vec![case('a', 'z'), case('_', '_'), case('\'', '\'')]);
    assert_eq!(
        emitted(&e, false),
        r#"if input.len() > pos {
    let ch = input[pos..].chars().next().unwrap();
    let next = pos + ch.len_utf8();
    match ch {
        'a'..='z' | '_' | '\'' => { Ok((next, ())) }
        _ => Err(pos),
    }
}
else {
    Err(pos)
}
"#
    );
}

#[test]
fn inverted_char_set_code() {
    let e = Expr::CharSetExpr(true, vec![case('\n', '\n'), case('\u{e9}', '\u{20ac}')]);
    assert_eq!(
        emitted(&e, false),
        r#"if input.len() > pos {
    let ch = input[pos..].chars().next().unwrap();
    let next = pos + ch.len_utf8();
    match ch {
        '\n' | '\u{e9}'..='\u{20ac}' => { Err(pos) }
        _ => Ok((next, ())),
    }
}
else {
    Err(pos)
}
"#
    );
}

#[test]
fn char_set_code_without_ranges() {
    let e = Expr::CharSetExpr(false, vec![]);
    assert_eq!(
        emitted(&e, false),
        r#"if input.len() > pos {
    let ch = input[pos..].chars().next().unwrap();
    let next = pos + ch.len_utf8();
    match ch {
        _ => Err(pos),
    }
}
else {
    Err(pos)
}
"#
    );
}

#[test]
fn action_code() {
    let e = Expr::ActionExpr(
        vec![
            tagged(Some("n"), Expr::CharSetExpr(false, vec![case('0', '9')])),
            tagged(None, lit(" ")),
        ],
        "n".to_string(),
    );
    assert_eq!(
        emitted(&e, true),
        r#"let start_pos = pos;
let seq_res = {
    if input.len() > pos {
        let ch = input[pos..].chars().next().unwrap();
        let next = pos + ch.len_utf8();
        match ch {
            '0'..='9' => { Ok((next, ())) }
            _ => Err(pos),
        }
    }
    else {
        Err(pos)
    }
};
match seq_res {
    Err(pos) => Err(pos),
    Ok((pos, n)) => {
        let seq_res = {
            slice_eq(input, pos, " ")
        };
        match seq_res {
            Err(pos) => Err(pos),
            Ok((pos, _)) => {
                let match_str = &input[start_pos..pos];
                Ok((pos, {n}))
            }
        }
    }
}
"#
    );
}

#[test]
fn action_code_without_expressions() {
    let e = Expr::ActionExpr(vec![], "0".to_string());
    assert_eq!(
        emitted(&e, false),
        r#"let start_pos = pos;
let match_str = &input[start_pos..pos];
Ok((pos, {0}))
"#
    );
}

#[test]
fn named_repetition_collects_values() {
    let e = Expr::ActionExpr(
        vec![
            tagged(Some("xs"), Expr::ZeroOrMore(Box::new(lit("x")))),
            tagged(None, Expr::ZeroOrMore(Box::new(lit("y")))),
        ],
        "xs.len()".to_string(),
    );
    assert_eq!(
        emitted(&e, false),
        r#"let start_pos = pos;
let seq_res = {
    let mut repeat_pos = pos;
    let mut repeat_value = vec![];
    loop {
        let step_res = {
            let pos = repeat_pos;
            slice_eq(input, pos, "x")
        };
        match step_res {
            Ok((newpos, value)) => {
                repeat_pos = newpos;
                repeat_value.push(value);
            }
            Err(..) => {
                break;
            }
        }
    }
    Ok((repeat_pos, repeat_value))
};
match seq_res {
    Err(pos) => Err(pos),
    Ok((pos, xs)) => {
        let seq_res = {
            let mut repeat_pos = pos;
            loop {
                let step_res = {
                    let pos = repeat_pos;
                    slice_eq(input, pos, "y")
                };
                match step_res {
                    Ok((newpos, _)) => {
                        repeat_pos = newpos;
                    }
                    Err(..) => {
                        break;
                    }
                }
            }
            Ok((repeat_pos, ()))
        };
        match seq_res {
            Err(pos) => Err(pos),
            Ok((pos, _)) => {
                let match_str = &input[start_pos..pos];
                Ok((pos, {xs.len()}))
            }
        }
    }
}
"#
    );
}

#[test]
fn rule_code_of_an_exported_rule() {
    let code = compile_rule(&rule("a", lit("a"), "()", true));
    assert_eq!(
        render(&code),
        r#"#[allow(unused_variables)]
fn parse_a(input: &str, pos: usize) -> Result<(usize, ()), usize> {
    slice_eq(input, pos, "a")
}
pub fn a(input: &str) -> Result<(), String> {
    match parse_a(input, 0) {
        Ok((pos, value)) => {
            if pos == input.len() {
                Ok(value)
            }
            else {
                Err("Expected end of input at line ".to_string() + &pos_to_line(input, pos).to_string())
            }
        }
        Err(pos) => Err("Error at line ".to_string() + &pos_to_line(input, pos).to_string()),
    }
}
"#
    );
}

#[test]
fn rule_code_of_a_rule_with_a_value() {
    let many = rule("many", Expr::ZeroOrMore(Box::new(call("one"))), "Vec<u8>", false);
    assert_eq!(
        render(&compile_rule(&many)),
        r#"#[allow(unused_variables)]
fn parse_many(input: &str, pos: usize) -> Result<(usize, Vec<u8>), usize> {
    let mut repeat_pos = pos;
    let mut repeat_value = vec![];
    loop {
        let step_res = {
            let pos = repeat_pos;
            parse_one(input, pos)
        };
        match step_res {
            Ok((newpos, value)) => {
                repeat_pos = newpos;
                repeat_value.push(value);
            }
            Err(..) => {
                break;
            }
        }
    }
    Ok((repeat_pos, repeat_value))
}
"#
    );
}

#[test]
fn export_code() {
    let code = compile_rule_export(&rule("top", lit("a"), "Vec<u8>", true));
    assert_eq!(
        render(&vec![code]),
        r#"pub fn top(input: &str) -> Result<Vec<u8>, String> {
    match parse_top(input, 0) {
        Ok((pos, value)) => {
            if pos == input.len() {
                Ok(value)
            }
            else {
                Err("Expected end of input at line ".to_string() + &pos_to_line(input, pos).to_string())
            }
        }
        Err(pos) => Err("Error at line ".to_string() + &pos_to_line(input, pos).to_string()),
    }
}
"#
    );
}

#[test]
fn header_text() {
    assert_eq!(compile_header(""), format!("{}{}", PRELUDE, RUNTIME));
    assert_eq!(compile_header("use a::B;\n"), format!("{}use a::B;\n{}", PRELUDE, RUNTIME));
    let header = compile_header("");
    assert!(header.contains("fn slice_eq(input: &str, pos: usize, m: &str) -> Result<(usize, ()), usize> {"));
    assert!(header.contains("fn any_char(input: &str, pos: usize) -> Result<(usize, ()), usize> {"));
    assert!(header.contains("fn pos_to_line(input: &str, pos: usize) -> usize {"));
}

#[test]
fn grammar_text_is_header_and_rules_in_order() {
    let grammar = Grammar {
        initializer: Some("type T = u8;\n".to_string()),
        rules: vec![
            rule("b", call("a"), "T", true),
            rule("a", lit("a"), "()", false),
        ],
    };
    let mut code = compile_rule(&grammar.rules[0]);
    code.extend(compile_rule(&grammar.rules[1]));
    assert_eq!(
        compile_grammar(&grammar),
        Ok(compile_header("type T = u8;\n") + &render(&code))
    );
    let text = compile_grammar(&grammar).unwrap();
    let b = text.find("fn parse_b(").unwrap();
    let entry = text.find("pub fn b(").unwrap();
    let a = text.find("fn parse_a(").unwrap();
    assert!(b < entry && entry < a);
    assert!(!text.contains("pub fn a("));
}

#[test]
fn grammar_without_rules() {
    let grammar = Grammar { initializer: None, rules: vec![] };
    assert_eq!(compile_grammar(&grammar), Ok(compile_header("")));
}

#[test]
fn delimited_is_not_implemented() {
    let e = Expr::DelimitedExpr(Box::new(lit("a")), Box::new(lit(",")));
    assert!(!e.is_supported());
    let grammar = Grammar { initializer: None, rules: vec![rule("a", e, "()", true)] };
    assert!(!grammar.is_supported());
    assert_eq!(compile_grammar(&grammar), Err(CompileError::NotImplemented));
}

#[test]
fn stringify_is_not_implemented() {
    let e = Expr::StringifyExpr(Box::new(lit("a")));
    assert!(!e.is_supported());
    let grammar = Grammar { initializer: None, rules: vec![rule("a", e, "String", false)] };
    assert_eq!(compile_grammar(&grammar), Err(CompileError::NotImplemented));
}

#[test]
fn unimplemented_node_anywhere_refuses_the_grammar() {
    let bad = || Box::new(Expr::StringifyExpr(Box::new(lit("a"))));
    let hidden = vec![
        Expr::SequenceExpr(vec![lit("a"), *bad()]),
        Expr::ChoiceExpr(vec![*bad(), lit("a")]),
        Expr::OptionalExpr(bad()),
        Expr::ZeroOrMore(bad()),
        Expr::OneOrMore(bad()),
        Expr::PosAssertExpr(bad()),
        Expr::NegAssertExpr(bad()),
        Expr::ActionExpr(vec![tagged(None, lit("a")), tagged(Some("x"), *bad())], "x".to_string()),
        Expr::OptionalExpr(Box::new(Expr::SequenceExpr(vec![Expr::ZeroOrMore(bad())]))),
    ];
    for e in hidden {
        assert!(!e.is_supported());
        let grammar = Grammar {
            initializer: None,
            rules: vec![rule("ok", lit("a"), "()", true), rule("bad", e, "()", false)],
        };
        assert!(!grammar.is_supported());
        assert_eq!(compile_grammar(&grammar), Err(CompileError::NotImplemented));
    }
}

#[test]
fn implemented_constructs_are_supported() {
    let all = Expr::ActionExpr(
        vec![
            tagged(
                Some("a"),
                Expr::ChoiceExpr(vec![
                    Expr::SequenceExpr(vec![
                        Expr::AnyCharExpr,
                        lit("a"),
                        Expr::CharSetExpr(true, vec![case('a', 'b')]),
                        call("r"),
                    ]),
                    Expr::OptionalExpr(Box::new(Expr::ZeroOrMore(Box::new(Expr::OneOrMore(
                        Box::new(Expr::PosAssertExpr(Box::new(Expr::NegAssertExpr(Box::new(
                            lit("a"),
                        ))))),
                    ))))),
                ]),
            ),
        ],
        "a".to_string(),
    );
    assert!(all.is_supported());
    let grammar = Grammar { initializer: None, rules: vec![rule("r", all, "()", true)] };
    assert!(grammar.is_supported());
    assert!(compile_grammar(&grammar).is_ok());
}
