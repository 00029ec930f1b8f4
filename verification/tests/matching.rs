use peg::grammar::{CharSetCase, Expr, Grammar, Rule, TaggedExpr};
use peg::matcher::{lookup, match_expr, parse, parse_rule};
use peg::value::{Binding, MatchError, Outcome, Value};

fn chars(s: &str) -> Vec<char> {
    s.chars().collect()
}

fn lit(s: &str) -> Expr {
    Expr::LiteralExpr(s.to_string())
}

fn range(start: char, end: char) -> Expr {
    Expr::CharSetExpr(false, vec![CharSetCase { start, end }])
}

fn no_rules() -> Grammar {
    Grammar { initializer: None, rules: vec![] }
}

fn rule(name: &str, expr: Expr, ret_type: &str, exported: bool) -> Rule {
    Rule { name: name.to_string(), expr: Box::new(expr), ret_type: ret_type.to_string(), exported }
}

fn one_rule(r: Rule) -> Grammar {
    Grammar { initializer: None, rules: vec![r] }
}

fn run(e: &Expr, used: bool, input: &str, pos: usize) -> Result<Outcome, MatchError> {
    match_expr(&no_rules(), e, used, &chars(input), pos, 16)
}

fn success(end: usize) -> Result<Outcome, MatchError> {
    Ok(Outcome::Success(end, Value::Unit))
}

fn failure(at: usize) -> Result<Outcome, MatchError> {
    Ok(Outcome::Failure(at))
}

/// expr := "(" expr ")" | "x"
fn nested() -> Grammar {
    one_rule(rule(
        "expr",
        Expr::ChoiceExpr(vec![
            Expr::SequenceExpr(vec![lit("("), Expr::RuleExpr("expr".to_string()), lit(")")]),
            lit("x"),
        ]),
        "()",
        true,
    ))
}

#[test]
fn literal_matches_at_the_position() {
    assert_eq!(run(&lit("ab"), false, "abc", 0), success(2));
    assert_eq!(run(&lit("ab"), false, "ac", 0), failure(0));
    assert_eq!(run(&lit("bc"), false, "abc", 1), success(3));
}

#[test]
fn literal_out_of_bounds_fails_where_it_stands() {
    assert_eq!(run(&lit("abc"), false, "ab", 0), failure(0));
    assert_eq!(run(&lit("a"), false, "a", 1), failure(1));
    assert_eq!(run(&lit("a"), false, "a", 7), failure(7));
    assert_eq!(run(&lit(""), false, "a", 1), success(1));
    assert_eq!(run(&lit(""), false, "a", 2), failure(2));
}

#[test]
fn any_char_consumes_one_character() {
    assert_eq!(run(&Expr::AnyCharExpr, false, "ab", 0), success(1));
    assert_eq!(run(&Expr::AnyCharExpr, false, "ab", 1), success(2));
    assert_eq!(run(&Expr::AnyCharExpr, false, "ab", 2), failure(2));
    assert_eq!(run(&Expr::AnyCharExpr, false, "", 0), failure(0));
}

#[test]
fn any_char_takes_a_wide_character_whole() {
    // Three characters; in UTF-8 they take 2, 3 and 1 bytes.
    let input = "\u{e9}\u{20ac}a";
    assert_eq!(run(&Expr::AnyCharExpr, false, input, 0), success(1));
    assert_eq!(run(&Expr::AnyCharExpr, false, input, 1), success(2));
    assert_eq!(run(&Expr::AnyCharExpr, false, input, 2), success(3));
    assert_eq!(run(&Expr::AnyCharExpr, false, input, 3), failure(3));
}

#[test]
fn char_set_range_matches_each_lowercase_letter() {
    let lower = range('a', 'z');
    for c in 'a'..='z' {
        let input = c.to_string();
        assert_eq!(run(&lower, false, &input, 0), success(1));
    }
    assert_eq!(run(&lower, false, "A", 0), failure(0));
    assert_eq!(run(&lower, false, "`", 0), failure(0));
    assert_eq!(run(&lower, false, "{", 0), failure(0));
    assert_eq!(run(&lower, false, "", 0), failure(0));
}

#[test]
fn char_set_steps_over_wide_characters() {
    let lower = range('a', 'z');
    let input = "\u{e9}q\u{20ac}";
    assert_eq!(run(&lower, false, input, 0), failure(0));
    assert_eq!(run(&lower, false, input, 1), success(2));
    assert_eq!(run(&lower, false, input, 2), failure(2));
    let seq = Expr::SequenceExpr(vec![Expr::AnyCharExpr, range('a', 'z'), Expr::AnyCharExpr]);
    assert_eq!(run(&seq, false, input, 0), success(3));
}

#[test]
fn char_set_single_and_several_ranges() {
    let set = Expr::CharSetExpr(
        false,
        vec![CharSetCase { start: '_', end: '_' }, CharSetCase { start: '0', end: '9' }],
    );
    assert_eq!(run(&set, false, "_", 0), success(1));
    assert_eq!(run(&set, false, "0", 0), success(1));
    assert_eq!(run(&set, false, "9", 0), success(1));
    assert_eq!(run(&set, false, "a", 0), failure(0));
}

#[test]
fn char_set_inverted() {
    let set = Expr::CharSetExpr(true, vec![CharSetCase { start: 'a', end: 'z' }]);
    assert_eq!(run(&set, false, "a", 0), failure(0));
    assert_eq!(run(&set, false, "A", 0), success(1));
    assert_eq!(run(&set, false, "", 0), failure(0));
}

#[test]
fn char_set_without_ranges() {
    assert_eq!(run(&Expr::CharSetExpr(false, vec![]), false, "a", 0), failure(0));
    assert_eq!(run(&Expr::CharSetExpr(true, vec![]), false, "a", 0), success(1));
    assert_eq!(run(&Expr::CharSetExpr(true, vec![]), false, "", 0), failure(0));
}

#[test]
fn sequence_matches_in_order() {
    let seq = Expr::SequenceExpr(vec![lit("a"), lit("b"), lit("c")]);
    assert_eq!(run(&seq, false, "abc", 0), success(3));
    assert_eq!(run(&seq, false, "abd", 0), failure(2));
    assert_eq!(run(&seq, false, "xbc", 0), failure(0));
    assert_eq!(run(&seq, false, "ab", 0), failure(2));
}

#[test]
fn empty_sequence_succeeds_where_it_stands() {
    let seq = Expr::SequenceExpr(vec![]);
    assert_eq!(run(&seq, false, "abc", 0), success(0));
    assert_eq!(run(&seq, false, "abc", 2), success(2));
}

#[test]
fn choice_takes_the_first_alternative_that_succeeds() {
    let choice = Expr::ChoiceExpr(vec![lit("a"), lit("ab")]);
    assert_eq!(run(&choice, false, "ab", 0), success(1));
    let longer_first = Expr::ChoiceExpr(vec![lit("ab"), lit("a")]);
    assert_eq!(run(&longer_first, false, "ab", 0), success(2));
    assert_eq!(run(&longer_first, false, "ac", 0), success(1));
}

#[test]
fn choice_retries_from_the_original_position() {
    let choice = Expr::ChoiceExpr(vec![
        Expr::SequenceExpr(vec![lit("a"), lit("b")]),
        Expr::SequenceExpr(vec![lit("a"), lit("c")]),
    ]);
    assert_eq!(run(&choice, false, "ac", 0), success(2));
}

#[test]
fn choice_fails_as_its_last_alternative() {
    let choice = Expr::ChoiceExpr(vec![
        Expr::SequenceExpr(vec![lit("a"), lit("b"), lit("c")]),
        Expr::SequenceExpr(vec![lit("a"), lit("x")]),
    ]);
    // The first alternative fails at 2, the last at 1.
    assert_eq!(run(&choice, false, "abd", 0), failure(1));
    assert_eq!(run(&Expr::ChoiceExpr(vec![lit("a")]), false, "b", 0), failure(0));
    assert_eq!(run(&Expr::ChoiceExpr(vec![]), false, "b", 0), failure(0));
}

#[test]
fn optional_never_fails() {
    let opt = Expr::OptionalExpr(Box::new(lit("a")));
    assert_eq!(
        run(&opt, false, "ab", 0),
        Ok(Outcome::Success(1, Value::Present(Box::new(Value::Unit))))
    );
    assert_eq!(run(&opt, false, "b", 0), Ok(Outcome::Success(0, Value::Absent)));
    assert_eq!(run(&opt, false, "", 0), Ok(Outcome::Success(0, Value::Absent)));
}

#[test]
fn optional_does_not_advance_on_a_partial_match() {
    let opt = Expr::OptionalExpr(Box::new(Expr::SequenceExpr(vec![lit("a"), lit("b")])));
    assert_eq!(run(&opt, false, "ac", 0), Ok(Outcome::Success(0, Value::Absent)));
}

#[test]
fn zero_or_more_never_fails() {
    let many = Expr::ZeroOrMore(Box::new(lit("x")));
    assert_eq!(run(&many, true, "yyy", 0), Ok(Outcome::Success(0, Value::List(vec![]))));
    assert_eq!(run(&many, false, "yyy", 0), success(0));
    assert_eq!(run(&many, true, "", 0), Ok(Outcome::Success(0, Value::List(vec![]))));
}

#[test]
fn zero_or_more_is_greedy() {
    let many = Expr::ZeroOrMore(Box::new(lit("x")));
    assert_eq!(
        run(&many, true, "xxxy", 0),
        Ok(Outcome::Success(3, Value::List(vec![Value::Unit, Value::Unit, Value::Unit])))
    );
    assert_eq!(run(&many, false, "xxxy", 0), success(3));
    assert_eq!(run(&many, false, "xxx", 0), success(3));
    // Greedy: nothing is given back to what follows.
    let seq = Expr::SequenceExpr(vec![Expr::ZeroOrMore(Box::new(lit("x"))), lit("x")]);
    assert_eq!(run(&seq, false, "xxx", 0), failure(3));
}

#[test]
fn zero_or_more_stops_before_a_partial_round() {
    let many = Expr::ZeroOrMore(Box::new(Expr::SequenceExpr(vec![lit("a"), lit("b")])));
    assert_eq!(run(&many, false, "ababac", 0), success(4));
}

#[test]
fn one_or_more_requires_one() {
    let some = Expr::OneOrMore(Box::new(lit("x")));
    assert_eq!(run(&some, false, "yyy", 0), failure(0));
    assert_eq!(run(&some, false, "xxy", 0), success(2));
    assert_eq!(
        run(&some, true, "xxy", 0),
        Ok(Outcome::Success(2, Value::List(vec![Value::Unit, Value::Unit])))
    );
    assert_eq!(run(&some, true, "xy", 0), Ok(Outcome::Success(1, Value::List(vec![Value::Unit]))));
}

#[test]
fn one_or_more_hands_on_the_inner_failure() {
    let some = Expr::OneOrMore(Box::new(Expr::SequenceExpr(vec![lit("a"), lit("b")])));
    assert_eq!(run(&some, false, "ac", 0), failure(1));
}

#[test]
fn lookahead_consumes_nothing() {
    let seq = Expr::SequenceExpr(vec![Expr::PosAssertExpr(Box::new(lit("x"))), lit("x")]);
    assert_eq!(run(&seq, false, "x", 0), success(1));
    assert_eq!(run(&Expr::PosAssertExpr(Box::new(lit("x"))), false, "x", 0), success(0));
    assert_eq!(run(&Expr::PosAssertExpr(Box::new(lit("xy"))), true, "xy", 0), success(0));
}

#[test]
fn positive_assertion_fails_at_the_original_position() {
    let ahead = Expr::PosAssertExpr(Box::new(Expr::SequenceExpr(vec![lit("a"), lit("b")])));
    assert_eq!(run(&ahead, false, "ac", 0), failure(0));
}

#[test]
fn negative_assertion_is_the_complement() {
    let not_x = Expr::NegAssertExpr(Box::new(lit("x")));
    assert_eq!(run(&not_x, false, "x", 0), failure(0));
    assert_eq!(run(&not_x, false, "y", 0), success(0));
    assert_eq!(run(&not_x, false, "", 0), success(0));
    let seq = Expr::SequenceExpr(vec![Expr::NegAssertExpr(Box::new(lit("x"))), Expr::AnyCharExpr]);
    assert_eq!(run(&seq, false, "y", 0), success(1));
    assert_eq!(run(&seq, false, "x", 0), failure(0));
}

#[test]
fn action_binds_the_named_value() {
    let action = Expr::ActionExpr(
        vec![TaggedExpr { name: Some("n".to_string()), expr: Box::new(range('0', '9')) }],
        "n".to_string(),
    );
    assert_eq!(
        run(&action, true, "5", 0),
        Ok(Outcome::Success(
            1,
            Value::Action(
                "n".to_string(),
                vec![Binding { name: "n".to_string(), value: Value::Unit }],
                vec!['5'],
            )
        ))
    );
    assert_eq!(run(&action, true, "x", 0), failure(0));
}

#[test]
fn action_binds_values_in_order_and_drops_unnamed_ones() {
    let action = Expr::ActionExpr(
        vec![
            TaggedExpr {
                name: Some("sign".to_string()),
                expr: Box::new(Expr::OptionalExpr(Box::new(lit("-")))),
            },
            TaggedExpr { name: None, expr: Box::new(lit("0x")) },
            TaggedExpr {
                name: Some("digits".to_string()),
                expr: Box::new(Expr::OneOrMore(Box::new(range('0', '9')))),
            },
        ],
        "make(sign, digits)".to_string(),
    );
    assert_eq!(
        run(&action, false, "z-0x12;", 1),
        Ok(Outcome::Success(
            6,
            Value::Action(
                "make(sign, digits)".to_string(),
                vec![
                    Binding {
                        name: "sign".to_string(),
                        value: Value::Present(Box::new(Value::Unit)),
                    },
                    Binding {
                        name: "digits".to_string(),
                        value: Value::List(vec![Value::Unit, Value::Unit]),
                    },
                ],
                vec!['-', '0', 'x', '1', '2'],
            )
        ))
    );
    assert_eq!(run(&action, false, "-0y", 0), failure(1));
}

#[test]
fn action_without_expressions_fires_at_once() {
    let action = Expr::ActionExpr(vec![], "0".to_string());
    assert_eq!(
        run(&action, true, "abc", 2),
        Ok(Outcome::Success(2, Value::Action("0".to_string(), vec![], vec![])))
    );
}

#[test]
fn unnamed_repetition_collects_nothing() {
    let action = Expr::ActionExpr(
        vec![TaggedExpr { name: None, expr: Box::new(Expr::ZeroOrMore(Box::new(lit("a")))) }],
        "()".to_string(),
    );
    assert_eq!(
        run(&action, true, "aab", 0),
        Ok(Outcome::Success(2, Value::Action("()".to_string(), vec![], vec!['a', 'a'])))
    );
}

#[test]
fn value_use_changes_the_value_only() {
    let e = Expr::ChoiceExpr(vec![
        Expr::OneOrMore(Box::new(lit("a"))),
        Expr::ZeroOrMore(Box::new(lit("b"))),
    ]);
    for input in ["aab", "bba", "c", ""] {
        let with = run(&e, true, input, 0);
        let without = run(&e, false, input, 0);
        match (with, without) {
            (Ok(Outcome::Success(a, _)), Ok(Outcome::Success(b, _))) => assert_eq!(a, b),
            (a, b) => assert_eq!(a, b),
        }
    }
}

#[test]
fn rule_call_gives_the_rule_its_own_value() {
    let grammar = Grammar {
        initializer: None,
        rules: vec![
            rule("xs", Expr::ZeroOrMore(Box::new(lit("x"))), "Vec<()>", false),
            rule("ys", Expr::ZeroOrMore(Box::new(lit("y"))), "()", false),
        ],
    };
    let input = chars("xxyy");
    assert_eq!(
        match_expr(&grammar, &Expr::RuleExpr("xs".to_string()), false, &input, 0, 4),
        Ok(Outcome::Success(2, Value::List(vec![Value::Unit, Value::Unit])))
    );
    assert_eq!(
        match_expr(&grammar, &Expr::RuleExpr("ys".to_string()), true, &input, 2, 4),
        success(4)
    );
    assert_eq!(
        parse_rule(&grammar, "xs", &input, 1, 4),
        Ok(Outcome::Success(2, Value::List(vec![Value::Unit])))
    );
}

#[test]
fn rules_may_be_declared_after_their_use() {
    let grammar = Grammar {
        initializer: None,
        rules: vec![
            rule(
                "pair",
                Expr::SequenceExpr(vec![
                    Expr::RuleExpr("item".to_string()),
                    Expr::RuleExpr("item".to_string()),
                ]),
                "()",
                true,
            ),
            rule("item", range('a', 'z'), "()", false),
        ],
    };
    assert_eq!(parse(&grammar, "pair", "ab", 4), Ok(Ok(Value::Unit)));
    assert_eq!(parse(&grammar, "pair", "a1", 4), Ok(Err("Error at line 1".to_string())));
}

#[test]
fn undefined_rule() {
    let input = chars("a");
    assert_eq!(
        match_expr(&no_rules(), &Expr::RuleExpr("missing".to_string()), false, &input, 0, 4),
        Err(MatchError::UndefinedRule)
    );
    assert_eq!(parse_rule(&no_rules(), "missing", &input, 0, 4), Err(MatchError::UndefinedRule));
    assert_eq!(parse(&no_rules(), "missing", "a", 4), Err(MatchError::UndefinedRule));
}

#[test]
fn entry_needs_an_exported_rule() {
    let grammar = one_rule(rule("a", lit("a"), "()", false));
    assert_eq!(parse(&grammar, "a", "a", 4), Err(MatchError::NotExported));
    assert_eq!(parse_rule(&grammar, "a", &chars("a"), 0, 4), success(1));
}

#[test]
fn unimplemented_constructs_have_no_outcome() {
    let delimited = Expr::DelimitedExpr(Box::new(lit("a")), Box::new(lit(",")));
    assert_eq!(run(&delimited, false, "a,a", 0), Err(MatchError::NotImplemented));
    let stringify = Expr::StringifyExpr(Box::new(lit("a")));
    assert_eq!(run(&stringify, false, "a", 0), Err(MatchError::NotImplemented));
    let inside = Expr::SequenceExpr(vec![lit("a"), Expr::StringifyExpr(Box::new(lit("a")))]);
    assert_eq!(run(&inside, false, "aa", 0), Err(MatchError::NotImplemented));
}

#[test]
fn repetition_of_an_empty_match_makes_no_progress() {
    let e = Expr::ZeroOrMore(Box::new(Expr::OptionalExpr(Box::new(lit("a")))));
    assert_eq!(run(&e, false, "aab", 0), Err(MatchError::NoProgress));
    let e = Expr::OneOrMore(Box::new(Expr::SequenceExpr(vec![])));
    assert_eq!(run(&e, false, "", 0), Err(MatchError::NoProgress));
}

#[test]
fn exported_rule_must_match_the_whole_input() {
    let grammar = one_rule(rule("a", lit("a"), "()", true));
    assert_eq!(
        parse(&grammar, "a", "ab", 4),
        Ok(Err("Expected end of input at line 1".to_string()))
    );
    assert_eq!(parse(&grammar, "a", "a", 4), Ok(Ok(Value::Unit)));
    assert_eq!(parse(&grammar, "a", "b", 4), Ok(Err("Error at line 1".to_string())));
    assert_eq!(parse(&grammar, "a", "", 4), Ok(Err("Error at line 1".to_string())));
}

#[test]
fn messages_give_the_line() {
    let grammar = one_rule(rule(
        "lines",
        Expr::ZeroOrMore(Box::new(Expr::ChoiceExpr(vec![lit("ab"), lit("\n")]))),
        "()",
        true,
    ));
    assert_eq!(parse(&grammar, "lines", "ab\nab\nab", 2), Ok(Ok(Value::Unit)));
    assert_eq!(
        parse(&grammar, "lines", "ab\nab\nxb", 2),
        Ok(Err("Expected end of input at line 3".to_string()))
    );
    assert_eq!(
        parse(&grammar, "lines", "ab\nxb\nab", 2),
        Ok(Err("Expected end of input at line 2".to_string()))
    );
    let many = "\n".repeat(11) + "x";
    assert_eq!(
        parse(&grammar, "lines", &many, 2),
        Ok(Err("Expected end of input at line 12".to_string()))
    );
    let strict = one_rule(rule(
        "strict",
        Expr::SequenceExpr(vec![lit("a\n"), lit("b\n"), lit("c")]),
        "()",
        true,
    ));
    assert_eq!(parse(&strict, "strict", "a\nb\nd", 2), Ok(Err("Error at line 3".to_string())));
    assert_eq!(parse(&strict, "strict", "a\nb\n", 2), Ok(Err("Error at line 2".to_string())));
    assert_eq!(parse(&strict, "strict", "a\nb", 2), Ok(Err("Error at line 2".to_string())));
}

#[test]
fn recursion_matches_balanced_nesting() {
    let grammar = nested();
    assert_eq!(parse(&grammar, "expr", "x", 8), Ok(Ok(Value::Unit)));
    assert_eq!(parse(&grammar, "expr", "(x)", 8), Ok(Ok(Value::Unit)));
    assert_eq!(parse(&grammar, "expr", "(((x)))", 8), Ok(Ok(Value::Unit)));
}

#[test]
fn recursion_fails_on_unbalanced_input() {
    let grammar = nested();
    assert_eq!(parse(&grammar, "expr", "((x)", 8), Ok(Err("Error at line 1".to_string())));
    assert_eq!(
        parse(&grammar, "expr", "(x))", 8),
        Ok(Err("Expected end of input at line 1".to_string()))
    );
    assert_eq!(parse(&grammar, "expr", "(", 8), Ok(Err("Error at line 1".to_string())));
    assert_eq!(parse(&grammar, "expr", "", 8), Ok(Err("Error at line 1".to_string())));
}

#[test]
fn recursion_is_bounded_by_the_depth() {
    let grammar = nested();
    assert_eq!(parse(&grammar, "expr", "((x))", 3), Ok(Ok(Value::Unit)));
    assert_eq!(parse(&grammar, "expr", "((x))", 2), Err(MatchError::DepthExceeded));
    assert_eq!(parse(&grammar, "expr", "x", 0), Err(MatchError::DepthExceeded));
    let deep = "(".repeat(200) + "x" + &")".repeat(200);
    assert_eq!(parse(&grammar, "expr", &deep, 201), Ok(Ok(Value::Unit)));
    assert_eq!(parse(&grammar, "expr", &deep, 200), Err(MatchError::DepthExceeded));
}

#[test]
fn left_recursion_exceeds_every_depth() {
    let grammar = one_rule(rule(
        "e",
        Expr::ChoiceExpr(vec![
            Expr::SequenceExpr(vec![Expr::RuleExpr("e".to_string()), lit("+")]),
            lit("x"),
        ]),
        "()",
        true,
    ));
    assert_eq!(parse(&grammar, "e", "x+", 64), Err(MatchError::DepthExceeded));
}

#[test]
fn a_greater_depth_gives_the_same_outcome() {
    let grammar = nested();
    let input = chars("((x)))");
    let at_three = parse_rule(&grammar, "expr", &input, 0, 3);
    assert_eq!(at_three, success(5));
    assert_eq!(parse_rule(&grammar, "expr", &input, 0, 4), at_three);
    assert_eq!(parse_rule(&grammar, "expr", &input, 0, 1000), at_three);
}

#[test]
fn the_first_rule_of_a_name_is_called() {
    let grammar = Grammar {
        initializer: None,
        rules: vec![rule("a", lit("1"), "()", true), rule("a", lit("2"), "()", true)],
    };
    assert_eq!(parse(&grammar, "a", "1", 2), Ok(Ok(Value::Unit)));
    assert_eq!(parse(&grammar, "a", "2", 2), Ok(Err("Error at line 1".to_string())));
}

#[test]
fn lookup_finds_the_first_rule_of_a_name() {
    let grammar = Grammar {
        initializer: None,
        rules: vec![
            rule("a", lit("1"), "()", true),
            rule("b", lit("2"), "u8", false),
            rule("a", lit("3"), "()", false),
        ],
    };
    assert_eq!(lookup(&grammar, "a"), Some(&grammar.rules[0]));
    assert_eq!(lookup(&grammar, "b"), Some(&grammar.rules[1]));
    assert_eq!(lookup(&grammar, "c"), None);
    assert_eq!(lookup(&no_rules(), "a"), None);
}

#[test]
fn a_rule_of_unit_type_has_no_value_in_use() {
    assert!(!rule("a", lit("a"), "()", false).is_value_used());
    assert!(rule("a", lit("a"), "( )", false).is_value_used());
    assert!(rule("a", lit("a"), "u8", false).is_value_used());
    assert!(rule("a", lit("a"), "", false).is_value_used());
}
