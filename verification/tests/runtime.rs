use peg::runtime::{any_char, pos_to_line, slice_eq};
use peg::text::{chars_of, escape_char_default, escape_default, push_decimal, push_escaped_char};
use peg::value::{Outcome, Value};

fn text(s: &str) -> Vec<char> {
    s.chars().collect()
}

#[test]
fn slice_eq_compares_the_range() {
    assert_eq!(slice_eq(&text("hello"), 1, &text("ell")), Outcome::Success(4, Value::Unit));
    assert_eq!(slice_eq(&text("hello"), 1, &text("elx")), Outcome::Failure(1));
    assert_eq!(slice_eq(&text("hello"), 3, &text("lo")), Outcome::Success(5, Value::Unit));
    assert_eq!(slice_eq(&text("hello"), 3, &text("lo!")), Outcome::Failure(3));
    assert_eq!(slice_eq(&text("hello"), 5, &text("")), Outcome::Success(5, Value::Unit));
    assert_eq!(slice_eq(&text("hello"), 6, &text("")), Outcome::Failure(6));
    assert_eq!(slice_eq(&text("hello"), usize::MAX, &text("h")), Outcome::Failure(usize::MAX));
}

#[test]
fn any_char_steps_by_one() {
    assert_eq!(any_char(&text("ab"), 0), Outcome::Success(1, Value::Unit));
    assert_eq!(any_char(&text("ab"), 1), Outcome::Success(2, Value::Unit));
    assert_eq!(any_char(&text("ab"), 2), Outcome::Failure(2));
    assert_eq!(any_char(&text("ab"), usize::MAX), Outcome::Failure(usize::MAX));
}

#[test]
fn line_of_a_position_within_the_input() {
    let input = text("ab\ncd\n\nef");
    assert_eq!(pos_to_line(&input, 0), 1);
    assert_eq!(pos_to_line(&input, 1), 1);
    // A line break belongs to the line it ends.
    assert_eq!(pos_to_line(&input, 2), 1);
    assert_eq!(pos_to_line(&input, 3), 2);
    assert_eq!(pos_to_line(&input, 5), 2);
    assert_eq!(pos_to_line(&input, 6), 3);
    assert_eq!(pos_to_line(&input, 7), 4);
    assert_eq!(pos_to_line(&input, 8), 4);
}

#[test]
fn line_of_a_position_at_or_past_the_end() {
    assert_eq!(pos_to_line(&text("ab\ncd"), 5), 2);
    assert_eq!(pos_to_line(&text("ab\ncd"), 50), 2);
    assert_eq!(pos_to_line(&text("ab\ncd\n"), 6), 2);
    assert_eq!(pos_to_line(&text("ab\ncd\n"), 60), 2);
    assert_eq!(pos_to_line(&text("ab"), 2), 1);
    assert_eq!(pos_to_line(&text("\n"), 1), 1);
    assert_eq!(pos_to_line(&text("\n\n"), 2), 2);
    assert_eq!(pos_to_line(&text(""), 0), 1);
    assert_eq!(pos_to_line(&text(""), 9), 1);
}

#[test]
fn chars_of_a_string() {
    assert_eq!(chars_of("a\u{e9}\u{20ac}"), vec!['a', '\u{e9}', '\u{20ac}']);
    assert_eq!(chars_of(""), Vec::<char>::new());
}

#[test]
fn escape_of_special_characters() {
    assert_eq!(escape_default("a\tb"), "a\\tb");
    assert_eq!(escape_default("\r\n"), "\\r\\n");
    assert_eq!(escape_default("'"), "\\'");
    assert_eq!(escape_default("say \"hi\""), "say \\\"hi\\\"");
    assert_eq!(escape_default("\\"), "\\\\");
    assert_eq!(escape_default(""), "");
    assert_eq!(escape_default(" ~"), " ~");
}

#[test]
fn escape_of_characters_outside_printable_ascii() {
    assert_eq!(escape_default("\u{0}"), "\\u{0}");
    assert_eq!(escape_default("\u{1f}"), "\\u{1f}");
    assert_eq!(escape_default("\u{7f}"), "\\u{7f}");
    assert_eq!(escape_default("\u{e9}"), "\\u{e9}");
    assert_eq!(escape_default("\u{20ac}"), "\\u{20ac}");
    assert_eq!(escape_default("\u{10ffff}"), "\\u{10ffff}");
    assert_eq!(escape_default("\u{100}"), "\\u{100}");
}

#[test]
fn escape_agrees_with_the_standard_library() {
    let samples = ["", "plain", "tab\there", "q'\"\\", "\u{0}\u{7f}\u{80}\u{abcd}\u{10ffff}", "a\nb\r"];
    for s in samples {
        assert_eq!(escape_default(s), s.escape_default().to_string());
    }
    for c in ['a', '\'', '\n', '\u{1}', '\u{fffd}'] {
        assert_eq!(escape_char_default(c), c.escape_default().to_string());
    }
}

#[test]
fn decimal_numerals() {
    for n in [0usize, 7, 9, 10, 11, 99, 100, 101, 12345, usize::MAX] {
        let mut text = "line ".to_string();
        push_decimal(&mut text, n);
        assert_eq!(text, format!("line {}", n));
    }
}

#[test]
fn escaped_characters_are_appended() {
    let mut text = "a".to_string();
    push_escaped_char(&mut text, 'b');
    push_escaped_char(&mut text, '"');
    push_escaped_char(&mut text, '\u{a0}');
    assert_eq!(text, "ab\\\"\\u{a0}");
}
