use menv::lit_parse::{trimmed_help, Literal, LiteralData, Output};
use menv::messages::invalid_escape_message;
use menv::span::{Diagnostic, Span};
use menv::text::trim_str;

fn sp(id: usize) -> Span {
    Span { id }
}

fn string_value(data: &LiteralData) -> Option<&str> {
    match data {
        LiteralData::StringValue(s) => Some(s.as_str()),
        _ => None,
    }
}

#[test]
fn classify_plain_string() {
    let out = Literal::parse("\"hi\"", sp(3));
    assert_eq!(string_value(out.x.data()), Some("hi"));
    assert_eq!(out.x.span().id, 3);
    assert_eq!(out.errors.len(), 0);
}

#[test]
fn classify_plain_string_with_diagnostics() {
    let out = Literal::parse("\"\\q\"", sp(4));
    assert_eq!(string_value(out.x.data()), Some(""));
    assert_eq!(out.errors.len(), 1);
    assert_eq!(out.errors[0].message, "invalid string escape at byte offset 1");
    assert_eq!(out.errors[0].span.id, 4);
}

#[test]
fn classify_raw_string() {
    let out = Literal::parse("r#\"a\"b\"#", sp(5));
    assert_eq!(string_value(out.x.data()), Some("a\"b"));
    assert_eq!(out.errors.len(), 0);
}

#[test]
fn classify_numeric_is_unknown() {
    let out = Literal::parse("123", sp(6));
    assert!(string_value(out.x.data()).is_none());
    assert_eq!(out.errors.len(), 0);
}

#[test]
fn classify_empty_is_unknown() {
    let out = Literal::parse("", sp(6));
    assert!(string_value(out.x.data()).is_none());
    assert_eq!(out.errors.len(), 0);
}

#[test]
fn output_new_carries_fields() {
    let out: Output<u32> = Output::new(5, vec![Diagnostic::new(String::from("m"), sp(1))]);
    assert_eq!(out.x, 5);
    assert_eq!(out.errors.len(), 1);
    assert_eq!(out.errors[0].message, "m");
    assert_eq!(out.errors[0].span.id, 1);
}

#[test]
fn trimmed_help_trims_plain_string() {
    let out = trimmed_help("\"  hi there  \"", sp(9));
    assert_eq!(out.x.as_deref(), Some("hi there"));
    assert_eq!(out.errors.len(), 0);
}

#[test]
fn trimmed_help_trims_raw_string() {
    let out = trimmed_help("r#\" x \"#", sp(9));
    assert_eq!(out.x.as_deref(), Some("x"));
    assert_eq!(out.errors.len(), 0);
}

#[test]
fn trimmed_help_rejects_non_string() {
    let out = trimmed_help("42", sp(9));
    assert!(out.x.is_none());
    assert_eq!(out.errors.len(), 1);
    assert_eq!(
        out.errors[0].message,
        "attempted to pass a non-string literal as help text"
    );
    assert_eq!(out.errors[0].span.id, 9);
}

#[test]
fn trim_str_removes_unicode_whitespace() {
    assert_eq!(trim_str("\u{3000} a b \u{00A0}"), "a b");
    assert_eq!(trim_str("   "), "");
    assert_eq!(trim_str(""), "");
    assert_eq!(trim_str("x"), "x");
}

#[test]
fn invalid_escape_message_renders_offset() {
    assert_eq!(invalid_escape_message(0), "invalid string escape at byte offset 0");
    assert_eq!(invalid_escape_message(42), "invalid string escape at byte offset 42");
    assert_eq!(
        invalid_escape_message(120),
        "invalid string escape at byte offset 120"
    );
}
