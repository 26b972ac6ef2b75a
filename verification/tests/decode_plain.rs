use menv::lit_parse::Output;
use menv::plain::parse_str_literal;
use menv::span::Span;

fn sp(id: usize) -> Span {
    Span { id }
}

fn decode(input: &str) -> Output<String> {
    parse_str_literal(input, sp(7))
}

#[test]
fn plain_no_escapes() {
    let out = decode("\"hello world\"");
    assert_eq!(out.x, "hello world");
    assert_eq!(out.errors.len(), 0);
}

#[test]
fn plain_empty_body() {
    let out = decode("\"\"");
    assert_eq!(out.x, "");
    assert_eq!(out.errors.len(), 0);
}

#[test]
fn plain_round_trip_backslash_n() {
    // Source text `"a\nb"`: a literal backslash-n inside the quotes.
    let out = decode("\"a\\nb\"");
    assert_eq!(out.x, "a\nb");
    assert_eq!(out.errors.len(), 0);
}

#[test]
fn plain_hex_escape() {
    let out = decode("\"\\x41\"");
    assert_eq!(out.x, "A");
    assert_eq!(out.errors.len(), 0);
}

#[test]
fn plain_hex_escape_permissive_first_digit() {
    // The first digit is taken as a full hex nibble, not restricted to 0-7.
    let out = decode("\"\\xff\"");
    assert_eq!(out.x, "\u{ff}");
    assert_eq!(out.errors.len(), 0);
}

#[test]
fn plain_unicode_escape() {
    let out = decode("\"\\u{48}\\u{49}\"");
    assert_eq!(out.x, "HI");
    assert_eq!(out.errors.len(), 0);
}

#[test]
fn plain_unicode_escape_empty_braces() {
    let out = decode("\"\\u{}\"");
    assert_eq!(out.x, "\u{0}");
    assert_eq!(out.errors.len(), 0);
}

#[test]
fn plain_unicode_escape_largest() {
    let out = decode("\"\\u{10FFFF}\"");
    assert_eq!(out.x, "\u{10FFFF}");
    assert_eq!(out.errors.len(), 0);
}

#[test]
fn plain_simple_escapes() {
    let out = decode("\"\\n\\r\\t\\\\\\0\\'\\\"\"");
    assert_eq!(out.x, "\n\r\t\\\u{0}\"\"");
    assert_eq!(out.errors.len(), 0);
}

#[test]
fn plain_invalid_escape() {
    let out = decode("\"\\q\"");
    assert_eq!(out.x, "");
    assert_eq!(out.errors.len(), 1);
    assert_eq!(out.errors[0].message, "invalid string escape at byte offset 1");
    assert_eq!(out.errors[0].span.id, 7);
}

#[test]
fn plain_invalid_escapes_both_reported() {
    let out = decode("\"\\q\\w\"");
    assert_eq!(out.x, "");
    assert_eq!(out.errors.len(), 2);
    assert_eq!(out.errors[0].message, "invalid string escape at byte offset 1");
    assert_eq!(out.errors[1].message, "invalid string escape at byte offset 3");
}

#[test]
fn plain_continuation() {
    // `a\` followed by a newline and three spaces swallows the whitespace.
    let out = decode("\"a\\\n   b\"");
    assert_eq!(out.x, "ab");
    assert_eq!(out.errors.len(), 0);
}

#[test]
fn plain_continuation_mixed_whitespace() {
    let out = decode("\"a\\\n\t\r x\"");
    assert_eq!(out.x, "ax");
    assert_eq!(out.errors.len(), 0);
}

#[test]
fn plain_suffix_rejected() {
    let out = decode("\"abc\"xyz");
    assert_eq!(out.x, "abc");
    assert_eq!(out.errors.len(), 1);
    assert_eq!(out.errors[0].message, "literal suffixes are not supported");
    assert_eq!(out.errors[0].span.id, 7);
}

#[test]
fn plain_invalid_escape_then_suffix() {
    let out = decode("\"\\q\"s");
    assert_eq!(out.x, "");
    assert_eq!(out.errors.len(), 2);
    assert_eq!(out.errors[0].message, "invalid string escape at byte offset 1");
    assert_eq!(out.errors[1].message, "literal suffixes are not supported");
}

#[test]
fn plain_unterminated_keeps_text() {
    let out = decode("\"abc");
    assert_eq!(out.x, "abc");
    assert_eq!(out.errors.len(), 0);
}

#[test]
fn plain_trailing_backslash_stops() {
    let out = decode("\"abc\\");
    assert_eq!(out.x, "abc");
    assert_eq!(out.errors.len(), 0);
}

#[test]
fn plain_multibyte_characters_verbatim() {
    let out = decode("\"héllo wörld\"");
    assert_eq!(out.x, "héllo wörld");
    assert_eq!(out.errors.len(), 0);
}
