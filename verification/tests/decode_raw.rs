use menv::plain::parse_str_literal;
use menv::raw::parse_raw_str_literal;
use menv::span::Span;

#[test]
fn raw_zero_hashes() {
    assert_eq!(parse_raw_str_literal("r\"plain\""), "plain");
}

#[test]
fn raw_one_hash_inner_quote_literal() {
    // The inner quote is not followed by a hash, so it is ordinary text.
    assert_eq!(parse_raw_str_literal("r#\"a\"b\"#"), "a\"b");
}

#[test]
fn raw_two_hashes_short_run_literal() {
    // A quote followed by one hash is too short for a two-hash delimiter.
    assert_eq!(parse_raw_str_literal("r##\"a\"#b\"##"), "a\"#b");
}

#[test]
fn raw_backslashes_verbatim() {
    assert_eq!(parse_raw_str_literal("r\"a\\nb\""), "a\\nb");
}

#[test]
fn raw_empty_body() {
    assert_eq!(parse_raw_str_literal("r#\"\"#"), "");
}

#[test]
fn raw_text_after_close_ignored() {
    assert_eq!(parse_raw_str_literal("r#\"x\"#zzz"), "x");
}

#[test]
fn raw_short_run_at_end_dropped() {
    // The input ends inside a one-hash run under a two-hash delimiter:
    // scanning stops with what was gathered.
    assert_eq!(parse_raw_str_literal("r##\"ab\"#"), "ab");
}

#[test]
fn raw_long_delimiter_with_partial_runs() {
    // Five-hash delimiter; inner quotes with shorter runs stay literal.
    assert_eq!(
        parse_raw_str_literal("r#####\"a\"##b\"####c\"#####"),
        "a\"##b\"####c"
    );
}

#[test]
fn raw_adjacent_quotes() {
    // Under a one-hash delimiter, a bare quote is literal even right
    // before the real closing delimiter.
    assert_eq!(parse_raw_str_literal("r#\"\"\"#"), "\"");
}

#[test]
fn raw_and_plain_paths_differ() {
    // Decoding a raw literal keeps the backslash; feeding the same body to
    // the plain decoder processes it. The two operations are distinct.
    let raw = parse_raw_str_literal("r\"a\\nb\"");
    let plain = parse_str_literal("\"a\\nb\"", Span { id: 0 });
    assert_eq!(raw, "a\\nb");
    assert_eq!(plain.x, "a\nb");
    assert_ne!(raw, plain.x);
}
