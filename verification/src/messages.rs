//! The diagnostic message texts, including the decimal rendering of offsets.

use vstd::prelude::*;
use crate::text::chars_to_string;

verus! {

/// The decimal digit character for a value between 0 and 9.
pub open spec fn digit_char(d: int) -> char {
    (d + ('0' as int)) as char
}

/// The decimal representation of a non-negative number, most significant
/// digit first, with no leading zeros (a single `0` for zero itself).
pub open spec fn dec_digits(n: int) -> Seq<char>
    decreases n,
{
    if n <= 9 {
        seq![digit_char(if n < 0 { 0 } else { n })]
    } else {
        dec_digits(n / 10) + seq![digit_char(n % 10)]
    }
}

/// The decimal digits of `n`, as characters.
pub fn render_dec(n: usize) -> (r: Vec<char>)
    ensures
        r@ == dec_digits(n as int),
    decreases n,
{
    let d: u8 = (n % 10) as u8;
    let c: char = (48u8 + d) as char;
    assert(c == digit_char(n as int % 10));
    if n <= 9 {
        let mut r: Vec<char> = Vec::new();
        r.push(c);
        assert(r@ =~= dec_digits(n as int));
        r
    } else {
        let mut r = render_dec(n / 10);
        r.push(c);
        assert(r@ =~= dec_digits(n as int));
        r
    }
}

/// The message reported for an unrecognised escape character at the given
/// character offset from the start of the literal body.
pub open spec fn invalid_escape_msg(offset: int) -> Seq<char> {
    "invalid string escape at byte offset "@ + dec_digits(offset)
}

/// The message reported once when characters follow the closing quote.
pub open spec fn suffix_msg() -> Seq<char> {
    "literal suffixes are not supported"@
}

/// The message reported when a literal of some non-string kind stands where
/// help text is expected.
pub open spec fn non_string_help_msg() -> Seq<char> {
    "attempted to pass a non-string literal as help text"@
}

pub fn invalid_escape_message(offset: usize) -> (r: String)
    ensures
        r@ == invalid_escape_msg(offset as int),
{
    let digits = render_dec(offset);
    let tail = chars_to_string(&digits);
    let mut r = String::from_str("invalid string escape at byte offset ");
    r.append(tail.as_str());
    r
}

pub fn suffix_message() -> (r: String)
    ensures
        r@ == suffix_msg(),
{
    String::from_str("literal suffixes are not supported")
}

pub fn non_string_help_message() -> (r: String)
    ensures
        r@ == non_string_help_msg(),
{
    String::from_str("attempted to pass a non-string literal as help text")
}

} // verus!
