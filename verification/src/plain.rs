//! The plain-string escape decoder: a two-state scanner over the literal
//! body (the text after the opening quote) that turns escape sequences into
//! their target characters and collects a diagnostic for each invalid one.

use vstd::prelude::*;
use crate::lit_parse::Output;
use crate::messages::{invalid_escape_msg, invalid_escape_message, suffix_msg, suffix_message};
use crate::span::{Diagnostic, Span};
use crate::text::{chars_to_string, str_suffix_chars};

verus! {

/// Everything one decode of a plain-string body yields, over mathematical
/// values: the decoded text; the offsets (in characters from the start of
/// the body) of the invalid escape characters, in scan order; and whether
/// characters were left over after the closing quote.
pub ghost struct PlainDecoded {
    pub text: Seq<char>,
    pub bad_escapes: Seq<int>,
    pub suffix: bool,
}

/// A hexadecimal digit, either case.
pub open spec fn is_hex_digit(c: char) -> bool {
    ('0' <= c && c <= '9') || ('a' <= c && c <= 'f') || ('A' <= c && c <= 'F')
}

/// The value of a hexadecimal digit.
pub open spec fn hex_val(c: char) -> int {
    if '0' <= c && c <= '9' {
        c as int - '0' as int
    } else if 'a' <= c && c <= 'f' {
        c as int - 'a' as int + 10
    } else {
        c as int - 'A' as int + 10
    }
}

/// The whitespace a string-continuation escape discards: horizontal tab,
/// line feed, carriage return and space.
pub open spec fn is_continuation_ws(c: char) -> bool {
    c == '\u{0009}' || c == '\u{000A}' || c == '\u{000D}' || c == '\u{0020}'
}

/// Length of the run of continuation whitespace starting at `i`.
pub open spec fn ws_run(s: Seq<char>, i: int) -> int
    decreases s.len() - i,
{
    if i < 0 || i >= s.len() {
        0
    } else if is_continuation_ws(s[i]) {
        1 + ws_run(s, i + 1)
    } else {
        0
    }
}

pub proof fn lemma_ws_run_bounds(s: Seq<char>, i: int)
    requires
        0 <= i <= s.len(),
    ensures
        0 <= ws_run(s, i),
        i + ws_run(s, i) <= s.len(),
    decreases s.len() - i,
{
    if i < s.len() && is_continuation_ws(s[i]) {
        lemma_ws_run_bounds(s, i + 1);
    }
}

/// A value that `char::from_u32` accepts: a Unicode scalar value, i.e. any
/// code point outside the surrogate range.
pub open spec fn is_scalar_value(v: int) -> bool {
    (0 <= v && v < 0xD800) || (0xE000 <= v && v <= 0x10FFFF)
}

/// Scans the digits of a Unicode escape from position `i`, with `ndigits`
/// digits already read and `acc` their accumulated value; yields the code
/// point value and the index just past the closing brace, or `None` where
/// the brace is missing within six digits or the input ends first.
pub open spec fn unicode_scan(s: Seq<char>, i: int, ndigits: int, acc: int) -> Option<(int, int)>
    decreases s.len() - i,
{
    if i < 0 || i >= s.len() {
        None
    } else if s[i] == '}' {
        Some((acc, i + 1))
    } else if ndigits >= 6 {
        None
    } else if is_hex_digit(s[i]) {
        unicode_scan(s, i + 1, ndigits + 1, acc * 16 + hex_val(s[i]))
    } else {
        None
    }
}

pub proof fn lemma_unicode_scan_bounds(s: Seq<char>, i: int, ndigits: int, acc: int)
    requires
        0 <= i,
    ensures
        unicode_scan(s, i, ndigits, acc) matches Some(p) ==> i < p.1 <= s.len(),
    decreases s.len() - i,
{
    if i < s.len() && s[i] != '}' && ndigits < 6 && is_hex_digit(s[i]) {
        lemma_unicode_scan_bounds(s, i + 1, ndigits + 1, acc * 16 + hex_val(s[i]));
    }
}

/// What one escape sequence contributes: the index where normal scanning
/// resumes, the characters appended, and the offset of the escape character
/// if it was an invalid one.
pub ghost struct EscapeStep {
    pub next: int,
    pub out: Seq<char>,
    pub bad: Option<int>,
}

/// Decodes the escape sequence whose first character (the one after the
/// backslash) sits at `i`. `None` marks the malformed shapes that callers
/// must keep out: a `\x` without its two hexadecimal digits, a `\u` without
/// a braced digit group of at most six digits, a code point in the surrogate
/// range, and a continuation escape whose whitespace run reaches the end of
/// the input. A backslash that ends the body (`i` at the length) simply
/// stops the scan.
pub open spec fn escape_step(s: Seq<char>, i: int) -> Option<EscapeStep> {
    if i >= s.len() {
        Some(EscapeStep { next: i, out: seq![], bad: None })
    } else {
        let c = s[i];
        if c == '"' || c == '\'' {
            Some(EscapeStep { next: i + 1, out: seq!['"'], bad: None })
        } else if c == 'x' {
            if i + 2 < s.len() && is_hex_digit(s[i + 1]) && is_hex_digit(s[i + 2]) {
                Some(
                    EscapeStep {
                        next: i + 3,
                        out: seq![((hex_val(s[i + 1]) * 16 + hex_val(s[i + 2])) as char)],
                        bad: None,
                    },
                )
            } else {
                None
            }
        } else if c == 'n' {
            Some(EscapeStep { next: i + 1, out: seq!['\n'], bad: None })
        } else if c == 'r' {
            Some(EscapeStep { next: i + 1, out: seq!['\r'], bad: None })
        } else if c == 't' {
            Some(EscapeStep { next: i + 1, out: seq!['\t'], bad: None })
        } else if c == '\\' {
            Some(EscapeStep { next: i + 1, out: seq!['\\'], bad: None })
        } else if c == '0' {
            Some(EscapeStep { next: i + 1, out: seq!['\0'], bad: None })
        } else if c == 'u' {
            if i + 1 < s.len() && s[i + 1] == '{' {
                match unicode_scan(s, i + 2, 0, 0) {
                    Some(p) => if is_scalar_value(p.0) {
                        Some(EscapeStep { next: p.1, out: seq![(p.0 as char)], bad: None })
                    } else {
                        None
                    },
                    None => None,
                }
            } else {
                None
            }
        } else if c == '\n' {
            let w = ws_run(s, i + 1);
            if i + 1 + w < s.len() {
                Some(EscapeStep { next: i + 1 + w, out: seq![], bad: None })
            } else {
                None
            }
        } else {
            Some(EscapeStep { next: i + 1, out: seq![], bad: Some(i) })
        }
    }
}

pub proof fn lemma_escape_step_bounds(s: Seq<char>, i: int)
    requires
        0 <= i <= s.len(),
    ensures
        escape_step(s, i) matches Some(e) ==> i <= e.next && e.next <= s.len() && e.out.len() <= 1,
{
    if i < s.len() && s[i] == 'u' && i + 1 < s.len() && s[i + 1] == '{' {
        lemma_unicode_scan_bounds(s, i + 2, 0, 0);
    }
    if i < s.len() && s[i] == '\n' {
        lemma_ws_run_bounds(s, i + 1);
    }
}

/// The decode of the body from position `i` onward, the scanner standing in
/// its normal state. `None` marks a body that the decoder's contract rules
/// out: a bare carriage return, or a structurally broken escape sequence
/// (see `escape_step`).
pub open spec fn plain_decode_from(s: Seq<char>, i: int) -> Option<PlainDecoded>
    decreases s.len() - i,
    when 0 <= i
{
    if i >= s.len() {
        Some(PlainDecoded { text: seq![], bad_escapes: seq![], suffix: false })
    } else if s[i] == '"' {
        Some(PlainDecoded { text: seq![], bad_escapes: seq![], suffix: i + 1 < s.len() })
    } else if s[i] == '\\' {
        match escape_step(s, i + 1) {
            Some(e) => {
                proof {
                    lemma_escape_step_bounds(s, i + 1);
                }
                match plain_decode_from(s, e.next) {
                    Some(rest) => Some(
                        PlainDecoded {
                            text: e.out + rest.text,
                            bad_escapes: (match e.bad {
                                Some(b) => seq![b],
                                None => seq![],
                            }) + rest.bad_escapes,
                            suffix: rest.suffix,
                        },
                    ),
                    None => None,
                }
            },
            None => None,
        }
    } else if s[i] == '\r' {
        None
    } else {
        match plain_decode_from(s, i + 1) {
            Some(rest) => Some(
                PlainDecoded {
                    text: seq![s[i]] + rest.text,
                    bad_escapes: rest.bad_escapes,
                    suffix: rest.suffix,
                },
            ),
            None => None,
        }
    }
}

/// The decode of a plain-string literal body: the text after the opening
/// quote, up to and including the closing quote and anything after it.
pub open spec fn plain_decode(body: Seq<char>) -> Option<PlainDecoded> {
    plain_decode_from(body, 0)
}

proof fn lemma_plain_no_escapes_from(body: Seq<char>, i: int)
    requires
        0 <= i <= body.len() - 1,
        body[body.len() - 1] == '"',
        forall|k: int|
            0 <= k < body.len() - 1 ==> #[trigger] body[k] != '\\' && body[k] != '"' && body[k]
                != '\r',
    ensures
        plain_decode_from(body, i) matches Some(d) && d.text == body.subrange(
            i,
            body.len() - 1,
        ) && d.bad_escapes.len() == 0 && !d.suffix,
    decreases body.len() - i,
{
    if i == body.len() - 1 {
        assert(body.subrange(i, body.len() - 1) =~= Seq::<char>::empty());
    } else {
        lemma_plain_no_escapes_from(body, i + 1);
        assert(seq![body[i]] + body.subrange(i + 1, body.len() - 1) =~= body.subrange(
            i,
            body.len() - 1,
        ));
    }
}

/// Law: a plain-string body containing no backslash, no carriage return and
/// no interior quote, closed by a final quote, decodes to exactly the text
/// standing before that quote, with no diagnostics.
pub proof fn lemma_plain_no_escapes(body: Seq<char>)
    requires
        body.len() >= 1,
        body[body.len() - 1] == '"',
        forall|k: int|
            0 <= k < body.len() - 1 ==> #[trigger] body[k] != '\\' && body[k] != '"' && body[k]
                != '\r',
    ensures
        plain_decode(body) matches Some(d) && d.text == body.take(body.len() - 1)
            && d.bad_escapes.len() == 0 && !d.suffix,
{
    lemma_plain_no_escapes_from(body, 0);
}

/// Relies on `char::from_u32`: its documentation says it returns `None`
/// exactly for the values that are not Unicode scalar values (the surrogate
/// range and everything above 0x10FFFF), and otherwise the character with
/// that value.
pub assume_specification[ char::from_u32 ](v: u32) -> (r: Option<char>)
    ensures
        r is Some <==> is_scalar_value(v as int),
        r matches Some(c) ==> c as int == v as int,
;

/// The value already accumulated never exceeds the value the scan finally
/// yields: every further digit multiplies before it adds.
proof fn lemma_unicode_scan_value(s: Seq<char>, i: int, ndigits: int, acc: int)
    requires
        0 <= i,
        0 <= acc,
    ensures
        unicode_scan(s, i, ndigits, acc) matches Some(p) ==> acc <= p.0,
    decreases s.len() - i,
{
    if i < s.len() && s[i] != '}' && ndigits < 6 && is_hex_digit(s[i]) {
        lemma_unicode_scan_value(s, i + 1, ndigits + 1, acc * 16 + hex_val(s[i]));
    }
}

/// A run of continuation whitespace known character by character fixes
/// `ws_run` across it.
proof fn lemma_ws_run_shift(s: Seq<char>, a: int, j: int)
    requires
        0 <= a <= j <= s.len(),
        forall|k: int| a <= k < j ==> is_continuation_ws(#[trigger] s[k]),
    ensures
        ws_run(s, a) == (j - a) + ws_run(s, j),
    decreases j - a,
{
    if a < j {
        lemma_ws_run_shift(s, a + 1, j);
    }
}

fn is_continuation_ws_exec(c: char) -> (b: bool)
    ensures
        b == is_continuation_ws(c),
{
    c == '\u{0009}' || c == '\u{000A}' || c == '\u{000D}' || c == '\u{0020}'
}

fn hex_digit_value(c: char) -> (d: u8)
    requires
        is_hex_digit(c),
    ensures
        d < 16,
        d as int == hex_val(c),
{
    let v = c as u32;
    if 97 <= v {
        (v - 87) as u8
    } else if 65 <= v {
        (v - 55) as u8
    } else {
        (v - 48) as u8
    }
}

/// Decodes a plain-string literal from its full raw text, whose first
/// character is the opening quote. The scan runs to the first unescaped
/// closing quote, appending ordinary characters verbatim and escape
/// sequences decoded; it never aborts: each invalid escape character is
/// reported as a diagnostic, in scan order, and characters left after the
/// closing quote are reported once after them. The contract asks callers to
/// keep out the structurally broken bodies on which the scanner has no
/// defined answer (see `plain_decode_from`); on everything else the decode
/// is total.
pub fn parse_str_literal(input: &str, span: Span) -> (r: Output<String>)
    requires
        input@.len() >= 1,
        input@[0] == '"',
        plain_decode(input@.skip(1)) is Some,
    ensures
        plain_decode(input@.skip(1)) matches Some(d) ==> ({
            &&& r.x@ == d.text
            &&& r.errors@.len() == d.bad_escapes.len() + (if d.suffix {
                1int
            } else {
                0int
            })
            &&& forall|k: int|
                0 <= k < d.bad_escapes.len() ==> (#[trigger] r.errors@[k]).message@
                    == invalid_escape_msg(d.bad_escapes[k]) && r.errors@[k].span == span
            &&& d.suffix ==> r.errors@[d.bad_escapes.len() as int].message@ == suffix_msg()
                && r.errors@[d.bad_escapes.len() as int].span == span
        }),
{
    let chars = str_suffix_chars(input, 1);
    let ghost body = input@.skip(1);
    let n = chars.len();
    let ghost full = plain_decode_from(body, 0)->0;
    let mut text: Vec<char> = Vec::new();
    let mut errors: Vec<Diagnostic> = Vec::new();
    let mut i: usize = 0;
    let mut closed: bool = false;
    proof {
        assert(Seq::<char>::empty() + full.text =~= full.text);
        assert(full.bad_escapes.skip(0) =~= full.bad_escapes);
    }
    while i < n && !closed
        invariant
            chars@ == body,
            n == chars.len(),
            body.len() == n,
            i <= n,
            plain_decode_from(body, i as int) is Some,
            ({
                let rest = plain_decode_from(body, i as int)->0;
                &&& full.text == text@ + rest.text
                &&& full.bad_escapes.len() == errors@.len() + rest.bad_escapes.len()
                &&& full.bad_escapes.skip(errors@.len() as int) == rest.bad_escapes
                &&& full.suffix == rest.suffix
            }),
            forall|k: int|
                0 <= k < errors@.len() ==> (#[trigger] errors@[k]).message@ == invalid_escape_msg(
                    full.bad_escapes[k],
                ) && errors@[k].span == span,
            closed ==> i < n && body[i as int] == '"',
        decreases n - i + (if closed {
            0int
        } else {
            1int
        }),
    {
        let ghost i0 = i as int;
        let ghost rest0 = plain_decode_from(body, i0)->0;
        let c = chars[i];
        if c == '"' {
            closed = true;
        } else if c == '\\' {
            proof {
                lemma_escape_step_bounds(body, i0 + 1);
            }
            let ghost e = escape_step(body, i0 + 1)->0;
            let ghost restn = plain_decode_from(body, e.next)->0;
            if i + 1 >= n {
                // The body ended just after the backslash: scanning stops.
                i = i + 1;
                proof {
                    assert(full.text =~= text@ + restn.text);
                    assert(full.bad_escapes.skip(errors@.len() as int) =~= restn.bad_escapes);
                }
            } else {
                let ec = chars[i + 1];
                if ec == 'x' {
                    proof {
                        assert(i0 + 3 < n);
                        assert(is_hex_digit(body[i0 + 2]) && is_hex_digit(body[i0 + 3]));
                    }
                    let d1 = hex_digit_value(chars[i + 2]);
                    let d2 = hex_digit_value(chars[i + 3]);
                    let b8: u8 = d1 * 16 + d2;
                    let ghost t0 = text@;
                    text.push(b8 as char);
                    i = i + 4;
                    proof {
                        assert(e.out =~= seq![b8 as char]);
                        assert(t0 + (e.out + restn.text) =~= (t0 + e.out) + restn.text);
                        assert(full.text =~= text@ + restn.text);
                        assert(full.bad_escapes.skip(errors@.len() as int) =~= restn.bad_escapes);
                    }
                } else if ec == 'u' {
                    proof {
                        assert(i0 + 2 < n && body[i0 + 2] == '{');
                        assert(unicode_scan(body, i0 + 3, 0, 0) is Some);
                    }
                    let ghost vx = unicode_scan(body, i0 + 3, 0, 0)->0;
                    let mut j: usize = i + 3;
                    let mut nd: u8 = 0;
                    let mut acc: u32 = 0;
                    while chars[j] != '}'
                        invariant
                            chars@ == body,
                            n == chars.len(),
                            body.len() == n,
                            i0 + 3 <= j <= n,
                            nd <= 6,
                            unicode_scan(body, j as int, nd as int, acc as int) == Some(vx),
                            is_scalar_value(vx.0),
                        decreases n - j,
                    {
                        proof {
                            assert(nd < 6 && is_hex_digit(body[j as int]));
                            lemma_unicode_scan_value(body, j as int, nd as int, acc as int);
                            assert(acc as int <= vx.0 <= 0x10FFFF);
                        }
                        let d = hex_digit_value(chars[j]);
                        acc = acc * 16 + d as u32;
                        nd = nd + 1;
                        j = j + 1;
                    }
                    proof {
                        assert(vx.0 == acc as int && vx.1 == j + 1);
                    }
                    let oc: char = match char::from_u32(acc) {
                        Some(cc) => cc,
                        None => vstd::pervasive::unreached(),
                    };
                    let ghost t0 = text@;
                    text.push(oc);
                    i = j + 1;
                    proof {
                        assert(oc as int == vx.0);
                        assert(e.out =~= seq![oc]);
                        assert(e.next == i as int);
                        assert(t0 + (e.out + restn.text) =~= (t0 + e.out) + restn.text);
                        assert(full.text =~= text@ + restn.text);
                        assert(full.bad_escapes.skip(errors@.len() as int) =~= restn.bad_escapes);
                    }
                } else if ec == '\n' {
                    proof {
                        lemma_ws_run_bounds(body, i0 + 2);
                        assert(i0 + 2 + ws_run(body, i0 + 2) < n);
                    }
                    let mut j: usize = i + 2;
                    while j < n && is_continuation_ws_exec(chars[j])
                        invariant
                            chars@ == body,
                            n == chars.len(),
                            body.len() == n,
                            i0 + 2 <= j <= n,
                            forall|k: int|
                                i0 + 2 <= k < j ==> is_continuation_ws(#[trigger] body[k]),
                        decreases n - j,
                    {
                        j = j + 1;
                    }
                    proof {
                        lemma_ws_run_shift(body, i0 + 2, j as int);
                        assert(ws_run(body, j as int) == 0);
                        assert(j == i0 + 2 + ws_run(body, i0 + 2));
                        assert(e.next == j as int);
                    }
                    i = j;
                    proof {
                        assert(full.text =~= text@ + restn.text);
                        assert(full.bad_escapes.skip(errors@.len() as int) =~= restn.bad_escapes);
                    }
                } else if ec == '"' || ec == '\'' || ec == 'n' || ec == 'r' || ec == 't' || ec
                    == '\\' || ec == '0' {
                    let oc: char = if ec == '"' || ec == '\'' {
                        '"'
                    } else if ec == 'n' {
                        '\n'
                    } else if ec == 'r' {
                        '\r'
                    } else if ec == 't' {
                        '\t'
                    } else if ec == '\\' {
                        '\\'
                    } else {
                        '\0'
                    };
                    let ghost t0 = text@;
                    text.push(oc);
                    i = i + 2;
                    proof {
                        assert(e.out =~= seq![oc]);
                        assert(e.next == i as int);
                        assert(t0 + (e.out + restn.text) =~= (t0 + e.out) + restn.text);
                        assert(full.text =~= text@ + restn.text);
                        assert(full.bad_escapes.skip(errors@.len() as int) =~= restn.bad_escapes);
                    }
                } else {
                    // An unrecognised escape character: report it, append
                    // nothing, and scan on.
                    let ghost l0 = errors@.len() as int;
                    let msg = invalid_escape_message(i + 1);
                    errors.push(Diagnostic::new(msg, span));
                    i = i + 2;
                    proof {
                        assert(rest0.bad_escapes == seq![i0 + 1] + restn.bad_escapes);
                        assert(full.bad_escapes.skip(l0) == rest0.bad_escapes);
                        assert(full.bad_escapes.skip(l0)[0] == full.bad_escapes[l0]);
                        assert(full.bad_escapes[l0] == i0 + 1);
                        assert(full.text =~= text@ + restn.text);
                        assert(full.bad_escapes.len() == l0 + 1 + restn.bad_escapes.len());
                        assert forall|m: int|
                            0 <= m < restn.bad_escapes.len() implies full.bad_escapes.skip(
                            l0 + 1,
                        )[m] == restn.bad_escapes[m] by {
                            assert(restn.bad_escapes[m] == rest0.bad_escapes[m + 1]);
                            assert(full.bad_escapes.skip(l0)[m + 1] == full.bad_escapes[l0 + 1
                                + m]);
                            assert(full.bad_escapes.skip(l0 + 1)[m] == full.bad_escapes[l0 + 1
                                + m]);
                        }
                        assert(full.bad_escapes.skip(l0 + 1) =~= restn.bad_escapes);
                    }
                }
            }
        } else {
            let ghost t0 = text@;
            text.push(c);
            i = i + 1;
            proof {
                let ghost restn = plain_decode_from(body, i as int)->0;
                assert(t0 + (seq![c] + restn.text) =~= (t0 + seq![c]) + restn.text);
                assert(full.text =~= text@ + restn.text);
            }
        }
    }
    proof {
        let rest = plain_decode_from(body, i as int)->0;
        assert(rest.text =~= Seq::<char>::empty());
        assert(full.text =~= text@);
    }
    if closed && i + 1 < n {
        // Characters remain after the closing quote.
        let ghost l0 = errors@.len() as int;
        errors.push(Diagnostic::new(suffix_message(), span));
        proof {
            assert(full.suffix && full.bad_escapes.len() == l0);
        }
    }
    let x = chars_to_string(&text);
    Output { x, errors }
}

} // verus!

