//! Literal classification: one entry point that inspects a literal's raw
//! text and dispatches to the plain-string or raw-string decoder, marking
//! every other literal kind opaque.

use vstd::prelude::*;
use vstd::string::StrSliceExecFns;
use crate::messages::{invalid_escape_msg, non_string_help_msg, non_string_help_message, suffix_msg};
use crate::plain::{parse_str_literal, plain_decode};
use crate::raw::{parse_raw_str_literal, raw_decode};
use crate::span::{Diagnostic, Span};
use crate::text::{trim_spec, trim_str};

verus! {

/// The decoded value of a literal: the text of a plain or raw string
/// literal, or `Unknown` for every other literal kind (numeric, boolean,
/// ...), which the decoder passes through unjudged.
#[non_exhaustive]
pub enum LiteralData {
    StringValue(String),
    Unknown,
}

/// A decoded literal: its value together with the span it came from.
pub struct Literal {
    pub data: LiteralData,
    pub span: Span,
}

impl Literal {
    pub fn data(&self) -> (r: &LiteralData)
        ensures
            r == &self.data,
    {
        &self.data
    }

    pub fn span(&self) -> (r: Span)
        ensures
            r == self.span,
    {
        self.span
    }
}

/// A value paired with the diagnostics its computation queued: the decoder
/// always limps to the end and reports everything it found, rather than
/// stopping at the first problem.
pub struct Output<T> {
    pub x: T,
    pub errors: Vec<Diagnostic>,
}

impl<T> Output<T> {
    pub fn new(x: T, errors: Vec<Diagnostic>) -> (r: Output<T>)
        ensures
            r.x == x,
            r.errors == errors,
    {
        Output { x, errors }
    }
}

impl Literal {
    /// Classifies a literal by the first character of its raw text and
    /// decodes it: a leading quote is a plain string, decoded with its
    /// diagnostics; a leading `r` is a raw string, decoded with none; every
    /// other shape is `Unknown`, with none. The contract asks callers to
    /// keep out only those string-shaped texts the two decoders' own
    /// contracts rule out.
    pub fn parse(raw: &str, span: Span) -> (r: Output<Literal>)
        requires
            raw@.len() >= 1 && raw@[0] == '"' ==> plain_decode(raw@.skip(1)) is Some,
            raw@.len() >= 1 && raw@[0] == 'r' ==> raw_decode(raw@.skip(1)) is Some,
        ensures
            r.x.span == span,
            raw@.len() >= 1 && raw@[0] == '"' ==> (plain_decode(raw@.skip(1)) matches Some(d)
                && ({
                &&& r.x.data matches LiteralData::StringValue(t) && t@ == d.text
                &&& r.errors@.len() == d.bad_escapes.len() + (if d.suffix {
                    1int
                } else {
                    0int
                })
                &&& forall|k: int|
                    0 <= k < d.bad_escapes.len() ==> (#[trigger] r.errors@[k]).message@
                        == invalid_escape_msg(d.bad_escapes[k]) && r.errors@[k].span == span
                &&& d.suffix ==> r.errors@[d.bad_escapes.len() as int].message@ == suffix_msg()
                    && r.errors@[d.bad_escapes.len() as int].span == span
            })),
            raw@.len() >= 1 && raw@[0] == 'r' ==> (raw_decode(raw@.skip(1)) matches Some(t) && ({
                &&& r.x.data matches LiteralData::StringValue(v) && v@ == t
                &&& r.errors@.len() == 0
            })),
            (raw@.len() == 0 || (raw@[0] != '"' && raw@[0] != 'r')) ==> r.x.data is Unknown
                && r.errors@.len() == 0,
    {
        let len = raw.unicode_len();
        if len >= 1 && raw.get_char(0) == '"' {
            let s = parse_str_literal(raw, span);
            Output { x: Literal { data: LiteralData::StringValue(s.x), span }, errors: s.errors }
        } else if len >= 1 && raw.get_char(0) == 'r' {
            let t = parse_raw_str_literal(raw);
            Output { x: Literal { data: LiteralData::StringValue(t), span }, errors: Vec::new() }
        } else {
            Output { x: Literal { data: LiteralData::Unknown, span }, errors: Vec::new() }
        }
    }
}

/// The decision at the heart of help-text handling: a string literal's
/// decoded text is passed on with its surrounding whitespace trimmed; a
/// literal of any other kind yields no text and one diagnostic saying so.
/// The decode's own escape diagnostics are not forwarded here.
pub fn trimmed_help(raw: &str, span: Span) -> (r: Output<Option<String>>)
    requires
        raw@.len() >= 1 && raw@[0] == '"' ==> plain_decode(raw@.skip(1)) is Some,
        raw@.len() >= 1 && raw@[0] == 'r' ==> raw_decode(raw@.skip(1)) is Some,
    ensures
        raw@.len() >= 1 && raw@[0] == '"' ==> (plain_decode(raw@.skip(1)) matches Some(d) && ({
            &&& r.x matches Some(t) && t@ == trim_spec(d.text)
            &&& r.errors@.len() == 0
        })),
        raw@.len() >= 1 && raw@[0] == 'r' ==> (raw_decode(raw@.skip(1)) matches Some(v) && ({
            &&& r.x matches Some(t) && t@ == trim_spec(v)
            &&& r.errors@.len() == 0
        })),
        (raw@.len() == 0 || (raw@[0] != '"' && raw@[0] != 'r')) ==> ({
            &&& r.x is None
            &&& r.errors@.len() == 1
            &&& r.errors@[0].message@ == non_string_help_msg()
            &&& r.errors@[0].span == span
        }),
{
    let lit = Literal::parse(raw, span);
    match lit.x.data {
        LiteralData::StringValue(s) => {
            let trimmed = trim_str(s.as_str());
            Output { x: Some(trimmed), errors: Vec::new() }
        },
        _ => {
            let mut errors: Vec<Diagnostic> = Vec::new();
            errors.push(Diagnostic::new(non_string_help_message(), span));
            Output { x: None, errors }
        },
    }
}

} // verus!
