//! Source positions and diagnostic records.

use vstd::prelude::*;

verus! {

/// An opaque reference to a literal's position in source text.
///
/// The decoder never inspects a span; it only attaches the span it was handed
/// to every diagnostic it reports, so the caller can map a diagnostic back to
/// the source location it keeps under the same identifier.
#[derive(Clone, Copy, PartialEq, Eq, Structural, Debug)]
pub struct Span {
    pub id: usize,
}

/// A structured, non-fatal error record describing a malformed literal:
/// a human-readable message plus the originating span.
pub struct Diagnostic {
    pub message: String,
    pub span: Span,
}

impl Diagnostic {
    pub fn new(message: String, span: Span) -> (r: Diagnostic)
        ensures
            r.message == message,
            r.span == span,
    {
        Diagnostic { message, span }
    }
}

} // verus!
