//! Decoder for quoted string literal tokens.
//!
//! Given the raw textual form of a literal exactly as written in source —
//! quotes, prefix markers and escape sequences included — the library produces
//! the literal's decoded value together with a list of diagnostics for the
//! malformed parts, never aborting at the first problem.
//!
//! Two decoding paths share one entry point: a classifier dispatches on the
//! leading character to the plain-string escape decoder or to the raw-string
//! delimiter decoder, and marks every other literal kind opaque.

pub mod lit_parse;
pub mod messages;
pub mod plain;
pub mod raw;
pub mod span;
pub mod text;
