//! A streaming lexical scanner for JSON-like text.
//!
//! The scanner pulls bytes from a [`source::Source`] one at a time and
//! classifies them into [`token::Token`] values: structural punctuation,
//! raw string bodies, raw number spans, the literals `true` / `false` /
//! `null`, a malformed-input marker, and a terminal read-failure marker.
//! It builds no tree and validates no grammar; nesting, escape decoding
//! and numeric parsing are left to downstream consumers.

pub mod buffer;
pub mod document;
pub mod laws;
pub mod scan;
pub mod source;
pub mod token;
