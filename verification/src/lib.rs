//! A helper library for word-guessing games: it filters a dictionary of
//! candidate words against three constraints supplied by a player — a
//! positional pattern (a known letter per position, or a wildcard), a set of
//! letters the word must contain somewhere, and a set of letters the word must
//! not contain at all.
//!
//! The filtering engine is a pure function over in-memory strings; every check
//! is a plain character-level predicate, so no pattern-language syntax can be
//! corrupted by raw user input. Callers split their newline-delimited word
//! list with [`dictionary`], normalize raw input with the helpers in
//! [`letters`], build a [`pattern::Pattern`], and call the engine in
//! [`engine`]; the laws the engine obeys are stated and proved in [`laws`].

pub mod dictionary;
pub mod engine;
pub mod laws;
pub mod letters;
pub mod pattern;
