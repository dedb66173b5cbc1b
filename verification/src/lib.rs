//! Bracket scanning and matching for editor buffers, with the records and
//! the rules of a layer that binds a typesetter to an editor.
//!
//! The core works on one text at a time, in three steps:
//!
//! - [`lexer`] finds the delimiters `(`, `)`, `[`, `]`, `{`, `}` that stand
//!   outside strings and comments;
//! - [`utils::char_position`] resolves where each of them stands: line,
//!   display column and UTF-16 offset;
//! - [`parser`] pairs closers with openers and gives each pair its depth.
//!
//! [`pairs`] states what holds of the three together. [`ser`] holds the
//! records that go to the editor. The remaining modules hold what the
//! binding decides between the editor, the host and the typesetter: how
//! sources are named ([`source`]), what the failures of the host mean
//! ([`fetch`]), which source a rendering works on and how a rendering is
//! finished ([`session`]), and offsets from universal time ([`clock`]).
//!
//! Nothing here fails on malformed text: strings and comments that are
//! never closed suppress the rest of the text, and delimiters without a
//! partner give no pair.

pub mod clock;
pub mod fetch;
pub mod lexer;
pub mod pairs;
pub mod parser;
pub mod ser;
pub mod session;
pub mod source;
pub mod utils;
