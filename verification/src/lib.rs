//! A parser for a flat, line-oriented religious-text corpus.
//!
//! The input is a single decoded text: books are introduced by `== name ==`
//! marker lines, chapters by `=== label ===` marker lines, and verses by
//! lines of the form `<number> <text>`. The parser classifies each line and
//! folds the classified stream into a tree of books, chapters and verses;
//! a verse can then be drawn at random and rendered with its citation.

pub mod builder;
pub mod classify;
pub mod corpus;
pub mod digits;
pub mod laws;
pub mod select;
pub mod text;
