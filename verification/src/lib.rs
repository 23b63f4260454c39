//! Lexical front end for a small programming language.
//!
//! The library turns raw source text into an ordered sequence of classified
//! tokens while tracking a 1-based line/column caret position for later
//! diagnostics. The token model is the closed set of lexical categories; the
//! tokenizer is a single-pass, single-lookahead classification loop that owns
//! a caret tracker.

pub mod token;
pub mod tokenizer;
