//! Lexical front-end for a small dynamically-typed scripting language.
//!
//! The crate turns one source buffer into an ordered sequence of typed
//! tokens, always terminated by exactly one `EOF` token, together with a
//! list of diagnostics for the lexical errors met on the way.  The whole
//! tokenizer is specified by a recursive mathematical model of the scan
//! (see the `model` module) and the executable scanner is proved to
//! produce exactly what the model says.

pub mod diagnostic;
pub mod lox;
pub mod model;
pub mod scanner;
pub mod token_type;
