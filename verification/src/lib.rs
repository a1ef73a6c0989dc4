//! A compiler core for the classic eight-instruction byte-tape language.
//!
//! The pipeline has two verified stages: a tokenizer that turns source text
//! into a positioned token stream, and a code generator that lowers that
//! stream into one abstract routine, managing nested loops with an explicit
//! frame stack. A small machine executes generated routines so that their
//! behaviour can be observed and tested.

pub mod ir;
pub mod lexer;
pub mod machine;
