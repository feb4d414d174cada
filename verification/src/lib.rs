//! A cognitive-complexity scorer for Python syntax trees.
//!
//! The engine walks a statement tree ([`ast`]) and assigns every function
//! and file a deterministic cognitive-complexity score, together with a
//! per-line attribution map ([`classes`]). Scores penalize nesting depth,
//! boolean-operator sequencing and comprehension nesting. The engine does
//! no I/O and no parsing: a front end parses source text, builds the
//! [`ast::Stmt`] tree with byte ranges, and hands both to the engine.

pub mod ast;
pub mod classes;
pub mod lines;
pub mod bool_ops;
pub mod cognitive_complexity;
pub mod aggregate;
pub mod text;
pub mod sorting;
pub mod laws;
pub mod codec;
pub mod output;
pub mod recursion;
