//! A small functional expression language: an abstract syntax tree, a
//! Hindley-Milner type inferencer (Algorithm J with let-polymorphism), and a
//! tree-walking evaluator over persistent lexical environments.
//!
//! A program is an ordered list of top-level statements, each either a
//! (possibly recursive) `let` binding or a `declare` signature for a named
//! built-in operation.  The type checker and the evaluator each fold over the
//! same statement list independently; the evaluator finally resolves the
//! distinguished name `main`.

pub mod ast;
pub mod desugar;
pub mod eval;
pub mod managed_vec;
pub mod pretty;
pub mod types;
pub mod value;
