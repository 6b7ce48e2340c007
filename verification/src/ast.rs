//! The abstract syntax tree consumed by the type checker and the evaluator.
//!
//! The tree is pure data: expressions, top-level statements, and the surface
//! syntax of types as they appear in `declare` statements.  An external parser
//! (or a test) builds these values; nothing in this crate mutates them.

pub mod expr;
pub mod stmt;
pub mod types;

use vstd::prelude::*;

use self::stmt::Stmt;

verus! {

/// A whole program: an ordered sequence of top-level statements.
#[derive(Debug)]
pub struct Program {
    pub stmts: Vec<Stmt>,
}

} // verus!
