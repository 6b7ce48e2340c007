//! Top-level statements.

use vstd::prelude::*;

use super::expr::Expr;
use super::types::Type;

verus! {

/// A top-level statement: a binding with a value, or a forward type
/// signature for a name with no value (used to type built-in operations).
#[derive(PartialEq, Eq, Debug)]
pub enum Stmt {
    Let(Let),
    Declare(Declare),
}

/// A top-level binding `let name = value`, possibly recursive.
#[derive(PartialEq, Eq, Debug)]
pub struct Let {
    pub name: String,
    pub value: Box<Expr>,
    pub rec: bool,
}

/// A forward type signature `declare name : typ`.
#[derive(PartialEq, Eq, Debug)]
pub struct Declare {
    pub name: String,
    pub typ: Type,
}

/// The name a statement binds or declares.
pub open spec fn stmt_name(s: Stmt) -> Seq<char> {
    match s {
        Stmt::Let(l) => l.name@,
        Stmt::Declare(d) => d.name@,
    }
}

} // verus!
