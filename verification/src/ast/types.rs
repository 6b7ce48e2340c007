//! The surface syntax of types, as written in `declare` statements.

use vstd::prelude::*;

verus! {

/// A type as it appears in the source: a base type named by a string, or a
/// function arrow.
#[derive(PartialEq, Eq, Debug)]
pub enum Type {
    Simple(String),
    Fun(Fun),
}

/// A function arrow `from -> to`.
#[derive(PartialEq, Eq, Debug)]
pub struct Fun {
    pub from: Box<Type>,
    pub to: Box<Type>,
}

} // verus!
