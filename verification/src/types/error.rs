//! The type checker's error values.
//!
//! Every checker failure is reported as one of these values; the checker
//! never aborts.

use vstd::prelude::*;

use super::Type;

verus! {

/// Why type checking failed.
#[derive(PartialEq, Eq, Debug)]
pub enum Error {
    /// A variable was used that no binding or declaration is in scope for.
    NotInScope { name: String },
    /// Two types with incompatible shapes were required to be equal.
    NoUnify(Type, Type),
    /// A type variable was required to contain itself (an infinite type).
    Occurs,
    /// A `declare` statement named a base type the checker does not know.
    UnknownType { name: String },
    /// A chain of variable bindings exceeded the recursion budget: the
    /// analogue of host call-stack exhaustion.  With a realistic budget no
    /// acyclic store can reach this.
    DepthLimit,
}

} // verus!
