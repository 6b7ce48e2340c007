//! Runtime values.

use vstd::prelude::*;

use crate::ast::expr::{Bool, Fun, Int, Str};
use crate::eval::env::Env;

verus! {

/// A fully evaluated value.  A `Fun` value is a closure: the function
/// literal together with the environment captured where the literal was
/// evaluated.  A `Builtin` names a native operation; it is looked up in the
/// registry only when applied.
#[derive(Debug)]
pub enum Value {
    Int(Int),
    Str(Str),
    Unit,
    Bool(Bool),
    Fun { fun: Fun, env: Env },
    Builtin(String),
}

/// The equality the language's `==` operator uses: integers, strings,
/// booleans and units of equal content are equal; functions and builtins
/// compare equal to nothing.
pub open spec fn value_eq_spec(a: Value, b: Value) -> bool {
    match (a, b) {
        (Value::Int(x), Value::Int(y)) => x.n == y.n,
        (Value::Str(x), Value::Str(y)) => x.s@ == y.s@,
        (Value::Bool(x), Value::Bool(y)) => x.b == y.b,
        (Value::Unit, Value::Unit) => true,
        _ => false,
    }
}

impl Value {
    /// Structural equality between two values, as the `==` operator of the
    /// language sees it.
    pub fn eq(&self, other: &Value) -> (r: bool)
        ensures
            r == value_eq_spec(*self, *other),
    {
        match (self, other) {
            (Value::Int(x), Value::Int(y)) => x.n == y.n,
            (Value::Str(x), Value::Str(y)) => x.s == y.s,
            (Value::Bool(x), Value::Bool(y)) => x.b == y.b,
            (Value::Unit, Value::Unit) => true,
            _ => false,
        }
    }

    /// Clone a value.  A closure's captured environment is cloned along
    /// with it.
    pub fn clone_value(&self) -> (r: Value)
        ensures
            r == *self,
        decreases *self,
    {
        match self {
            Value::Int(x) => Value::Int(x.clone()),
            Value::Str(x) => Value::Str(x.clone()),
            Value::Unit => Value::Unit,
            Value::Bool(x) => Value::Bool(x.clone()),
            Value::Fun { fun, env } => Value::Fun { fun: fun.clone(), env: env.clone_env() },
            Value::Builtin(name) => Value::Builtin(name.clone()),
        }
    }
}

} // verus!
