//! The builtins registry: a closed table of native operations, dispatched by
//! name at application time, sharing one output buffer for everything the
//! program prints.

use vstd::prelude::*;
use vstd::string::StringExecFns;

use crate::ast::expr::Str;
use crate::pretty::{int_rendered, i64_to_string};
use crate::value::Value;

use super::env::BoundValue;
use super::Error;

verus! {

/// The integer under a bound value, if that is what it is.
pub open spec fn int_arg(arg: BoundValue) -> Option<int> {
    match arg {
        BoundValue::Value(Value::Int(i)) => Some(i.n as int),
        _ => None,
    }
}

/// The string under a bound value, if that is what it is.
pub open spec fn str_arg(arg: BoundValue) -> Option<Seq<char>> {
    match arg {
        BoundValue::Value(Value::Str(s)) => Some(s.s@),
        _ => None,
    }
}

/// The string under an `Ok` result, if that is what it holds.
pub open spec fn str_result(r: Result<BoundValue, Error>) -> Option<Seq<char>> {
    match r {
        Ok(v) => str_arg(v),
        Err(_) => None,
    }
}

/// Render an integer value as a string value; anything but an integer is a
/// type mismatch.
pub fn str_of_int(x: BoundValue) -> (r: Result<BoundValue, Error>)
    ensures
        match int_arg(x) {
            Some(n) => r is Ok && str_result(r) == Some(int_rendered(n)),
            None => r == Err::<BoundValue, Error>(Error::BuiltinTypeMismatch),
        },
{
    match x {
        BoundValue::Value(Value::Int(i)) => {
            let s = i64_to_string(i.n);
            Ok(BoundValue::Value(Value::Str(Str { s })))
        },
        _ => Err(Error::BuiltinTypeMismatch),
    }
}

/// The registry: the builtin names, and the buffer that receives whatever
/// the program prints.
pub struct Builtins {
    out: String,
}

impl Builtins {
    /// Everything printed so far.
    pub closed spec fn output(&self) -> Seq<char> {
        self.out@
    }

    /// A fresh registry with an empty output buffer.
    pub fn new() -> (b: Builtins)
        ensures
            b.output() == Seq::<char>::empty(),
    {
        Builtins { out: String::new() }
    }

    /// The output buffer.
    pub fn output_str(&self) -> (r: &String)
        ensures
            r@ == self.output(),
    {
        &self.out
    }

    /// Print a string value followed by a newline; anything but a string is
    /// a type mismatch.
    fn println_(&mut self, x: BoundValue) -> (r: Result<BoundValue, Error>)
        ensures
            match str_arg(x) {
                Some(s) => r == Ok::<BoundValue, Error>(BoundValue::Value(Value::Unit)) && final(self).output() == old(self).output() + s + seq!['\n'],
                None => r == Err::<BoundValue, Error>(Error::BuiltinTypeMismatch) && final(self).output() == old(self).output(),
            },
    {
        match x {
            BoundValue::Value(Value::Str(s)) => {
                proof {
                    reveal_strlit("\n");
                }
                self.out.append(s.s.as_str());
                self.out.append("\n");
                proof {
                    assert(self.out@ =~= old(self).out@ + s.s@ + seq!['\n']);
                }
                Ok(BoundValue::Value(Value::Unit))
            },
            _ => Err(Error::BuiltinTypeMismatch),
        }
    }

    /// Dispatch a builtin by name.  The table is closed: `str_of_int` and
    /// `println` exist, any other name is `BuiltinNotFound`.
    pub fn eval(&mut self, builtin_name: &String, arg: BoundValue) -> (r: Result<
        BoundValue,
        Error,
    >)
        ensures
            old(self).output().is_prefix_of(final(self).output()),
            builtin_name@ == "str_of_int"@ ==> final(self).output() == old(self).output() && (
            match int_arg(arg) {
                Some(n) => r is Ok && str_result(r) == Some(int_rendered(n)),
                None => r == Err::<BoundValue, Error>(Error::BuiltinTypeMismatch),
            }),
            builtin_name@ == "println"@ ==> (match str_arg(arg) {
                Some(s) => r == Ok::<BoundValue, Error>(BoundValue::Value(Value::Unit)) && final(self).output() == old(self).output() + s + seq!['\n'],
                None => r == Err::<BoundValue, Error>(Error::BuiltinTypeMismatch) && final(self).output() == old(self).output(),
            }),
            builtin_name@ != "str_of_int"@ && builtin_name@ != "println"@ ==> r == Err::<
                BoundValue,
                Error,
            >(Error::BuiltinNotFound { name: *builtin_name }) && final(self).output() == old(self).output(),
    {
        proof {
            reveal_strlit("str_of_int");
            reveal_strlit("println");
            assert(self.output().is_prefix_of(self.output()));
        }
        if *builtin_name == String::from_str("str_of_int") {
            proof {
                assert(("str_of_int"@).len() == 10);
                assert(("println"@).len() == 7);
            }
            str_of_int(arg)
        } else if *builtin_name == String::from_str("println") {
            let ghost garg = arg;
            let r = self.println_(arg);
            proof {
                assert(old(self).output().is_prefix_of(self.output()));
                if str_arg(garg) is Some {
                    let s = str_arg(garg)->Some_0;
                    assert(self.output() =~= old(self).output() + s + seq!['\n']);
                }
            }
            r
        } else {
            Err(Error::BuiltinNotFound { name: builtin_name.clone() })
        }
    }
}

} // verus!
