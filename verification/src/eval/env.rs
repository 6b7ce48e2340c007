//! The evaluator's lexical environment.
//!
//! An environment is a persistent, singly-linked chain of immutable frames
//! with shared ownership of the tail: binding a name conses a frame, and a
//! closure capturing the environment shares the chain as it stood.  Later
//! bindings never reach a captured chain.  The last frame for a name is the
//! visible one.

use std::rc::Rc;

use vstd::prelude::*;

use crate::ast::expr::Expr;
use crate::value::{value_eq_spec, Value};

verus! {

/// What a name is bound to: a finished value, or — transiently, while the
/// right-hand side of a recursive binding is evaluated — the still
/// unevaluated expression itself.
#[derive(Debug)]
pub enum BoundValue {
    Value(Value),
    Thunk(Expr),
}

/// The equality the language's `==` operator uses on bound values: two
/// finished values compare by [`value_eq_spec`]; a thunk is equal to
/// nothing.
pub open spec fn bound_value_eq_spec(a: BoundValue, b: BoundValue) -> bool {
    match (a, b) {
        (BoundValue::Value(x), BoundValue::Value(y)) => value_eq_spec(x, y),
        _ => false,
    }
}

impl BoundValue {
    /// Structural equality between bound values; thunks are never equal.
    pub fn eq(&self, other: &BoundValue) -> (r: bool)
        ensures
            r == bound_value_eq_spec(*self, *other),
    {
        match (self, other) {
            (BoundValue::Value(x), BoundValue::Value(y)) => x.eq(y),
            _ => false,
        }
    }

    /// Clone a bound value.  A closure's environment is shared, not copied.
    pub fn clone_bound_value(&self) -> (r: BoundValue)
        ensures
            r == *self,
    {
        match self {
            BoundValue::Value(v) => BoundValue::Value(v.clone_value()),
            BoundValue::Thunk(e) => BoundValue::Thunk(e.clone()),
        }
    }
}

/// One frame of the chain: a name, its value, and the chain beneath.
#[derive(Debug)]
pub struct Node {
    pub name: String,
    pub value: BoundValue,
    pub rest: Option<Rc<Node>>,
}

/// An environment: a shared, immutable chain of bindings.
#[derive(Debug)]
pub struct Env {
    pub head: Option<Rc<Node>>,
}

/// Relies on `Rc::clone` of std: a clone is a new handle to the very same
/// value.
#[verifier::external_body]
fn clone_rc(rc: &Rc<Node>) -> (r: Rc<Node>)
    ensures
        r == *rc,
{
    Rc::clone(rc)
}

/// Share a possibly-empty chain.
fn clone_chain(n: &Option<Rc<Node>>) -> (r: Option<Rc<Node>>)
    ensures
        r == *n,
{
    match n {
        None => None,
        Some(rc) => Some(clone_rc(rc)),
    }
}

/// The bindings of a chain as a sequence, oldest first.
pub open spec fn chain_seq(n: Option<Rc<Node>>) -> Seq<(Seq<char>, BoundValue)>
    decreases n,
{
    match n {
        None => Seq::empty(),
        Some(node) => chain_seq(node.rest).push((node.name@, node.value)),
    }
}

/// The visible value of `name`: that of its last binding.
pub open spec fn lookup_spec(s: Seq<(Seq<char>, BoundValue)>, name: Seq<char>) -> Option<
    BoundValue,
>
    decreases s.len(),
{
    if s.len() == 0 {
        None
    } else if s.last().0 == name {
        Some(s.last().1)
    } else {
        lookup_spec(s.drop_last(), name)
    }
}

/// The bindings after popping the last binding of `name`, if any.
pub open spec fn pop_spec(s: Seq<(Seq<char>, BoundValue)>, name: Seq<char>) -> Seq<
    (Seq<char>, BoundValue),
>
    decreases s.len(),
{
    if s.len() == 0 {
        s
    } else if s.last().0 == name {
        s.drop_last()
    } else {
        pop_spec(s.drop_last(), name).push(s.last())
    }
}

/// Look `name` up in a chain.
fn lookup_node(n: &Option<Rc<Node>>, name: &String) -> (r: Option<BoundValue>)
    ensures
        r == lookup_spec(chain_seq(*n), name@),
    decreases *n,
{
    match n {
        None => None,
        Some(node) => {
            proof {
                assert(chain_seq(*n) == chain_seq(node.rest).push((node.name@, node.value)));
                assert(chain_seq(*n).last() == ((node.name@, node.value)));
                assert(chain_seq(*n).drop_last() =~= chain_seq(node.rest));
            }
            if node.name == *name {
                Some(node.value.clone_bound_value())
            } else {
                lookup_node(&node.rest, name)
            }
        },
    }
}

/// Rebuild a chain without the last binding of `name`.  Frames above the
/// removed one are copied; the chain beneath it is shared.
fn pop_node(n: &Option<Rc<Node>>, name: &String) -> (r: Option<Rc<Node>>)
    ensures
        chain_seq(r) == pop_spec(chain_seq(*n), name@),
    decreases *n,
{
    match n {
        None => None,
        Some(node) => {
            proof {
                assert(chain_seq(*n) == chain_seq(node.rest).push((node.name@, node.value)));
                assert(chain_seq(*n).last() == ((node.name@, node.value)));
                assert(chain_seq(*n).drop_last() =~= chain_seq(node.rest));
            }
            if node.name == *name {
                clone_chain(&node.rest)
            } else {
                let rest = pop_node(&node.rest, name);
                let r = Some(
                    Rc::new(
                        Node {
                            name: node.name.clone(),
                            value: node.value.clone_bound_value(),
                            rest,
                        },
                    ),
                );
                proof {
                    assert(chain_seq(r) == pop_spec(chain_seq(node.rest), name@).push(
                        (node.name@, node.value),
                    ));
                    assert(chain_seq(r) =~= pop_spec(chain_seq(*n), name@));
                }
                r
            }
        },
    }
}

impl Env {
    /// The bindings, oldest first.
    pub open spec fn view(&self) -> Seq<(Seq<char>, BoundValue)> {
        chain_seq(self.head)
    }

    /// The empty environment.
    pub fn new() -> (r: Env)
        ensures
            r@ == Seq::<(Seq<char>, BoundValue)>::empty(),
    {
        Env { head: None }
    }

    /// The visible value of `name`, if it is bound.
    pub fn lookup(&self, name: &String) -> (r: Option<BoundValue>)
        ensures
            r == lookup_spec(self@, name@),
    {
        lookup_node(&self.head, name)
    }

    /// Bind `name` to `value`, shadowing any earlier binding of the name.
    pub fn push_binding(&mut self, name: &String, value: BoundValue)
        ensures
            final(self)@ == old(self)@.push((name@, value)),
            final(self).head matches Some(node) && node.name@ == name@ && node.value == value
                && node.rest == old(self).head,
    {
        let mut rest: Option<Rc<Node>> = None;
        core::mem::swap(&mut rest, &mut self.head);
        self.head = Some(Rc::new(Node { name: name.clone(), value, rest }));
    }

    /// Remove the last binding of `name`, if there is one.
    pub fn pop_binding(&mut self, name: &String)
        ensures
            final(self)@ == pop_spec(old(self)@, name@),
    {
        self.head = pop_node(&self.head, name);
    }

    /// Another handle to the same environment.
    pub fn clone_env(&self) -> (r: Env)
        ensures
            r == *self,
    {
        Env { head: clone_chain(&self.head) }
    }
}

} // verus!
