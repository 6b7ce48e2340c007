//! The arena of type-variable cells.
//!
//! Allocation hands the new cell's own reference to the supplied constructor,
//! so an unbound cell can record which variable it is.

use vstd::prelude::*;

use super::{TVar, TVarRef};

verus! {

/// The type-variable store: a growable vector of [`TVar`] cells addressed by
/// [`TVarRef`] indices.
pub struct TVars {
    vars: Vec<TVar>,
}

impl TVars {
    /// The cells, in allocation order.
    pub closed spec fn view(&self) -> Seq<TVar> {
        self.vars@
    }

    /// An empty store.
    pub fn new() -> (r: TVars)
        ensures
            r@ == Seq::<TVar>::empty(),
    {
        TVars { vars: Vec::new() }
    }

    /// Allocate a new cell `f(r)`, where `r` is the cell's own reference.
    pub fn add<F: Fn(TVarRef) -> TVar>(&mut self, f: F) -> (r: TVarRef)
        requires
            call_requires(f, (TVarRef(old(self)@.len() as usize),)),
        ensures
            old(self)@.len() <= usize::MAX,
            r == (TVarRef(old(self)@.len() as usize)),
            final(self)@.len() == old(self)@.len() + 1,
            final(self)@.subrange(0, old(self)@.len() as int) == old(self)@,
            call_ensures(f, (r,), final(self)@.last()),
    {
        let next_ref = TVarRef(self.vars.len());
        self.vars.push(f(next_ref));
        next_ref
    }

    /// Read the cell that `var_ref` names.
    pub fn get(&self, var_ref: TVarRef) -> (r: &TVar)
        requires
            var_ref.0 < self@.len(),
        ensures
            *r == self@[var_ref.0 as int],
    {
        &self.vars[var_ref.0]
    }

    /// Overwrite the cell that `var_ref` names.
    pub fn set(&mut self, var_ref: TVarRef, x: TVar)
        requires
            var_ref.0 < old(self)@.len(),
        ensures
            final(self)@ == old(self)@.update(var_ref.0 as int, x),
    {
        self.vars.set(var_ref.0, x);
    }
}

} // verus!
