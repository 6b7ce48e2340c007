//! A growable arena handing out stable indices.
//!
//! `add` passes the new cell's own index to the supplied constructor, so a
//! cell can record where it lives; `get` and `set` demand an index the arena
//! has handed out.

use vstd::prelude::*;

verus! {

/// An arena of cells addressed by stable indices.
pub struct ManagedVec<T> {
    vars: Vec<T>,
}

/// A stable index into a [`ManagedVec`].
#[derive(PartialEq, Eq, Structural, Hash, Debug, Clone, Copy)]
pub struct Idx(pub usize);

impl<T> ManagedVec<T> {
    /// The cells, in the order they were added.
    pub closed spec fn view(&self) -> Seq<T> {
        self.vars@
    }

    /// An empty arena.
    pub fn new() -> (v: ManagedVec<T>)
        ensures
            v@ == Seq::<T>::empty(),
    {
        ManagedVec { vars: Vec::new() }
    }

    /// Append the cell `f(i)` where `i` is the new cell's index.
    pub fn add<F: Fn(Idx) -> T>(&mut self, f: F) -> (idx: Idx)
        requires
            call_requires(f, (Idx(old(self)@.len() as usize),)),
        ensures
            old(self)@.len() <= usize::MAX,
            idx == (Idx(old(self)@.len() as usize)),
            final(self)@.len() == old(self)@.len() + 1,
            final(self)@.subrange(0, old(self)@.len() as int) == old(self)@,
            call_ensures(f, (idx,), final(self)@.last()),
    {
        let next_idx = Idx(self.vars.len());
        self.vars.push(f(next_idx));
        next_idx
    }

    /// Read the cell at `idx`.
    pub fn get(&self, idx: Idx) -> (r: &T)
        requires
            idx.0 < self@.len(),
        ensures
            *r == self@[idx.0 as int],
    {
        let Idx(i) = idx;
        &self.vars[i]
    }

    /// Overwrite the cell at `idx`.
    pub fn set(&mut self, idx: Idx, x: T)
        requires
            idx.0 < old(self)@.len(),
        ensures
            final(self)@ == old(self)@.update(idx.0 as int, x),
    {
        let Idx(i) = idx;
        self.vars.set(i, x);
    }
}

} // verus!
