//! What a type term means relative to the type-variable store.
//!
//! Resolving a term follows `Bound` links in the store until only base types,
//! arrows and still-unbound variables remain.  Resolution is stated with an
//! explicit recursion budget so that it is well defined even for a store a
//! proof knows nothing about; [`resolves_to`] abstracts the budget away.
//! [`resolved_eq`] is the sense in which unification makes two types equal:
//! any complete resolutions of the two terms are structurally identical.

use vstd::prelude::*;

use super::{TVar, TVarRef, Type};

verus! {

/// Every variable reference in `t` names one of the first `n` cells.
pub open spec fn wf_type(t: Type, n: nat) -> bool
    decreases t,
{
    match t {
        Type::Int => true,
        Type::Str => true,
        Type::Unit => true,
        Type::Bool => true,
        Type::Var(r) => r.0 < n,
        Type::Fun(a, b) => wf_type(*a, n) && wf_type(*b, n),
    }
}

/// A cell is well formed at position `i` of a store of `n` cells: a bound
/// cell holds a type over the store, and an unbound cell records its own
/// reference.
pub open spec fn wf_cell(c: TVar, i: int, n: nat) -> bool {
    match c {
        TVar::Bound(t) => wf_type(t, n),
        TVar::Unbound(r, _) => r.0 == i,
    }
}

/// Every cell of the store is well formed.
pub open spec fn wf_store(s: Seq<TVar>) -> bool {
    forall|i: int| 0 <= i < s.len() ==> wf_cell(#[trigger] s[i], i, s.len())
}

/// Follow `Bound` links in `s` to completion, spending one unit of `fuel`
/// per link.  `None` means the budget ran out or a reference was out of
/// range; unbound variables resolve to themselves.
pub open spec fn resolve(s: Seq<TVar>, t: Type, fuel: nat) -> Option<Type>
    decreases fuel, t,
{
    match t {
        Type::Int => Some(Type::Int),
        Type::Str => Some(Type::Str),
        Type::Unit => Some(Type::Unit),
        Type::Bool => Some(Type::Bool),
        Type::Fun(a, b) => match (resolve(s, *a, fuel), resolve(s, *b, fuel)) {
            (Some(ra), Some(rb)) => Some(Type::Fun(Box::new(ra), Box::new(rb))),
            _ => None,
        },
        Type::Var(r) => {
            if r.0 >= s.len() {
                None
            } else {
                match s[r.0 as int] {
                    TVar::Unbound(_, _) => Some(t),
                    TVar::Bound(t2) => {
                        if fuel == 0 {
                            None
                        } else {
                            resolve(s, t2, (fuel - 1) as nat)
                        }
                    },
                }
            }
        },
    }
}

/// `t` resolves completely to `r` under some recursion budget.
pub open spec fn resolves_to(s: Seq<TVar>, t: Type, r: Type) -> bool {
    exists|fuel: nat| resolve(s, t, fuel) == Some(r)
}

/// Any complete resolutions of `t1` and `t2` under `s` are structurally
/// identical.  This is what a successful unification establishes.
pub open spec fn resolved_eq(s: Seq<TVar>, t1: Type, t2: Type) -> bool {
    forall|r1: Type, r2: Type|
        #[trigger] resolves_to(s, t1, r1) && #[trigger] resolves_to(s, t2, r2) ==> r1 == r2
}

/// Unification soundness: [`super::check::Checker::unify`] ensures
/// `resolved_eq` of its two arguments on success, so whenever both
/// subsequently resolve completely — in particular to concrete types —
/// those resolutions are structurally identical, under the store unification
/// left behind and, because the store only extends, under every later one.
pub proof fn lemma_unification_soundness(s: Seq<TVar>, t1: Type, t2: Type, r1: Type, r2: Type)
    requires
        resolved_eq(s, t1, t2),
        resolves_to(s, t1, r1),
        resolves_to(s, t2, r2),
    ensures
        r1 == r2,
{
}

/// How one cell may evolve into another: a bound cell never changes, and an
/// unbound cell may be bound, or stay unbound with its level lowered.
pub open spec fn cell_extends(c2: TVar, c1: TVar) -> bool {
    match c1 {
        TVar::Bound(_) => c2 == c1,
        TVar::Unbound(r, l) => match c2 {
            TVar::Bound(_) => true,
            TVar::Unbound(r2, l2) => r2 == r && l2.0 <= l.0,
        },
    }
}

/// `s2` is a later state of the store `s1`: cells are only added, bound
/// cells keep their binding, and unbound cells' levels only decrease.
pub open spec fn store_extends(s2: Seq<TVar>, s1: Seq<TVar>) -> bool {
    &&& s1.len() <= s2.len()
    &&& forall|i: int| 0 <= i < s1.len() ==> cell_extends(#[trigger] s2[i], #[trigger] s1[i])
}

/// How a cell may evolve while a variable's occurrence is checked: bindings
/// stay, and an unbound cell stays unbound with its level lowered at most.
pub open spec fn cell_lowered(c2: TVar, c1: TVar) -> bool {
    match c1 {
        TVar::Bound(_) => c2 == c1,
        TVar::Unbound(r, l) => match c2 {
            TVar::Bound(_) => false,
            TVar::Unbound(r2, l2) => r2 == r && l2.0 <= l.0,
        },
    }
}

/// `s2` is `s1` with some unbound cells' levels lowered; nothing else moved.
pub open spec fn levels_lowered(s2: Seq<TVar>, s1: Seq<TVar>) -> bool {
    &&& s2.len() == s1.len()
    &&& forall|i: int| 0 <= i < s1.len() ==> cell_lowered(#[trigger] s2[i], #[trigger] s1[i])
}

pub proof fn lemma_levels_lowered_refl(s: Seq<TVar>)
    ensures
        levels_lowered(s, s),
{
}

pub proof fn lemma_levels_lowered_trans(s3: Seq<TVar>, s2: Seq<TVar>, s1: Seq<TVar>)
    requires
        levels_lowered(s3, s2),
        levels_lowered(s2, s1),
    ensures
        levels_lowered(s3, s1),
{
    assert forall|i: int| 0 <= i < s1.len() implies cell_lowered(#[trigger] s3[i], #[trigger] s1[i]) by {
        assert(cell_lowered(s3[i], s2[i]));
        assert(cell_lowered(s2[i], s1[i]));
    }
}

pub proof fn lemma_levels_lowered_extends(s2: Seq<TVar>, s1: Seq<TVar>)
    requires
        levels_lowered(s2, s1),
    ensures
        store_extends(s2, s1),
{
    assert forall|i: int| 0 <= i < s1.len() implies cell_extends(#[trigger] s2[i], #[trigger] s1[i]) by {
        assert(cell_lowered(s2[i], s1[i]));
    }
}

/// Appending a cell extends the store.
pub proof fn lemma_store_push_extends(s: Seq<TVar>, c: TVar)
    ensures
        store_extends(s.push(c), s),
{
}

/// Appending a well-formed cell keeps the store well formed.
pub proof fn lemma_wf_store_push(s: Seq<TVar>, c: TVar)
    requires
        wf_store(s),
        wf_cell(c, s.len() as int, s.len() + 1),
    ensures
        wf_store(s.push(c)),
{
    let s2 = s.push(c);
    assert forall|i: int| 0 <= i < s2.len() implies wf_cell(#[trigger] s2[i], i, s2.len()) by {
        if i < s.len() {
            assert(wf_cell(s[i], i, s.len()));
            match s[i] {
                TVar::Bound(t) => {
                    lemma_wf_type_widen(t, s.len(), s2.len());
                },
                TVar::Unbound(_, _) => {},
            }
        }
    }
}

/// Binding an unbound cell extends the store.
pub proof fn lemma_store_bind_extends(s: Seq<TVar>, v: int, t: Type)
    requires
        0 <= v < s.len(),
        s[v] is Unbound,
    ensures
        store_extends(s.update(v, TVar::Bound(t)), s),
{
}

/// Binding a cell to a well-formed type keeps the store well formed.
pub proof fn lemma_wf_store_update_bound(s: Seq<TVar>, v: int, t: Type)
    requires
        wf_store(s),
        0 <= v < s.len(),
        wf_type(t, s.len()),
    ensures
        wf_store(s.update(v, TVar::Bound(t))),
{
    let s2 = s.update(v, TVar::Bound(t));
    assert forall|i: int| 0 <= i < s2.len() implies wf_cell(#[trigger] s2[i], i, s2.len()) by {
        if i != v {
            assert(wf_cell(s[i], i, s.len()));
        }
    }
}

pub proof fn lemma_extends_refl(s: Seq<TVar>)
    ensures
        store_extends(s, s),
{
}

pub proof fn lemma_extends_trans(s3: Seq<TVar>, s2: Seq<TVar>, s1: Seq<TVar>)
    requires
        store_extends(s3, s2),
        store_extends(s2, s1),
    ensures
        store_extends(s3, s1),
{
    assert forall|i: int| 0 <= i < s1.len() implies cell_extends(#[trigger] s3[i], #[trigger] s1[i]) by {
        assert(cell_extends(s3[i], s2[i]));
        assert(cell_extends(s2[i], s1[i]));
    }
}

/// Growing a type's store keeps it well formed.
pub proof fn lemma_wf_type_widen(t: Type, n: nat, m: nat)
    requires
        wf_type(t, n),
        n <= m,
    ensures
        wf_type(t, m),
    decreases t,
{
    match t {
        Type::Fun(a, b) => {
            lemma_wf_type_widen(*a, n, m);
            lemma_wf_type_widen(*b, n, m);
        },
        _ => {},
    }
}

/// A resolution found with a small budget is found, unchanged, with any
/// larger budget.
pub proof fn lemma_resolve_fuel_mono(s: Seq<TVar>, t: Type, f1: nat, f2: nat)
    requires
        f1 <= f2,
        resolve(s, t, f1) is Some,
    ensures
        resolve(s, t, f2) == resolve(s, t, f1),
    decreases f1, t,
{
    match t {
        Type::Fun(a, b) => {
            lemma_resolve_fuel_mono(s, *a, f1, f2);
            lemma_resolve_fuel_mono(s, *b, f1, f2);
        },
        Type::Var(r) => {
            if r.0 < s.len() {
                match s[r.0 as int] {
                    TVar::Bound(t2) => {
                        lemma_resolve_fuel_mono(s, t2, (f1 - 1) as nat, (f2 - 1) as nat);
                    },
                    TVar::Unbound(_, _) => {},
                }
            }
        },
        _ => {},
    }
}

/// A type resolves to at most one thing.
pub proof fn lemma_resolves_to_unique(s: Seq<TVar>, t: Type, r1: Type, r2: Type)
    requires
        resolves_to(s, t, r1),
        resolves_to(s, t, r2),
    ensures
        r1 == r2,
{
    let f1 = choose|f: nat| resolve(s, t, f) == Some(r1);
    let f2 = choose|f: nat| resolve(s, t, f) == Some(r2);
    if f1 <= f2 {
        lemma_resolve_fuel_mono(s, t, f1, f2);
    } else {
        lemma_resolve_fuel_mono(s, t, f2, f1);
    }
}

/// Every type is resolution-equal to itself.
pub proof fn lemma_resolved_eq_refl(s: Seq<TVar>, t: Type)
    ensures
        resolved_eq(s, t, t),
{
    assert forall|r1: Type, r2: Type|
        #[trigger] resolves_to(s, t, r1) && #[trigger] resolves_to(s, t, r2) implies r1 == r2 by {
        lemma_resolves_to_unique(s, t, r1, r2);
    }
}

/// Resolution-equality is symmetric.
pub proof fn lemma_resolved_eq_sym(s: Seq<TVar>, t1: Type, t2: Type)
    requires
        resolved_eq(s, t1, t2),
    ensures
        resolved_eq(s, t2, t1),
{
    assert forall|r1: Type, r2: Type|
        #[trigger] resolves_to(s, t2, r1) && #[trigger] resolves_to(s, t1, r2) implies r1 == r2 by {
        assert(resolves_to(s, t1, r2) && resolves_to(s, t2, r1));
    }
}

/// A fully resolved type resolves to itself.
pub proof fn lemma_resolve_idempotent(s: Seq<TVar>, t: Type, f: nat, r: Type)
    requires
        resolve(s, t, f) == Some(r),
    ensures
        resolve(s, r, f) == Some(r),
    decreases f, t,
{
    match t {
        Type::Fun(a, b) => {
            let ra = resolve(s, *a, f)->Some_0;
            let rb = resolve(s, *b, f)->Some_0;
            lemma_resolve_idempotent(s, *a, f, ra);
            lemma_resolve_idempotent(s, *b, f, rb);
        },
        Type::Var(v) => {
            match s[v.0 as int] {
                TVar::Bound(t2) => {
                    lemma_resolve_idempotent(s, t2, (f - 1) as nat, r);
                    lemma_resolve_fuel_mono(s, r, (f - 1) as nat, f);
                },
                TVar::Unbound(_, _) => {},
            }
        },
        _ => {},
    }
}

/// Whatever resolves under a later store resolves (with the same budget)
/// under the earlier one: the earlier store follows a subset of the links.
pub proof fn lemma_resolve_coarser(s1: Seq<TVar>, s2: Seq<TVar>, t: Type, f: nat)
    requires
        wf_store(s1),
        store_extends(s2, s1),
        wf_type(t, s1.len()),
        resolve(s2, t, f) is Some,
    ensures
        resolve(s1, t, f) is Some,
    decreases f, t,
{
    match t {
        Type::Fun(a, b) => {
            lemma_resolve_coarser(s1, s2, *a, f);
            lemma_resolve_coarser(s1, s2, *b, f);
        },
        Type::Var(r) => {
            match s1[r.0 as int] {
                TVar::Bound(t2) => {
                    assert(cell_extends(s2[r.0 as int], s1[r.0 as int]));
                    lemma_resolve_coarser(s1, s2, t2, (f - 1) as nat);
                },
                TVar::Unbound(_, _) => {},
            }
        },
        _ => {},
    }
}

/// Resolving under a later store factors through resolving under the
/// earlier one.
pub proof fn lemma_resolve_factor(s1: Seq<TVar>, s2: Seq<TVar>, t: Type, f1: nat, f2: nat)
    requires
        wf_store(s1),
        store_extends(s2, s1),
        wf_type(t, s1.len()),
        resolve(s1, t, f1) is Some,
        resolve(s2, t, f2) is Some,
    ensures
        resolves_to(s2, resolve(s1, t, f1)->Some_0, resolve(s2, t, f2)->Some_0),
    decreases f1, t,
{
    match t {
        Type::Int => {
            assert(resolve(s2, Type::Int, f2) == Some(Type::Int));
        },
        Type::Str => {
            assert(resolve(s2, Type::Str, f2) == Some(Type::Str));
        },
        Type::Unit => {
            assert(resolve(s2, Type::Unit, f2) == Some(Type::Unit));
        },
        Type::Bool => {
            assert(resolve(s2, Type::Bool, f2) == Some(Type::Bool));
        },
        Type::Fun(a, b) => {
            let r1a = resolve(s1, *a, f1)->Some_0;
            let r1b = resolve(s1, *b, f1)->Some_0;
            let r2a = resolve(s2, *a, f2)->Some_0;
            let r2b = resolve(s2, *b, f2)->Some_0;
            lemma_resolve_factor(s1, s2, *a, f1, f2);
            lemma_resolve_factor(s1, s2, *b, f1, f2);
            let ga = choose|g: nat| resolve(s2, r1a, g) == Some(r2a);
            let gb = choose|g: nat| resolve(s2, r1b, g) == Some(r2b);
            let g = if ga <= gb {
                gb
            } else {
                ga
            };
            lemma_resolve_fuel_mono(s2, r1a, ga, g);
            lemma_resolve_fuel_mono(s2, r1b, gb, g);
            assert(resolve(s2, Type::Fun(Box::new(r1a), Box::new(r1b)), g) == Some(
                Type::Fun(Box::new(r2a), Box::new(r2b)),
            ));
        },
        Type::Var(r) => {
            match s1[r.0 as int] {
                TVar::Unbound(_, _) => {
                    assert(resolve(s1, t, f1) == Some(t));
                    assert(resolve(s2, t, f2) is Some);
                },
                TVar::Bound(t2) => {
                    assert(cell_extends(s2[r.0 as int], s1[r.0 as int]));
                    assert(resolve(s1, t, f1) == resolve(s1, t2, (f1 - 1) as nat));
                    assert(resolve(s2, t, f2) == resolve(s2, t2, (f2 - 1) as nat));
                    lemma_resolve_factor(s1, s2, t2, (f1 - 1) as nat, (f2 - 1) as nat);
                },
            }
        },
    }
}

/// Resolution-equality survives later bindings: once unified, always
/// unified.
pub proof fn lemma_resolved_eq_extends(s1: Seq<TVar>, s2: Seq<TVar>, t1: Type, t2: Type)
    requires
        wf_store(s1),
        store_extends(s2, s1),
        wf_type(t1, s1.len()),
        wf_type(t2, s1.len()),
        resolved_eq(s1, t1, t2),
    ensures
        resolved_eq(s2, t1, t2),
{
    assert forall|r1: Type, r2: Type|
        #[trigger] resolves_to(s2, t1, r1) && #[trigger] resolves_to(s2, t2, r2) implies r1 == r2 by {
        let f1 = choose|f: nat| resolve(s2, t1, f) == Some(r1);
        let f2 = choose|f: nat| resolve(s2, t2, f) == Some(r2);
        lemma_resolve_coarser(s1, s2, t1, f1);
        lemma_resolve_coarser(s1, s2, t2, f2);
        let q1 = resolve(s1, t1, f1)->Some_0;
        let q2 = resolve(s1, t2, f2)->Some_0;
        lemma_resolve_factor(s1, s2, t1, f1, f1);
        lemma_resolve_factor(s1, s2, t2, f2, f2);
        assert(resolves_to(s1, t1, q1));
        assert(resolves_to(s1, t2, q2));
        assert(q1 == q2);
        lemma_resolves_to_unique(s2, q1, r1, r2);
    }
}

/// Components that are resolution-equal make resolution-equal arrows.
pub proof fn lemma_resolved_eq_fun(s: Seq<TVar>, a: Type, b: Type, c: Type, d: Type)
    requires
        resolved_eq(s, a, c),
        resolved_eq(s, b, d),
    ensures
        resolved_eq(s, Type::Fun(Box::new(a), Box::new(b)), Type::Fun(Box::new(c), Box::new(d))),
{
    let tf1 = Type::Fun(Box::new(a), Box::new(b));
    let tf2 = Type::Fun(Box::new(c), Box::new(d));
    assert forall|r1: Type, r2: Type|
        #[trigger] resolves_to(s, tf1, r1) && #[trigger] resolves_to(s, tf2, r2) implies r1 == r2 by {
        let f1 = choose|f: nat| resolve(s, tf1, f) == Some(r1);
        let f2 = choose|f: nat| resolve(s, tf2, f) == Some(r2);
        let r1a = resolve(s, a, f1)->Some_0;
        let r1b = resolve(s, b, f1)->Some_0;
        let r2a = resolve(s, c, f2)->Some_0;
        let r2b = resolve(s, d, f2)->Some_0;
        assert(resolves_to(s, a, r1a));
        assert(resolves_to(s, b, r1b));
        assert(resolves_to(s, c, r2a));
        assert(resolves_to(s, d, r2b));
        assert(r1 == Type::Fun(Box::new(r1a), Box::new(r1b)));
        assert(r2 == Type::Fun(Box::new(r2a), Box::new(r2b)));
    }
}

/// After binding an unbound variable to `t`, the variable and `t` are
/// resolution-equal.
pub proof fn lemma_resolved_eq_bind(s1: Seq<TVar>, s2: Seq<TVar>, v: TVarRef, t: Type)
    requires
        v.0 < s1.len(),
        s1[v.0 as int] is Unbound,
        s2 == s1.update(v.0 as int, TVar::Bound(t)),
    ensures
        resolved_eq(s2, Type::Var(v), t),
{
    assert forall|r1: Type, r2: Type|
        #[trigger] resolves_to(s2, Type::Var(v), r1) && #[trigger] resolves_to(s2, t, r2)
        implies r1 == r2 by {
        let f1 = choose|f: nat| resolve(s2, Type::Var(v), f) == Some(r1);
        assert(s2[v.0 as int] == TVar::Bound(t));
        assert(resolve(s2, t, (f1 - 1) as nat) == Some(r1));
        assert(resolves_to(s2, t, r1));
        lemma_resolves_to_unique(s2, t, r1, r2);
    }
}

/// If the left side of a pair resolves through a bound variable, the
/// variable is resolution-equal to whatever its binding is equal to.
pub proof fn lemma_resolved_eq_through_binding(s: Seq<TVar>, v: TVarRef, a: Type, b: Type)
    requires
        v.0 < s.len(),
        s[v.0 as int] == TVar::Bound(a),
        resolved_eq(s, a, b),
    ensures
        resolved_eq(s, Type::Var(v), b),
{
    assert forall|r1: Type, r2: Type|
        #[trigger] resolves_to(s, Type::Var(v), r1) && #[trigger] resolves_to(s, b, r2)
        implies r1 == r2 by {
        let f1 = choose|f: nat| resolve(s, Type::Var(v), f) == Some(r1);
        assert(resolve(s, a, (f1 - 1) as nat) == Some(r1));
        assert(resolves_to(s, a, r1));
    }
}

} // verus!
