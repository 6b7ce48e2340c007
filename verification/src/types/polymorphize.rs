//! Generalization: collect the variables a `let` may quantify over.
//!
//! Walking the bound type through the store, every still-unbound variable
//! whose level is strictly greater than the current one was created
//! underneath the `let` being closed and is safe to generalize.

use vstd::prelude::*;

use super::check::{poly_wf, Checker};
use super::error::Error;
use super::resolve::{wf_cell, wf_type};
use super::string_of_type::type_concrete;
use super::{Level, Polytype, TVar, TVarRef, Type};

verus! {

/// What the generalization walk computes: chase `Bound` links, and gather
/// every unbound variable whose level is strictly above `cur` that is not
/// yet gathered, left to right.
pub open spec fn collect_spec(
    s: Seq<TVar>,
    cur: Level,
    vars: Seq<TVarRef>,
    t: Type,
    fuel: nat,
) -> (Result<(), Error>, Seq<TVarRef>)
    decreases fuel,
{
    if fuel == 0 {
        (Err(Error::DepthLimit), vars)
    } else {
        match t {
            Type::Int => (Ok(()), vars),
            Type::Str => (Ok(()), vars),
            Type::Unit => (Ok(()), vars),
            Type::Bool => (Ok(()), vars),
            Type::Var(v) => {
                if v.0 >= s.len() {
                    (Err(Error::DepthLimit), vars)
                } else {
                    match s[v.0 as int] {
                        TVar::Bound(b) => collect_spec(s, cur, vars, b, (fuel - 1) as nat),
                        TVar::Unbound(id, level) => {
                            if level.0 > cur.0 && !vars.contains(id) {
                                (Ok(()), vars.push(id))
                            } else {
                                (Ok(()), vars)
                            }
                        },
                    }
                }
            },
            Type::Fun(a, b) => {
                let (ra, v1) = collect_spec(s, cur, vars, *a, (fuel - 1) as nat);
                match ra {
                    Err(e) => (Err(e), v1),
                    Ok(u) => collect_spec(s, cur, v1, *b, (fuel - 1) as nat),
                }
            },
        }
    }
}

/// What generalization computes: the references gathered from nothing.
pub open spec fn polymorphize_spec(s: Seq<TVar>, cur: Level, typ: Type, fuel: nat) -> (
    Result<(), Error>,
    Seq<TVarRef>,
) {
    collect_spec(s, cur, Seq::empty(), typ, fuel)
}

/// The number of nodes of a type term: what a walk that never follows
/// store links can cost.
pub open spec fn type_size(t: Type) -> nat
    decreases t,
{
    match t {
        Type::Fun(a, b) => 1 + type_size(*a) + type_size(*b),
        _ => 1,
    }
}

/// Walk `t` through the store and gather into `vars` every unbound variable
/// at a level strictly greater than the checker's current level.
fn collect_vars(checker: &Checker, vars: &mut Vec<TVarRef>, t: &Type, fuel: u64) -> (r: Result<
    (),
    Error,
>)
    requires
        checker.wf(),
        wf_type(*t, checker.tvars@.len()),
        forall|j: int|
            0 <= j < old(vars)@.len() ==> gen_candidate(
                checker.tvars@,
                checker.cur_level.0 as nat,
                #[trigger] old(vars)@[j],
            ),
    ensures
        r == collect_spec(checker.tvars@, checker.cur_level, old(vars)@, *t, fuel as nat).0,
        final(vars)@ == collect_spec(checker.tvars@, checker.cur_level, old(vars)@, *t, fuel as nat).1,
        r is Err ==> r == Err::<(), Error>(Error::DepthLimit),
        type_concrete(*t) && type_size(*t) <= fuel ==> r is Ok,
        type_concrete(*t) ==> final(vars)@ == old(vars)@,
        forall|j: int|
            0 <= j < final(vars)@.len() ==> gen_candidate(
                checker.tvars@,
                checker.cur_level.0 as nat,
                #[trigger] final(vars)@[j],
            ),
    decreases fuel,
{
    if fuel == 0 {
        return Err(Error::DepthLimit);
    }
    match t {
        Type::Int => Ok(()),
        Type::Str => Ok(()),
        Type::Unit => Ok(()),
        Type::Bool => Ok(()),
        Type::Var(tvar) => {
            let v = *tvar;
            proof {
                assert(wf_cell(checker.tvars@[v.0 as int], v.0 as int, checker.tvars@.len()));
            }
            match checker.tvars.get(v) {
                TVar::Bound(bound) => {
                    let bound = bound.clone();
                    collect_vars(checker, vars, &bound, fuel - 1)
                },
                TVar::Unbound(id, level) => {
                    let id = *id;
                    let level = *level;
                    if level.0 > checker.cur_level.0 && !contains_ref(vars, id) {
                        vars.push(id);
                    }
                    Ok(())
                },
            }
        },
        Type::Fun(a, b) => {
            collect_vars(checker, vars, &**a, fuel - 1)?;
            collect_vars(checker, vars, &**b, fuel - 1)
        },
    }
}

/// Whether `vars` already holds `id`.
fn contains_ref(vars: &Vec<TVarRef>, id: TVarRef) -> (r: bool)
    ensures
        r == vars@.contains(id),
{
    let mut i: usize = 0;
    while i < vars.len()
        invariant
            i <= vars@.len(),
            forall|j: int| 0 <= j < i ==> vars@[j] != id,
        decreases vars@.len() - i,
    {
        if vars[i].0 == id.0 {
            proof {
                assert(vars@[i as int] == id);
            }
            return true;
        }
        i = i + 1;
    }
    proof {
        assert(!vars@.contains(id));
    }
    false
}

/// What generalization may gather: a reference to a cell that is unbound at
/// a level strictly above `cur_level`.
pub open spec fn gen_candidate(s: Seq<TVar>, cur_level: nat, v: TVarRef) -> bool {
    &&& v.0 < s.len()
    &&& match s[v.0 as int] {
        TVar::Unbound(_, l) => l.0 > cur_level,
        TVar::Bound(_) => false,
    }
}

/// Generalize `typ` at the checker's current level: the scheme pairs `typ`
/// with every variable still unbound above the current level, each listed
/// once.
pub fn polymorphize(checker: &Checker, typ: Type, fuel: u64) -> (r: Result<Polytype, Error>)
    requires
        checker.wf(),
        wf_type(typ, checker.tvars@.len()),
    ensures
        r is Err ==> r == Err::<Polytype, Error>(Error::DepthLimit),
        polymorphize_spec(checker.tvars@, checker.cur_level, typ, fuel as nat).0 == (match r {
            Ok(p) => Ok::<(), Error>(()),
            Err(e) => Err::<(), Error>(e),
        }),
        r is Ok ==> (r->Ok_0).0@ == polymorphize_spec(
            checker.tvars@,
            checker.cur_level,
            typ,
            fuel as nat,
        ).1,
        type_concrete(typ) && type_size(typ) <= fuel ==> r is Ok,
        type_concrete(typ) && r is Ok ==> (r->Ok_0).0@.len() == 0,
        r is Ok ==> (r->Ok_0).1 == typ,
        r is Ok ==> poly_wf(r->Ok_0, checker.tvars@.len()),
        r is Ok ==> forall|j: int|
            0 <= j < (r->Ok_0).0@.len() ==> gen_candidate(
                checker.tvars@,
                checker.cur_level.0 as nat,
                #[trigger] (r->Ok_0).0@[j],
            ),
{
    let mut vars: Vec<TVarRef> = Vec::new();
    proof {
        assert(vars@ =~= Seq::<TVarRef>::empty());
    }
    match collect_vars(checker, &mut vars, &typ, fuel) {
        Err(e) => Err(e),
        Ok(u) => Ok(Polytype(vars, typ)),
    }
}

} // verus!
