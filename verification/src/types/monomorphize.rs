//! Instantiation: turn a polytype into a monomorphic type by replacing each
//! generalized variable with a fresh one.
//!
//! Replacement walks the type through the store, so generalized variables
//! hidden behind `Bound` links are found too.  When the scheme generalizes
//! nothing, the result is simply the scheme's type resolved through the
//! store.

use vstd::prelude::*;

use super::check::{poly_wf, Checker, LINK_FUEL};
use super::error::Error;
use super::polymorphize::type_size;
use super::string_of_type::type_concrete;
use super::resolve::{
    lemma_extends_refl, lemma_extends_trans, lemma_resolve_fuel_mono, resolve, resolves_to,
    store_extends, wf_cell, wf_type,
};
use super::{Level, Polytype, TVar, TVarRef, Type};

verus! {

/// The replacement recorded for `id`: the first entry that names it.
pub open spec fn map_find(map: Seq<(TVarRef, Type)>, id: TVarRef) -> Option<Type>
    decreases map.len(),
{
    if map.len() == 0 {
        None
    } else if map.first().0 == id {
        Some(map.first().1)
    } else {
        map_find(map.drop_first(), id)
    }
}

/// Find the replacement for a generalized variable, if there is one.
fn lookup_replacement<'a>(map: &'a Vec<(TVarRef, Type)>, id: TVarRef) -> (r: Option<&'a Type>)
    ensures
        match r {
            Some(t) => map_find(map@, id) == Some(*t) && exists|j: int|
                0 <= j < map@.len() && #[trigger] map@[j] == (id, *t),
            None => map_find(map@, id) is None,
        },
{
    let mut i: usize = 0;
    proof {
        assert(map@.skip(0) =~= map@);
    }
    while i < map.len()
        invariant
            i <= map@.len(),
            map_find(map@, id) == map_find(map@.skip(i as int), id),
        decreases map@.len() - i,
    {
        proof {
            assert(map@.skip(i as int).first() == map@[i as int]);
            assert(map@.skip(i as int).drop_first() =~= map@.skip(i + 1));
        }
        if map[i].0.0 == id.0 {
            proof {
                assert(map@[i as int] == (id, map@[i as int].1));
            }
            return Some(&map[i].1);
        }
        i = i + 1;
    }
    proof {
        assert(map@.skip(map@.len() as int).len() == 0);
    }
    None
}

/// What replacement computes: rebuild the type, chasing `Bound` links and
/// substituting the mapped types for the generalized variables they name.
pub open spec fn replace_spec(s: Seq<TVar>, map: Seq<(TVarRef, Type)>, t: Type, fuel: nat) -> Result<
    Type,
    Error,
>
    decreases fuel,
{
    if fuel == 0 {
        Err(Error::DepthLimit)
    } else {
        match t {
            Type::Int => Ok(Type::Int),
            Type::Str => Ok(Type::Str),
            Type::Unit => Ok(Type::Unit),
            Type::Bool => Ok(Type::Bool),
            Type::Var(v) => {
                if v.0 >= s.len() {
                    Err(Error::DepthLimit)
                } else {
                    match s[v.0 as int] {
                        TVar::Bound(b) => replace_spec(s, map, b, (fuel - 1) as nat),
                        TVar::Unbound(id, _) => match map_find(map, id) {
                            Some(rep) => Ok(rep),
                            None => Ok(Type::Var(v)),
                        },
                    }
                }
            },
            Type::Fun(a, b) => match replace_spec(s, map, *a, (fuel - 1) as nat) {
                Err(e) => Err(e),
                Ok(ra) => match replace_spec(s, map, *b, (fuel - 1) as nat) {
                    Err(e) => Err(e),
                    Ok(rb) => Ok(Type::Fun(Box::new(ra), Box::new(rb))),
                },
            },
        }
    }
}

/// The fresh allocations of an instantiation: one new unbound cell per
/// generalized reference, in order, and the substitution built from them.
pub open spec fn alloc_spec(s: Seq<TVar>, level: Level, vars: Seq<TVarRef>) -> (
    Seq<TVar>,
    Seq<(TVarRef, Type)>,
)
    decreases vars.len(),
{
    if vars.len() == 0 {
        (s, Seq::empty())
    } else {
        let (s1, m1) = alloc_spec(s, level, vars.drop_last());
        (
            s1.push(TVar::Unbound(TVarRef(s1.len() as usize), level)),
            m1.push((vars.last(), Type::Var(TVarRef(s1.len() as usize)))),
        )
    }
}

/// What instantiation computes: allocate the fresh variables, then replace.
pub open spec fn monomorphize_spec(
    s: Seq<TVar>,
    level: Level,
    vars: Seq<TVarRef>,
    typ: Type,
    fuel: nat,
) -> (Result<Type, Error>, Seq<TVar>) {
    let (s1, map) = alloc_spec(s, level, vars);
    (replace_spec(s1, map, typ, fuel), s1)
}

/// Rebuild `t`, following `Bound` links and substituting the types in `map`
/// for the generalized variables they name.
fn replace(checker: &Checker, map: &Vec<(TVarRef, Type)>, t: &Type, fuel: u64) -> (r: Result<
    Type,
    Error,
>)
    requires
        checker.wf(),
        wf_type(*t, checker.tvars@.len()),
        forall|j: int|
            0 <= j < map@.len() ==> wf_type((#[trigger] map@[j]).1, checker.tvars@.len()),
    ensures
        r == replace_spec(checker.tvars@, map@, *t, fuel as nat),
        r is Err ==> r == Err::<Type, Error>(Error::DepthLimit),
        r is Ok ==> wf_type(r->Ok_0, checker.tvars@.len()),
        map@.len() == 0 && r is Ok ==> resolves_to(checker.tvars@, *t, r->Ok_0),
        type_concrete(*t) && type_size(*t) <= fuel ==> r is Ok,
        type_concrete(*t) && r is Ok ==> r->Ok_0 == *t,
    decreases fuel,
{
    let ghost s = checker.tvars@;
    if fuel == 0 {
        return Err(Error::DepthLimit);
    }
    match t {
        Type::Int => {
            proof {
                assert(resolve(s, Type::Int, 0) == Some(Type::Int));
            }
            Ok(Type::Int)
        },
        Type::Str => {
            proof {
                assert(resolve(s, Type::Str, 0) == Some(Type::Str));
            }
            Ok(Type::Str)
        },
        Type::Unit => {
            proof {
                assert(resolve(s, Type::Unit, 0) == Some(Type::Unit));
            }
            Ok(Type::Unit)
        },
        Type::Bool => {
            proof {
                assert(resolve(s, Type::Bool, 0) == Some(Type::Bool));
            }
            Ok(Type::Bool)
        },
        Type::Var(tvar) => {
            let v = *tvar;
            proof {
                assert(wf_cell(s[v.0 as int], v.0 as int, s.len()));
            }
            match checker.tvars.get(v) {
                TVar::Bound(bound) => {
                    let bound = bound.clone();
                    let r = replace(checker, map, &bound, fuel - 1);
                    proof {
                        if map@.len() == 0 && r is Ok {
                            let f = choose|f: nat| resolve(s, bound, f) == Some(r->Ok_0);
                            assert(resolve(s, *t, f + 1) == Some(r->Ok_0));
                        }
                    }
                    r
                },
                TVar::Unbound(id, _) => {
                    let id = *id;
                    match lookup_replacement(map, id) {
                        Some(rep) => Ok(rep.clone()),
                        None => {
                            proof {
                                assert(resolve(s, *t, 0) == Some(*t));
                            }
                            Ok(Type::Var(v))
                        },
                    }
                },
            }
        },
        Type::Fun(a, b) => {
            let ra = replace(checker, map, &**a, fuel - 1)?;
            let rb = replace(checker, map, &**b, fuel - 1)?;
            proof {
                if map@.len() == 0 {
                    let fa = choose|f: nat| resolve(s, **a, f) == Some(ra);
                    let fb = choose|f: nat| resolve(s, **b, f) == Some(rb);
                    let g = if fa <= fb {
                        fb
                    } else {
                        fa
                    };
                    lemma_resolve_fuel_mono(s, **a, fa, g);
                    lemma_resolve_fuel_mono(s, **b, fb, g);
                    assert(resolve(s, *t, g) == Some(Type::Fun(Box::new(ra), Box::new(rb))));
                }
            }
            Ok(Type::Fun(Box::new(ra), Box::new(rb)))
        },
    }
}

/// Instantiate a polytype: allocate a fresh variable for each generalized
/// reference, then rebuild the scheme's type with those substitutions.  A
/// scheme that generalizes nothing leaves the store untouched and yields a
/// resolution of its type.
pub fn monomorphize(checker: &mut Checker, poly: &Polytype, fuel: u64) -> (r: Result<Type, Error>)
    requires
        old(checker).wf(),
        poly_wf(*poly, old(checker).tvars@.len()),
    ensures
        final(checker).wf(),
        store_extends(final(checker).tvars@, old(checker).tvars@),
        final(checker).bindings@ == old(checker).bindings@,
        final(checker).cur_level == old(checker).cur_level,
        r is Err ==> r == Err::<Type, Error>(Error::DepthLimit),
        r is Ok ==> wf_type(r->Ok_0, final(checker).tvars@.len()),
        poly.0@.len() == 0 ==> final(checker).tvars@ == old(checker).tvars@,
        poly.0@.len() == 0 && r is Ok ==> resolves_to(final(checker).tvars@, poly.1, r->Ok_0),
        poly.0@.len() == 0 && type_concrete(poly.1) && type_size(poly.1) <= fuel ==> r is Ok,
        type_concrete(poly.1) && r is Ok ==> r->Ok_0 == poly.1,
        r == monomorphize_spec(
            old(checker).tvars@,
            old(checker).cur_level,
            poly.0@,
            poly.1,
            fuel as nat,
        ).0,
        final(checker).tvars@ == monomorphize_spec(
            old(checker).tvars@,
            old(checker).cur_level,
            poly.0@,
            poly.1,
            fuel as nat,
        ).1,
{
    let ghost s0 = checker.tvars@;
    let mut map: Vec<(TVarRef, Type)> = Vec::new();
    let mut i: usize = 0;
    proof {
        lemma_extends_refl(checker.tvars@);
        assert(poly.0@.take(0) =~= Seq::<TVarRef>::empty());
        assert(map@ =~= Seq::<(TVarRef, Type)>::empty());
    }
    while i < poly.0.len()
        invariant
            old(checker).wf(),
            poly_wf(*poly, s0.len()),
            s0 == old(checker).tvars@,
            checker.wf(),
            store_extends(checker.tvars@, s0),
            checker.bindings@ == old(checker).bindings@,
            checker.cur_level == old(checker).cur_level,
            i <= poly.0@.len(),
            map@.len() == i,
            poly.0@.len() > 0 || checker.tvars@ == s0,
            (checker.tvars@, map@) == alloc_spec(s0, old(checker).cur_level, poly.0@.take(i as int)),
            forall|j: int|
                0 <= j < map@.len() ==> wf_type((#[trigger] map@[j]).1, checker.tvars@.len()),
        decreases poly.0@.len() - i,
    {
        let ghost s_before = checker.tvars@;
        let fresh = checker.new_tvar();
        proof {
            lemma_extends_trans(checker.tvars@, s_before, s0);
            assert forall|j: int|
                0 <= j < map@.len() implies wf_type(
                (#[trigger] map@[j]).1,
                checker.tvars@.len(),
            ) by {
                crate::types::resolve::lemma_wf_type_widen(
                    map@[j].1,
                    s_before.len(),
                    checker.tvars@.len(),
                );
            }
        }
        map.push((poly.0[i], fresh));
        i = i + 1;
        proof {
            assert(poly.0@.take(i as int).drop_last() =~= poly.0@.take(i - 1));
            assert(poly.0@.take(i as int).last() == poly.0@[i - 1]);
        }
    }
    let ghost s1 = checker.tvars@;
    proof {
        crate::types::resolve::lemma_wf_type_widen(poly.1, s0.len(), s1.len());
        assert(poly.0@.take(poly.0@.len() as int) =~= poly.0@);
    }
    let r = replace(checker, &map, &poly.1, fuel);
    r
}

} // verus!
