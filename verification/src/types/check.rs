//! The type checker proper: Algorithm J.
//!
//! [`Checker`] owns the type-variable store, the current `let`-nesting level
//! and the polytypes of the names in scope.  Unification makes two type terms
//! resolution-equal (see [`super::resolve`]); the occurs check keeps a
//! variable from being bound to a type containing itself and, as a side
//! effect, lowers the levels of the variables it walks past.

use vstd::prelude::*;

use crate::ast::expr::{App, BinOp, BinOpKind, Expr, Fun, If, Let, Var};

use super::error::Error;
use super::monomorphize::{monomorphize, monomorphize_spec};
use super::polymorphize::{polymorphize, polymorphize_spec, type_size};
use super::string_of_type::type_concrete;
use super::resolve::{
    cell_extends, cell_lowered, levels_lowered, lemma_extends_refl, lemma_extends_trans,
    lemma_levels_lowered_extends, lemma_levels_lowered_refl, lemma_levels_lowered_trans,
    lemma_resolved_eq_bind, lemma_resolved_eq_extends, lemma_resolved_eq_fun,
    lemma_resolved_eq_refl, lemma_resolved_eq_sym, lemma_resolved_eq_through_binding,
    lemma_store_bind_extends, lemma_store_push_extends, lemma_wf_store_push,
    lemma_wf_store_update_bound, lemma_wf_type_widen, resolve, resolved_eq, resolves_to,
    store_extends, wf_cell, wf_store, wf_type,
};
use super::tvars::TVars;
use super::{Level, Polytype, TVar, TVarRef, Type};

verus! {

/// The recursion budget for walks over `Bound` links in the store.  Chains of
/// links are in practice no longer than the number of cells; this budget is
/// far beyond any store a program could build.
pub const LINK_FUEL: u64 = 1_000_000_000;

/// How deeply `let` bindings nest in an expression: the only quantity that
/// raises the checker's level.
pub open spec fn let_depth(e: Expr) -> nat
    decreases e,
{
    match e {
        Expr::Int(_) => 0,
        Expr::Str(_) => 0,
        Expr::Unit => 0,
        Expr::Bool(_) => 0,
        Expr::Var(_) => 0,
        Expr::BinOp(b) => spec_max_nat(let_depth(*b.left), let_depth(*b.right)),
        Expr::Let(l) => 1 + spec_max_nat(let_depth(*l.value), let_depth(*l.body)),
        Expr::Fun(f) => let_depth(*f.body),
        Expr::App(a) => spec_max_nat(let_depth(*a.fun), let_depth(*a.arg)),
        Expr::If(i) => spec_max_nat(
            let_depth(*i.check),
            spec_max_nat(let_depth(*i.thn), let_depth(*i.els)),
        ),
    }
}

pub open spec fn spec_max_nat(a: nat, b: nat) -> nat {
    if a >= b {
        a
    } else {
        b
    }
}

/// What the occurs check computes, and how it rewrites the store: walking
/// `t` through `s`, every unbound variable met has its level lowered to at
/// most `level`, and the result says whether `id` was met.  The budget is
/// spent one unit per step; an out-of-range reference never arises from a
/// well-formed store.
pub open spec fn occurs_spec(s: Seq<TVar>, id: TVarRef, level: Level, t: Type, fuel: nat) -> (
    Result<bool, Error>,
    Seq<TVar>,
)
    decreases fuel,
{
    if fuel == 0 {
        (Err(Error::DepthLimit), s)
    } else {
        match t {
            Type::Int => (Ok(false), s),
            Type::Str => (Ok(false), s),
            Type::Unit => (Ok(false), s),
            Type::Bool => (Ok(false), s),
            Type::Var(v) => {
                if v.0 >= s.len() {
                    (Err(Error::DepthLimit), s)
                } else {
                    match s[v.0 as int] {
                        TVar::Bound(b) => occurs_spec(s, id, level, b, (fuel - 1) as nat),
                        TVar::Unbound(b_id, b_level) => {
                            let min_level = if level.0 <= b_level.0 {
                                level
                            } else {
                                b_level
                            };
                            (
                                Ok(id.0 == b_id.0),
                                s.update(v.0 as int, TVar::Unbound(b_id, min_level)),
                            )
                        },
                    }
                }
            },
            Type::Fun(a, b) => {
                let (ra, s1) = occurs_spec(s, id, level, *a, (fuel - 1) as nat);
                match ra {
                    Err(e) => (Err(e), s1),
                    Ok(found) => if found {
                        (Ok(true), s1)
                    } else {
                        occurs_spec(s1, id, level, *b, (fuel - 1) as nat)
                    },
                }
            },
        }
    }
}

/// What unification computes, and the store it leaves behind: a bound
/// variable on either side is chased; an unbound variable is bound to the
/// other side after the occurs check, unless the two sides are already the
/// same term; arrows unify componentwise, left before right; equal base
/// types succeed; any other pairing is `NoUnify` of the two offending
/// terms.
pub open spec fn unify_spec(s: Seq<TVar>, t1: Type, t2: Type, fuel: nat) -> (
    Result<(), Error>,
    Seq<TVar>,
)
    decreases fuel,
{
    if fuel == 0 {
        (Err(Error::DepthLimit), s)
    } else if t1 is Var && t1->Var_0.0 < s.len() && s[t1->Var_0.0 as int] is Bound {
        unify_spec(s, s[t1->Var_0.0 as int]->Bound_0, t2, (fuel - 1) as nat)
    } else if t2 is Var && t2->Var_0.0 < s.len() && s[t2->Var_0.0 as int] is Bound {
        unify_spec(s, t1, s[t2->Var_0.0 as int]->Bound_0, (fuel - 1) as nat)
    } else if t1 is Var {
        let v = t1->Var_0;
        if v.0 >= s.len() {
            (Err(Error::DepthLimit), s)
        } else {
            let id = s[v.0 as int]->Unbound_0;
            let lvl = s[v.0 as int]->Unbound_1;
            if t1 == t2 {
                (Ok(()), s)
            } else {
                let (occ, s1) = occurs_spec(s, id, lvl, t2, fuel);
                match occ {
                    Err(e) => (Err(e), s1),
                    Ok(found) => if found {
                        (Err(Error::Occurs), s1)
                    } else {
                        (Ok(()), s1.update(v.0 as int, TVar::Bound(t2)))
                    },
                }
            }
        }
    } else if t2 is Var {
        let v = t2->Var_0;
        if v.0 >= s.len() {
            (Err(Error::DepthLimit), s)
        } else {
            let id = s[v.0 as int]->Unbound_0;
            let lvl = s[v.0 as int]->Unbound_1;
            if t1 == t2 {
                (Ok(()), s)
            } else {
                let (occ, s1) = occurs_spec(s, id, lvl, t1, fuel);
                match occ {
                    Err(e) => (Err(e), s1),
                    Ok(found) => if found {
                        (Err(Error::Occurs), s1)
                    } else {
                        (Ok(()), s1.update(v.0 as int, TVar::Bound(t1)))
                    },
                }
            }
        }
    } else {
        match (t1, t2) {
            (Type::Int, Type::Int) => (Ok(()), s),
            (Type::Str, Type::Str) => (Ok(()), s),
            (Type::Unit, Type::Unit) => (Ok(()), s),
            (Type::Bool, Type::Bool) => (Ok(()), s),
            (Type::Fun(a, b), Type::Fun(c, d)) => {
                let (r1, s1) = unify_spec(s, *a, *c, (fuel - 1) as nat);
                match r1 {
                    Err(e) => (Err(e), s1),
                    Ok(u) => unify_spec(s1, *b, *d, (fuel - 1) as nat),
                }
            },
            _ => (Err(Error::NoUnify(t1, t2)), s),
        }
    }
}

/// The model of a scope: each name's scheme as the plain pair of its
/// generalized references and its type.
pub open spec fn smap_of(m: Map<Seq<char>, Polytype>) -> Map<Seq<char>, (Seq<TVarRef>, Type)> {
    Map::new(|n: Seq<char>| m.contains_key(n), |n: Seq<char>| (m[n].0@, m[n].1))
}

proof fn lemma_smap_insert(m: Map<Seq<char>, Polytype>, k: Seq<char>, p: Polytype)
    ensures
        smap_of(m.insert(k, p)) == smap_of(m).insert(k, (p.0@, p.1)),
{
    assert(smap_of(m.insert(k, p)) =~= smap_of(m).insert(k, (p.0@, p.1)));
}

proof fn lemma_smap_remove(m: Map<Seq<char>, Polytype>, k: Seq<char>)
    ensures
        smap_of(m.remove(k)) == smap_of(m).remove(k),
{
    assert(smap_of(m.remove(k)) =~= smap_of(m).remove(k));
}

/// What checking computes: the result, and the store, scope and level left
/// behind — the typing rules of the language, one arm per syntax form.
/// Every fresh variable, unification and scheme operation is the
/// corresponding model function, applied in the order the checker applies
/// it.
pub open spec fn check_spec(
    s: Seq<TVar>,
    level: Level,
    b: Map<Seq<char>, (Seq<TVarRef>, Type)>,
    e: Expr,
) -> (Result<Type, Error>, Seq<TVar>, Map<Seq<char>, (Seq<TVarRef>, Type)>, Level)
    decreases e, 1nat,
{
    match e {
        Expr::Int(_) => (Ok(Type::Int), s, b, level),
        Expr::Str(_) => (Ok(Type::Str), s, b, level),
        Expr::Unit => (Ok(Type::Unit), s, b, level),
        Expr::Bool(_) => (Ok(Type::Bool), s, b, level),
        Expr::Var(v) => {
            if !b.contains_key(v.name@) {
                (Err(Error::NotInScope { name: v.name }), s, b, level)
            } else {
                let (r, s1) = monomorphize_spec(
                    s,
                    level,
                    b[v.name@].0,
                    b[v.name@].1,
                    LINK_FUEL as nat,
                );
                (r, s1, b, level)
            }
        },
        Expr::App(a) => {
            let (fr, s1, b1, l1) = check_spec(s, level, b, *a.fun);
            match fr {
                Err(e1) => (Err(e1), s1, b1, l1),
                Ok(fun_t) => {
                    let (ar, s2, b2, l2) = check_spec(s1, l1, b1, *a.arg);
                    match ar {
                        Err(e1) => (Err(e1), s2, b2, l2),
                        Ok(arg_t) => {
                            let v = TVarRef(s2.len() as usize);
                            let s3 = s2.push(TVar::Unbound(v, l2));
                            let want = Type::Fun(Box::new(arg_t), Box::new(Type::Var(v)));
                            let (ur, s4) = unify_spec(s3, fun_t, want, LINK_FUEL as nat);
                            match ur {
                                Err(e1) => (Err(e1), s4, b2, l2),
                                Ok(u) => (Ok(Type::Var(v)), s4, b2, l2),
                            }
                        },
                    }
                },
            }
        },
        Expr::Fun(f) => {
            let v = TVarRef(s.len() as usize);
            let s1 = s.push(TVar::Unbound(v, level));
            let b1 = b.insert(f.arg@, (Seq::empty(), Type::Var(v)));
            let (br, s2, b2, l2) = check_spec(s1, level, b1, *f.body);
            match br {
                Err(e1) => (Err(e1), s2, b2, l2),
                Ok(out_t) => (
                    Ok(Type::Fun(Box::new(Type::Var(v)), Box::new(out_t))),
                    s2,
                    b2.remove(f.arg@),
                    l2,
                ),
            }
        },
        Expr::Let(l) => {
            let (vr, s1, b1, l1) = check_let_value_spec(s, level, b, l.name@, *l.value, l.rec);
            match vr {
                Err(e1) => (Err(e1), s1, b1, l1),
                Ok(u) => {
                    let (br, s2, b2, l2) = check_spec(s1, l1, b1, *l.body);
                    match br {
                        Err(e1) => (Err(e1), s2, b2, l2),
                        Ok(t) => (Ok(t), s2, b2.remove(l.name@), l2),
                    }
                },
            }
        },
        Expr::BinOp(bo) => {
            let (op_t, s1) = if bo.kind == BinOpKind::Eql {
                let v = TVarRef(s.len() as usize);
                (
                    Type::Fun(
                        Box::new(Type::Var(v)),
                        Box::new(Type::Fun(Box::new(Type::Var(v)), Box::new(Type::Bool))),
                    ),
                    s.push(TVar::Unbound(v, level)),
                )
            } else {
                (
                    Type::Fun(
                        Box::new(Type::Int),
                        Box::new(Type::Fun(Box::new(Type::Int), Box::new(Type::Int))),
                    ),
                    s,
                )
            };
            let (lr, s2, b2, l2) = check_spec(s1, level, b, *bo.left);
            match lr {
                Err(e1) => (Err(e1), s2, b2, l2),
                Ok(left_t) => {
                    let (rr, s3, b3, l3) = check_spec(s2, l2, b2, *bo.right);
                    match rr {
                        Err(e1) => (Err(e1), s3, b3, l3),
                        Ok(right_t) => {
                            let v2 = TVarRef(s3.len() as usize);
                            let s4 = s3.push(TVar::Unbound(v2, l3));
                            let want = Type::Fun(
                                Box::new(left_t),
                                Box::new(Type::Fun(Box::new(right_t), Box::new(Type::Var(v2)))),
                            );
                            let (ur, s5) = unify_spec(s4, op_t, want, LINK_FUEL as nat);
                            match ur {
                                Err(e1) => (Err(e1), s5, b3, l3),
                                Ok(u) => (Ok(Type::Var(v2)), s5, b3, l3),
                            }
                        },
                    }
                },
            }
        },
        Expr::If(i) => {
            let (cr, s1, b1, l1) = check_spec(s, level, b, *i.check);
            match cr {
                Err(e1) => (Err(e1), s1, b1, l1),
                Ok(check_t) => {
                    let (u1, s2) = unify_spec(s1, check_t, Type::Bool, LINK_FUEL as nat);
                    match u1 {
                        Err(e1) => (Err(e1), s2, b1, l1),
                        Ok(u) => {
                            let (tr, s3, b3, l3) = check_spec(s2, l1, b1, *i.thn);
                            match tr {
                                Err(e1) => (Err(e1), s3, b3, l3),
                                Ok(then_t) => {
                                    let (er, s4, b4, l4) = check_spec(s3, l3, b3, *i.els);
                                    match er {
                                        Err(e1) => (Err(e1), s4, b4, l4),
                                        Ok(els_t) => {
                                            let (u2, s5) = unify_spec(
                                                s4,
                                                then_t,
                                                els_t,
                                                LINK_FUEL as nat,
                                            );
                                            match u2 {
                                                Err(e1) => (Err(e1), s5, b4, l4),
                                                Ok(u3) => (Ok(then_t), s5, b4, l4),
                                            }
                                        },
                                    }
                                },
                            }
                        },
                    }
                },
            }
        },
    }
}

/// The tail of a `let`: lower the level again, generalize the value's type
/// there, and bind the name to the scheme.
pub open spec fn let_finish_spec(
    s: Seq<TVar>,
    b: Map<Seq<char>, (Seq<TVarRef>, Type)>,
    raised: Level,
    name: Seq<char>,
    value_t: Type,
) -> (Result<(), Error>, Seq<TVar>, Map<Seq<char>, (Seq<TVarRef>, Type)>, Level) {
    let l0 = Level((raised.0 - 1) as usize);
    let (pr, vars) = polymorphize_spec(s, l0, value_t, LINK_FUEL as nat);
    match pr {
        Err(e1) => (Err(e1), s, b, l0),
        Ok(u) => (Ok(()), s, b.insert(name, (vars, value_t)), l0),
    }
}

/// What checking a binding's value computes: the level is raised around the
/// value; a recursive binding first sees its own name as a fresh variable,
/// which is then unified with the checked type; the scheme bound is the
/// generalization, at the restored level, of that variable (or, for a
/// non-recursive binding, of the value's type).
pub open spec fn check_let_value_spec(
    s: Seq<TVar>,
    level: Level,
    b: Map<Seq<char>, (Seq<TVarRef>, Type)>,
    name: Seq<char>,
    value: Expr,
    rec: bool,
) -> (Result<(), Error>, Seq<TVar>, Map<Seq<char>, (Seq<TVarRef>, Type)>, Level)
    decreases value, 2nat,
{
    let lvl1 = Level((level.0 + 1) as usize);
    if rec {
        let v = TVarRef(s.len() as usize);
        let s1 = s.push(TVar::Unbound(v, lvl1));
        let b1 = b.insert(name, (Seq::empty(), Type::Var(v)));
        let (cr, s2, b2, l2) = check_spec(s1, lvl1, b1, value);
        match cr {
            Err(e1) => (Err(e1), s2, b2, l2),
            Ok(checked) => {
                let b3 = b2.remove(name);
                let (ur, s3) = unify_spec(s2, Type::Var(v), checked, LINK_FUEL as nat);
                match ur {
                    Err(e1) => (Err(e1), s3, b3, l2),
                    Ok(u) => let_finish_spec(s3, b3, l2, name, Type::Var(v)),
                }
            },
        }
    } else {
        let (cr, s1, b1, l1) = check_spec(s, lvl1, b, value);
        match cr {
            Err(e1) => (Err(e1), s1, b1, l1),
            Ok(checked) => let_finish_spec(s1, b1, l1, name, checked),
        }
    }
}

/// The mapping that a sequence of name/polytype pairs denotes: the last pair
/// for a name wins.
pub open spec fn map_of(s: Seq<(String, Polytype)>) -> Map<Seq<char>, Polytype>
    decreases s.len(),
{
    if s.len() == 0 {
        Map::empty()
    } else {
        map_of(s.drop_last()).insert(s.last().0@, s.last().1)
    }
}

/// Removing an entry whose name is `nm` leaves the denoted mapping unchanged
/// away from `nm`.
proof fn lemma_map_of_remove_entry(s: Seq<(String, Polytype)>, k: int, nm: Seq<char>)
    requires
        0 <= k < s.len(),
        s[k].0@ == nm,
    ensures
        map_of(s.remove(k)).remove(nm) =~= map_of(s).remove(nm),
    decreases s.len(),
{
    if k == s.len() - 1 {
        assert(s.remove(k) =~= s.drop_last());
    } else {
        let l = s.last();
        assert(s.remove(k).drop_last() =~= s.drop_last().remove(k));
        assert(s.remove(k).last() == l);
        lemma_map_of_remove_entry(s.drop_last(), k, nm);
        if l.0@ == nm {
            assert(map_of(s.remove(k)).remove(nm) =~= map_of(s.drop_last().remove(k)).remove(nm));
            assert(map_of(s).remove(nm) =~= map_of(s.drop_last()).remove(nm));
        } else {
            assert(map_of(s.remove(k)).remove(nm) =~= map_of(s.drop_last().remove(k)).remove(
                nm,
            ).insert(l.0@, l.1));
            assert(map_of(s).remove(nm) =~= map_of(s.drop_last()).remove(nm).insert(l.0@, l.1));
        }
    }
}

/// Every key of the denoted mapping appears somewhere in the sequence.
proof fn lemma_map_of_key_has_index(s: Seq<(String, Polytype)>, nm: Seq<char>)
    requires
        map_of(s).contains_key(nm),
    ensures
        exists|j: int| 0 <= j < s.len() && (#[trigger] s[j]).0@ == nm,
    decreases s.len(),
{
    if s.len() > 0 {
        if s.last().0@ == nm {
            assert(s[s.len() - 1].0@ == nm);
        } else {
            lemma_map_of_key_has_index(s.drop_last(), nm);
            let j = choose|j: int| 0 <= j < s.drop_last().len() && (#[trigger] s.drop_last()[j]).0@
                == nm;
            assert(s[j].0@ == nm);
        }
    }
}

/// The denoted mapping takes each name to the polytype of its last
/// occurrence.
proof fn lemma_map_of_last_occurrence(s: Seq<(String, Polytype)>, k: int, nm: Seq<char>)
    requires
        0 <= k < s.len(),
        s[k].0@ == nm,
        forall|j: int| k < j < s.len() ==> (#[trigger] s[j]).0@ != nm,
    ensures
        map_of(s).contains_key(nm),
        map_of(s)[nm] == s[k].1,
    decreases s.len(),
{
    if k == s.len() - 1 {
    } else {
        assert(s.drop_last()[k] == s[k]);
        lemma_map_of_last_occurrence(s.drop_last(), k, nm);
        assert(s.last().0@ != nm);
    }
}

/// A sequence without `nm` denotes a mapping without `nm`.
proof fn lemma_map_of_no_key(s: Seq<(String, Polytype)>, nm: Seq<char>)
    requires
        forall|j: int| 0 <= j < s.len() ==> (#[trigger] s[j]).0@ != nm,
    ensures
        !map_of(s).contains_key(nm),
    decreases s.len(),
{
    if s.len() > 0 {
        lemma_map_of_no_key(s.drop_last(), nm);
    }
}

/// The names in scope, each with its polytype.  Later insertions shadow
/// earlier ones; removal drops a name entirely.
pub struct Bindings {
    items: Vec<(String, Polytype)>,
}

impl Bindings {
    /// The mapping from name to polytype that the table denotes.
    pub closed spec fn view(&self) -> Map<Seq<char>, Polytype> {
        map_of(self.items@)
    }

    /// An empty table.
    pub fn new() -> (r: Bindings)
        ensures
            r@ == Map::<Seq<char>, Polytype>::empty(),
    {
        let r = Bindings { items: Vec::new() };
        proof {
            assert(r.items@.len() == 0);
        }
        r
    }

    /// Bind `name` to `p`, shadowing any earlier binding.
    pub fn insert(&mut self, name: String, p: Polytype)
        ensures
            final(self)@ == old(self)@.insert(name@, p),
    {
        let ghost before = self.items@;
        let ghost nm = name@;
        let ghost pp = p;
        self.items.push((name, p));
        proof {
            assert(self.items@.drop_last() =~= before);
            assert(self.items@.last() == (map_of(before).insert(nm, pp), self.items@.last()).1);
            assert(map_of(self.items@) == map_of(before).insert(self.items@.last().0@, self.items@.last().1));
        }
    }

    /// Look up the polytype bound to `name`, if any.
    pub fn get(&self, name: &String) -> (r: Option<&Polytype>)
        ensures
            match r {
                Some(p) => self@.contains_key(name@) && *p == self@[name@],
                None => !self@.contains_key(name@),
            },
    {
        let ghost s = self.items@;
        let ghost nm = name@;
        let mut i: usize = self.items.len();
        proof {
            assert(s.take(i as int) =~= s);
        }
        while i > 0
            invariant
                i <= s.len(),
                s == self.items@,
                nm == name@,
                map_of(s).contains_key(nm) == map_of(s.take(i as int)).contains_key(nm),
                map_of(s).contains_key(nm) ==> map_of(s)[nm] == map_of(s.take(i as int))[nm],
            decreases i,
        {
            let j = i - 1;
            proof {
                assert(s.take(i as int).drop_last() =~= s.take(j as int));
                assert(s.take(i as int).last() == s[j as int]);
            }
            if self.items[j].0 == *name {
                return Some(&self.items[j].1);
            }
            i = j;
        }
        proof {
            assert(s.take(0) =~= Seq::<(String, Polytype)>::empty());
        }
        None
    }

    /// Drop every binding of `name`.
    pub fn remove(&mut self, name: &String)
        ensures
            final(self)@ == old(self)@.remove(name@),
    {
        let ghost orig = self.items@;
        let ghost nm = name@;
        let mut i: usize = 0;
        while i < self.items.len()
            invariant
                i <= self.items@.len(),
                nm == name@,
                forall|j: int| 0 <= j < i ==> (#[trigger] self.items@[j]).0@ != nm,
                map_of(self.items@).remove(nm) =~= map_of(orig).remove(nm),
            decreases self.items@.len() - i,
        {
            if self.items[i].0 == *name {
                let ghost before = self.items@;
                self.items.remove(i);
                proof {
                    lemma_map_of_remove_entry(before, i as int, nm);
                }
            } else {
                i = i + 1;
            }
        }
        proof {
            lemma_map_of_no_key(self.items@, nm);
            assert(map_of(self.items@) =~= map_of(self.items@).remove(nm));
            assert(map_of(self.items@) =~= map_of(orig).remove(nm));
        }
    }
}

/// What a listing of the names in scope looks like: every listed name is
/// bound, every bound name is listed, and no name is listed twice.
pub open spec fn bindings_listing(out: Seq<(String, Type)>, m: Map<Seq<char>, Polytype>) -> bool {
    &&& forall|j: int| 0 <= j < out.len() ==> m.contains_key((#[trigger] out[j]).0@)
    &&& forall|n: Seq<char>|
        #[trigger] m.contains_key(n) ==> exists|j: int|
            0 <= j < out.len() && (#[trigger] out[j]).0@ == n
    &&& forall|j: int, k: int|
        0 <= j < k < out.len() ==> (#[trigger] out[j]).0@ != (#[trigger] out[k]).0@
}

/// Every scheme in scope generalizes nothing and is a concrete type small
/// enough to walk within the link budget: such a scope always lists.
pub open spec fn listing_ready(m: Map<Seq<char>, Polytype>) -> bool {
    forall|n: Seq<char>|
        #[trigger] m.contains_key(n) ==> m[n].0@.len() == 0 && type_concrete(m[n].1) && type_size(
            m[n].1,
        ) <= LINK_FUEL
}

/// Every generalized reference and the scheme's type fit a store of `n`
/// cells.
pub open spec fn poly_wf(p: Polytype, n: nat) -> bool {
    &&& wf_type(p.1, n)
    &&& forall|j: int| 0 <= j < p.0@.len() ==> (#[trigger] p.0@[j]).0 < n
}

proof fn lemma_poly_wf_widen(p: Polytype, n: nat, m: nat)
    requires
        poly_wf(p, n),
        n <= m,
    ensures
        poly_wf(p, m),
{
    lemma_wf_type_widen(p.1, n, m);
}

/// The checker's state: the current nesting level, the type-variable store,
/// and the polytypes of the names in scope.
pub struct Checker {
    pub cur_level: Level,
    pub tvars: TVars,
    pub bindings: Bindings,
}

impl Checker {
    /// The checker's state is well formed: the store is, and every polytype
    /// in scope fits it.
    pub open spec fn wf(self) -> bool {
        &&& wf_store(self.tvars@)
        &&& forall|n: Seq<char>|
            #[trigger] self.bindings@.contains_key(n) ==> poly_wf(self.bindings@[n], self.tvars@.len())
    }

    /// A fresh checker: level zero, no variables, nothing in scope.
    pub fn new() -> (r: Checker)
        ensures
            r.wf(),
            r.cur_level.0 == 0,
            r.tvars@ == Seq::<TVar>::empty(),
            r.bindings@ == Map::<Seq<char>, Polytype>::empty(),
    {
        Checker { cur_level: Level(0), tvars: TVars::new(), bindings: Bindings::new() }
    }

    /// Allocate a fresh type variable, unbound at the current level.
    pub fn new_tvar(&mut self) -> (t: Type)
        requires
            old(self).wf(),
        ensures
            final(self).wf(),
            old(self).tvars@.len() <= usize::MAX,
            final(self).tvars@ == old(self).tvars@.push(
                TVar::Unbound(TVarRef(old(self).tvars@.len() as usize), old(self).cur_level),
            ),
            t == (Type::Var(TVarRef(old(self).tvars@.len() as usize))),
            wf_type(t, final(self).tvars@.len()),
            store_extends(final(self).tvars@, old(self).tvars@),
            final(self).bindings@ == old(self).bindings@,
            final(self).cur_level == old(self).cur_level,
    {
        let ghost before = self.tvars@;
        let lvl = self.cur_level;
        let var_ref = self.tvars.add(
            (|r: TVarRef| -> (c: TVar)
                ensures
                    c == TVar::Unbound(r, lvl),
                { TVar::Unbound(r, lvl) }),
        );
        proof {
            assert(self.tvars@ =~= before.push(TVar::Unbound(var_ref, lvl)));
            lemma_store_push_extends(before, TVar::Unbound(var_ref, lvl));
            lemma_wf_store_push(before, TVar::Unbound(var_ref, lvl));
            assert forall|n: Seq<char>| #[trigger] self.bindings@.contains_key(n) implies poly_wf(
                self.bindings@[n],
                self.tvars@.len(),
            ) by {
                lemma_poly_wf_widen(self.bindings@[n], before.len(), self.tvars@.len());
            }
        }
        Type::Var(var_ref)
    }

    /// Raise the current level: entered on the right-hand side of a `let`.
    fn enter_level(&mut self)
        requires
            old(self).cur_level.0 < usize::MAX,
        ensures
            final(self).cur_level.0 == old(self).cur_level.0 + 1,
            final(self).tvars@ == old(self).tvars@,
            final(self).bindings@ == old(self).bindings@,
    {
        let Level(level) = self.cur_level;
        self.cur_level = Level(level + 1);
    }

    /// The occurs check: walk `typ` through the store and report whether the
    /// variable `id` occurs in it.  Every unbound variable passed on the way
    /// has its recorded level lowered to at most `level`; this is how levels
    /// come to reflect lexical nesting for variables that leak through
    /// unification into enclosing scopes.
    fn occurs(&mut self, id: TVarRef, level: Level, typ: &Type, fuel: u64) -> (r: Result<
        bool,
        Error,
    >)
        requires
            old(self).wf(),
            wf_type(*typ, old(self).tvars@.len()),
        ensures
            final(self).wf(),
            levels_lowered(final(self).tvars@, old(self).tvars@),
            final(self).tvars@.len() == old(self).tvars@.len(),
            final(self).bindings@ == old(self).bindings@,
            final(self).cur_level == old(self).cur_level,
            r is Err ==> r == Err::<bool, Error>(Error::DepthLimit),
            r == occurs_spec(old(self).tvars@, id, level, *typ, fuel as nat).0,
            final(self).tvars@ == occurs_spec(old(self).tvars@, id, level, *typ, fuel as nat).1,
        decreases fuel,
    {
        proof {
            lemma_levels_lowered_refl(self.tvars@);
        }
        if fuel == 0 {
            return Err(Error::DepthLimit);
        }
        match typ {
            Type::Int => Ok(false),
            Type::Str => Ok(false),
            Type::Unit => Ok(false),
            Type::Bool => Ok(false),
            Type::Var(tvar) => {
                let v = *tvar;
                proof {
                    assert(wf_cell(self.tvars@[v.0 as int], v.0 as int, self.tvars@.len()));
                }
                match self.tvars.get(v) {
                    TVar::Bound(t) => {
                        let t2 = t.clone();
                        self.occurs(id, level, &t2, fuel - 1)
                    },
                    TVar::Unbound(b_id, b_level) => {
                        let b_id = *b_id;
                        let b_level = *b_level;
                        let ghost before = self.tvars@;
                        let ret = id.0 == b_id.0;
                        let min_level = if level.0 <= b_level.0 {
                            level
                        } else {
                            b_level
                        };
                        self.tvars.set(v, TVar::Unbound(b_id, min_level));
                        proof {
                            assert forall|i: int| 0 <= i < before.len() implies cell_lowered(
                                #[trigger] self.tvars@[i],
                                #[trigger] before[i],
                            ) by {}
                            assert forall|i: int| 0 <= i < self.tvars@.len() implies wf_cell(
                                #[trigger] self.tvars@[i],
                                i,
                                self.tvars@.len(),
                            ) by {
                                assert(wf_cell(before[i], i, before.len()));
                            }
                        }
                        Ok(ret)
                    },
                }
            },
            Type::Fun(a, b) => {
                let ghost s0 = self.tvars@;
                let ra = self.occurs(id, level, &**a, fuel - 1)?;
                if ra {
                    Ok(true)
                } else {
                    let ghost s1 = self.tvars@;
                    let r2 = self.occurs(id, level, &**b, fuel - 1);
                    proof {
                        lemma_levels_lowered_trans(self.tvars@, s1, s0);
                    }
                    r2
                }
            },
        }
    }

    /// Unify two type terms: make them resolution-equal by binding unbound
    /// variables, or fail.  On success any complete resolutions of `t1` and
    /// `t2` under the resulting store are structurally identical; the store
    /// only ever extends, so types unified earlier stay unified.
    pub fn unify(&mut self, t1: Type, t2: Type, fuel: u64) -> (r: Result<(), Error>)
        requires
            old(self).wf(),
            wf_type(t1, old(self).tvars@.len()),
            wf_type(t2, old(self).tvars@.len()),
        ensures
            final(self).wf(),
            store_extends(final(self).tvars@, old(self).tvars@),
            final(self).tvars@.len() == old(self).tvars@.len(),
            final(self).bindings@ == old(self).bindings@,
            final(self).cur_level == old(self).cur_level,
            r is Ok ==> resolved_eq(final(self).tvars@, t1, t2),
            r == unify_spec(old(self).tvars@, t1, t2, fuel as nat).0,
            final(self).tvars@ == unify_spec(old(self).tvars@, t1, t2, fuel as nat).1,
        decreases fuel,
    {
        proof {
            lemma_extends_refl(self.tvars@);
        }
        if fuel == 0 {
            return Err(Error::DepthLimit);
        }
        let ghost s0 = self.tvars@;
        // If either side is a variable already bound, unify against its
        // binding instead.
        let t1_binding: Option<Type> = match &t1 {
            Type::Var(v) => match self.tvars.get(*v) {
                TVar::Bound(a) => Some(a.clone()),
                TVar::Unbound(_, _) => None,
            },
            _ => None,
        };
        if let Some(a) = t1_binding {
            let ghost v = t1->Var_0;
            let ghost ga = a;
            let ghost gt2 = t2;
            proof {
                assert(wf_cell(s0[v.0 as int], v.0 as int, s0.len()));
            }
            let r = self.unify(a, t2, fuel - 1);
            proof {
                if r is Ok {
                    assert(cell_extends(self.tvars@[v.0 as int], s0[v.0 as int]));
                    lemma_resolved_eq_through_binding(self.tvars@, v, ga, gt2);
                }
            }
            return r;
        }
        let t2_binding: Option<Type> = match &t2 {
            Type::Var(v) => match self.tvars.get(*v) {
                TVar::Bound(b) => Some(b.clone()),
                TVar::Unbound(_, _) => None,
            },
            _ => None,
        };
        if let Some(b) = t2_binding {
            let ghost v = t2->Var_0;
            let ghost gb = b;
            let ghost gt1 = t1;
            proof {
                assert(wf_cell(s0[v.0 as int], v.0 as int, s0.len()));
            }
            let r = self.unify(t1, b, fuel - 1);
            proof {
                if r is Ok {
                    assert(cell_extends(self.tvars@[v.0 as int], s0[v.0 as int]));
                    lemma_resolved_eq_sym(self.tvars@, gt1, gb);
                    lemma_resolved_eq_through_binding(self.tvars@, v, gb, gt1);
                    lemma_resolved_eq_sym(self.tvars@, Type::Var(v), gt1);
                }
            }
            return r;
        }
        // If either side is an unbound variable, bind it, unless the two
        // sides are already the same term; the occurs check guards against
        // building an infinite type and lowers levels along the way.
        if let Type::Var(v) = &t1 {
            let v = *v;
            let (a_id, a_level) = match self.tvars.get(v) {
                TVar::Unbound(id, l) => (*id, *l),
                TVar::Bound(_) => {
                    // The bound case returned above.
                    proof {
                        assert(false);
                    }
                    (TVarRef(0), Level(0))
                },
            };
            if t1.same(&t2) {
                proof {
                    lemma_resolved_eq_refl(self.tvars@, t1);
                }
                return Ok(());
            }
            let occ = match self.occurs(a_id, a_level, &t2, fuel) {
                Ok(o) => o,
                Err(e) => {
                    proof {
                        lemma_levels_lowered_extends(self.tvars@, s0);
                    }
                    return Err(e);
                },
            };
            if occ {
                proof {
                    lemma_levels_lowered_extends(self.tvars@, s0);
                }
                return Err(Error::Occurs);
            }
            let ghost s1 = self.tvars@;
            self.tvars.set(v, TVar::Bound(t2.clone()));
            proof {
                lemma_levels_lowered_extends(s1, s0);
                lemma_store_bind_extends(s1, v.0 as int, t2);
                lemma_extends_trans(self.tvars@, s1, s0);
                lemma_wf_store_update_bound(s1, v.0 as int, t2);
                lemma_resolved_eq_bind(s1, self.tvars@, v, t2);
            }
            return Ok(());
        }
        if let Type::Var(v) = &t2 {
            let v = *v;
            let (b_id, b_level) = match self.tvars.get(v) {
                TVar::Unbound(id, l) => (*id, *l),
                TVar::Bound(_) => {
                    // The bound case returned above.
                    proof {
                        assert(false);
                    }
                    (TVarRef(0), Level(0))
                },
            };
            if t1.same(&t2) {
                proof {
                    lemma_resolved_eq_refl(self.tvars@, t1);
                }
                return Ok(());
            }
            let occ = match self.occurs(b_id, b_level, &t1, fuel) {
                Ok(o) => o,
                Err(e) => {
                    proof {
                        lemma_levels_lowered_extends(self.tvars@, s0);
                    }
                    return Err(e);
                },
            };
            if occ {
                proof {
                    lemma_levels_lowered_extends(self.tvars@, s0);
                }
                return Err(Error::Occurs);
            }
            let ghost s1 = self.tvars@;
            self.tvars.set(v, TVar::Bound(t1.clone()));
            proof {
                lemma_levels_lowered_extends(s1, s0);
                lemma_store_bind_extends(s1, v.0 as int, t1);
                lemma_extends_trans(self.tvars@, s1, s0);
                lemma_wf_store_update_bound(s1, v.0 as int, t1);
                lemma_resolved_eq_bind(s1, self.tvars@, v, t1);
                lemma_resolved_eq_sym(self.tvars@, Type::Var(v), t1);
            }
            return Ok(());
        }
        proof {
            assert(!(t1 is Var) && !(t2 is Var));
        }
        match (&t1, &t2) {
            (Type::Int, Type::Int) => {
                proof {
                    assert(unify_spec(s0, t1, t2, fuel as nat).0 == Ok::<(), Error>(()));
                }
                Ok(())
            },
            (Type::Str, Type::Str) => Ok(()),
            (Type::Unit, Type::Unit) => Ok(()),
            (Type::Bool, Type::Bool) => Ok(()),
            (Type::Fun(a, b), Type::Fun(c, d)) => {
                let a1 = (&**a).clone();
                let c1 = (&**c).clone();
                let ghost ga = a1;
                let ghost gc = c1;
                match self.unify(a1, c1, fuel - 1) {
                    Err(e) => {
                        return Err(e);
                    },
                    Ok(u) => {},
                }
                let ghost s1 = self.tvars@;
                let b1 = (&**b).clone();
                let d1 = (&**d).clone();
                let ghost gb = b1;
                let ghost gd = d1;
                let r2 = match self.unify(b1, d1, fuel - 1) {
                    Err(e) => {
                        proof {
                            lemma_extends_trans(self.tvars@, s1, s0);
                        }
                        return Err(e);
                    },
                    Ok(u) => Ok(u),
                };
                proof {
                    lemma_extends_trans(self.tvars@, s1, s0);
                    lemma_resolved_eq_extends(s1, self.tvars@, ga, gc);
                    lemma_resolved_eq_fun(self.tvars@, ga, gb, gc, gd);
                    assert(t1 == Type::Fun(Box::new(ga), Box::new(gb)));
                    assert(t2 == Type::Fun(Box::new(gc), Box::new(gd)));
                    assert(unify_spec(s0, ga, gc, (fuel - 1) as nat).0 == Ok::<(), Error>(()));
                    assert(unify_spec(s0, ga, gc, (fuel - 1) as nat).1 == s1);
                }
                r2
            },
            _ => {
                proof {
                    assert(unify_spec(s0, t1, t2, fuel as nat).0 == Err::<(), Error>(
                        Error::NoUnify(t1, t2),
                    ));
                }
                Err(Error::NoUnify(t1, t2))
            },
        }
    }

    /// Lower the current level again on the way out of a `let`.
    fn exit_level(&mut self)
        requires
            old(self).cur_level.0 > 0,
        ensures
            final(self).cur_level.0 == old(self).cur_level.0 - 1,
            final(self).tvars@ == old(self).tvars@,
            final(self).bindings@ == old(self).bindings@,
    {
        let Level(level) = self.cur_level;
        self.cur_level = Level(level - 1);
    }

    /// Infer a type for `expr`.
    ///
    /// Literals get their base types.  A variable's polytype is instantiated
    /// afresh; an unknown name is `NotInScope`.  Applications, operators and
    /// conditionals check their parts and unify; `let` delegates to
    /// [`Checker::check_let_value`] and checks its body with the new name in
    /// scope.  On success the current level is restored and the result type
    /// fits the store; the store only ever extends.
    #[verifier::spinoff_prover]
    #[verifier::rlimit(60)]
    pub fn check(&mut self, expr: &Expr) -> (r: Result<Type, Error>)
        requires
            old(self).wf(),
            old(self).cur_level.0 + let_depth(*expr) <= usize::MAX,
        ensures
            final(self).wf(),
            store_extends(final(self).tvars@, old(self).tvars@),
            r is Ok ==> final(self).cur_level == old(self).cur_level,
            r is Ok ==> wf_type(r->Ok_0, final(self).tvars@.len()),
            r is Ok ==> forall|n: Seq<char>|
                #[trigger] final(self).bindings@.contains_key(n) ==> old(
                    self,
                ).bindings@.contains_key(n),
            expr is Int ==> r == Ok::<Type, Error>(Type::Int),
            expr is Str ==> r == Ok::<Type, Error>(Type::Str),
            expr is Unit ==> r == Ok::<Type, Error>(Type::Unit),
            expr is Bool ==> r == Ok::<Type, Error>(Type::Bool),
            expr is Var && !old(self).bindings@.contains_key(expr->Var_0.name@) ==> r
                == Err::<Type, Error>(Error::NotInScope { name: expr->Var_0.name }),
            expr is Var && old(self).bindings@.contains_key(expr->Var_0.name@) ==> (r is Ok
                || r == Err::<Type, Error>(Error::DepthLimit)),
            expr is BinOp && (*expr->BinOp_0.left) is Int && (*expr->BinOp_0.right) is Int
                && expr->BinOp_0.kind != BinOpKind::Eql ==> r is Ok && resolves_to(
                final(self).tvars@,
                r->Ok_0,
                Type::Int,
            ),
            r == check_spec(
                old(self).tvars@,
                old(self).cur_level,
                smap_of(old(self).bindings@),
                *expr,
            ).0,
            final(self).tvars@ == check_spec(
                old(self).tvars@,
                old(self).cur_level,
                smap_of(old(self).bindings@),
                *expr,
            ).1,
            smap_of(final(self).bindings@) == check_spec(
                old(self).tvars@,
                old(self).cur_level,
                smap_of(old(self).bindings@),
                *expr,
            ).2,
            final(self).cur_level == check_spec(
                old(self).tvars@,
                old(self).cur_level,
                smap_of(old(self).bindings@),
                *expr,
            ).3,
        decreases *expr, 1nat,
    {
        let ghost s0 = self.tvars@;
        proof {
            lemma_extends_refl(s0);
        }
        match expr {
            Expr::Int(_) => Ok(Type::Int),
            Expr::Str(_) => Ok(Type::Str),
            Expr::Unit => Ok(Type::Unit),
            Expr::Bool(_) => Ok(Type::Bool),
            Expr::Var(Var { name }) => {
                let poly_opt: Option<Polytype> = match self.bindings.get(name) {
                    Some(poly) => Some(poly.clone()),
                    None => None,
                };
                proof {
                    assert(smap_of(self.bindings@).contains_key(name@) == self.bindings@.contains_key(name@));
                }
                match poly_opt {
                    Some(poly) => {
                        proof {
                            assert(poly_wf(self.bindings@[name@], self.tvars@.len()));
                            assert(poly_wf(poly, self.tvars@.len()));
                            assert(smap_of(self.bindings@)[name@] == ((poly.0@, poly.1)));
                        }
                        monomorphize(self, &poly, LINK_FUEL)
                    },
                    None => Err(Error::NotInScope { name: name.clone() }),
                }
            },
            Expr::App(App { fun, arg }) => {
                let fun_t = self.check(&**fun)?;
                let ghost s1 = self.tvars@;
                let arg_t = match self.check(&**arg) {
                    Ok(t) => t,
                    Err(e) => {
                        proof {
                            lemma_extends_trans(self.tvars@, s1, s0);
                        }
                        return Err(e);
                    },
                };
                let ghost s2 = self.tvars@;
                let t = self.new_tvar();
                let ghost s3 = self.tvars@;
                proof {
                    lemma_extends_trans(s2, s1, s0);
                    lemma_extends_trans(s3, s2, s0);
                    lemma_wf_type_widen(fun_t, s1.len(), s3.len());
                    lemma_wf_type_widen(arg_t, s2.len(), s3.len());
                }
                let want = Type::Fun(Box::new(arg_t), Box::new(t.clone()));
                let ghost gt = t;
                match self.unify(fun_t, want, LINK_FUEL) {
                    Ok(()) => {
                        proof {
                            lemma_extends_trans(self.tvars@, s3, s0);
                        }
                        Ok(t)
                    },
                    Err(e) => {
                        proof {
                            lemma_extends_trans(self.tvars@, s3, s0);
                        }
                        Err(e)
                    },
                }
            },
            Expr::Fun(Fun { arg, body }) => {
                let in_t = self.new_tvar();
                let ghost s1 = self.tvars@;
                let empty_vars: Vec<TVarRef> = Vec::new();
                proof {
                    assert(empty_vars@ =~= Seq::<TVarRef>::empty());
                }
                let ghost b0 = self.bindings@;
                self.bindings.insert(arg.clone(), Polytype(empty_vars, in_t.clone()));
                proof {
                    lemma_smap_insert(b0, arg@, self.bindings@[arg@]);
                    assert forall|n: Seq<char>| #[trigger] self.bindings@.contains_key(n)
                        implies poly_wf(self.bindings@[n], self.tvars@.len()) by {
                        if n != arg@ {
                            assert(old(self).bindings@.contains_key(n));
                            lemma_poly_wf_widen(
                                old(self).bindings@[n],
                                s0.len(),
                                self.tvars@.len(),
                            );
                        }
                    }
                }
                let out_t = match self.check(&**body) {
                    Ok(t) => t,
                    Err(e) => {
                        proof {
                            lemma_extends_trans(self.tvars@, s1, s0);
                        }
                        return Err(e);
                    },
                };
                let ghost s2 = self.tvars@;
                let ghost b2 = self.bindings@;
                self.bindings.remove(arg);
                proof {
                    lemma_smap_remove(b2, arg@);
                    lemma_extends_trans(s2, s1, s0);
                    lemma_wf_type_widen(in_t, s1.len(), s2.len());
                }
                Ok(Type::Fun(Box::new(in_t), Box::new(out_t)))
            },
            Expr::Let(Let { name, value, body, rec }) => {
                let r = self.check_let_value(name, &**value, *rec);
                if let Err(e) = r {
                    return Err(e);
                }
                let ghost s1 = self.tvars@;
                let t = match self.check(&**body) {
                    Ok(t) => t,
                    Err(e) => {
                        proof {
                            lemma_extends_trans(self.tvars@, s1, s0);
                        }
                        return Err(e);
                    },
                };
                let ghost s2 = self.tvars@;
                let ghost b2 = self.bindings@;
                self.bindings.remove(name);
                proof {
                    lemma_smap_remove(b2, name@);
                    lemma_extends_trans(s2, s1, s0);
                }
                Ok(t)
            },
            Expr::BinOp(BinOp { left, right, kind }) => {
                let op_t = match kind {
                    BinOpKind::Add | BinOpKind::Sub | BinOpKind::Mul | BinOpKind::Div
                    | BinOpKind::Rem => {
                        let g = Type::Fun(
                            Box::new(Type::Int),
                            Box::new(Type::Fun(Box::new(Type::Int), Box::new(Type::Int))),
                        );
                        proof {
                            reveal_with_fuel(wf_type, 4);
                            assert(wf_type(g, self.tvars@.len()));
                        }
                        g
                    },
                    BinOpKind::Eql => {
                        let t = self.new_tvar();
                        let g = Type::Fun(
                            Box::new(t.clone()),
                            Box::new(Type::Fun(Box::new(t), Box::new(Type::Bool))),
                        );
                        proof {
                            reveal_with_fuel(wf_type, 4);
                            assert(wf_type(g, self.tvars@.len()));
                        }
                        g
                    },
                };
                let ghost s1 = self.tvars@;
                let left_t = match self.check(&**left) {
                    Ok(t) => t,
                    Err(e) => {
                        proof {
                            lemma_extends_trans(self.tvars@, s1, s0);
                        }
                        return Err(e);
                    },
                };
                let ghost s2 = self.tvars@;
                let right_t = match self.check(&**right) {
                    Ok(t) => t,
                    Err(e) => {
                        proof {
                            lemma_extends_trans(self.tvars@, s2, s1);
                            lemma_extends_trans(self.tvars@, s1, s0);
                        }
                        return Err(e);
                    },
                };
                let ghost s3 = self.tvars@;
                let t = self.new_tvar();
                let ghost s4 = self.tvars@;
                proof {
                    lemma_extends_trans(s3, s2, s1);
                    lemma_extends_trans(s4, s3, s1);
                    assert(wf_type(op_t, s1.len()));
                    lemma_wf_type_widen(op_t, s1.len(), s4.len());
                    lemma_wf_type_widen(left_t, s2.len(), s4.len());
                    lemma_wf_type_widen(right_t, s3.len(), s4.len());
                }
                let ghost gw_left = left_t;
                let ghost gw_right = right_t;
                let ghost gop = op_t;
                let ghost gt = t;
                let want = Type::Fun(
                    Box::new(left_t),
                    Box::new(Type::Fun(Box::new(right_t), Box::new(t.clone()))),
                );
                let ghost gwant = want;
                proof {
                    reveal_with_fuel(wf_type, 4);
                    assert(wf_type(want, s4.len()));
                }
                let r = self.unify(op_t, want, LINK_FUEL);
                proof {
                    lemma_extends_trans(self.tvars@, s4, s1);
                    lemma_extends_trans(self.tvars@, s1, s0);
                    if expr is BinOp && (*expr->BinOp_0.left) is Int && (*expr->BinOp_0.right)
                        is Int && expr->BinOp_0.kind != BinOpKind::Eql {
                        let v = gt->Var_0;
                        assert(gw_left == Type::Int);
                        assert(gw_right == Type::Int);
                        assert(gop == Type::Fun(
                            Box::new(Type::Int),
                            Box::new(Type::Fun(Box::new(Type::Int), Box::new(Type::Int))),
                        ));
                        assert(s4[v.0 as int] is Unbound);
                        let ff: nat = LINK_FUEL as nat;
                        let inner1 = Type::Fun(Box::new(Type::Int), Box::new(Type::Int));
                        let inner2 = Type::Fun(Box::new(Type::Int), Box::new(gt));
                        let lvl2 = s4[v.0 as int]->Unbound_1;
                        let id2 = s4[v.0 as int]->Unbound_0;
                        let bound_store = s4.update(v.0 as int, TVar::Bound(Type::Int));
                        assert(unify_spec(s4, Type::Int, Type::Int, (ff - 1) as nat) == ((
                            Ok::<(), Error>(()),
                            s4,
                        )));
                        assert(unify_spec(s4, Type::Int, Type::Int, (ff - 2) as nat) == ((
                            Ok::<(), Error>(()),
                            s4,
                        )));
                        assert(occurs_spec(s4, id2, lvl2, Type::Int, (ff - 2) as nat) == ((
                            Ok::<bool, Error>(false),
                            s4,
                        )));
                        assert(unify_spec(s4, Type::Int, gt, (ff - 2) as nat) == ((
                            Ok::<(), Error>(()),
                            bound_store,
                        )));
                        assert(unify_spec(s4, inner1, inner2, (ff - 1) as nat) == ((
                            Ok::<(), Error>(()),
                            bound_store,
                        )));
                        assert(unify_spec(s4, gop, gwant, ff) == ((
                            Ok::<(), Error>(()),
                            bound_store,
                        )));
                        if r is Ok {
                            assert(self.tvars@ == bound_store);
                            assert(v.0 < bound_store.len());
                            assert(self.tvars@[v.0 as int] == TVar::Bound(Type::Int));
                            assert(resolve(self.tvars@, Type::Int, 0) == Some(Type::Int));
                            assert(resolve(self.tvars@, gt, 1) == Some(Type::Int));
                            assert(resolves_to(self.tvars@, gt, Type::Int));
                        }
                    }
                }
                match r {
                    Ok(()) => Ok(t),
                    Err(e) => Err(e),
                }
            },
            Expr::If(If { check, thn, els }) => {
                let check_t = self.check(&**check)?;
                let ghost s1 = self.tvars@;
                let r = self.unify(check_t, Type::Bool, LINK_FUEL);
                proof {
                    lemma_extends_trans(self.tvars@, s1, s0);
                }
                if let Err(e) = r {
                    return Err(e);
                }
                let ghost s2 = self.tvars@;
                let then_t = match self.check(&**thn) {
                    Ok(t) => t,
                    Err(e) => {
                        proof {
                            lemma_extends_trans(self.tvars@, s2, s0);
                        }
                        return Err(e);
                    },
                };
                let ghost s3 = self.tvars@;
                let els_t = match self.check(&**els) {
                    Ok(t) => t,
                    Err(e) => {
                        proof {
                            lemma_extends_trans(self.tvars@, s3, s2);
                            lemma_extends_trans(self.tvars@, s2, s0);
                        }
                        return Err(e);
                    },
                };
                let ghost s4 = self.tvars@;
                proof {
                    lemma_extends_trans(s4, s3, s2);
                    lemma_wf_type_widen(then_t, s3.len(), s4.len());
                }
                let r2 = self.unify(then_t.clone(), els_t, LINK_FUEL);
                proof {
                    lemma_extends_trans(self.tvars@, s4, s2);
                    lemma_extends_trans(self.tvars@, s2, s0);
                }
                match r2 {
                    Ok(()) => Ok(then_t),
                    Err(e) => Err(e),
                }
            },
        }
    }

    /// Check the value of a binding `name = value` and bind `name` to its
    /// generalized type.
    ///
    /// The level is raised around the value.  A recursive binding first
    /// binds `name` to a fresh, non-generalized variable so self-reference
    /// checks, and that variable — which unification meanwhile resolves —
    /// is the type that gets generalized; a non-recursive value is checked
    /// with `name` not yet in scope.
    pub fn check_let_value(&mut self, name: &String, value: &Expr, rec: bool) -> (r: Result<
        (),
        Error,
    >)
        requires
            old(self).wf(),
            old(self).cur_level.0 + 1 + let_depth(*value) <= usize::MAX,
        ensures
            final(self).wf(),
            store_extends(final(self).tvars@, old(self).tvars@),
            r is Ok ==> final(self).cur_level == old(self).cur_level,
            r is Ok ==> final(self).bindings@.contains_key(name@),
            r is Ok ==> forall|n: Seq<char>|
                #[trigger] final(self).bindings@.contains_key(n) ==> old(
                    self,
                ).bindings@.contains_key(n) || n == name@,
            !rec && (value is Int || value is Str || value is Unit || value is Bool) ==> r is Ok,
            r == check_let_value_spec(
                old(self).tvars@,
                old(self).cur_level,
                smap_of(old(self).bindings@),
                name@,
                *value,
                rec,
            ).0,
            final(self).tvars@ == check_let_value_spec(
                old(self).tvars@,
                old(self).cur_level,
                smap_of(old(self).bindings@),
                name@,
                *value,
                rec,
            ).1,
            smap_of(final(self).bindings@) == check_let_value_spec(
                old(self).tvars@,
                old(self).cur_level,
                smap_of(old(self).bindings@),
                name@,
                *value,
                rec,
            ).2,
            final(self).cur_level == check_let_value_spec(
                old(self).tvars@,
                old(self).cur_level,
                smap_of(old(self).bindings@),
                name@,
                *value,
                rec,
            ).3,
        decreases *value, 2nat,
    {
        let ghost s0 = self.tvars@;
        proof {
            lemma_extends_refl(s0);
        }
        self.enter_level();
        let value_t: Type;
        if rec {
            let vt = self.new_tvar();
            let ghost s1 = self.tvars@;
            let empty_vars: Vec<TVarRef> = Vec::new();
            proof {
                assert(empty_vars@ =~= Seq::<TVarRef>::empty());
            }
            let ghost b0 = self.bindings@;
            self.bindings.insert(name.clone(), Polytype(empty_vars, vt.clone()));
            proof {
                lemma_smap_insert(b0, name@, self.bindings@[name@]);
                assert forall|n: Seq<char>| #[trigger] self.bindings@.contains_key(n)
                    implies poly_wf(self.bindings@[n], self.tvars@.len()) by {
                    if n != name@ {
                        assert(old(self).bindings@.contains_key(n));
                        lemma_poly_wf_widen(old(self).bindings@[n], s0.len(), self.tvars@.len());
                    }
                }
            }
            let checked = match self.check(value) {
                Ok(t) => t,
                Err(e) => {
                    proof {
                        lemma_extends_trans(self.tvars@, s1, s0);
                    }
                    return Err(e);
                },
            };
            let ghost s2 = self.tvars@;
            let ghost b2 = self.bindings@;
            self.bindings.remove(name);
            proof {
                lemma_smap_remove(b2, name@);
                lemma_extends_trans(s2, s1, s0);
                lemma_wf_type_widen(vt, s1.len(), s2.len());
            }
            // Tie the placeholder to what the value turned out to be; a
            // self-reference that would make the placeholder contain itself
            // fails the occurs check here.
            match self.unify(vt.clone(), checked, LINK_FUEL) {
                Err(e) => {
                    proof {
                        lemma_extends_trans(self.tvars@, s2, s0);
                    }
                    return Err(e);
                },
                Ok(u) => {},
            }
            proof {
                lemma_extends_trans(self.tvars@, s2, s0);
                lemma_wf_type_widen(vt, s2.len(), self.tvars@.len());
            }
            value_t = vt;
        } else {
            let r = self.check(value);
            match r {
                Ok(t) => {
                    value_t = t;
                },
                Err(e) => {
                    return Err(e);
                },
            }
        }
        self.exit_level();
        let poly = match polymorphize(&*self, value_t, LINK_FUEL) {
            Ok(p) => p,
            Err(e) => {
                return Err(e);
            },
        };
        let ghost bf = self.bindings@;
        self.bindings.insert(name.clone(), poly);
        proof {
            lemma_smap_insert(bf, name@, self.bindings@[name@]);
            assert forall|n: Seq<char>| #[trigger] self.bindings@.contains_key(n) implies poly_wf(
                self.bindings@[n],
                self.tvars@.len(),
            ) by {}
        }
        Ok(())
    }

    /// Install a declared signature: generalize `typ` and bind `name` to it.
    /// This is how built-in operations' types enter the checker without a
    /// value expression.
    pub fn insert_declare(&mut self, name: String, typ: Type) -> (r: Result<(), Error>)
        requires
            old(self).wf(),
            wf_type(typ, old(self).tvars@.len()),
        ensures
            final(self).wf(),
            final(self).tvars@ == old(self).tvars@,
            final(self).cur_level == old(self).cur_level,
            r is Err ==> r == Err::<(), Error>(Error::DepthLimit) && final(self).bindings@ == old(
                self,
            ).bindings@,
            r is Ok ==> final(self).bindings@ == old(self).bindings@.insert(
                name@,
                final(self).bindings@[name@],
            ),
            r is Ok ==> final(self).bindings@[name@].1 == typ,
            type_concrete(typ) && type_size(typ) <= LINK_FUEL ==> r is Ok,
            type_concrete(typ) && r is Ok ==> final(self).bindings@[name@].0@.len() == 0,
            polymorphize_spec(old(self).tvars@, old(self).cur_level, typ, LINK_FUEL as nat).0 == (
            match r {
                Ok(u) => Ok::<(), Error>(()),
                Err(e) => Err::<(), Error>(e),
            }),
            r is Ok ==> smap_of(final(self).bindings@) == smap_of(old(self).bindings@).insert(
                name@,
                (
                    polymorphize_spec(
                        old(self).tvars@,
                        old(self).cur_level,
                        typ,
                        LINK_FUEL as nat,
                    ).1,
                    typ,
                ),
            ),
    {
        let poly = match polymorphize(&*self, typ, LINK_FUEL) {
            Ok(p) => p,
            Err(e) => {
                return Err(e);
            },
        };
        let ghost b0 = self.bindings@;
        self.bindings.insert(name, poly);
        proof {
            lemma_smap_insert(b0, name@, self.bindings@[name@]);
        }
        Ok(())
    }

    /// Every name in scope with its type, instantiated afresh: each name
    /// exactly once, and a name appears exactly when it is bound.
    pub fn get_bindings(&mut self) -> (r: Result<Vec<(String, Type)>, Error>)
        requires
            old(self).wf(),
        ensures
            final(self).wf(),
            store_extends(final(self).tvars@, old(self).tvars@),
            final(self).bindings@ == old(self).bindings@,
            final(self).cur_level == old(self).cur_level,
            r is Err ==> r == Err::<Vec<(String, Type)>, Error>(Error::DepthLimit),
            r is Ok ==> bindings_listing((r->Ok_0)@, old(self).bindings@),
            r is Ok ==> forall|j: int|
                0 <= j < (r->Ok_0)@.len() ==> wf_type(
                    (#[trigger] (r->Ok_0)@[j]).1,
                    final(self).tvars@.len(),
                ),
            listing_ready(old(self).bindings@) ==> r is Ok,
            listing_ready(old(self).bindings@) && r is Ok ==> forall|j: int|
                0 <= j < (r->Ok_0)@.len() ==> type_concrete((#[trigger] (r->Ok_0)@[j]).1)
                    && type_size((r->Ok_0)@[j].1) <= LINK_FUEL,
    {
        let ghost items = self.bindings.items@;
        let mut named: Vec<(String, Polytype)> = Vec::new();
        let mut i: usize = self.bindings.items.len();
        while i > 0
            invariant
                i <= items.len(),
                items == self.bindings.items@,
                forall|j: int, k: int|
                    0 <= j < k < named@.len() ==> (#[trigger] named@[j]).0@
                        != (#[trigger] named@[k]).0@,
                forall|j: int|
                    0 <= j < named@.len() ==> map_of(items).contains_key(
                        (#[trigger] named@[j]).0@,
                    ) && named@[j].1.1 == map_of(items)[named@[j].0@].1 && named@[j].1.0@ == map_of(
                        items,
                    )[named@[j].0@].0@,
                forall|idx: int|
                    i <= idx < items.len() ==> exists|j: int|
                        0 <= j < named@.len() && (#[trigger] named@[j]).0@
                            == (#[trigger] items[idx]).0@,
            decreases i,
        {
            i = i - 1;
            let ghost named_before = named@;
            let already = contains_name(&named, &self.bindings.items[i].0);
            if !already {
                proof {
                    assert forall|j: int| i < j < items.len() implies (#[trigger] items[j]).0@
                        != items[i as int].0@ by {
                        let k = choose|k: int|
                            0 <= k < named@.len() && (#[trigger] named@[k]).0@ == items[j].0@;
                    }
                    lemma_map_of_last_occurrence(items, i as int, items[i as int].0@);
                }
                let pair = (self.bindings.items[i].0.clone(), self.bindings.items[i].1.clone());
                named.push(pair);
                proof {
                    assert(named@[named@.len() - 1].0@ == items[i as int].0@);
                    assert forall|idx: int|
                        i <= idx < items.len() implies exists|j: int|
                        0 <= j < named@.len() && (#[trigger] named@[j]).0@
                            == (#[trigger] items[idx]).0@ by {
                        if idx == i {
                            assert(named@[named@.len() - 1].0@ == items[idx].0@);
                        } else {
                            let j = choose|j: int|
                                0 <= j < named_before.len() && (#[trigger] named_before[j]).0@
                                    == items[idx].0@;
                            assert(named@[j].0@ == items[idx].0@);
                        }
                    }
                }
            }
        }
        proof {
            assert forall|n: Seq<char>| #[trigger] map_of(items).contains_key(n)
                implies exists|j: int|
                0 <= j < named@.len() && (#[trigger] named@[j]).0@ == n by {
                lemma_map_of_key_has_index(items, n);
                let idx = choose|idx: int| 0 <= idx < items.len() && (#[trigger] items[idx]).0@
                    == n;
                assert(exists|j: int|
                    0 <= j < named@.len() && (#[trigger] named@[j]).0@ == items[idx].0@);
            }
        }
        let ghost s0 = self.tvars@;
        proof {
            lemma_extends_refl(s0);
        }
        let mut out: Vec<(String, Type)> = Vec::new();
        let mut k: usize = 0;
        while k < named.len()
            invariant
                k <= named@.len(),
                out@.len() == k,
                self.wf(),
                store_extends(self.tvars@, s0),
                s0 == old(self).tvars@,
                self.bindings@ == old(self).bindings@,
                self.cur_level == old(self).cur_level,
                old(self).bindings@ == map_of(items),
                forall|j: int|
                    0 <= j < named@.len() ==> map_of(items).contains_key(
                        (#[trigger] named@[j]).0@,
                    ) && named@[j].1.1 == map_of(items)[named@[j].0@].1 && named@[j].1.0@ == map_of(
                        items,
                    )[named@[j].0@].0@,
                forall|j: int, k2: int|
                    0 <= j < k2 < named@.len() ==> (#[trigger] named@[j]).0@
                        != (#[trigger] named@[k2]).0@,
                forall|n: Seq<char>|
                    #[trigger] map_of(items).contains_key(n) ==> exists|j: int|
                        0 <= j < named@.len() && (#[trigger] named@[j]).0@ == n,
                forall|j: int| 0 <= j < k ==> (#[trigger] out@[j]).0@ == named@[j].0@,
                forall|j: int|
                    0 <= j < k ==> wf_type((#[trigger] out@[j]).1, self.tvars@.len()),
                listing_ready(map_of(items)) ==> forall|j: int|
                    0 <= j < k ==> type_concrete((#[trigger] out@[j]).1) && type_size(
                        out@[j].1,
                    ) <= LINK_FUEL,
            decreases named@.len() - k,
        {
            proof {
                if listing_ready(map_of(items)) {
                    assert(map_of(items).contains_key(named@[k as int].0@));
                    assert(type_concrete(named@[k as int].1.1));
                }
            }
            proof {
                assert(self.bindings@.contains_key(named@[k as int].0@));
                assert(poly_wf(self.bindings@[named@[k as int].0@], self.tvars@.len()));
                assert(poly_wf(named@[k as int].1, self.tvars@.len()));
            }
            let ghost s_before = self.tvars@;
            let typ = match monomorphize(self, &named[k].1, LINK_FUEL) {
                Ok(t) => t,
                Err(e) => {
                    proof {
                        lemma_extends_trans(self.tvars@, s_before, s0);
                    }
                    return Err(e);
                },
            };
            proof {
                lemma_extends_trans(self.tvars@, s_before, s0);
                assert forall|j: int|
                    0 <= j < k implies wf_type((#[trigger] out@[j]).1, self.tvars@.len()) by {
                    lemma_wf_type_widen(out@[j].1, s_before.len(), self.tvars@.len());
                }
            }
            out.push((named[k].0.clone(), typ));
            k = k + 1;
        }
        proof {
            assert forall|n: Seq<char>| #[trigger] old(self).bindings@.contains_key(n)
                implies exists|j: int| 0 <= j < out@.len() && (#[trigger] out@[j]).0@ == n by {
                assert(map_of(items).contains_key(n));
                assert(exists|j: int|
                    0 <= j < named@.len() && (#[trigger] named@[j]).0@ == n);
                let j = choose|j: int|
                    0 <= j < named@.len() && (#[trigger] named@[j]).0@ == n;
                assert(out@.len() == named@.len());
                assert(out@[j].0@ == named@[j].0@);
                assert(0 <= j < out@.len() && out@[j].0@ == n);
            }
            assert(bindings_listing(out@, old(self).bindings@));
        }
        Ok(out)
    }
}

/// Whether `named` already holds a pair for the name `nm`.
fn contains_name(named: &Vec<(String, Polytype)>, nm: &String) -> (r: bool)
    ensures
        r == exists|j: int| 0 <= j < named@.len() && (#[trigger] named@[j]).0@ == nm@,
{
    let mut i: usize = 0;
    while i < named.len()
        invariant
            i <= named@.len(),
            forall|j: int| 0 <= j < i ==> (#[trigger] named@[j]).0@ != nm@,
        decreases named@.len() - i,
    {
        if named[i].0 == *nm {
            proof {
                assert(named@[i as int].0@ == nm@);
            }
            return true;
        }
        i = i + 1;
    }
    false
}

} // verus!
