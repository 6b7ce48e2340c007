//! Rendering inferred types for display.
//!
//! A type is shown after resolving it through the store: base types by name,
//! arrows as `(from -> to)`, and each still-unbound variable as `'a`, `'b`, …
//! in the order the rendering first meets it.

use vstd::prelude::*;
use vstd::string::StringExecFns;

use super::check::{Checker, LINK_FUEL};
use super::error::Error;
use super::polymorphize::type_size;
use super::resolve::{
    lemma_resolve_fuel_mono, lemma_resolves_to_unique, resolve, resolves_to, wf_cell, wf_type,
};
use super::{TVar, TVarRef, Type};

verus! {

/// A type with no variables left in it.
pub open spec fn type_concrete(t: Type) -> bool
    decreases t,
{
    match t {
        Type::Int => true,
        Type::Str => true,
        Type::Unit => true,
        Type::Bool => true,
        Type::Var(_) => false,
        Type::Fun(a, b) => type_concrete(*a) && type_concrete(*b),
    }
}

/// A concrete type fits a store of any size.
pub proof fn lemma_concrete_wf(t: Type, n: nat)
    requires
        type_concrete(t),
    ensures
        wf_type(t, n),
    decreases t,
{
    match t {
        Type::Fun(a, b) => {
            lemma_concrete_wf(*a, n);
            lemma_concrete_wf(*b, n);
        },
        _ => {},
    }
}

/// How a concrete type is rendered.
pub open spec fn type_rendered(t: Type) -> Seq<char>
    decreases t,
{
    match t {
        Type::Int => "Int"@,
        Type::Str => "Str"@,
        Type::Unit => "Unit"@,
        Type::Bool => "Bool"@,
        Type::Var(_) => Seq::empty(),
        Type::Fun(a, b) => seq!['('] + type_rendered(*a) + " -> "@ + type_rendered(*b) + seq![')'],
    }
}

/// The letter of the `i`-th name: `a` through `z`, cycling.
pub open spec fn ordinal_letter(i: nat) -> char {
    if i % 26 == 0 {
        'a'
    } else if i % 26 == 1 {
        'b'
    } else if i % 26 == 2 {
        'c'
    } else if i % 26 == 3 {
        'd'
    } else if i % 26 == 4 {
        'e'
    } else if i % 26 == 5 {
        'f'
    } else if i % 26 == 6 {
        'g'
    } else if i % 26 == 7 {
        'h'
    } else if i % 26 == 8 {
        'i'
    } else if i % 26 == 9 {
        'j'
    } else if i % 26 == 10 {
        'k'
    } else if i % 26 == 11 {
        'l'
    } else if i % 26 == 12 {
        'm'
    } else if i % 26 == 13 {
        'n'
    } else if i % 26 == 14 {
        'o'
    } else if i % 26 == 15 {
        'p'
    } else if i % 26 == 16 {
        'q'
    } else if i % 26 == 17 {
        'r'
    } else if i % 26 == 18 {
        's'
    } else if i % 26 == 19 {
        't'
    } else if i % 26 == 20 {
        'u'
    } else if i % 26 == 21 {
        'v'
    } else if i % 26 == 22 {
        'w'
    } else if i % 26 == 23 {
        'x'
    } else if i % 26 == 24 {
        'y'
    } else {
        'z'
    }
}

/// The display name of the `idx`-th distinct unbound variable: a tick, a
/// letter, and — once the alphabet has gone round — a decimal round count.
pub open spec fn ordinal_rendered(idx: nat) -> Seq<char> {
    if idx < 26 {
        seq!['\''] + seq![ordinal_letter(idx)]
    } else {
        seq!['\''] + seq![ordinal_letter(idx)] + crate::pretty::int_rendered(idx as int / 26)
    }
}

/// The display name for the `idx`-th distinct unbound variable: a tick and a
/// letter, with a numeric suffix once the alphabet runs out.
fn ordinal_name(idx: usize) -> (s: String)
    ensures
        s@ == ordinal_rendered(idx as nat),
{
    proof {
        reveal_strlit("'");
        reveal_strlit("a");
        reveal_strlit("b");
        reveal_strlit("c");
        reveal_strlit("d");
        reveal_strlit("e");
        reveal_strlit("f");
        reveal_strlit("g");
        reveal_strlit("h");
        reveal_strlit("i");
        reveal_strlit("j");
        reveal_strlit("k");
        reveal_strlit("l");
        reveal_strlit("m");
        reveal_strlit("n");
        reveal_strlit("o");
        reveal_strlit("p");
        reveal_strlit("q");
        reveal_strlit("r");
        reveal_strlit("s");
        reveal_strlit("t");
        reveal_strlit("u");
        reveal_strlit("v");
        reveal_strlit("w");
        reveal_strlit("x");
        reveal_strlit("y");
        reveal_strlit("z");
    }
    let mut s = String::from_str("'");
    let letter = match idx % 26 {
        0 => "a",
        1 => "b",
        2 => "c",
        3 => "d",
        4 => "e",
        5 => "f",
        6 => "g",
        7 => "h",
        8 => "i",
        9 => "j",
        10 => "k",
        11 => "l",
        12 => "m",
        13 => "n",
        14 => "o",
        15 => "p",
        16 => "q",
        17 => "r",
        18 => "s",
        19 => "t",
        20 => "u",
        21 => "v",
        22 => "w",
        23 => "x",
        24 => "y",
        _ => "z",
    };
    proof {
        assert(letter@ =~= seq![ordinal_letter(idx as nat)]);
    }
    s.append(letter);
    if idx >= 26 {
        let suffix = crate::pretty::i64_to_string((idx / 26) as i64);
        s.append(suffix.as_str());
    }
    proof {
        assert(s@ =~= ordinal_rendered(idx as nat));
    }
    s
}

/// The first name recorded for `v`, if one is recorded.
pub open spec fn name_for(names: Seq<(TVarRef, String)>, v: TVarRef) -> Option<String>
    decreases names.len(),
{
    if names.len() == 0 {
        None
    } else if names.first().0 == v {
        Some(names.first().1)
    } else {
        name_for(names.drop_first(), v)
    }
}

/// The name already given to `v`, if any.
fn lookup_name(names: &Vec<(TVarRef, String)>, v: TVarRef) -> (r: Option<String>)
    ensures
        r == name_for(names@, v),
{
    let mut i: usize = 0;
    proof {
        assert(names@.skip(0) =~= names@);
    }
    while i < names.len()
        invariant
            i <= names@.len(),
            name_for(names@, v) == name_for(names@.skip(i as int), v),
        decreases names@.len() - i,
    {
        proof {
            assert(names@.skip(i as int).first() == names@[i as int]);
            assert(names@.skip(i as int).drop_first() =~= names@.skip(i + 1));
        }
        if names[i].0.0 == v.0 {
            proof {
                assert(names@[i as int].0 == v);
            }
            return Some(names[i].1.clone());
        }
        i = i + 1;
    }
    proof {
        assert(names@.skip(names@.len() as int).len() == 0);
    }
    None
}

/// The name-view of the naming state: each variable with the characters of
/// its assigned name.
pub open spec fn nview(names: Seq<(TVarRef, String)>) -> Seq<(TVarRef, Seq<char>)> {
    Seq::new(names.len(), |i: int| (names[i].0, names[i].1@))
}

/// The first name recorded for `v` in a name-view.
pub open spec fn sname_for(ns: Seq<(TVarRef, Seq<char>)>, v: TVarRef) -> Option<Seq<char>>
    decreases ns.len(),
{
    if ns.len() == 0 {
        None
    } else if ns.first().0 == v {
        Some(ns.first().1)
    } else {
        sname_for(ns.drop_first(), v)
    }
}

proof fn lemma_sname_of_view(names: Seq<(TVarRef, String)>, v: TVarRef)
    ensures
        sname_for(nview(names), v) == (match name_for(names, v) {
            Some(n) => Some(n@),
            None => None,
        }),
    decreases names.len(),
{
    if names.len() > 0 {
        assert(nview(names).first() == ((names[0].0, names[0].1@)));
        assert(nview(names).drop_first() =~= nview(names.drop_first()));
        lemma_sname_of_view(names.drop_first(), v);
    }
}

/// What rendering computes: the characters produced, and the naming state
/// it leaves behind.  Base types render by name; a bound variable renders
/// as its binding; an unbound variable renders as its recorded name, or as
/// the next ordinal name, which is then recorded; arrows render as
/// `(from -> to)`.
pub open spec fn sot_spec(
    s: Seq<TVar>,
    ns: Seq<(TVarRef, Seq<char>)>,
    next: nat,
    t: Type,
    fuel: nat,
) -> (Result<Seq<char>, Error>, Seq<(TVarRef, Seq<char>)>, nat)
    decreases fuel,
{
    if fuel == 0 {
        (Err(Error::DepthLimit), ns, next)
    } else {
        match t {
            Type::Int => (Ok("Int"@), ns, next),
            Type::Str => (Ok("Str"@), ns, next),
            Type::Unit => (Ok("Unit"@), ns, next),
            Type::Bool => (Ok("Bool"@), ns, next),
            Type::Var(v) => {
                if v.0 >= s.len() {
                    (Err(Error::DepthLimit), ns, next)
                } else {
                    match s[v.0 as int] {
                        TVar::Bound(b) => sot_spec(s, ns, next, b, (fuel - 1) as nat),
                        TVar::Unbound(_, _) => match sname_for(ns, v) {
                            Some(n) => (Ok(n), ns, next),
                            None => (
                                Ok(ordinal_rendered(next)),
                                ns.push((v, ordinal_rendered(next))),
                                if next < usize::MAX as nat {
                                    next + 1
                                } else {
                                    next
                                },
                            ),
                        },
                    }
                }
            },
            Type::Fun(a, b) => {
                let (ra, ns1, n1) = sot_spec(s, ns, next, *a, (fuel - 1) as nat);
                match ra {
                    Err(e) => (Err(e), ns1, n1),
                    Ok(sa) => {
                        let (rb, ns2, n2) = sot_spec(s, ns1, n1, *b, (fuel - 1) as nat);
                        match rb {
                            Err(e) => (Err(e), ns2, n2),
                            Ok(sb) => (
                                Ok(seq!['('] + sa + " -> "@ + sb + seq![')']),
                                ns2,
                                n2,
                            ),
                        }
                    },
                }
            },
        }
    }
}

/// The rendering of `t` through `s`, starting from no names given out.
pub open spec fn rendered_of(s: Seq<TVar>, t: Type) -> Result<Seq<char>, Error> {
    sot_spec(s, Seq::empty(), 0, t, LINK_FUEL as nat).0
}

/// Render `t` through the store.  Whenever the result of following the
/// store's links is concrete, the rendering is exactly that of the resolved
/// type.
fn string_of_type_rec(
    checker: &Checker,
    names: &mut Vec<(TVarRef, String)>,
    next: &mut usize,
    t: &Type,
    fuel: u64,
) -> (r: Result<String, Error>)
    requires
        checker.wf(),
        wf_type(*t, checker.tvars@.len()),
    ensures
        r is Err ==> r == Err::<String, Error>(Error::DepthLimit),
        fuel > 0 && (*t is Int || *t is Str || *t is Unit || *t is Bool) ==> r is Ok,
        type_concrete(*t) && type_size(*t) <= fuel ==> r is Ok,
        sot_spec(checker.tvars@, nview(old(names)@), *old(next) as nat, *t, fuel as nat).0 == (
        match r {
            Ok(st) => Ok::<Seq<char>, Error>(st@),
            Err(e) => Err::<Seq<char>, Error>(e),
        }),
        nview(final(names)@) == sot_spec(
            checker.tvars@,
            nview(old(names)@),
            *old(next) as nat,
            *t,
            fuel as nat,
        ).1,
        *final(next) as nat == sot_spec(
            checker.tvars@,
            nview(old(names)@),
            *old(next) as nat,
            *t,
            fuel as nat,
        ).2,
        r is Ok ==> exists|rt: Type|
            #[trigger] resolves_to(checker.tvars@, *t, rt) && (type_concrete(rt)
                ==> (r->Ok_0)@ == type_rendered(rt)),
    decreases fuel,
{
    let ghost s = checker.tvars@;
    if fuel == 0 {
        return Err(Error::DepthLimit);
    }
    match t {
        Type::Int => {
            proof {
                reveal_strlit("Int");
                assert(resolve(s, Type::Int, 0) == Some(Type::Int));
                assert(resolves_to(s, *t, Type::Int));
            }
            Ok(String::from_str("Int"))
        },
        Type::Str => {
            proof {
                reveal_strlit("Str");
                assert(resolve(s, Type::Str, 0) == Some(Type::Str));
                assert(resolves_to(s, *t, Type::Str));
            }
            Ok(String::from_str("Str"))
        },
        Type::Unit => {
            proof {
                reveal_strlit("Unit");
                assert(resolve(s, Type::Unit, 0) == Some(Type::Unit));
                assert(resolves_to(s, *t, Type::Unit));
            }
            Ok(String::from_str("Unit"))
        },
        Type::Bool => {
            proof {
                reveal_strlit("Bool");
                assert(resolve(s, Type::Bool, 0) == Some(Type::Bool));
                assert(resolves_to(s, *t, Type::Bool));
            }
            Ok(String::from_str("Bool"))
        },
        Type::Var(tvar) => {
            let v = *tvar;
            proof {
                assert(wf_cell(s[v.0 as int], v.0 as int, s.len()));
            }
            match checker.tvars.get(v) {
                TVar::Bound(bound) => {
                    let bound = bound.clone();
                    let r = string_of_type_rec(checker, names, next, &bound, fuel - 1);
                    proof {
                        if r is Ok {
                            let rt = choose|rt: Type|
                                #[trigger] resolves_to(s, bound, rt) && (type_concrete(rt)
                                    ==> (r->Ok_0)@ == type_rendered(rt));
                            let f = choose|f: nat| resolve(s, bound, f) == Some(rt);
                            assert(resolve(s, *t, f + 1) == Some(rt));
                            assert(resolves_to(s, *t, rt));
                        }
                    }
                    r
                },
                TVar::Unbound(_, _) => {
                    proof {
                        assert(resolve(s, *t, 0) == Some(*t));
                        assert(resolves_to(s, *t, *t));
                        lemma_sname_of_view(names@, v);
                    }
                    let ghost ns0 = names@;
                    match lookup_name(names, v) {
                        Some(n) => Ok(n),
                        None => {
                            let n = ordinal_name(*next);
                            if *next < usize::MAX {
                                *next = *next + 1;
                            }
                            names.push((v, n.clone()));
                            proof {
                                assert(nview(names@) =~= nview(ns0).push((v, n@)));
                            }
                            Ok(n)
                        },
                    }
                },
            }
        },
        Type::Fun(a, b) => {
            let ra = string_of_type_rec(checker, names, next, &**a, fuel - 1)?;
            let rb = string_of_type_rec(checker, names, next, &**b, fuel - 1)?;
            proof {
                reveal_strlit("(");
                reveal_strlit(" -> ");
                reveal_strlit(")");
            }
            let mut out = String::from_str("(");
            out.append(ra.as_str());
            out.append(" -> ");
            out.append(rb.as_str());
            out.append(")");
            proof {
                assert(out@ =~= seq!['('] + ra@ + " -> "@ + rb@ + seq![')']);
                let rta = choose|rt: Type|
                    #[trigger] resolves_to(s, **a, rt) && (type_concrete(rt) ==> ra@
                        == type_rendered(rt));
                let rtb = choose|rt: Type|
                    #[trigger] resolves_to(s, **b, rt) && (type_concrete(rt) ==> rb@
                        == type_rendered(rt));
                let fa = choose|f: nat| resolve(s, **a, f) == Some(rta);
                let fb = choose|f: nat| resolve(s, **b, f) == Some(rtb);
                let g = if fa <= fb {
                    fb
                } else {
                    fa
                };
                lemma_resolve_fuel_mono(s, **a, fa, g);
                lemma_resolve_fuel_mono(s, **b, fb, g);
                let rt = Type::Fun(Box::new(rta), Box::new(rtb));
                assert(resolve(s, *t, g) == Some(rt));
                assert(resolves_to(s, *t, rt));
                if type_concrete(rt) {
                    assert(out@ =~= type_rendered(rt));
                }
            }
            Ok(out)
        },
    }
}

/// Render `typ` for display.  If `typ` resolves through the store to a
/// concrete type, the result is exactly that type's rendering; unbound
/// variables are shown as `'a`, `'b`, … in first-met order.
pub fn string_of_type(checker: &Checker, typ: &Type) -> (r: Result<String, Error>)
    requires
        checker.wf(),
        wf_type(*typ, checker.tvars@.len()),
    ensures
        r is Err ==> r == Err::<String, Error>(Error::DepthLimit),
        *typ is Int || *typ is Str || *typ is Unit || *typ is Bool ==> r is Ok,
        type_concrete(*typ) && type_size(*typ) <= LINK_FUEL ==> r is Ok,
        rendered_of(checker.tvars@, *typ) == (match r {
            Ok(st) => Ok::<Seq<char>, Error>(st@),
            Err(e) => Err::<Seq<char>, Error>(e),
        }),
        r is Ok ==> forall|rt: Type|
            #[trigger] resolves_to(checker.tvars@, *typ, rt) && type_concrete(rt) ==> (r->Ok_0)@
                == type_rendered(rt),
{
    let mut names: Vec<(TVarRef, String)> = Vec::new();
    let mut next: usize = 0;
    proof {
        assert(nview(names@) =~= Seq::<(TVarRef, Seq<char>)>::empty());
    }
    let r = string_of_type_rec(checker, &mut names, &mut next, typ, LINK_FUEL);
    proof {
        if r is Ok {
            let rt0 = choose|rt: Type|
                #[trigger] resolves_to(checker.tvars@, *typ, rt) && (type_concrete(rt)
                    ==> (r->Ok_0)@ == type_rendered(rt));
            assert forall|rt: Type|
                #[trigger] resolves_to(checker.tvars@, *typ, rt) && type_concrete(rt)
                implies (r->Ok_0)@ == type_rendered(rt) by {
                lemma_resolves_to_unique(checker.tvars@, *typ, rt, rt0);
            }
        }
    }
    r
}

} // verus!
