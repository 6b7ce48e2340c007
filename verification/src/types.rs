//! Type inference: Algorithm J with let-polymorphism.
//!
//! Types are terms over base types, function arrows and mutable type
//! variables.  A type variable is an index (`TVarRef`) into an arena of
//! [`TVar`] cells ([`tvars::TVars`]); binding a variable updates its cell in
//! place, so every copy of the index observes the binding.  Each unbound
//! variable carries the [`Level`] of `let`-nesting at which it was created;
//! levels decide which variables a `let` may generalize.

pub mod check;
pub mod error;
pub mod monomorphize;
pub mod polymorphize;
pub mod resolve;
pub mod string_of_type;
pub mod tvars;

use vstd::prelude::*;
use vstd::multiset::Multiset;
use vstd::seq_lib::group_to_multiset_ensures;
use vstd::string::StringExecFns;
use vstd::string::StrSliceExecFns;

use crate::ast::expr::Expr;
use crate::ast::stmt::{stmt_name, Stmt};
use crate::ast::{self, Program};

use self::check::{
    check_let_value_spec, check_spec, let_depth, listing_ready, smap_of, Checker, LINK_FUEL,
};
use self::polymorphize::{polymorphize_spec, type_size};
use self::error::Error;
use self::resolve::{resolve, resolves_to, wf_type};
use self::string_of_type::{lemma_concrete_wf, rendered_of, string_of_type, type_concrete};

verus! {

/// A type term.  `Var` refers to a cell of the checker's arena.
#[derive(PartialEq, Eq, Debug)]
pub enum Type {
    Int,
    Str,
    Unit,
    Bool,
    Var(TVarRef),
    Fun(Box<Type>, Box<Type>),
}

/// A type-variable cell: resolved to a type, or still free at some level.
/// An unbound cell records its own reference.
#[derive(PartialEq, Eq, Debug)]
pub enum TVar {
    Bound(Type),
    Unbound(TVarRef, Level),
}

/// A stable index into the type-variable arena.
#[derive(PartialEq, Eq, Structural, PartialOrd, Ord, Hash, Debug, Clone, Copy)]
pub struct TVarRef(pub usize);

/// The `let`-nesting depth at which a type variable was created.  A cell's
/// level only ever decreases over its lifetime.
#[derive(PartialEq, Eq, Structural, PartialOrd, Ord, Hash, Debug, Clone, Copy)]
pub struct Level(pub usize);

/// A possibly-polymorphic type scheme: the generalized variable references,
/// paired with the type they occur in.
#[derive(PartialEq, Eq, Debug)]
pub struct Polytype(pub Vec<TVarRef>, pub Type);

impl Clone for Type {
    fn clone(&self) -> (r: Type)
        ensures
            r == *self,
        decreases *self,
    {
        match self {
            Type::Int => Type::Int,
            Type::Str => Type::Str,
            Type::Unit => Type::Unit,
            Type::Bool => Type::Bool,
            Type::Var(r) => Type::Var(*r),
            Type::Fun(a, b) => Type::Fun(Box::new((&**a).clone()), Box::new((&**b).clone())),
        }
    }
}

impl Type {
    /// Structural equality of two type terms; variables are compared by
    /// reference, without consulting the arena.
    pub fn same(&self, other: &Type) -> (r: bool)
        ensures
            r == (*self == *other),
        decreases *self,
    {
        match (self, other) {
            (Type::Int, Type::Int) => true,
            (Type::Str, Type::Str) => true,
            (Type::Unit, Type::Unit) => true,
            (Type::Bool, Type::Bool) => true,
            (Type::Var(a), Type::Var(b)) => a.0 == b.0,
            (Type::Fun(a, b), Type::Fun(c, d)) => {
                let first = (&**a).same(&**c);
                first && (&**b).same(&**d)
            },
            _ => false,
        }
    }
}

impl Clone for Polytype {
    fn clone(&self) -> (r: Polytype)
        ensures
            r.0@ == self.0@,
            r.1 == self.1,
    {
        let mut vars: Vec<TVarRef> = Vec::new();
        let mut i: usize = 0;
        while i < self.0.len()
            invariant
                i <= self.0@.len(),
                vars@ == self.0@.subrange(0, i as int),
            decreases self.0@.len() - i,
        {
            vars.push(self.0[i]);
            i = i + 1;
        }
        proof {
            assert(vars@ =~= self.0@);
        }
        Polytype(vars, self.1.clone())
    }
}

/// What the surface syntax of a type denotes: the four base types by name,
/// arrows structurally; any other base name is unknown.
pub open spec fn ast_type_converted(t: ast::types::Type) -> Result<Type, Error>
    decreases t,
{
    match t {
        ast::types::Type::Simple(name) => {
            if name@ == "Int"@ {
                Ok(Type::Int)
            } else if name@ == "Str"@ {
                Ok(Type::Str)
            } else if name@ == "Unit"@ {
                Ok(Type::Unit)
            } else if name@ == "Bool"@ {
                Ok(Type::Bool)
            } else {
                Err(Error::UnknownType { name })
            }
        },
        ast::types::Type::Fun(f) => match (ast_type_converted(*f.from), ast_type_converted(
            *f.to,
        )) {
            (Ok(a), Ok(b)) => Ok(Type::Fun(Box::new(a), Box::new(b))),
            (Err(e), _) => Err(e),
            (_, Err(e)) => Err(e),
        },
    }
}

/// Convert a surface type into a checker type; an unknown base name fails
/// with `UnknownType`.
pub fn checker_type_of_ast_type(ast_type: &ast::types::Type) -> (r: Result<Type, Error>)
    ensures
        r == ast_type_converted(*ast_type),
        r is Ok ==> type_concrete(r->Ok_0),
    decreases *ast_type,
{
    match ast_type {
        ast::types::Type::Simple(name) => {
            if *name == String::from_str("Int") {
                Ok(Type::Int)
            } else if *name == String::from_str("Str") {
                Ok(Type::Str)
            } else if *name == String::from_str("Unit") {
                Ok(Type::Unit)
            } else if *name == String::from_str("Bool") {
                Ok(Type::Bool)
            } else {
                Err(Error::UnknownType { name: name.clone() })
            }
        },
        ast::types::Type::Fun(f) => {
            let a = checker_type_of_ast_type(&*f.from)?;
            let b = checker_type_of_ast_type(&*f.to)?;
            Ok(Type::Fun(Box::new(a), Box::new(b)))
        },
    }
}

/// Type-check a standalone expression and render its inferred type.
///
/// A fresh checker is used, so no names are in scope: a bare variable fails
/// with `NotInScope`, and each literal renders as its base type.
pub fn check_expr_to_string(ast: Expr) -> (r: Result<String, Error>)
    requires
        let_depth(ast) <= usize::MAX,
    ensures
        ast is Int ==> r is Ok && (r->Ok_0)@ == "Int"@,
        ast is Str ==> r is Ok && (r->Ok_0)@ == "Str"@,
        ast is Unit ==> r is Ok && (r->Ok_0)@ == "Unit"@,
        ast is Bool ==> r is Ok && (r->Ok_0)@ == "Bool"@,
        ast is Var ==> r == Err::<String, Error>(
            Error::NotInScope { name: ast->Var_0.name },
        ),
        ({
            let cres = check_spec(
                Seq::empty(),
                Level(0),
                Map::empty(),
                ast,
            );
            match cres.0 {
                Err(e) => r == Err::<String, Error>(e),
                Ok(t) => match rendered_of(cres.1, t) {
                    Err(e) => r == Err::<String, Error>(e),
                    Ok(st) => r is Ok && (r->Ok_0)@ == st,
                },
            }
        }),
{
    let mut checker = Checker::new();
    proof {
        assert(smap_of(checker.bindings@) =~= Map::<Seq<char>, (Seq<TVarRef>, Type)>::empty());
    }
    let typ = checker.check(&ast)?;
    let s = string_of_type(&checker, &typ)?;
    proof {
        let store = checker.tvars@;
        if ast is Int {
            assert(resolve(store, Type::Int, 0) == Some(Type::Int));
            assert(resolves_to(store, Type::Int, Type::Int));
        }
        if ast is Str {
            assert(resolve(store, Type::Str, 0) == Some(Type::Str));
            assert(resolves_to(store, Type::Str, Type::Str));
        }
        if ast is Unit {
            assert(resolve(store, Type::Unit, 0) == Some(Type::Unit));
            assert(resolves_to(store, Type::Unit, Type::Unit));
        }
        if ast is Bool {
            assert(resolve(store, Type::Bool, 0) == Some(Type::Bool));
            assert(resolves_to(store, Type::Bool, Type::Bool));
        }
    }
    Ok(s)
}

/// Names ordered by code point, shorter prefixes first: the order the
/// whole-program listing is returned in.
pub open spec fn lex_le(a: Seq<char>, b: Seq<char>) -> bool
    decreases a.len(),
{
    if a.len() == 0 {
        true
    } else if b.len() == 0 {
        false
    } else if a[0] as u32 == b[0] as u32 {
        lex_le(a.skip(1), b.skip(1))
    } else {
        (a[0] as u32) < (b[0] as u32)
    }
}

proof fn lemma_lex_le_total(a: Seq<char>, b: Seq<char>)
    ensures
        lex_le(a, b) || lex_le(b, a),
    decreases a.len(),
{
    if a.len() > 0 && b.len() > 0 && a[0] as u32 == b[0] as u32 {
        lemma_lex_le_total(a.skip(1), b.skip(1));
    }
}

proof fn lemma_lex_le_trans(a: Seq<char>, b: Seq<char>, c: Seq<char>)
    requires
        lex_le(a, b),
        lex_le(b, c),
    ensures
        lex_le(a, c),
    decreases a.len(),
{
    if a.len() > 0 && b.len() > 0 && c.len() > 0 && a[0] as u32 == b[0] as u32 && b[0] as u32
        == c[0] as u32 {
        lemma_lex_le_trans(a.skip(1), b.skip(1), c.skip(1));
    }
}

/// Compare two names in the listing order.
fn str_le(x: &String, y: &String) -> (r: bool)
    ensures
        r == lex_le(x@, y@),
{
    let xs = x.as_str();
    let ys = y.as_str();
    let xn = xs.unicode_len();
    let yn = ys.unicode_len();
    proof {
        assert(x@.skip(0) =~= x@);
        assert(y@.skip(0) =~= y@);
    }
    let mut i: usize = 0;
    while i < xn && i < yn
        invariant
            i <= xn,
            i <= yn,
            xn == x@.len(),
            yn == y@.len(),
            xs@ == x@,
            ys@ == y@,
            lex_le(x@, y@) == lex_le(x@.skip(i as int), y@.skip(i as int)),
        decreases xn - i,
    {
        let cx = xs.get_char(i);
        let cy = ys.get_char(i);
        proof {
            assert(x@.skip(i as int)[0] == x@[i as int]);
            assert(y@.skip(i as int)[0] == y@[i as int]);
            assert(x@.skip(i as int).len() > 0);
            assert(y@.skip(i as int).len() > 0);
        }
        if (cx as u32) < (cy as u32) {
            return true;
        }
        if (cx as u32) > (cy as u32) {
            return false;
        }
        proof {
            assert(x@.skip(i as int).skip(1) =~= x@.skip(i + 1));
            assert(y@.skip(i as int).skip(1) =~= y@.skip(i + 1));
        }
        i = i + 1;
    }
    proof {
        if xn <= yn {
            assert(x@.skip(i as int).len() == 0);
        } else {
            assert(y@.skip(i as int).len() == 0);
            assert(x@.skip(i as int).len() > 0);
        }
    }
    xn <= yn
}

/// The listing is sorted by name.
pub open spec fn sorted_by_name(out: Seq<(String, String)>) -> bool {
    forall|j: int, k: int|
        0 <= j < k < out.len() ==> lex_le((#[trigger] out[j]).0@, (#[trigger] out[k]).0@)
}

/// Sort a listing by name: repeatedly move the least remaining name over.
/// The result holds exactly the given pairs.
fn sort_listing(pairs: Vec<(String, String)>) -> (r: Vec<(String, String)>)
    ensures
        r@.to_multiset() == pairs@.to_multiset(),
        sorted_by_name(r@),
{
    let mut src = pairs;
    let mut out: Vec<(String, String)> = Vec::new();
    proof {
        broadcast use group_to_multiset_ensures;

        assert(out@.to_multiset().add(src@.to_multiset()) =~= src@.to_multiset());
    }
    while src.len() > 0
        invariant
            out@.to_multiset().add(src@.to_multiset()) == pairs@.to_multiset(),
            sorted_by_name(out@),
            forall|j: int, k: int|
                0 <= j < out@.len() && 0 <= k < src@.len() ==> lex_le(
                    (#[trigger] out@[j]).0@,
                    (#[trigger] src@[k]).0@,
                ),
        decreases src@.len(),
    {
        let mut m: usize = 0;
        let mut i: usize = 1;
        proof {
            lemma_lex_le_total(src@[0].0@, src@[0].0@);
        }
        while i < src.len()
            invariant
                m < i,
                i <= src@.len(),
                m < src@.len(),
                src@.len() > 0,
                forall|k: int| 0 <= k < i ==> lex_le(src@[m as int].0@, (#[trigger] src@[k]).0@),
            decreases src@.len() - i,
        {
            if str_le(&src[i].0, &src[m].0) {
                proof {
                    lemma_lex_le_total(src@[i as int].0@, src@[i as int].0@);
                    assert forall|k: int| 0 <= k < i + 1 implies lex_le(
                        src@[i as int].0@,
                        (#[trigger] src@[k]).0@,
                    ) by {
                        if k < i {
                            lemma_lex_le_trans(
                                src@[i as int].0@,
                                src@[m as int].0@,
                                src@[k].0@,
                            );
                        }
                    }
                }
                m = i;
            } else {
                proof {
                    lemma_lex_le_total(src@[m as int].0@, src@[i as int].0@);
                }
            }
            i = i + 1;
        }
        let ghost src_before = src@;
        let ghost out_before = out@;
        let x = src.remove(m);
        let ghost gx = x;
        out.push(x);
        proof {
            broadcast use group_to_multiset_ensures;

            assert(src_before[m as int] == gx);
            assert(src@ == src_before.remove(m as int));
            assert(src@.to_multiset() =~= src_before.to_multiset().remove(gx));
            assert(out@.to_multiset() =~= out_before.to_multiset().insert(gx));
            assert(src_before.to_multiset().contains(gx));
            assert(out@.to_multiset().add(src@.to_multiset()) =~= pairs@.to_multiset());
            assert(forall|k: int|
                0 <= k < src@.len() ==> (#[trigger] src@[k]) == (if k < m {
                    src_before[k]
                } else {
                    src_before[k + 1]
                }));
            assert forall|j: int, k: int|
                0 <= j < out@.len() && 0 <= k < src@.len() implies lex_le(
                (#[trigger] out@[j]).0@,
                (#[trigger] src@[k]).0@,
            ) by {
                if j < out_before.len() {
                    assert(lex_le(out_before[j].0@, src@[k].0@));
                } else {
                    assert(out@[j] == gx);
                    assert(lex_le(gx.0@, src_before[if k < m {
                        k
                    } else {
                        k + 1
                    }].0@));
                }
            }
            assert forall|j: int, k: int|
                0 <= j < k < out@.len() implies lex_le(
                (#[trigger] out@[j]).0@,
                (#[trigger] out@[k]).0@,
            ) by {
                if k < out_before.len() {
                } else {
                    assert(out@[k] == gx);
                    assert(lex_le(out_before[j].0@, gx.0@));
                }
            }
        }
    }
    proof {
        broadcast use group_to_multiset_ensures;

        assert(src@.to_multiset() =~= Multiset::empty());
        assert(out@.to_multiset() =~= pairs@.to_multiset());
    }
    out
}

/// The `j`-th listed name is the name of some statement of `p`.
pub open spec fn listed_name_from_stmts(out: Seq<(String, String)>, p: Program, j: int) -> bool {
    exists|i: int| 0 <= i < p.stmts@.len() && stmt_name(#[trigger] p.stmts@[i]) == out[j].0@
}

/// Each listed name comes from some statement, and no name is listed
/// twice.
pub open spec fn names_from_stmts(out: Seq<(String, String)>, p: Program) -> bool {
    &&& forall|j: int| 0 <= j < out.len() ==> #[trigger] listed_name_from_stmts(out, p, j)
    &&& forall|j: int, k: int|
        0 <= j < k < out.len() ==> (#[trigger] out[j]).0@ != (#[trigger] out[k]).0@
}

/// What checking a whole program computes: fold the statements, from an
/// empty checker, each `let` through the binding rule and each `declare`
/// through conversion and generalization of its signature.  The first
/// failure is the fold's.
pub open spec fn prog_fold(stmts: Seq<Stmt>) -> Result<
    (Seq<TVar>, Map<Seq<char>, (Seq<TVarRef>, Type)>, Level),
    Error,
>
    decreases stmts.len(),
{
    if stmts.len() == 0 {
        Ok((Seq::empty(), Map::empty(), Level(0)))
    } else {
        match prog_fold(stmts.drop_last()) {
            Err(e) => Err(e),
            Ok(st) => match stmts.last() {
                Stmt::Let(l) => {
                    let (r, s1, b1, l1) = check_let_value_spec(
                        st.0,
                        st.2,
                        st.1,
                        l.name@,
                        *l.value,
                        l.rec,
                    );
                    match r {
                        Err(e) => Err(e),
                        Ok(u) => Ok((s1, b1, l1)),
                    }
                },
                Stmt::Declare(d) => match ast_type_converted(d.typ) {
                    Err(e) => Err(e),
                    Ok(t) => {
                        let (pr, vars) = polymorphize_spec(st.0, st.2, t, LINK_FUEL as nat);
                        match pr {
                            Err(e) => Err(e),
                            Ok(u) => Ok((st.0, st.1.insert(d.name@, (vars, t)), st.2)),
                        }
                    },
                },
            },
        }
    }
}

/// A failed fold of a prefix is the fold of the whole.
proof fn lemma_prog_fold_err_persists(stmts: Seq<Stmt>, k: int)
    requires
        0 <= k <= stmts.len(),
        prog_fold(stmts.take(k)) is Err,
    ensures
        prog_fold(stmts) == prog_fold(stmts.take(k)),
    decreases stmts.len() - k,
{
    if k == stmts.len() {
        assert(stmts.take(k) =~= stmts);
    } else {
        assert(stmts.take(k + 1).drop_last() =~= stmts.take(k));
        assert(stmts.take(k + 1).last() == stmts[k]);
        lemma_prog_fold_err_persists(stmts, k + 1);
    }
}

/// Every listed name is in the checked scope, and every name of the
/// checked scope is listed.
pub open spec fn listing_matches(
    out: Seq<(String, String)>,
    m: Map<Seq<char>, (Seq<TVarRef>, Type)>,
) -> bool {
    &&& forall|j: int| 0 <= j < out.len() ==> m.contains_key((#[trigger] out[j]).0@)
    &&& forall|n: Seq<char>|
        #[trigger] m.contains_key(n) ==> exists|j: int|
            0 <= j < out.len() && (#[trigger] out[j]).0@ == n
}

/// A program of declarations alone, each with a known, link-budget-sized
/// signature: such a program always lists successfully.
pub open spec fn all_known_declares(p: Program) -> bool {
    forall|i: int|
        0 <= i < p.stmts@.len() ==> (#[trigger] p.stmts@[i]) is Declare && ast_type_converted(
            p.stmts@[i]->Declare_0.typ,
        ) is Ok && type_size(ast_type_converted(p.stmts@[i]->Declare_0.typ)->Ok_0) <= LINK_FUEL
}

/// Every `let` statement of the program leaves the checker room for one
/// more nesting level.
pub open spec fn prog_lets_bounded(p: Program) -> bool {
    forall|i: int|
        0 <= i < p.stmts@.len() ==> match #[trigger] p.stmts@[i] {
            Stmt::Let(l) => 1 + let_depth(*l.value) <= usize::MAX,
            Stmt::Declare(_) => true,
        }
}

/// Type-check a whole program and render the type of every name that ends
/// up in scope.
///
/// Statements are folded left to right through one checker: a `let` binds
/// its generalized value type, a `declare` installs the declared signature.
/// The first failure stops the pass.  On success each reported name is the
/// name of some statement, no name is reported twice, and the pairs come
/// sorted by name.
pub fn check_prog_to_strings(program: &Program) -> (r: Result<Vec<(String, String)>, Error>)
    requires
        prog_lets_bounded(*program),
    ensures
        r is Ok ==> names_from_stmts((r->Ok_0)@, *program),
        r is Ok ==> sorted_by_name((r->Ok_0)@),
        all_known_declares(*program) ==> r is Ok,
        prog_fold(program.stmts@) is Err ==> r == Err::<Vec<(String, String)>, Error>(
            prog_fold(program.stmts@)->Err_0,
        ),
        r is Ok ==> prog_fold(program.stmts@) is Ok && listing_matches(
            (r->Ok_0)@,
            prog_fold(program.stmts@)->Ok_0.1,
        ),
{
    let mut checker = Checker::new();
    proof {
        assert(program.stmts@.take(0) =~= Seq::<Stmt>::empty());
        assert(smap_of(checker.bindings@) =~= Map::<Seq<char>, (Seq<TVarRef>, Type)>::empty());
        assert(checker.cur_level == (Level(0)));
    }
    let mut i: usize = 0;
    while i < program.stmts.len()
        invariant
            i <= program.stmts@.len(),
            prog_lets_bounded(*program),
            checker.wf(),
            checker.cur_level.0 == 0,
            prog_fold(program.stmts@.take(i as int)) == Ok::<
                (Seq<TVar>, Map<Seq<char>, (Seq<TVarRef>, Type)>, Level),
                Error,
            >((checker.tvars@, smap_of(checker.bindings@), checker.cur_level)),
            all_known_declares(*program) ==> listing_ready(checker.bindings@),
            forall|n: Seq<char>|
                #[trigger] checker.bindings@.contains_key(n) ==> exists|j: int|
                    0 <= j < i && stmt_name(#[trigger] program.stmts@[j]) == n,
        decreases program.stmts@.len() - i,
    {
        proof {
            assert(program.stmts@.take(i + 1).drop_last() =~= program.stmts@.take(i as int));
            assert(program.stmts@.take(i + 1).last() == program.stmts@[i as int]);
            if all_known_declares(*program) {
                assert(program.stmts@[i as int] is Declare);
            }
        }
        let ghost prev = checker.bindings@;
        match &program.stmts[i] {
            Stmt::Let(l) => {
                let r = checker.check_let_value(&l.name, &*l.value, l.rec);
                if let Err(e) = r {
                    proof {
                        lemma_prog_fold_err_persists(program.stmts@, i + 1);
                    }
                    return Err(e);
                }
                proof {
                    assert forall|n: Seq<char>| #[trigger] checker.bindings@.contains_key(n)
                        implies exists|j: int|
                        0 <= j < i + 1 && stmt_name(#[trigger] program.stmts@[j]) == n by {
                        if prev.contains_key(n) {
                            let j = choose|j: int|
                                0 <= j < i && stmt_name(#[trigger] program.stmts@[j]) == n;
                            assert(stmt_name(program.stmts@[j]) == n);
                        } else {
                            assert(stmt_name(program.stmts@[i as int]) == n);
                        }
                    }
                }
            },
            Stmt::Declare(d) => {
                let typ = match checker_type_of_ast_type(&d.typ) {
                    Ok(t) => t,
                    Err(e) => {
                        proof {
                            lemma_prog_fold_err_persists(program.stmts@, i + 1);
                            if all_known_declares(*program) {
                                assert(ast_type_converted(d.typ) is Ok);
                            }
                        }
                        return Err(e);
                    },
                };
                let ghost gtyp = typ;
                proof {
                    lemma_concrete_wf(typ, checker.tvars@.len());
                    if all_known_declares(*program) {
                        assert(type_size(gtyp) <= LINK_FUEL);
                    }
                }
                let r = checker.insert_declare(d.name.clone(), typ);
                if let Err(e) = r {
                    proof {
                        lemma_prog_fold_err_persists(program.stmts@, i + 1);
                    }
                    return Err(e);
                }
                proof {
                    if all_known_declares(*program) {
                        assert forall|n: Seq<char>| #[trigger] checker.bindings@.contains_key(n)
                            implies checker.bindings@[n].0@.len() == 0 && type_concrete(
                            checker.bindings@[n].1,
                        ) && type_size(checker.bindings@[n].1) <= LINK_FUEL by {
                            if n != d.name@ {
                                assert(prev.contains_key(n));
                            }
                        }
                    }
                    assert forall|n: Seq<char>| #[trigger] checker.bindings@.contains_key(n)
                        implies exists|j: int|
                        0 <= j < i + 1 && stmt_name(#[trigger] program.stmts@[j]) == n by {
                        if prev.contains_key(n) {
                            let j = choose|j: int|
                                0 <= j < i && stmt_name(#[trigger] program.stmts@[j]) == n;
                            assert(stmt_name(program.stmts@[j]) == n);
                        } else {
                            assert(stmt_name(program.stmts@[i as int]) == n);
                        }
                    }
                }
            },
        }
        i = i + 1;
    }
    proof {
        assert(program.stmts@.take(program.stmts@.len() as int) =~= program.stmts@);
    }
    let ghost fold_map = smap_of(checker.bindings@);
    let pairs = match checker.get_bindings() {
        Ok(p) => p,
        Err(e) => {
            return Err(e);
        },
    };
    let ghost named_map = checker.bindings@;
    let mut out: Vec<(String, String)> = Vec::new();
    let mut k: usize = 0;
    while k < pairs.len()
        invariant
            k <= pairs@.len(),
            out@.len() == k,
            checker.wf(),
            forall|j: int|
                0 <= j < pairs@.len() ==> wf_type((#[trigger] pairs@[j]).1, checker.tvars@.len()),
            all_known_declares(*program) ==> forall|j: int|
                0 <= j < pairs@.len() ==> type_concrete((#[trigger] pairs@[j]).1) && type_size(
                    pairs@[j].1,
                ) <= LINK_FUEL,
            forall|j: int| 0 <= j < k ==> (#[trigger] out@[j]).0@ == pairs@[j].0@,
            prog_fold(program.stmts@) is Ok,
            prog_fold(program.stmts@)->Ok_0.1 == fold_map,
            fold_map == smap_of(checker.bindings@),
        decreases pairs@.len() - k,
    {
        let rendered = match string_of_type(&checker, &pairs[k].1) {
            Ok(s) => s,
            Err(e) => {
                proof {
                    if all_known_declares(*program) {
                        assert(type_concrete(pairs@[k as int].1));
                    }
                }
                return Err(e);
            },
        };
        out.push((pairs[k].0.clone(), rendered));
        k = k + 1;
    }
    proof {
        assert forall|j: int|
            0 <= j < out@.len() implies #[trigger] listed_name_from_stmts(out@, *program, j) by {
            assert(checker.bindings@.contains_key(pairs@[j].0@));
            let i2 = choose|i2: int|
                0 <= i2 < i && stmt_name(#[trigger] program.stmts@[i2]) == pairs@[j].0@;
            assert(0 <= i2 < program.stmts@.len() && stmt_name(program.stmts@[i2])
                == out@[j].0@);
        }
        assert forall|j: int, k2: int|
            0 <= j < k2 < out@.len() implies (#[trigger] out@[j]).0@
                != (#[trigger] out@[k2]).0@ by {
            assert(pairs@[j].0@ != pairs@[k2].0@);
        }
        assert(names_from_stmts(out@, *program));
    }
    let ghost gout = out@;
    let sorted = sort_listing(out);
    proof {
        broadcast use group_to_multiset_ensures;

        assert forall|a: int, b: int| 0 <= a < gout.len() && 0 <= b < gout.len() && a != b
            implies gout[a] != gout[b] by {
            if a < b {
                assert(gout[a].0@ != gout[b].0@);
            } else {
                assert(gout[b].0@ != gout[a].0@);
            }
        }
        assert(gout.no_duplicates());
        gout.lemma_multiset_has_no_duplicates();
        assert forall|x: (String, String)| sorted@.to_multiset().contains(x) implies sorted@.to_multiset().count(x) == 1 by {
            assert(gout.to_multiset().contains(x));
        }
        sorted@.lemma_multiset_has_no_duplicates_conv();
        assert forall|j: int, k: int|
            0 <= j < k < sorted@.len() implies (#[trigger] sorted@[j]).0@
            != (#[trigger] sorted@[k]).0@ by {
            if sorted@[j].0@ == sorted@[k].0@ {
                assert(sorted@[j] != sorted@[k]);
                assert(sorted@.contains(sorted@[j]));
                assert(sorted@.contains(sorted@[k]));
                assert(gout.to_multiset().count(sorted@[j]) > 0);
                assert(gout.to_multiset().count(sorted@[k]) > 0);
                assert(gout.contains(sorted@[j]));
                assert(gout.contains(sorted@[k]));
                let a = choose|a: int| 0 <= a < gout.len() && gout[a] == sorted@[j];
                let b = choose|b: int| 0 <= b < gout.len() && gout[b] == sorted@[k];
                assert(a != b);
                assert(gout[a].0@ != gout[b].0@);
            }
        }
        assert forall|j: int| 0 <= j < sorted@.len() implies #[trigger] listed_name_from_stmts(
            sorted@,
            *program,
            j,
        ) by {
            assert(sorted@.contains(sorted@[j]));
            assert(gout.to_multiset().count(sorted@[j]) > 0);
            assert(gout.contains(sorted@[j]));
            let a = choose|a: int| 0 <= a < gout.len() && gout[a] == sorted@[j];
            assert(listed_name_from_stmts(gout, *program, a));
            let i2 = choose|i2: int|
                0 <= i2 < program.stmts@.len() && stmt_name(#[trigger] program.stmts@[i2])
                    == gout[a].0@;
            assert(stmt_name(program.stmts@[i2]) == sorted@[j].0@);
        }
        assert(names_from_stmts(sorted@, *program));
        assert forall|j: int| 0 <= j < sorted@.len() implies fold_map.contains_key(
            (#[trigger] sorted@[j]).0@,
        ) by {
            assert(sorted@.contains(sorted@[j]));
            assert(gout.to_multiset().count(sorted@[j]) > 0);
            assert(gout.contains(sorted@[j]));
            let a = choose|a: int| 0 <= a < gout.len() && gout[a] == sorted@[j];
            assert(checker.bindings@.contains_key(pairs@[a].0@));
            assert(smap_of(checker.bindings@).contains_key(pairs@[a].0@));
        }
        assert forall|n: Seq<char>| #[trigger] fold_map.contains_key(n) implies exists|j: int|
            0 <= j < sorted@.len() && (#[trigger] sorted@[j]).0@ == n by {
            assert(checker.bindings@.contains_key(n));
            let a = choose|a: int| 0 <= a < pairs@.len() && (#[trigger] pairs@[a]).0@ == n;
            assert(gout[a].0@ == n);
            assert(gout.contains(gout[a]));
            assert(sorted@.to_multiset().count(gout[a]) > 0);
            assert(sorted@.contains(gout[a]));
            let j = choose|j: int| 0 <= j < sorted@.len() && sorted@[j] == gout[a];
            assert(sorted@[j].0@ == n);
        }
        assert(listing_matches(sorted@, fold_map));
    }
    Ok(sorted)
}

} // verus!
