//! Desugaring: a non-recursive `let name = value in body` is the same thing
//! as `(fun name -> body) value`, so it can be rewritten away.  Recursive
//! bindings genuinely need `let` and are kept, their parts rewritten.

use vstd::prelude::*;

use crate::ast::expr::{App, BinOp, Expr, Fun, If, Let};

verus! {

/// The rewritten tree: plain `let`s become applications, everything else is
/// rebuilt with rewritten children.
pub open spec fn desugar_spec(e: Expr) -> Expr
    decreases e,
{
    match e {
        Expr::Int(_) => e,
        Expr::Str(_) => e,
        Expr::Unit => e,
        Expr::Bool(_) => e,
        Expr::Var(_) => e,
        Expr::BinOp(b) => Expr::BinOp(
            BinOp {
                left: Box::new(desugar_spec(*b.left)),
                right: Box::new(desugar_spec(*b.right)),
                kind: b.kind,
            },
        ),
        Expr::Let(l) => {
            if l.rec {
                Expr::Let(
                    Let {
                        name: l.name,
                        value: Box::new(desugar_spec(*l.value)),
                        body: Box::new(desugar_spec(*l.body)),
                        rec: true,
                    },
                )
            } else {
                Expr::App(
                    App {
                        fun: Box::new(
                            Expr::Fun(Fun { arg: l.name, body: Box::new(desugar_spec(*l.body)) }),
                        ),
                        arg: Box::new(desugar_spec(*l.value)),
                    },
                )
            }
        },
        Expr::Fun(f) => Expr::Fun(Fun { arg: f.arg, body: Box::new(desugar_spec(*f.body)) }),
        Expr::App(a) => Expr::App(
            App { fun: Box::new(desugar_spec(*a.fun)), arg: Box::new(desugar_spec(*a.arg)) },
        ),
        Expr::If(i) => Expr::If(
            If {
                check: Box::new(desugar_spec(*i.check)),
                thn: Box::new(desugar_spec(*i.thn)),
                els: Box::new(desugar_spec(*i.els)),
            },
        ),
    }
}

/// No non-recursive `let` remains anywhere in the tree.
pub open spec fn no_plain_let(e: Expr) -> bool
    decreases e,
{
    match e {
        Expr::Int(_) => true,
        Expr::Str(_) => true,
        Expr::Unit => true,
        Expr::Bool(_) => true,
        Expr::Var(_) => true,
        Expr::BinOp(b) => no_plain_let(*b.left) && no_plain_let(*b.right),
        Expr::Let(l) => l.rec && no_plain_let(*l.value) && no_plain_let(*l.body),
        Expr::Fun(f) => no_plain_let(*f.body),
        Expr::App(a) => no_plain_let(*a.fun) && no_plain_let(*a.arg),
        Expr::If(i) => no_plain_let(*i.check) && no_plain_let(*i.thn) && no_plain_let(*i.els),
    }
}

/// Desugaring leaves no non-recursive `let` behind.
pub proof fn lemma_desugar_removes_plain_lets(e: Expr)
    ensures
        no_plain_let(desugar_spec(e)),
    decreases e,
{
    reveal_with_fuel(no_plain_let, 4);
    match e {
        Expr::BinOp(b) => {
            lemma_desugar_removes_plain_lets(*b.left);
            lemma_desugar_removes_plain_lets(*b.right);
        },
        Expr::Let(l) => {
            lemma_desugar_removes_plain_lets(*l.value);
            lemma_desugar_removes_plain_lets(*l.body);
        },
        Expr::Fun(f) => {
            lemma_desugar_removes_plain_lets(*f.body);
        },
        Expr::App(a) => {
            lemma_desugar_removes_plain_lets(*a.fun);
            lemma_desugar_removes_plain_lets(*a.arg);
        },
        Expr::If(i) => {
            lemma_desugar_removes_plain_lets(*i.check);
            lemma_desugar_removes_plain_lets(*i.thn);
            lemma_desugar_removes_plain_lets(*i.els);
        },
        _ => {},
    }
}

/// Rewrite every non-recursive `let name = value in body` into
/// `(fun name -> body) value`.
pub fn desugar_let(e: Expr) -> (r: Expr)
    ensures
        r == desugar_spec(e),
    decreases e,
{
    match e {
        Expr::Int(x) => Expr::Int(x),
        Expr::Str(s) => Expr::Str(s),
        Expr::Unit => Expr::Unit,
        Expr::Bool(b) => Expr::Bool(b),
        Expr::Var(v) => Expr::Var(v),
        Expr::BinOp(BinOp { left, right, kind }) => Expr::BinOp(
            BinOp {
                left: Box::new(desugar_let(*left)),
                right: Box::new(desugar_let(*right)),
                kind,
            },
        ),
        Expr::Let(Let { name, value, body, rec }) => {
            if rec {
                Expr::Let(
                    Let {
                        name,
                        value: Box::new(desugar_let(*value)),
                        body: Box::new(desugar_let(*body)),
                        rec: true,
                    },
                )
            } else {
                Expr::App(
                    App {
                        fun: Box::new(Expr::Fun(Fun { arg: name, body: Box::new(desugar_let(*body)) })),
                        arg: Box::new(desugar_let(*value)),
                    },
                )
            }
        },
        Expr::Fun(Fun { arg, body }) => Expr::Fun(Fun { arg, body: Box::new(desugar_let(*body)) }),
        Expr::App(App { fun, arg }) => Expr::App(
            App { fun: Box::new(desugar_let(*fun)), arg: Box::new(desugar_let(*arg)) },
        ),
        Expr::If(If { check, thn, els }) => Expr::If(
            If {
                check: Box::new(desugar_let(*check)),
                thn: Box::new(desugar_let(*thn)),
                els: Box::new(desugar_let(*els)),
            },
        ),
    }
}

} // verus!
