//! The meaning of evaluation: a big-step, fuel-indexed evaluation function
//! over a mathematical model of environments and values.
//!
//! A runtime value maps to an [`SVal`]: base values by content, a closure by
//! its argument name, body and the model of its captured environment, a
//! builtin by its name.  [`eval_spec`] then says, for every environment,
//! expression and step budget, exactly which result comes back and exactly
//! which characters are printed, in order.  The evaluator's contract states
//! that it computes this function.

use std::rc::Rc;

use vstd::prelude::*;

use crate::ast::expr::{App, BinOpKind, Expr};
use crate::ast::stmt::Stmt;
use crate::ast::Program;
use crate::pretty::int_rendered;
use crate::value::Value;

use super::env::{bound_value_eq_spec, chain_seq, lookup_spec, BoundValue, Node};
use super::{arith_spec, Error};

verus! {

/// The model of a runtime value.
pub enum SVal {
    SInt(i64),
    SStr(Seq<char>),
    SUnit,
    SBool(bool),
    SClos { arg: Seq<char>, body: Expr, env: Seq<SBinding> },
    SBuiltin(String),
}

/// The model of a bound value: a finished value or an unforced expression.
pub enum SBound {
    SV(SVal),
    STh(Expr),
}

/// One modelled binding.
pub struct SBinding {
    pub name: Seq<char>,
    pub value: SBound,
}

/// The model of a value.
pub open spec fn sval_of(v: Value) -> SVal
    decreases v,
{
    match v {
        Value::Int(i) => SVal::SInt(i.n),
        Value::Str(s) => SVal::SStr(s.s@),
        Value::Unit => SVal::SUnit,
        Value::Bool(b) => SVal::SBool(b.b),
        Value::Fun { fun, env } => SVal::SClos {
            arg: fun.arg@,
            body: *fun.body,
            env: schain_of(env.head),
        },
        Value::Builtin(name) => SVal::SBuiltin(name),
    }
}

/// The model of a bound value.
pub open spec fn sbound_of(b: BoundValue) -> SBound
    decreases b,
{
    match b {
        BoundValue::Value(v) => SBound::SV(sval_of(v)),
        BoundValue::Thunk(e) => SBound::STh(e),
    }
}

/// The model of a binding chain, oldest first.
pub open spec fn schain_of(n: Option<Rc<Node>>) -> Seq<SBinding>
    decreases n,
{
    match n {
        None => Seq::empty(),
        Some(node) => schain_of(node.rest).push(
            SBinding { name: node.name@, value: sbound_of(node.value) },
        ),
    }
}

/// The model of an environment view.
pub open spec fn senv_of_view(s: Seq<(Seq<char>, BoundValue)>) -> Seq<SBinding>
    decreases s.len(),
{
    if s.len() == 0 {
        Seq::empty()
    } else {
        senv_of_view(s.drop_last()).push(
            SBinding { name: s.last().0, value: sbound_of(s.last().1) },
        )
    }
}

/// The model of a result: errors pass through, values are modelled.
pub open spec fn sres_of(r: Result<BoundValue, Error>) -> Result<SBound, Error> {
    match r {
        Ok(b) => Ok(sbound_of(b)),
        Err(e) => Err(e),
    }
}

/// The two model views of a chain agree.
pub proof fn lemma_schain_of_view(n: &Option<Rc<Node>>)
    ensures
        senv_of_view(chain_seq(*n)) == schain_of(*n),
    decreases *n,
{
    match n {
        None => {
            assert(senv_of_view(chain_seq(*n)) =~= schain_of(*n));
        },
        Some(node) => {
            lemma_schain_of_view(&node.rest);
            assert(chain_seq(*n).drop_last() =~= chain_seq(node.rest));
            assert(chain_seq(*n).last() == ((node.name@, node.value)));
            assert(senv_of_view(chain_seq(*n)) =~= schain_of(*n));
        },
    }
}

/// The visible value of `name` in a modelled environment.
pub open spec fn slookup(s: Seq<SBinding>, name: Seq<char>) -> Option<SBound>
    decreases s.len(),
{
    if s.len() == 0 {
        None
    } else if s.last().name == name {
        Some(s.last().value)
    } else {
        slookup(s.drop_last(), name)
    }
}

/// Modelled lookup agrees with lookup on the environment view.
pub proof fn lemma_slookup_of_view(s: Seq<(Seq<char>, BoundValue)>, name: Seq<char>)
    ensures
        slookup(senv_of_view(s), name) == (match lookup_spec(s, name) {
            Some(b) => Some(sbound_of(b)),
            None => None,
        }),
    decreases s.len(),
{
    if s.len() > 0 {
        assert(senv_of_view(s).last() == (SBinding { name: s.last().0, value: sbound_of(s.last().1) }));
        assert(senv_of_view(s).drop_last() =~= senv_of_view(s.drop_last()));
        lemma_slookup_of_view(s.drop_last(), name);
    } else {
        assert(senv_of_view(s).len() == 0);
    }
}

/// Model-level structural equality: what the language's `==` yields.
pub open spec fn sbound_eq(a: SBound, b: SBound) -> bool {
    match (a, b) {
        (SBound::SV(SVal::SInt(x)), SBound::SV(SVal::SInt(y))) => x == y,
        (SBound::SV(SVal::SStr(x)), SBound::SV(SVal::SStr(y))) => x == y,
        (SBound::SV(SVal::SBool(x)), SBound::SV(SVal::SBool(y))) => x == y,
        (SBound::SV(SVal::SUnit), SBound::SV(SVal::SUnit)) => true,
        _ => false,
    }
}

/// Model equality agrees with runtime equality.
pub proof fn lemma_sbound_eq(a: BoundValue, b: BoundValue)
    ensures
        sbound_eq(sbound_of(a), sbound_of(b)) == bound_value_eq_spec(a, b),
{
}

/// The integer under a modelled bound value, if that is what it is.
pub open spec fn sint_of(b: SBound) -> Option<i64> {
    match b {
        SBound::SV(SVal::SInt(n)) => Some(n),
        _ => None,
    }
}

/// The string under a modelled bound value, if that is what it is.
pub open spec fn sstr_of(b: SBound) -> Option<Seq<char>> {
    match b {
        SBound::SV(SVal::SStr(s)) => Some(s),
        _ => None,
    }
}

/// What a binary operator yields on two modelled operands.
pub open spec fn sbinop_spec(kind: BinOpKind, l: SBound, r: SBound) -> Result<SBound, Error> {
    match kind {
        BinOpKind::Eql => Ok(SBound::SV(SVal::SBool(sbound_eq(l, r)))),
        _ => match (sint_of(l), sint_of(r)) {
            (Some(x), Some(y)) => match arith_spec(kind, x, y) {
                Ok(n) => Ok(SBound::SV(SVal::SInt(n))),
                Err(e) => Err(e),
            },
            _ => Err(Error::ArithmeticOnNonInt),
        },
    }
}

/// What dispatching a builtin yields on a modelled argument: the result,
/// and what it prints.
pub open spec fn sbuiltin_spec(name: String, arg: SBound) -> (Result<SBound, Error>, Seq<char>) {
    if name@ == "str_of_int"@ {
        match sint_of(arg) {
            Some(n) => (Ok(SBound::SV(SVal::SStr(int_rendered(n as int)))), Seq::empty()),
            None => (Err(Error::BuiltinTypeMismatch), Seq::empty()),
        }
    } else if name@ == "println"@ {
        match sstr_of(arg) {
            Some(s) => (Ok(SBound::SV(SVal::SUnit)), s + seq!['\n']),
            None => (Err(Error::BuiltinTypeMismatch), Seq::empty()),
        }
    } else {
        (Err(Error::BuiltinNotFound { name }), Seq::empty())
    }
}

/// Big-step evaluation: the result of evaluating `e` under `env` with
/// budget `fuel`, and the characters printed, in order.  Literals cost no
/// fuel; every recursive step costs one unit.
pub open spec fn eval_spec(env: Seq<SBinding>, e: Expr, fuel: nat) -> (Result<SBound, Error>, Seq<
    char,
>)
    decreases fuel, 3nat,
{
    match e {
        Expr::Int(i) => (Ok(SBound::SV(SVal::SInt(i.n))), Seq::empty()),
        Expr::Str(s) => (Ok(SBound::SV(SVal::SStr(s.s@))), Seq::empty()),
        Expr::Unit => (Ok(SBound::SV(SVal::SUnit)), Seq::empty()),
        Expr::Bool(b) => (Ok(SBound::SV(SVal::SBool(b.b))), Seq::empty()),
        Expr::Var(v) => (
            match slookup(env, v.name@) {
                Some(b) => Ok(b),
                None => Err(Error::NotBound { name: v.name }),
            },
            Seq::empty(),
        ),
        Expr::Fun(f) => (
            Ok(SBound::SV(SVal::SClos { arg: f.arg@, body: *f.body, env })),
            Seq::empty(),
        ),
        Expr::BinOp(b) => {
            if fuel == 0 {
                (Err(Error::OutOfFuel), Seq::empty())
            } else {
                match b.kind {
                    BinOpKind::Eql => {
                        let (lr, lo) = eval_spec(env, *b.left, (fuel - 1) as nat);
                        match lr {
                            Err(e) => (Err(e), lo),
                            Ok(lv) => {
                                let (rr, ro) = eval_spec(env, *b.right, (fuel - 1) as nat);
                                match rr {
                                    Err(e) => (Err(e), lo + ro),
                                    Ok(rv) => (sbinop_spec(BinOpKind::Eql, lv, rv), lo + ro),
                                }
                            },
                        }
                    },
                    _ => eval_arith_spec(env, *b.left, *b.right, b.kind, (fuel - 1) as nat),
                }
            }
        },
        Expr::App(a) => {
            if fuel == 0 {
                (Err(Error::OutOfFuel), Seq::empty())
            } else {
                let (fr, fo) = eval_spec(env, *a.fun, (fuel - 1) as nat);
                match fr {
                    Err(e) => (Err(e), fo),
                    Ok(fv) => match fv {
                        SBound::SV(SVal::SClos { arg, body, env: cenv }) => {
                            let (ar, ao) = eval_spec(env, *a.arg, (fuel - 1) as nat);
                            match ar {
                                Err(e) => (Err(e), fo + ao),
                                Ok(av) => {
                                    let (br, bo) = eval_with_binding_spec(
                                        cenv,
                                        arg,
                                        av,
                                        body,
                                        (fuel - 1) as nat,
                                    );
                                    (br, fo + ao + bo)
                                },
                            }
                        },
                        SBound::SV(SVal::SBuiltin(name)) => {
                            let (ar, ao) = eval_spec(env, *a.arg, (fuel - 1) as nat);
                            match ar {
                                Err(e) => (Err(e), fo + ao),
                                Ok(av) => {
                                    let (br, bo) = sbuiltin_spec(name, av);
                                    (br, fo + ao + bo)
                                },
                            }
                        },
                        SBound::STh(texpr) => {
                            let (tr, to) = eval_spec(
                                env,
                                Expr::App(App { fun: Box::new(texpr), arg: a.arg }),
                                (fuel - 1) as nat,
                            );
                            (tr, fo + to)
                        },
                        _ => (Err(Error::ApplyNonFunction), fo),
                    },
                }
            }
        },
        Expr::Let(l) => {
            if fuel == 0 {
                (Err(Error::OutOfFuel), Seq::empty())
            } else {
                let (vr, vo) = eval_let_value_spec(env, l.name@, *l.value, l.rec, (fuel - 1) as nat);
                match vr {
                    Err(e) => (Err(e), vo),
                    Ok(v) => {
                        let (br, bo) = eval_with_binding_spec(
                            env,
                            l.name@,
                            v,
                            *l.body,
                            (fuel - 1) as nat,
                        );
                        (br, vo + bo)
                    },
                }
            }
        },
        Expr::If(i) => {
            if fuel == 0 {
                (Err(Error::OutOfFuel), Seq::empty())
            } else {
                let (cr, co) = eval_spec(env, *i.check, (fuel - 1) as nat);
                match cr {
                    Err(e) => (Err(e), co),
                    Ok(cv) => match cv {
                        SBound::SV(SVal::SBool(b)) => {
                            let (br, bo) = if b {
                                eval_spec(env, *i.thn, (fuel - 1) as nat)
                            } else {
                                eval_spec(env, *i.els, (fuel - 1) as nat)
                            };
                            (br, co + bo)
                        },
                        _ => (Err(Error::IfConditionNotBool), co),
                    },
                }
            }
        },
    }
}

/// Evaluate the operands of an arithmetic operator, left before right, and
/// apply it.
pub open spec fn eval_arith_spec(
    env: Seq<SBinding>,
    left: Expr,
    right: Expr,
    kind: BinOpKind,
    fuel: nat,
) -> (Result<SBound, Error>, Seq<char>)
    decreases fuel, 2nat,
{
    if fuel == 0 {
        (Err(Error::OutOfFuel), Seq::empty())
    } else {
        let (lr, lo) = eval_spec(env, left, (fuel - 1) as nat);
        match lr {
            Err(e) => (Err(e), lo),
            Ok(lv) => {
                let (rr, ro) = eval_spec(env, right, (fuel - 1) as nat);
                match rr {
                    Err(e) => (Err(e), lo + ro),
                    Ok(rv) => (sbinop_spec(kind, lv, rv), lo + ro),
                }
            },
        }
    }
}

/// Evaluate a binding's right-hand side.  A recursive one sees its own
/// name as the unevaluated expression while it runs.
pub open spec fn eval_let_value_spec(
    env: Seq<SBinding>,
    name: Seq<char>,
    value: Expr,
    rec: bool,
    fuel: nat,
) -> (Result<SBound, Error>, Seq<char>)
    decreases fuel, 1nat,
{
    if fuel == 0 {
        (Err(Error::OutOfFuel), Seq::empty())
    } else {
        if rec {
            eval_with_binding_spec(env, name, SBound::STh(value), value, (fuel - 1) as nat)
        } else {
            eval_spec(env, value, (fuel - 1) as nat)
        }
    }
}

/// Evaluate `e` with one extra binding in scope.
pub open spec fn eval_with_binding_spec(
    env: Seq<SBinding>,
    name: Seq<char>,
    value: SBound,
    e: Expr,
    fuel: nat,
) -> (Result<SBound, Error>, Seq<char>)
    decreases fuel, 0nat,
{
    if fuel == 0 {
        (Err(Error::OutOfFuel), Seq::empty())
    } else {
        eval_spec(env.push(SBinding { name, value }), e, (fuel - 1) as nat)
    }
}

/// Fold the statements through the model: each `let` evaluates its value
/// under the given per-statement budget and binds it; each `declare` binds
/// the name to the builtin of the same name.  The first failure stops the
/// fold; printed characters accumulate either way.
pub open spec fn stmts_fold(env: Seq<SBinding>, out: Seq<char>, stmts: Seq<Stmt>, fuel: nat) -> Result<
    (Seq<SBinding>, Seq<char>),
    (Error, Seq<char>),
>
    decreases stmts.len(),
{
    if stmts.len() == 0 {
        Ok((env, out))
    } else {
        match stmts_fold(env, out, stmts.drop_last(), fuel) {
            Err(e) => Err(e),
            Ok(p) => match stmts.last() {
                Stmt::Let(l) => {
                    let (vr, vo) = eval_let_value_spec(p.0, l.name@, *l.value, l.rec, fuel);
                    match vr {
                        Err(e) => Err((e, p.1 + vo)),
                        Ok(v) => Ok((p.0.push(SBinding { name: l.name@, value: v }), p.1 + vo)),
                    }
                },
                Stmt::Declare(d) => Ok(
                    (
                        p.0.push(SBinding { name: d.name@, value: SBound::SV(SVal::SBuiltin(d.name)) }),
                        p.1,
                    ),
                ),
            },
        }
    }
}

/// A failed fold of a prefix is the fold of the whole.
pub proof fn lemma_fold_err_persists(
    env: Seq<SBinding>,
    out: Seq<char>,
    stmts: Seq<Stmt>,
    k: int,
    fuel: nat,
)
    requires
        0 <= k <= stmts.len(),
        stmts_fold(env, out, stmts.take(k), fuel) is Err,
    ensures
        stmts_fold(env, out, stmts, fuel) == stmts_fold(env, out, stmts.take(k), fuel),
    decreases stmts.len() - k,
{
    if k == stmts.len() {
        assert(stmts.take(k) =~= stmts);
    } else {
        assert(stmts.take(k + 1).drop_last() =~= stmts.take(k));
        assert(stmts.take(k + 1).last() == stmts[k]);
        lemma_fold_err_persists(env, out, stmts, k + 1, fuel);
    }
}

/// The meaning of a whole run: fold the statements from an empty
/// environment, then resolve `main` to a finished value.
pub open spec fn run_spec(p: Program, fuel: nat) -> (Result<SVal, Error>, Seq<char>) {
    match stmts_fold(Seq::empty(), Seq::empty(), p.stmts@, fuel) {
        Err(e) => (Err(e.0), e.1),
        Ok(fin) => (
            match slookup(fin.0, "main"@) {
                None => Err(Error::MainNotFound),
                Some(SBound::SV(v)) => Ok(v),
                Some(SBound::STh(_)) => Err(Error::FinalValueNotEvaluated),
            },
            fin.1,
        ),
    }
}

/// The model of a finished run's result.
pub open spec fn sval_res_of(r: Result<Value, Error>) -> Result<SVal, Error> {
    match r {
        Ok(v) => Ok(sval_of(v)),
        Err(e) => Err(e),
    }
}

/// The modelled binary operator agrees with the runtime one.
pub proof fn lemma_sbinop(kind: BinOpKind, l: BoundValue, r: BoundValue)
    ensures
        sres_of(super::binop_spec(kind, l, r)) == sbinop_spec(kind, sbound_of(l), sbound_of(r)),
{
    lemma_sbound_eq(l, r);
}

} // verus!
