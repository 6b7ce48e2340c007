//! Evaluation: a tree-walking interpreter over persistent lexical
//! environments.
//!
//! Expressions evaluate strictly, left to right.  A function literal
//! captures the environment in effect where it stands; an application runs
//! the closure's body against that captured environment plus the one new
//! argument binding.  The right-hand side of a recursive binding sees its
//! own name as an unevaluated thunk until it finishes.  Every recursive
//! walk carries an explicit step budget, the analogue of the host call
//! stack.

pub mod builtins;
pub mod env;
pub mod model;

use vstd::prelude::*;
use vstd::string::StringExecFns;

use crate::ast::expr::{App, BinOp, BinOpKind, Bool, Expr, If, Int, Let, Var};
use crate::ast::stmt::{stmt_name, Stmt};
use crate::ast::Program;
use crate::value::Value;

use self::builtins::Builtins;
use self::env::{bound_value_eq_spec, lookup_spec, BoundValue, Env};
use self::builtins::{int_arg, str_arg, str_result};
use self::model::{
    eval_arith_spec, eval_let_value_spec, eval_spec, eval_with_binding_spec,
    lemma_fold_err_persists, lemma_sbinop, lemma_schain_of_view, lemma_slookup_of_view, run_spec,
    sbound_of, sbuiltin_spec, schain_of, senv_of_view, slookup, sres_of, stmts_fold, sval_of,
    sval_res_of, SBinding, SBound, SVal,
};
use crate::pretty::int_rendered;

verus! {

/// Why evaluation failed.
#[derive(PartialEq, Eq, Debug)]
pub enum Error {
    /// A variable had no binding.  The type checker rejects such programs.
    NotBound { name: String },
    /// Something other than a closure or builtin stood in function position.
    ApplyNonFunction,
    /// The condition of an `if` did not reduce to a boolean.
    IfConditionNotBool,
    /// An arithmetic operand did not reduce to an integer.
    ArithmeticOnNonInt,
    /// Division or remainder by zero.
    DivisionByZero,
    /// A name was applied as a builtin but the registry does not know it.
    BuiltinNotFound { name: String },
    /// A builtin was applied to a value of the wrong shape.
    BuiltinTypeMismatch,
    /// The program has no binding named `main`.
    MainNotFound,
    /// The final value was still an unforced thunk.
    FinalValueNotEvaluated,
    /// The step budget ran out: the analogue of host call-stack
    /// exhaustion on pathologically deep or non-terminating programs.
    OutOfFuel,
}

/// The step budget [`run_program`] evaluates under.
pub const EVAL_FUEL: u64 = 1_000_000_000;

/// The integer under a bound value, if that is what it is.
pub open spec fn int_value(b: BoundValue) -> Option<i64> {
    match b {
        BoundValue::Value(Value::Int(i)) => Some(i.n),
        _ => None,
    }
}

/// What an arithmetic operator yields on two integers: wrapping addition,
/// subtraction and multiplication; truncated division and remainder, with
/// a zero divisor reported and the one overflowing quotient wrapping.
pub open spec fn arith_spec(kind: BinOpKind, x: i64, y: i64) -> Result<i64, Error> {
    match kind {
        BinOpKind::Add => Ok(x.wrapping_add(y)),
        BinOpKind::Sub => Ok(x.wrapping_sub(y)),
        BinOpKind::Mul => Ok(x.wrapping_mul(y)),
        BinOpKind::Div => if y == 0 {
            Err(Error::DivisionByZero)
        } else {
            match x.checked_div(y) {
                Some(q) => Ok(q),
                None => Ok(i64::MIN),
            }
        },
        BinOpKind::Rem => if y == 0 {
            Err(Error::DivisionByZero)
        } else {
            match x.checked_rem(y) {
                Some(m) => Ok(m),
                None => Ok(0i64),
            }
        },
        BinOpKind::Eql => Err(Error::ArithmeticOnNonInt),
    }
}

/// What a binary operator yields on two evaluated operands: `Eql` compares
/// structurally, the arithmetic kinds demand integers.
pub open spec fn binop_spec(kind: BinOpKind, l: BoundValue, r: BoundValue) -> Result<
    BoundValue,
    Error,
> {
    match kind {
        BinOpKind::Eql => Ok(
            BoundValue::Value(Value::Bool(Bool { b: bound_value_eq_spec(l, r) })),
        ),
        _ => match (int_value(l), int_value(r)) {
            (Some(x), Some(y)) => match arith_spec(kind, x, y) {
                Ok(n) => Ok(BoundValue::Value(Value::Int(Int { n }))),
                Err(e) => Err(e),
            },
            _ => Err(Error::ArithmeticOnNonInt),
        },
    }
}

/// Apply a binary operator to two evaluated operands.
pub fn apply_binop(kind: BinOpKind, l: BoundValue, r: BoundValue) -> (res: Result<
    BoundValue,
    Error,
>)
    ensures
        res == binop_spec(kind, l, r),
{
    match kind {
        BinOpKind::Eql => {
            let b = l.eq(&r);
            Ok(BoundValue::Value(Value::Bool(Bool { b })))
        },
        _ => {
            let x = match &l {
                BoundValue::Value(Value::Int(i)) => i.n,
                _ => {
                    return Err(Error::ArithmeticOnNonInt);
                },
            };
            let y = match &r {
                BoundValue::Value(Value::Int(i)) => i.n,
                _ => {
                    return Err(Error::ArithmeticOnNonInt);
                },
            };
            let n = match kind {
                BinOpKind::Add => x.wrapping_add(y),
                BinOpKind::Sub => x.wrapping_sub(y),
                BinOpKind::Mul => x.wrapping_mul(y),
                BinOpKind::Div => {
                    if y == 0 {
                        return Err(Error::DivisionByZero);
                    }
                    match x.checked_div(y) {
                        Some(q) => q,
                        None => i64::MIN,
                    }
                },
                BinOpKind::Rem => {
                    if y == 0 {
                        return Err(Error::DivisionByZero);
                    }
                    match x.checked_rem(y) {
                        Some(m) => m,
                        None => 0,
                    }
                },
                BinOpKind::Eql => {
                    // Handled by the first arm of the outer match.
                    proof {
                        assert(false);
                    }
                    0
                },
            };
            Ok(BoundValue::Value(Value::Int(Int { n })))
        },
    }
}

/// What the registry's dispatch contract says, read in model terms.
proof fn lemma_builtin_model(
    name: String,
    argv: BoundValue,
    r: Result<BoundValue, Error>,
    pre: Seq<char>,
    post: Seq<char>,
)
    requires
        name@ == "str_of_int"@ ==> post == pre && (match int_arg(argv) {
            Some(n) => r is Ok && str_result(r) == Some(int_rendered(n)),
            None => r == Err::<BoundValue, Error>(Error::BuiltinTypeMismatch),
        }),
        name@ == "println"@ ==> (match str_arg(argv) {
            Some(s) => r == Ok::<BoundValue, Error>(BoundValue::Value(Value::Unit)) && post == pre
                + s + seq!['\n'],
            None => r == Err::<BoundValue, Error>(Error::BuiltinTypeMismatch) && post == pre,
        }),
        name@ != "str_of_int"@ && name@ != "println"@ ==> r == Err::<BoundValue, Error>(
            Error::BuiltinNotFound { name },
        ) && post == pre,
    ensures
        sres_of(r) == sbuiltin_spec(name, sbound_of(argv)).0,
        post == pre + sbuiltin_spec(name, sbound_of(argv)).1,
{
    if name@ == "str_of_int"@ {
        match int_arg(argv) {
            Some(n) => {
                let bv = r->Ok_0;
                assert(str_arg(bv) == Some(int_rendered(n)));
                assert(sbound_of(bv) == SBound::SV(SVal::SStr(int_rendered(n))));
                assert(pre + Seq::<char>::empty() =~= pre);
            },
            None => {
                assert(pre + Seq::<char>::empty() =~= pre);
            },
        }
    } else if name@ == "println"@ {
        match str_arg(argv) {
            Some(s) => {
                assert(post =~= pre + (s + seq!['\n']));
            },
            None => {
                assert(pre + Seq::<char>::empty() =~= pre);
            },
        }
    } else {
        assert(pre + Seq::<char>::empty() =~= pre);
    }
}

/// Looking a name up just past a new binding: the new binding answers for
/// its own name, everything else is as before.
proof fn lemma_lookup_push(
    s: Seq<(Seq<char>, BoundValue)>,
    p: (Seq<char>, BoundValue),
    n: Seq<char>,
)
    ensures
        lookup_spec(s.push(p), n) == if p.0 == n {
            Some(p.1)
        } else {
            lookup_spec(s, n)
        },
{
    assert(s.push(p).last() == p);
    assert(s.push(p).drop_last() =~= s);
}

/// A finished run must end in a value, not a thunk.
pub fn check_fully_evaluated(v: BoundValue) -> (r: Result<Value, Error>)
    ensures
        v matches BoundValue::Value(x) ==> r == Ok::<Value, Error>(x),
        v is Thunk ==> r == Err::<Value, Error>(Error::FinalValueNotEvaluated),
{
    match v {
        BoundValue::Value(v) => Ok(v),
        BoundValue::Thunk(_) => Err(Error::FinalValueNotEvaluated),
    }
}

/// The evaluator: the current environment and the builtins registry with
/// its output buffer.
pub struct Evaluator {
    env: Env,
    builtins: Builtins,
}

impl Evaluator {
    /// Everything the run has printed so far.
    pub closed spec fn out(&self) -> Seq<char> {
        self.builtins.output()
    }

    /// The current environment itself, as a closure would capture it.
    pub closed spec fn env_val(&self) -> Env {
        self.env
    }

    /// The current environment's bindings.
    pub closed spec fn env_seq(&self) -> Seq<(Seq<char>, BoundValue)> {
        self.env@
    }

    /// A fresh evaluator: empty environment, nothing printed.
    pub fn new() -> (r: Evaluator)
        ensures
            r.env_seq() == Seq::<(Seq<char>, BoundValue)>::empty(),
            r.out() == Seq::<char>::empty(),
    {
        Evaluator { env: Env::new(), builtins: Builtins::new() }
    }

    /// The output buffer.
    pub fn output_str(&self) -> (r: &String)
        ensures
            r@ == self.out(),
    {
        self.builtins.output_str()
    }

    /// Evaluate an expression under the current environment, spending at
    /// least one unit of `fuel` per subexpression walked.
    ///
    /// The environment is exactly as before when evaluation returns, and
    /// output only ever grows.  Literals evaluate to themselves; a variable
    /// to its bound value, or `NotBound`; a function literal to a closure
    /// over the current environment.
    pub fn eval(&mut self, expr: &Expr, fuel: u64) -> (r: Result<BoundValue, Error>)
        ensures
            final(self).env_seq() == old(self).env_seq(),
            old(self).out().is_prefix_of(final(self).out()),
            expr is Int ==> r == Ok::<BoundValue, Error>(
                BoundValue::Value(Value::Int(expr->Int_0)),
            ) && final(self).out() == old(self).out(),
            expr is Str ==> r == Ok::<BoundValue, Error>(
                BoundValue::Value(Value::Str(expr->Str_0)),
            ) && final(self).out() == old(self).out(),
            expr is Unit ==> r == Ok::<BoundValue, Error>(BoundValue::Value(Value::Unit)) && final(self).out() == old(self).out(),
            expr is Bool ==> r == Ok::<BoundValue, Error>(
                BoundValue::Value(Value::Bool(expr->Bool_0)),
            ) && final(self).out() == old(self).out(),
            expr is Var ==> r == (match lookup_spec(old(self).env_seq(), expr->Var_0.name@) {
                Some(v) => Ok::<BoundValue, Error>(v),
                None => Err::<BoundValue, Error>(Error::NotBound { name: expr->Var_0.name }),
            }) && final(self).out() == old(self).out(),
            expr is Fun ==> r == Ok::<BoundValue, Error>(
                BoundValue::Value(Value::Fun { fun: expr->Fun_0, env: old(self).env_val() }),
            ) && final(self).out() == old(self).out(),
            fuel >= 2 && expr is BinOp && (*expr->BinOp_0.left) is Int && (*expr->BinOp_0.right)
                is Int ==> r == binop_spec(
                expr->BinOp_0.kind,
                BoundValue::Value(Value::Int((*expr->BinOp_0.left)->Int_0)),
                BoundValue::Value(Value::Int((*expr->BinOp_0.right)->Int_0)),
            ) && final(self).out() == old(self).out(),
            sres_of(r) == eval_spec(senv_of_view(old(self).env_seq()), *expr, fuel as nat).0,
            final(self).out() == old(self).out() + eval_spec(
                senv_of_view(old(self).env_seq()),
                *expr,
                fuel as nat,
            ).1,
            r is Err ==> !(r->Err_0 is MainNotFound),
        decreases fuel,
    {
        proof {
            assert(self.out().is_prefix_of(self.out()));
            assert(self.out() + Seq::<char>::empty() =~= self.out());
        }
        match expr {
            Expr::Int(n) => Ok(BoundValue::Value(Value::Int(n.clone()))),
            Expr::Str(s) => Ok(BoundValue::Value(Value::Str(s.clone()))),
            Expr::Unit => Ok(BoundValue::Value(Value::Unit)),
            Expr::Bool(b) => Ok(BoundValue::Value(Value::Bool(b.clone()))),
            Expr::Var(Var { name }) => {
                proof {
                    lemma_slookup_of_view(self.env@, name@);
                }
                match self.env.lookup(name) {
                    Some(v) => Ok(v),
                    None => Err(Error::NotBound { name: name.clone() }),
                }
            },
            Expr::Fun(fun) => {
                proof {
                    lemma_schain_of_view(&self.env.head);
                }
                Ok(BoundValue::Value(Value::Fun { fun: fun.clone(), env: self.env.clone_env() }))
            },
            Expr::BinOp(BinOp { left, right, kind }) => {
                if fuel == 0 {
                    return Err(Error::OutOfFuel);
                }
                match kind {
                    BinOpKind::Eql => {
                        let ghost menv = senv_of_view(self.env@);
                        let ghost o0 = self.out();
                        let ghost lo = eval_spec(menv, **left, (fuel - 1) as nat).1;
                        let ghost ro = eval_spec(menv, **right, (fuel - 1) as nat).1;
                        let lv = self.eval(&**left, fuel - 1)?;
                        let ghost o1 = self.out();
                        let rv = match self.eval(&**right, fuel - 1) {
                            Ok(v) => v,
                            Err(e) => {
                                proof {
                                    lemma_prefix_trans(o0, o1, self.out());
                                    assert((o0 + lo) + ro =~= o0 + (lo + ro));
                                }
                                return Err(e);
                            },
                        };
                        let ghost glv = lv;
                        let ghost grv = rv;
                        proof {
                            lemma_prefix_trans(o0, o1, self.out());
                            lemma_sbinop(BinOpKind::Eql, glv, grv);
                            assert((o0 + lo) + ro =~= o0 + (lo + ro));
                        }
                        apply_binop(BinOpKind::Eql, lv, rv)
                    },
                    _ => self.eval_arith(&**left, &**right, *kind, fuel - 1),
                }
            },
            Expr::App(App { fun, arg }) => {
                if fuel == 0 {
                    return Err(Error::OutOfFuel);
                }
                let ghost menv = senv_of_view(self.env@);
                let ghost o0 = self.out();
                let ghost fo = eval_spec(menv, **fun, (fuel - 1) as nat).1;
                let ghost ao = eval_spec(menv, **arg, (fuel - 1) as nat).1;
                let fv = self.eval(&**fun, fuel - 1)?;
                let ghost gfv = fv;
                let ghost o1 = self.out();
                match fv {
                    BoundValue::Value(Value::Fun { fun: clos, env: fun_env }) => {
                        proof {
                            assert(sbound_of(gfv) == (SBound::SV(
                                SVal::SClos {
                                    arg: clos.arg@,
                                    body: *clos.body,
                                    env: schain_of(fun_env.head),
                                },
                            )));
                        }
                        let argv = match self.eval(&**arg, fuel - 1) {
                            Ok(v) => v,
                            Err(e) => {
                                proof {
                                    lemma_prefix_trans(o0, o1, self.out());
                                    assert((o0 + fo) + ao =~= o0 + (fo + ao));
                                }
                                return Err(e);
                            },
                        };
                        let ghost gargv = argv;
                        let ghost o2 = self.out();
                        let ghost bo = eval_with_binding_spec(
                            senv_of_view(fun_env@),
                            clos.arg@,
                            sbound_of(gargv),
                            *clos.body,
                            (fuel - 1) as nat,
                        ).1;
                        let mut temp_env = fun_env;
                        proof {
                            lemma_schain_of_view(&temp_env.head);
                        }
                        core::mem::swap(&mut self.env, &mut temp_env);
                        let result = self.eval_with_binding(
                            &clos.arg,
                            argv,
                            &*clos.body,
                            fuel - 1,
                        );
                        core::mem::swap(&mut self.env, &mut temp_env);
                        proof {
                            lemma_prefix_trans(o0, o1, o2);
                            lemma_prefix_trans(o0, o2, self.out());
                            assert(((o0 + fo) + ao) + bo =~= o0 + ((fo + ao) + bo));
                        }
                        result
                    },
                    BoundValue::Value(Value::Builtin(builtin)) => {
                        let argv = match self.eval(&**arg, fuel - 1) {
                            Ok(v) => v,
                            Err(e) => {
                                proof {
                                    lemma_prefix_trans(o0, o1, self.out());
                                    assert((o0 + fo) + ao =~= o0 + (fo + ao));
                                }
                                return Err(e);
                            },
                        };
                        let ghost gargv = argv;
                        let ghost o2 = self.out();
                        let r = self.builtins.eval(&builtin, argv);
                        let ghost gr = r;
                        proof {
                            lemma_prefix_trans(o0, o1, o2);
                            lemma_prefix_trans(o0, o2, self.out());
                            lemma_builtin_model(builtin, gargv, gr, o2, self.out());
                            let bo = sbuiltin_spec(builtin, sbound_of(gargv)).1;
                            assert(((o0 + fo) + ao) + bo =~= o0 + ((fo + ao) + bo));
                        }
                        r
                    },
                    BoundValue::Thunk(texpr) => {
                        let new_expr = Expr::App(
                            App { fun: Box::new(texpr), arg: Box::new((&**arg).clone()) },
                        );
                        let ghost to = eval_spec(menv, new_expr, (fuel - 1) as nat).1;
                        let r = self.eval(&new_expr, fuel - 1);
                        proof {
                            lemma_prefix_trans(o0, o1, self.out());
                            assert((o0 + fo) + to =~= o0 + (fo + to));
                        }
                        r
                    },
                    _ => {
                        proof {
                            lemma_prefix_trans(o0, o1, self.out());
                        }
                        Err(Error::ApplyNonFunction)
                    },
                }
            },
            Expr::Let(Let { name, value, body, rec }) => {
                if fuel == 0 {
                    return Err(Error::OutOfFuel);
                }
                let ghost menv = senv_of_view(self.env@);
                let ghost o0 = self.out();
                let ghost vo = eval_let_value_spec(menv, name@, **value, *rec, (fuel - 1) as nat).1;
                let v = self.eval_let_value(name, &**value, *rec, fuel - 1)?;
                let ghost gv = v;
                let ghost o1 = self.out();
                let ghost bo = eval_with_binding_spec(menv, name@, sbound_of(gv), **body, (
                fuel - 1) as nat).1;
                let r = self.eval_with_binding(name, v, &**body, fuel - 1);
                proof {
                    lemma_prefix_trans(o0, o1, self.out());
                    assert((o0 + vo) + bo =~= o0 + (vo + bo));
                }
                r
            },
            Expr::If(If { check, thn, els }) => {
                if fuel == 0 {
                    return Err(Error::OutOfFuel);
                }
                let ghost menv = senv_of_view(self.env@);
                let ghost o0 = self.out();
                let ghost co = eval_spec(menv, **check, (fuel - 1) as nat).1;
                let cond = self.eval(&**check, fuel - 1)?;
                let ghost gcond = cond;
                let ghost o1 = self.out();
                match cond {
                    BoundValue::Value(Value::Bool(Bool { b })) => {
                        let ghost bo = if b {
                            eval_spec(menv, **thn, (fuel - 1) as nat).1
                        } else {
                            eval_spec(menv, **els, (fuel - 1) as nat).1
                        };
                        let r = if b {
                            self.eval(&**thn, fuel - 1)
                        } else {
                            self.eval(&**els, fuel - 1)
                        };
                        proof {
                            lemma_prefix_trans(o0, o1, self.out());
                            assert((o0 + co) + bo =~= o0 + (co + bo));
                        }
                        r
                    },
                    _ => Err(Error::IfConditionNotBool),
                }
            },
        }
    }

    /// Evaluate the operands of an arithmetic operator, left before right,
    /// and apply it.
    fn eval_arith(&mut self, left: &Expr, right: &Expr, kind: BinOpKind, fuel: u64) -> (r: Result<
        BoundValue,
        Error,
    >)
        ensures
            final(self).env_seq() == old(self).env_seq(),
            old(self).out().is_prefix_of(final(self).out()),
            fuel >= 1 && *left is Int && *right is Int ==> r == binop_spec(
                kind,
                BoundValue::Value(Value::Int(left->Int_0)),
                BoundValue::Value(Value::Int(right->Int_0)),
            ) && final(self).out() == old(self).out(),
            sres_of(r) == eval_arith_spec(
                senv_of_view(old(self).env_seq()),
                *left,
                *right,
                kind,
                fuel as nat,
            ).0,
            final(self).out() == old(self).out() + eval_arith_spec(
                senv_of_view(old(self).env_seq()),
                *left,
                *right,
                kind,
                fuel as nat,
            ).1,
            r is Err ==> !(r->Err_0 is MainNotFound),
        decreases fuel,
    {
        proof {
            assert(self.out().is_prefix_of(self.out()));
            assert(self.out() + Seq::<char>::empty() =~= self.out());
        }
        if fuel == 0 {
            return Err(Error::OutOfFuel);
        }
        let ghost menv = senv_of_view(self.env@);
        let ghost o0 = self.out();
        let ghost lo = eval_spec(menv, *left, (fuel - 1) as nat).1;
        let ghost ro = eval_spec(menv, *right, (fuel - 1) as nat).1;
        let lv = self.eval(left, fuel - 1)?;
        let ghost o1 = self.out();
        let rv = match self.eval(right, fuel - 1) {
            Ok(v) => v,
            Err(e) => {
                proof {
                    lemma_prefix_trans(o0, o1, self.out());
                    assert((o0 + lo) + ro =~= o0 + (lo + ro));
                }
                return Err(e);
            },
        };
        let ghost glv = lv;
        let ghost grv = rv;
        proof {
            lemma_prefix_trans(o0, o1, self.out());
            lemma_sbinop(kind, glv, grv);
            assert((o0 + lo) + ro =~= o0 + (lo + ro));
        }
        apply_binop(kind, lv, rv)
    }

    /// Evaluate the right-hand side of a binding.  A recursive binding is
    /// evaluated with its own name bound to the unevaluated expression, so
    /// self-references resolve to the thunk and get forced on demand.
    fn eval_let_value(&mut self, name: &String, value: &Expr, rec: bool, fuel: u64) -> (r: Result<
        BoundValue,
        Error,
    >)
        ensures
            final(self).env_seq() == old(self).env_seq(),
            old(self).out().is_prefix_of(final(self).out()),
            sres_of(r) == eval_let_value_spec(
                senv_of_view(old(self).env_seq()),
                name@,
                *value,
                rec,
                fuel as nat,
            ).0,
            final(self).out() == old(self).out() + eval_let_value_spec(
                senv_of_view(old(self).env_seq()),
                name@,
                *value,
                rec,
                fuel as nat,
            ).1,
            r is Err ==> !(r->Err_0 is MainNotFound),
        decreases fuel,
    {
        proof {
            assert(self.out().is_prefix_of(self.out()));
            assert(self.out() + Seq::<char>::empty() =~= self.out());
        }
        if fuel == 0 {
            return Err(Error::OutOfFuel);
        }
        if rec {
            self.eval_with_binding(name, BoundValue::Thunk(value.clone()), value, fuel - 1)
        } else {
            self.eval(value, fuel - 1)
        }
    }

    /// Evaluate `expr` with one extra binding in scope, then drop it again.
    fn eval_with_binding(
        &mut self,
        name: &String,
        value: BoundValue,
        expr: &Expr,
        fuel: u64,
    ) -> (r: Result<BoundValue, Error>)
        ensures
            final(self).env_seq() == old(self).env_seq(),
            old(self).out().is_prefix_of(final(self).out()),
            sres_of(r) == eval_with_binding_spec(
                senv_of_view(old(self).env_seq()),
                name@,
                sbound_of(value),
                *expr,
                fuel as nat,
            ).0,
            final(self).out() == old(self).out() + eval_with_binding_spec(
                senv_of_view(old(self).env_seq()),
                name@,
                sbound_of(value),
                *expr,
                fuel as nat,
            ).1,
            r is Err ==> !(r->Err_0 is MainNotFound),
        decreases fuel,
    {
        proof {
            assert(self.out().is_prefix_of(self.out()));
            assert(self.out() + Seq::<char>::empty() =~= self.out());
        }
        if fuel == 0 {
            return Err(Error::OutOfFuel);
        }
        let ghost env0 = self.env@;
        let ghost nm = name@;
        let ghost v = value;
        self.env.push_binding(name, value);
        proof {
            assert(self.env@.last() == ((nm, v)));
            assert(self.env@.drop_last() =~= env0);
            assert(senv_of_view(self.env@) =~= senv_of_view(env0).push(
                (SBinding { name: nm, value: sbound_of(v) }),
            ));
        }
        let result = self.eval(expr, fuel - 1);
        self.env.pop_binding(name);
        proof {
            assert(env0.push((nm, v)).last() == ((nm, v)));
            assert(env0.push((nm, v)).drop_last() =~= env0);
            assert(self.env@ =~= env0);
        }
        result
    }
}

/// `a` is a prefix of anything `b` extends.
proof fn lemma_prefix_trans(a: Seq<char>, b: Seq<char>, c: Seq<char>)
    requires
        a.is_prefix_of(b),
        b.is_prefix_of(c),
    ensures
        a.is_prefix_of(c),
{
    assert(a =~= c.subrange(0, a.len() as int));
}

/// Evaluate a standalone expression to a finished value: the evaluation
/// model's result, with a still-unforced thunk reported and errors passed
/// through unchanged.
pub fn eval(evaluator: Evaluator, expr: Expr, fuel: u64) -> (r: Result<Value, Error>)
    ensures
        match eval_spec(senv_of_view(evaluator.env_seq()), expr, fuel as nat).0 {
            Ok(SBound::SV(v)) => r is Ok && sval_of(r->Ok_0) == v,
            Ok(SBound::STh(te)) => r == Err::<Value, Error>(Error::FinalValueNotEvaluated),
            Err(e) => r == Err::<Value, Error>(e),
        },
        expr is Int ==> r == Ok::<Value, Error>(Value::Int(expr->Int_0)),
        expr is Str ==> r == Ok::<Value, Error>(Value::Str(expr->Str_0)),
        expr is Unit ==> r == Ok::<Value, Error>(Value::Unit),
        expr is Bool ==> r == Ok::<Value, Error>(Value::Bool(expr->Bool_0)),
{
    let mut evaluator = evaluator;
    let v = evaluator.eval(&expr, fuel)?;
    check_fully_evaluated(v)
}

/// Whether some statement binds or declares `main`.
pub open spec fn has_main(p: Program) -> bool {
    exists|i: int| 0 <= i < p.stmts@.len() && stmt_name(#[trigger] p.stmts@[i]) == "main"@
}

/// The model's fold of the first `i` statements, from nothing.
spec fn folded(p: Program, i: int) -> Result<(Seq<SBinding>, Seq<char>), (Error, Seq<char>)> {
    stmts_fold(Seq::empty(), Seq::empty(), p.stmts@.take(i), EVAL_FUEL as nat)
}

/// Fold the statements through one evaluator and resolve `main`.
fn run_stmts(evaluator: &mut Evaluator, program: &Program) -> (r: Result<Value, Error>)
    requires
        old(evaluator).env_seq() == Seq::<(Seq<char>, BoundValue)>::empty(),
    ensures
        old(evaluator).out().is_prefix_of(final(evaluator).out()),
        r == Err::<Value, Error>(Error::MainNotFound) ==> !has_main(*program),
        !has_main(*program) ==> !(r is Ok),
        sval_res_of(r) == run_spec(*program, EVAL_FUEL as nat).0,
        final(evaluator).out() == old(evaluator).out() + run_spec(*program, EVAL_FUEL as nat).1,
{
    let ghost o0 = evaluator.out();
    proof {
        assert(o0.is_prefix_of(o0));
        assert(program.stmts@.take(0) =~= Seq::<Stmt>::empty());
        assert(senv_of_view(evaluator.env_seq()) =~= Seq::<SBinding>::empty());
        assert(o0 + Seq::<char>::empty() =~= o0);
    }
    let mut i: usize = 0;
    while i < program.stmts.len()
        invariant
            i <= program.stmts@.len(),
            o0 == old(evaluator).out(),
            o0.is_prefix_of(evaluator.out()),
            folded(*program, i as int) is Ok,
            (folded(*program, i as int))->Ok_0.0 == senv_of_view(evaluator.env_seq()),
            evaluator.out() == o0 + (folded(*program, i as int))->Ok_0.1,
            forall|n: Seq<char>|
                lookup_spec(evaluator.env_seq(), n) is Some ==> exists|j: int|
                    0 <= j < i && stmt_name(#[trigger] program.stmts@[j]) == n,
            forall|j: int|
                0 <= j < i ==> lookup_spec(
                    evaluator.env_seq(),
                    stmt_name(#[trigger] program.stmts@[j]),
                ) is Some,
        decreases program.stmts@.len() - i,
    {
        proof {
            assert(program.stmts@.take(i + 1).drop_last() =~= program.stmts@.take(i as int));
            assert(program.stmts@.take(i + 1).last() == program.stmts@[i as int]);
        }
        let ghost env_before = evaluator.env_seq();
        let ghost out_before = evaluator.out();
        let ghost pf = folded(*program, i as int);
        match &program.stmts[i] {
            Stmt::Let(l) => {
                let ghost vo = eval_let_value_spec(
                    senv_of_view(env_before),
                    l.name@,
                    *l.value,
                    l.rec,
                    EVAL_FUEL as nat,
                ).1;
                let v = match evaluator.eval_let_value(&l.name, &*l.value, l.rec, EVAL_FUEL) {
                    Ok(v) => v,
                    Err(e) => {
                        proof {
                            lemma_prefix_trans(o0, out_before, evaluator.out());
                            assert(folded(*program, i + 1) == Err::<
                                (Seq<SBinding>, Seq<char>),
                                (Error, Seq<char>),
                            >((e, pf->Ok_0.1 + vo)));
                            lemma_fold_err_persists(
                                Seq::empty(),
                                Seq::empty(),
                                program.stmts@,
                                i + 1,
                                EVAL_FUEL as nat,
                            );
                            assert(program.stmts@.take(program.stmts@.len() as int)
                                =~= program.stmts@);
                            assert(o0 + (pf->Ok_0.1 + vo) =~= (o0 + pf->Ok_0.1) + vo);
                        }
                        return Err(e);
                    },
                };
                let ghost gv = v;
                evaluator.env.push_binding(&l.name, v);
                proof {
                    lemma_prefix_trans(o0, out_before, evaluator.out());
                    assert(evaluator.env_seq().last() == ((l.name@, gv)));
                    assert(evaluator.env_seq().drop_last() =~= env_before);
                    assert(senv_of_view(evaluator.env_seq()) =~= senv_of_view(env_before).push(
                        (SBinding { name: l.name@, value: sbound_of(gv) }),
                    ));
                    assert(o0 + (pf->Ok_0.1 + vo) =~= (o0 + pf->Ok_0.1) + vo);
                    assert forall|n: Seq<char>|
                        lookup_spec(evaluator.env_seq(), n) is Some implies exists|j: int|
                        0 <= j < i + 1 && stmt_name(#[trigger] program.stmts@[j]) == n by {
                        lemma_lookup_push(env_before, evaluator.env_seq().last(), n);
                        if n == l.name@ {
                            assert(stmt_name(program.stmts@[i as int]) == n);
                        }
                    }
                    assert forall|j: int| 0 <= j < i + 1 implies lookup_spec(
                        evaluator.env_seq(),
                        stmt_name(#[trigger] program.stmts@[j]),
                    ) is Some by {
                        lemma_lookup_push(
                            env_before,
                            evaluator.env_seq().last(),
                            stmt_name(program.stmts@[j]),
                        );
                    }
                }
            },
            Stmt::Declare(d) => {
                evaluator.env.push_binding(
                    &d.name,
                    BoundValue::Value(Value::Builtin(d.name.clone())),
                );
                proof {
                    assert(evaluator.env_seq().last() == ((
                        d.name@,
                        BoundValue::Value(Value::Builtin(d.name)),
                    )));
                    assert(evaluator.env_seq().drop_last() =~= env_before);
                    assert(senv_of_view(evaluator.env_seq()) =~= senv_of_view(env_before).push(
                        (SBinding { name: d.name@, value: SBound::SV(SVal::SBuiltin(d.name)) }),
                    ));
                    assert forall|n: Seq<char>|
                        lookup_spec(evaluator.env_seq(), n) is Some implies exists|j: int|
                        0 <= j < i + 1 && stmt_name(#[trigger] program.stmts@[j]) == n by {
                        lemma_lookup_push(env_before, evaluator.env_seq().last(), n);
                        if n == d.name@ {
                            assert(stmt_name(program.stmts@[i as int]) == n);
                        }
                    }
                    assert forall|j: int| 0 <= j < i + 1 implies lookup_spec(
                        evaluator.env_seq(),
                        stmt_name(#[trigger] program.stmts@[j]),
                    ) is Some by {
                        lemma_lookup_push(
                            env_before,
                            evaluator.env_seq().last(),
                            stmt_name(program.stmts@[j]),
                        );
                    }
                }
            },
        }
        i = i + 1;
    }
    let main_name = String::from_str("main");
    proof {
        reveal_strlit("main");
        assert(program.stmts@.take(program.stmts@.len() as int) =~= program.stmts@);
        lemma_slookup_of_view(evaluator.env_seq(), "main"@);
    }
    match evaluator.env.lookup(&main_name) {
        None => {
            proof {
                if has_main(*program) {
                    let j = choose|j: int|
                        0 <= j < program.stmts@.len() && stmt_name(#[trigger] program.stmts@[j])
                            == "main"@;
                    assert(lookup_spec(evaluator.env_seq(), stmt_name(program.stmts@[j]))
                        is Some);
                }
            }
            Err(Error::MainNotFound)
        },
        Some(main) => {
            proof {
                if !has_main(*program) {
                    assert(lookup_spec(evaluator.env_seq(), "main"@) is Some);
                }
            }
            check_fully_evaluated(main)
        },
    }
}

/// Run a whole program: fold its statements through a fresh evaluator,
/// resolve `main`, and append everything the run printed to `stdout`.
///
/// A program in which no statement is named `main` never yields a value;
/// `MainNotFound` is reported exactly when every statement ran and no
/// binding for `main` was made.
///
/// This is the evaluation pass alone.  Type checking is a separate,
/// complete pass over the same statements
/// ([`crate::types::check_prog_to_strings`]); by the runner convention a
/// caller checks the whole program first and evaluates only if no type
/// error was reported, as the crate's own driver does.
pub fn run_program(program: &Program, stdout: &mut String) -> (r: Result<Value, Error>)
    ensures
        old(stdout)@.is_prefix_of(final(stdout)@),
        r == Err::<Value, Error>(Error::MainNotFound) ==> !has_main(*program),
        !has_main(*program) ==> !(r is Ok),
        sval_res_of(r) == run_spec(*program, EVAL_FUEL as nat).0,
        final(stdout)@ == old(stdout)@ + run_spec(*program, EVAL_FUEL as nat).1,
{
    let mut evaluator = Evaluator::new();
    let r = run_stmts(&mut evaluator, program);
    stdout.append(evaluator.output_str().as_str());
    proof {
        assert(old(stdout)@.is_prefix_of(stdout@));
        assert(Seq::<char>::empty() + run_spec(*program, EVAL_FUEL as nat).1 =~= run_spec(
            *program,
            EVAL_FUEL as nat,
        ).1);
    }
    r
}

} // verus!
