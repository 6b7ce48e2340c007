use pandalang::ast::expr::{App, BinOp, BinOpKind, Bool, Expr, Fun, Int, Let, Str, Var};
use pandalang::desugar::desugar_let;
use pandalang::managed_vec::{Idx, ManagedVec};
use pandalang::pretty::{i64_to_string, kind_to_string, pretty};
use pandalang::types::tvars::TVars;
use pandalang::types::{Level, TVar, TVarRef};

fn pp_int(n: i64) -> Expr {
    Expr::Int(Int { n })
}

fn pp_var(name: &str) -> Expr {
    Expr::Var(Var { name: name.to_string() })
}

#[test]
fn renders_integers() {
    assert_eq!(i64_to_string(0), "0");
    assert_eq!(i64_to_string(42), "42");
    assert_eq!(i64_to_string(-42), "-42");
    assert_eq!(i64_to_string(i64::MAX), "9223372036854775807");
    assert_eq!(i64_to_string(i64::MIN), "-9223372036854775808");
    assert_eq!(i64_to_string(1000), "1000");
}

#[test]
fn renders_operator_symbols() {
    assert_eq!(kind_to_string(BinOpKind::Add), "+");
    assert_eq!(kind_to_string(BinOpKind::Sub), "-");
    assert_eq!(kind_to_string(BinOpKind::Mul), "*");
    assert_eq!(kind_to_string(BinOpKind::Div), "/");
    assert_eq!(kind_to_string(BinOpKind::Rem), "%");
    assert_eq!(kind_to_string(BinOpKind::Eql), "==");
}

#[test]
fn renders_let_expression() {
    let e = Expr::Let(Let {
        name: "x".to_string(),
        value: Box::new(pp_int(1)),
        body: Box::new(Expr::BinOp(BinOp {
            left: Box::new(pp_var("x")),
            right: Box::new(pp_int(2)),
            kind: BinOpKind::Add,
        })),
        rec: false,
    });
    assert_eq!(pretty(&e), "let x = 1 in x + 2");
}

#[test]
fn renders_function_application_and_literals() {
    let e = Expr::App(pandalang::ast::expr::App {
        fun: Box::new(Expr::Fun(Fun { arg: "x".to_string(), body: Box::new(pp_var("x")) })),
        arg: Box::new(Expr::Str(Str { s: "hi".to_string() })),
    });
    assert_eq!(pretty(&e), "(fun x -> x) (\"hi\")");
    assert_eq!(pretty(&Expr::Unit), "()");
    assert_eq!(pretty(&Expr::Bool(Bool { b: true })), "true");
}

#[test]
fn desugar_rewrites_plain_let() {
    // let x = 1 in x  ==>  (fun x -> x) (1)
    let e = Expr::Let(Let {
        name: "x".to_string(),
        value: Box::new(pp_int(1)),
        body: Box::new(pp_var("x")),
        rec: false,
    });
    let expected = Expr::App(App {
        fun: Box::new(Expr::Fun(Fun { arg: "x".to_string(), body: Box::new(pp_var("x")) })),
        arg: Box::new(pp_int(1)),
    });
    assert_eq!(desugar_let(e), expected);
}

#[test]
fn desugar_keeps_recursive_let() {
    let e = Expr::Let(Let {
        name: "f".to_string(),
        value: Box::new(pp_var("f")),
        body: Box::new(pp_var("f")),
        rec: true,
    });
    let expected = Expr::Let(Let {
        name: "f".to_string(),
        value: Box::new(pp_var("f")),
        body: Box::new(pp_var("f")),
        rec: true,
    });
    assert_eq!(desugar_let(e), expected);
}

#[test]
fn managed_vec_round_trip() {
    let mut v: ManagedVec<u64> = ManagedVec::new();
    let a = v.add(|i: Idx| i.0 as u64 + 10);
    let b = v.add(|i: Idx| i.0 as u64 + 10);
    assert_eq!(a, Idx(0));
    assert_eq!(b, Idx(1));
    assert_eq!(*v.get(a), 10);
    assert_eq!(*v.get(b), 11);
    v.set(a, 99);
    assert_eq!(*v.get(a), 99);
}

#[test]
fn tvars_cells_know_their_references() {
    let mut tv = TVars::new();
    let r0 = tv.add(|r: TVarRef| TVar::Unbound(r, Level(0)));
    let r1 = tv.add(|r: TVarRef| TVar::Unbound(r, Level(3)));
    assert_eq!(r0, TVarRef(0));
    assert_eq!(r1, TVarRef(1));
    assert_eq!(*tv.get(r1), TVar::Unbound(TVarRef(1), Level(3)));
    tv.set(r0, TVar::Bound(pandalang::types::Type::Int));
    assert_eq!(*tv.get(r0), TVar::Bound(pandalang::types::Type::Int));
}
