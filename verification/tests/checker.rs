use pandalang::ast::expr::{App, BinOp, BinOpKind, Bool, Expr, Fun, If, Int, Let, Str, Var};
use pandalang::ast::stmt;
use pandalang::ast::stmt::Stmt;
use pandalang::ast::types as ast_types;
use pandalang::ast::Program;
use pandalang::types::check::{Checker, LINK_FUEL};
use pandalang::types::error::Error;
use pandalang::types::{check_expr_to_string, check_prog_to_strings, Type};

fn ck_int(n: i64) -> Expr {
    Expr::Int(Int { n })
}

fn ck_str(s: &str) -> Expr {
    Expr::Str(Str { s: s.to_string() })
}

fn ck_bool(b: bool) -> Expr {
    Expr::Bool(Bool { b })
}

fn ck_var(name: &str) -> Expr {
    Expr::Var(Var { name: name.to_string() })
}

fn ck_fun(arg: &str, body: Expr) -> Expr {
    Expr::Fun(Fun { arg: arg.to_string(), body: Box::new(body) })
}

fn ck_app(fun: Expr, arg: Expr) -> Expr {
    Expr::App(App { fun: Box::new(fun), arg: Box::new(arg) })
}

fn ck_let(name: &str, value: Expr, body: Expr, rec: bool) -> Expr {
    Expr::Let(Let { name: name.to_string(), value: Box::new(value), body: Box::new(body), rec })
}

fn ck_if(check: Expr, thn: Expr, els: Expr) -> Expr {
    Expr::If(If { check: Box::new(check), thn: Box::new(thn), els: Box::new(els) })
}

fn ck_binop(left: Expr, right: Expr, kind: BinOpKind) -> Expr {
    Expr::BinOp(BinOp { left: Box::new(left), right: Box::new(right), kind })
}

fn ck_stmt_let(name: &str, value: Expr, rec: bool) -> Stmt {
    Stmt::Let(stmt::Let { name: name.to_string(), value: Box::new(value), rec })
}

fn ck_stmt_declare(name: &str, typ: ast_types::Type) -> Stmt {
    Stmt::Declare(stmt::Declare { name: name.to_string(), typ })
}

fn ck_simple(name: &str) -> ast_types::Type {
    ast_types::Type::Simple(name.to_string())
}

fn ck_arrow(from: ast_types::Type, to: ast_types::Type) -> ast_types::Type {
    ast_types::Type::Fun(ast_types::Fun { from: Box::new(from), to: Box::new(to) })
}

fn ck_lookup(pairs: &[(String, String)], name: &str) -> String {
    for (n, t) in pairs {
        if n == name {
            return t.clone();
        }
    }
    panic!("no binding named {}", name);
}

#[test]
fn literals_have_base_types() {
    assert_eq!(check_expr_to_string(ck_int(3)).unwrap(), "Int");
    assert_eq!(check_expr_to_string(ck_str("hi")).unwrap(), "Str");
    assert_eq!(check_expr_to_string(Expr::Unit).unwrap(), "Unit");
    assert_eq!(check_expr_to_string(ck_bool(true)).unwrap(), "Bool");
}

#[test]
fn unbound_variable_is_not_in_scope() {
    assert_eq!(
        check_expr_to_string(ck_var("mystery")),
        Err(Error::NotInScope { name: "mystery".to_string() })
    );
}

#[test]
fn identity_function_type() {
    let id = ck_fun("x", ck_var("x"));
    assert_eq!(check_expr_to_string(id).unwrap(), "('a -> 'a)");
}

#[test]
fn occurs_check_rejects_infinite_type() {
    // let rec f = fun x -> f in f
    let e = ck_let("f", ck_fun("x", ck_var("f")), ck_var("f"), true);
    assert_eq!(check_expr_to_string(e), Err(Error::Occurs));
}

#[test]
fn occurs_check_rejects_self_application() {
    // fun x -> x x
    let e = ck_fun("x", ck_app(ck_var("x"), ck_var("x")));
    assert_eq!(check_expr_to_string(e), Err(Error::Occurs));
}

#[test]
fn let_polymorphism_two_uses() {
    // let id = fun x -> x in if id true then id 1 else id 2
    let body = ck_if(
        ck_app(ck_var("id"), ck_bool(true)),
        ck_app(ck_var("id"), ck_int(1)),
        ck_app(ck_var("id"), ck_int(2)),
    );
    let e = ck_let("id", ck_fun("x", ck_var("x")), body, false);
    assert_eq!(check_expr_to_string(e).unwrap(), "Int");
}

#[test]
fn let_polymorphism_generalized_variable_printed() {
    let program = Program { stmts: vec![ck_stmt_let("id", ck_fun("x", ck_var("x")), false)] };
    let pairs = check_prog_to_strings(&program).unwrap();
    assert_eq!(ck_lookup(&pairs, "id"), "('a -> 'a)");
}

#[test]
fn monomorphic_fun_argument_not_generalized() {
    // fun f -> fun x -> f x : (('a -> 'b) -> ('a -> 'b))
    let e = ck_fun("f", ck_fun("x", ck_app(ck_var("f"), ck_var("x"))));
    assert_eq!(check_expr_to_string(e).unwrap(), "(('a -> 'b) -> ('a -> 'b))");
}

#[test]
fn arithmetic_requires_ints() {
    let e = ck_binop(ck_int(1), ck_str("a"), BinOpKind::Add);
    assert!(matches!(check_expr_to_string(e), Err(Error::NoUnify(_, _))));
}

#[test]
fn equality_is_polymorphic() {
    let ints = ck_binop(ck_int(1), ck_int(2), BinOpKind::Eql);
    assert_eq!(check_expr_to_string(ints).unwrap(), "Bool");
    let strs = ck_binop(ck_str("a"), ck_str("b"), BinOpKind::Eql);
    assert_eq!(check_expr_to_string(strs).unwrap(), "Bool");
    let mixed = ck_binop(ck_int(1), ck_str("b"), BinOpKind::Eql);
    assert!(matches!(check_expr_to_string(mixed), Err(Error::NoUnify(_, _))));
}

#[test]
fn if_branches_must_agree() {
    let e = ck_if(ck_bool(true), ck_int(1), ck_str("a"));
    assert!(matches!(check_expr_to_string(e), Err(Error::NoUnify(_, _))));
    let e2 = ck_if(ck_int(1), ck_int(1), ck_int(2));
    assert!(matches!(check_expr_to_string(e2), Err(Error::NoUnify(_, _))));
}

#[test]
fn declare_types_a_builtin() {
    let program = Program {
        stmts: vec![
            ck_stmt_declare("println", ck_arrow(ck_simple("Str"), ck_simple("Unit"))),
            ck_stmt_let("main", ck_app(ck_var("println"), ck_str("hi")), false),
        ],
    };
    let pairs = check_prog_to_strings(&program).unwrap();
    assert_eq!(ck_lookup(&pairs, "println"), "(Str -> Unit)");
    assert_eq!(ck_lookup(&pairs, "main"), "Unit");
}

#[test]
fn declare_unknown_base_type_fails() {
    let program = Program { stmts: vec![ck_stmt_declare("foo", ck_simple("Nat"))] };
    assert_eq!(
        check_prog_to_strings(&program),
        Err(Error::UnknownType { name: "Nat".to_string() })
    );
}

#[test]
fn letrec_self_reference_checks() {
    // let rec fact = fun n -> if n == 0 then 1 else n * fact (n - 1)
    let body = ck_if(
        ck_binop(ck_var("n"), ck_int(0), BinOpKind::Eql),
        ck_int(1),
        ck_binop(
            ck_var("n"),
            ck_app(ck_var("fact"), ck_binop(ck_var("n"), ck_int(1), BinOpKind::Sub)),
            BinOpKind::Mul,
        ),
    );
    let program = Program { stmts: vec![ck_stmt_let("fact", ck_fun("n", body), true)] };
    let pairs = check_prog_to_strings(&program).unwrap();
    assert_eq!(ck_lookup(&pairs, "fact"), "(Int -> Int)");
}

#[test]
fn unify_binds_and_remembers() {
    let mut checker = Checker::new();
    let t = checker.new_tvar();
    assert!(checker.unify(t.clone(), Type::Int, LINK_FUEL).is_ok());
    // The variable is now Int, so unifying it with Str must fail.
    assert!(matches!(checker.unify(t, Type::Str, LINK_FUEL), Err(Error::NoUnify(_, _))));
}

#[test]
fn unify_same_variable_fast_path() {
    let mut checker = Checker::new();
    let t = checker.new_tvar();
    assert!(checker.unify(t.clone(), t, LINK_FUEL).is_ok());
}

#[test]
fn unify_occurs_directly() {
    let mut checker = Checker::new();
    let t = checker.new_tvar();
    let arrow = Type::Fun(Box::new(t.clone()), Box::new(t.clone()));
    assert_eq!(checker.unify(t, arrow, LINK_FUEL), Err(Error::Occurs));
}

#[test]
fn unify_out_of_budget_reports_depth_limit() {
    let mut checker = Checker::new();
    assert_eq!(checker.unify(Type::Int, Type::Int, 0), Err(Error::DepthLimit));
}

#[test]
fn unit_unifies_with_unit() {
    let mut checker = Checker::new();
    assert!(checker.unify(Type::Unit, Type::Unit, LINK_FUEL).is_ok());
}

#[test]
fn listing_is_sorted_by_name() {
    let program = Program {
        stmts: vec![
            ck_stmt_declare("zeta", ck_simple("Int")),
            ck_stmt_declare("alpha", ck_simple("Str")),
            ck_stmt_let("mid", ck_int(1), false),
        ],
    };
    let pairs = check_prog_to_strings(&program).unwrap();
    let names: Vec<&str> = pairs.iter().map(|(n, _)| n.as_str()).collect();
    assert_eq!(names, vec!["alpha", "mid", "zeta"]);
}

#[test]
fn declare_only_program_lists() {
    let program = Program {
        stmts: vec![
            ck_stmt_declare("println", ck_arrow(ck_simple("Str"), ck_simple("Unit"))),
            ck_stmt_declare("str_of_int", ck_arrow(ck_simple("Int"), ck_simple("Str"))),
        ],
    };
    let pairs = check_prog_to_strings(&program).unwrap();
    assert_eq!(pairs.len(), 2);
    assert_eq!(ck_lookup(&pairs, "str_of_int"), "(Int -> Str)");
}

#[test]
fn shadowing_inner_let_types_independently() {
    // let x = 1 in let x = "s" in x : Str
    let e = ck_let("x", ck_int(1), ck_let("x", ck_str("s"), ck_var("x"), false), false);
    assert_eq!(check_expr_to_string(e).unwrap(), "Str");
}
