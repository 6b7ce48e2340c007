use pandalang::ast::expr::{App, BinOp, BinOpKind, Expr, Fun, If, Int, Let, Str, Var};
use pandalang::ast::stmt;
use pandalang::ast::stmt::Stmt;
use pandalang::ast::types as ast_types;
use pandalang::ast::Program;
use pandalang::eval::{apply_binop, run_program, Error, Evaluator, EVAL_FUEL};
use pandalang::eval::builtins::str_of_int;
use pandalang::eval::env::BoundValue;
use pandalang::value::Value;

fn ev_int(n: i64) -> Expr {
    Expr::Int(Int { n })
}

fn ev_str(s: &str) -> Expr {
    Expr::Str(Str { s: s.to_string() })
}

fn ev_var(name: &str) -> Expr {
    Expr::Var(Var { name: name.to_string() })
}

fn ev_fun(arg: &str, body: Expr) -> Expr {
    Expr::Fun(Fun { arg: arg.to_string(), body: Box::new(body) })
}

fn ev_app(fun: Expr, arg: Expr) -> Expr {
    Expr::App(App { fun: Box::new(fun), arg: Box::new(arg) })
}

fn ev_let(name: &str, value: Expr, body: Expr, rec: bool) -> Expr {
    Expr::Let(Let { name: name.to_string(), value: Box::new(value), body: Box::new(body), rec })
}

fn ev_if(check: Expr, thn: Expr, els: Expr) -> Expr {
    Expr::If(If { check: Box::new(check), thn: Box::new(thn), els: Box::new(els) })
}

fn ev_binop(left: Expr, right: Expr, kind: BinOpKind) -> Expr {
    Expr::BinOp(BinOp { left: Box::new(left), right: Box::new(right), kind })
}

fn ev_stmt_let(name: &str, value: Expr, rec: bool) -> Stmt {
    Stmt::Let(stmt::Let { name: name.to_string(), value: Box::new(value), rec })
}

fn ev_stmt_declare(name: &str) -> Stmt {
    Stmt::Declare(stmt::Declare {
        name: name.to_string(),
        typ: ast_types::Type::Simple("Int".to_string()),
    })
}

fn ev_run(program: Program) -> (Result<Value, Error>, String) {
    let mut out = String::new();
    let r = run_program(&program, &mut out);
    (r, out)
}

fn ev_expect_int(r: Result<Value, Error>, n: i64) {
    match r {
        Ok(Value::Int(i)) => assert_eq!(i.n, n),
        other => panic!("expected Int {}, got {:?}", n, other),
    }
}

#[test]
fn main_of_simple_sum() {
    let program = Program {
        stmts: vec![ev_stmt_let("main", ev_binop(ev_int(1), ev_int(2), BinOpKind::Add), false)],
    };
    let (r, out) = ev_run(program);
    ev_expect_int(r, 3);
    assert_eq!(out, "");
}

#[test]
fn missing_main_is_reported() {
    let program = Program { stmts: vec![ev_stmt_let("other", ev_int(1), false)] };
    let (r, _) = ev_run(program);
    assert!(matches!(r, Err(Error::MainNotFound)));
}

#[test]
fn empty_program_has_no_main() {
    let program = Program { stmts: vec![] };
    let (r, _) = ev_run(program);
    assert!(matches!(r, Err(Error::MainNotFound)));
}

#[test]
fn letrec_factorial_evaluates() {
    // let rec fact = fun n -> if n == 0 then 1 else n * fact (n - 1)
    // let main = fact 5
    let body = ev_if(
        ev_binop(ev_var("n"), ev_int(0), BinOpKind::Eql),
        ev_int(1),
        ev_binop(
            ev_var("n"),
            ev_app(ev_var("fact"), ev_binop(ev_var("n"), ev_int(1), BinOpKind::Sub)),
            BinOpKind::Mul,
        ),
    );
    let program = Program {
        stmts: vec![
            ev_stmt_let("fact", ev_fun("n", body), true),
            ev_stmt_let("main", ev_app(ev_var("fact"), ev_int(5)), false),
        ],
    };
    let (r, out) = ev_run(program);
    ev_expect_int(r, 120);
    assert_eq!(out, "");
}

#[test]
fn str_of_int_builtin_round_trip() {
    let program = Program {
        stmts: vec![
            ev_stmt_declare("str_of_int"),
            ev_stmt_let("main", ev_app(ev_var("str_of_int"), ev_int(42)), false),
        ],
    };
    let (r, _) = ev_run(program);
    match r {
        Ok(Value::Str(s)) => assert_eq!(s.s, "42"),
        other => panic!("expected Str, got {:?}", other),
    }
}

#[test]
fn println_builtin_writes_line() {
    let program = Program {
        stmts: vec![
            ev_stmt_declare("println"),
            ev_stmt_let("main", ev_app(ev_var("println"), ev_str("hi")), false),
        ],
    };
    let (r, out) = ev_run(program);
    assert!(matches!(r, Ok(Value::Unit)));
    assert_eq!(out, "hi\n");
}

#[test]
fn binop_evaluates_left_before_right() {
    // (println "L") == (println "R") prints L before R.
    let program = Program {
        stmts: vec![
            ev_stmt_declare("println"),
            ev_stmt_let(
                "main",
                ev_binop(
                    ev_app(ev_var("println"), ev_str("L")),
                    ev_app(ev_var("println"), ev_str("R")),
                    BinOpKind::Eql,
                ),
                false,
            ),
        ],
    };
    let (r, out) = ev_run(program);
    assert!(matches!(r, Ok(Value::Bool(_))));
    assert_eq!(out, "L\nR\n");
}

#[test]
fn app_evaluates_function_before_argument() {
    // (let u = println "F" in fun y -> 7) (println "A") prints F before A.
    let fun_side = ev_let("u", ev_app(ev_var("println"), ev_str("F")), ev_fun("y", ev_int(7)), false);
    let program = Program {
        stmts: vec![
            ev_stmt_declare("println"),
            ev_stmt_let("main", ev_app(fun_side, ev_app(ev_var("println"), ev_str("A"))), false),
        ],
    };
    let (r, out) = ev_run(program);
    ev_expect_int(r, 7);
    assert_eq!(out, "F\nA\n");
}

#[test]
fn closure_captures_environment_at_creation() {
    // let x = 1 in let f = fun y -> x in let x = 2 in f 0  ==>  1
    let e = ev_let(
        "x",
        ev_int(1),
        ev_let(
            "f",
            ev_fun("y", ev_var("x")),
            ev_let("x", ev_int(2), ev_app(ev_var("f"), ev_int(0)), false),
            false,
        ),
        false,
    );
    let program = Program { stmts: vec![ev_stmt_let("main", e, false)] };
    let (r, _) = ev_run(program);
    ev_expect_int(r, 1);
}

#[test]
fn apply_non_function_is_reported() {
    let program = Program {
        stmts: vec![ev_stmt_let("main", ev_app(ev_int(1), ev_int(2)), false)],
    };
    let (r, _) = ev_run(program);
    assert!(matches!(r, Err(Error::ApplyNonFunction)));
}

#[test]
fn if_condition_must_be_bool() {
    let program = Program {
        stmts: vec![ev_stmt_let("main", ev_if(ev_int(1), ev_int(2), ev_int(3)), false)],
    };
    let (r, _) = ev_run(program);
    assert!(matches!(r, Err(Error::IfConditionNotBool)));
}

#[test]
fn arithmetic_on_non_int_is_reported() {
    let program = Program {
        stmts: vec![
            ev_stmt_let("main", ev_binop(ev_str("a"), ev_int(1), BinOpKind::Add), false),
        ],
    };
    let (r, _) = ev_run(program);
    assert!(matches!(r, Err(Error::ArithmeticOnNonInt)));
}

#[test]
fn division_by_zero_is_reported() {
    let program = Program {
        stmts: vec![ev_stmt_let("main", ev_binop(ev_int(1), ev_int(0), BinOpKind::Div), false)],
    };
    let (r, _) = ev_run(program);
    assert!(matches!(r, Err(Error::DivisionByZero)));
}

#[test]
fn unbound_variable_is_reported() {
    let program = Program { stmts: vec![ev_stmt_let("main", ev_var("nope"), false)] };
    let (r, _) = ev_run(program);
    match r {
        Err(Error::NotBound { name }) => assert_eq!(name, "nope"),
        other => panic!("unexpected {:?}", other),
    }
}

#[test]
fn unknown_builtin_is_reported() {
    let program = Program {
        stmts: vec![
            ev_stmt_declare("mystery"),
            ev_stmt_let("main", ev_app(ev_var("mystery"), ev_int(1)), false),
        ],
    };
    let (r, _) = ev_run(program);
    match r {
        Err(Error::BuiltinNotFound { name }) => assert_eq!(name, "mystery"),
        other => panic!("unexpected {:?}", other),
    }
}

#[test]
fn builtin_type_mismatch_is_reported() {
    let program = Program {
        stmts: vec![
            ev_stmt_declare("str_of_int"),
            ev_stmt_let("main", ev_app(ev_var("str_of_int"), ev_str("x")), false),
        ],
    };
    let (r, _) = ev_run(program);
    assert!(matches!(r, Err(Error::BuiltinTypeMismatch)));
}

#[test]
fn recursive_main_value_stays_thunk() {
    let program = Program { stmts: vec![ev_stmt_let("main", ev_var("main"), true)] };
    let (r, _) = ev_run(program);
    assert!(matches!(r, Err(Error::FinalValueNotEvaluated)));
}

#[test]
fn out_of_fuel_is_reported() {
    let mut ev = Evaluator::new();
    let e = ev_binop(ev_int(1), ev_int(2), BinOpKind::Add);
    assert!(matches!(ev.eval(&e, 0), Err(Error::OutOfFuel)));
}

#[test]
fn literals_need_no_fuel() {
    let mut ev = Evaluator::new();
    match ev.eval(&ev_int(7), 0) {
        Ok(BoundValue::Value(Value::Int(i))) => assert_eq!(i.n, 7),
        other => panic!("unexpected {:?}", other),
    }
}

#[test]
fn addition_wraps_on_overflow() {
    let program = Program {
        stmts: vec![
            ev_stmt_let("main", ev_binop(ev_int(i64::MAX), ev_int(1), BinOpKind::Add), false),
        ],
    };
    let (r, _) = ev_run(program);
    ev_expect_int(r, i64::MIN);
}

#[test]
fn division_truncates_toward_zero() {
    let program = Program {
        stmts: vec![ev_stmt_let("main", ev_binop(ev_int(-7), ev_int(2), BinOpKind::Div), false)],
    };
    let (r, _) = ev_run(program);
    ev_expect_int(r, -3);
}

#[test]
fn remainder_follows_truncated_division() {
    let program = Program {
        stmts: vec![ev_stmt_let("main", ev_binop(ev_int(-7), ev_int(2), BinOpKind::Rem), false)],
    };
    let (r, _) = ev_run(program);
    ev_expect_int(r, -1);
}

#[test]
fn min_divided_by_minus_one_wraps() {
    let program = Program {
        stmts: vec![
            ev_stmt_let("main", ev_binop(ev_int(i64::MIN), ev_int(-1), BinOpKind::Div), false),
        ],
    };
    let (r, _) = ev_run(program);
    ev_expect_int(r, i64::MIN);
}

#[test]
fn apply_binop_equal_values() {
    let l = BoundValue::Value(Value::Int(Int { n: 4 }));
    let r = BoundValue::Value(Value::Int(Int { n: 4 }));
    match apply_binop(BinOpKind::Eql, l, r) {
        Ok(BoundValue::Value(Value::Bool(b))) => assert!(b.b),
        other => panic!("unexpected {:?}", other),
    }
}

#[test]
fn functions_never_compare_equal() {
    let f = Value::Fun {
        fun: Fun { arg: "x".to_string(), body: Box::new(ev_var("x")) },
        env: pandalang::eval::env::Env::new(),
    };
    let g = Value::Fun {
        fun: Fun { arg: "x".to_string(), body: Box::new(ev_var("x")) },
        env: pandalang::eval::env::Env::new(),
    };
    assert!(!f.eq(&g));
    assert!(Value::Unit.eq(&Value::Unit));
}

#[test]
fn str_of_int_renders_negative_numbers() {
    match str_of_int(BoundValue::Value(Value::Int(Int { n: -42 }))) {
        Ok(BoundValue::Value(Value::Str(s))) => assert_eq!(s.s, "-42"),
        other => panic!("unexpected {:?}", other),
    }
    match str_of_int(BoundValue::Value(Value::Int(Int { n: i64::MIN }))) {
        Ok(BoundValue::Value(Value::Str(s))) => assert_eq!(s.s, "-9223372036854775808"),
        other => panic!("unexpected {:?}", other),
    }
}

#[test]
fn shadowing_uses_last_binding() {
    // let x = 1 in let x = 2 in x  ==>  2
    let e = ev_let("x", ev_int(1), ev_let("x", ev_int(2), ev_var("x"), false), false);
    let program = Program { stmts: vec![ev_stmt_let("main", e, false)] };
    let (r, _) = ev_run(program);
    ev_expect_int(r, 2);
}

#[test]
fn later_statements_see_earlier_bindings() {
    let program = Program {
        stmts: vec![
            ev_stmt_let("x", ev_int(20), false),
            ev_stmt_let("main", ev_binop(ev_var("x"), ev_int(3), BinOpKind::Add), false),
        ],
    };
    let (r, _) = ev_run(program);
    ev_expect_int(r, 23);
}

#[test]
fn run_uses_default_fuel() {
    // A deep but finite loop: let rec down = fun n -> if n == 0 then 0 else down (n - 1)
    let body = ev_if(
        ev_binop(ev_var("n"), ev_int(0), BinOpKind::Eql),
        ev_int(0),
        ev_app(ev_var("down"), ev_binop(ev_var("n"), ev_int(1), BinOpKind::Sub)),
    );
    let program = Program {
        stmts: vec![
            ev_stmt_let("down", ev_fun("n", body), true),
            ev_stmt_let("main", ev_app(ev_var("down"), ev_int(500)), false),
        ],
    };
    assert!(EVAL_FUEL > 1_000_000);
    let (r, _) = ev_run(program);
    ev_expect_int(r, 0);
}
