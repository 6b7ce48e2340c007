use pandalang::ast::expr::Int;
use pandalang::eval::env::{BoundValue, Env};
use pandalang::types::check::{Bindings, Checker, LINK_FUEL};
use pandalang::types::string_of_type::string_of_type;
use pandalang::types::{Polytype, Type};
use pandalang::value::Value;

fn en_int(n: i64) -> BoundValue {
    BoundValue::Value(Value::Int(Int { n }))
}

fn en_expect(v: Option<BoundValue>, n: i64) {
    match v {
        Some(BoundValue::Value(Value::Int(i))) => assert_eq!(i.n, n),
        other => panic!("unexpected {:?}", other),
    }
}

#[test]
fn env_shadows_and_pops_in_order() {
    let name = "x".to_string();
    let mut env = Env::new();
    assert!(env.lookup(&name).is_none());
    env.push_binding(&name, en_int(1));
    env.push_binding(&name, en_int(2));
    en_expect(env.lookup(&name), 2);
    env.pop_binding(&name);
    en_expect(env.lookup(&name), 1);
    env.pop_binding(&name);
    assert!(env.lookup(&name).is_none());
    // Popping an absent name changes nothing.
    env.pop_binding(&name);
    assert!(env.lookup(&name).is_none());
}

#[test]
fn env_pop_leaves_other_names_alone() {
    let x = "x".to_string();
    let y = "y".to_string();
    let mut env = Env::new();
    env.push_binding(&x, en_int(1));
    env.push_binding(&y, en_int(2));
    env.pop_binding(&x);
    assert!(env.lookup(&x).is_none());
    en_expect(env.lookup(&y), 2);
}

#[test]
fn bindings_insert_shadow_remove() {
    let name = "id".to_string();
    let mut b = Bindings::new();
    assert!(b.get(&name).is_none());
    b.insert(name.clone(), Polytype(vec![], Type::Int));
    b.insert(name.clone(), Polytype(vec![], Type::Str));
    match b.get(&name) {
        Some(Polytype(vars, t)) => {
            assert!(vars.is_empty());
            assert_eq!(*t, Type::Str);
        },
        None => panic!("binding missing"),
    }
    b.remove(&name);
    assert!(b.get(&name).is_none());
}

#[test]
fn unified_variables_render_alike() {
    let mut c = Checker::new();
    let t1 = c.new_tvar();
    let t2 = c.new_tvar();
    assert!(c.unify(t1.clone(), t2.clone(), LINK_FUEL).is_ok());
    assert!(c.unify(t2.clone(), Type::Int, LINK_FUEL).is_ok());
    assert_eq!(string_of_type(&c, &t1).unwrap(), "Int");
    assert_eq!(string_of_type(&c, &t2).unwrap(), "Int");
}

#[test]
fn get_bindings_lists_each_name_once() {
    let mut c = Checker::new();
    assert!(c.insert_declare("inc".to_string(), Type::Fun(
        Box::new(Type::Int),
        Box::new(Type::Int),
    )).is_ok());
    assert!(c.insert_declare("greet".to_string(), Type::Str).is_ok());
    assert!(c.insert_declare("inc".to_string(), Type::Int).is_ok());
    let pairs = c.get_bindings().unwrap();
    assert_eq!(pairs.len(), 2);
    let mut names: Vec<&str> = pairs.iter().map(|(n, _)| n.as_str()).collect();
    names.sort();
    assert_eq!(names, vec!["greet", "inc"]);
    for (n, t) in &pairs {
        if n == "inc" {
            assert_eq!(*t, Type::Int);
        }
    }
}
