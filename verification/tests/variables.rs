use uta::ast::RuntimeValue;
use uta::env::Environment;
use uta::error::RuntimeError;

fn num(s: &str) -> RuntimeValue {
    RuntimeValue::Number(s.to_string())
}

#[test]
fn define_then_get() {
    let mut env = Environment::new();
    assert_eq!(env.define("a".to_string(), num("1")), Ok(()));
    assert_eq!(env.get("a"), num("1"));
    assert_eq!(env.try_get("a"), Some(num("1")));
}

#[test]
fn missing_names_read_as_null() {
    let env = Environment::new();
    assert_eq!(env.get("nothing"), RuntimeValue::Null);
    assert_eq!(env.try_get("nothing"), None);
}

#[test]
fn define_keeps_other_names() {
    let mut env = Environment::new();
    env.define("a".to_string(), num("1")).unwrap();
    env.define("b".to_string(), num("2")).unwrap();
    assert_eq!(env.get("a"), num("1"));
    assert_eq!(env.get("b"), num("2"));
}

#[test]
fn define_twice_in_one_scope_fails() {
    let mut env = Environment::new();
    env.define("a".to_string(), num("1")).unwrap();
    assert_eq!(
        env.define("a".to_string(), num("2")),
        Err(RuntimeError::AlreadyDefined { name: "a".to_string() })
    );
    assert_eq!(env.get("a"), num("1"));
}

#[test]
fn child_sees_and_shadows_parent() {
    let mut parent = Environment::new();
    parent.define("a".to_string(), num("1")).unwrap();
    let mut child = Environment::child(parent);
    assert_eq!(child.get("a"), num("1"));
    assert_eq!(child.define("a".to_string(), num("2")), Ok(()));
    assert_eq!(child.get("a"), num("2"));
}

#[test]
fn snapshot_is_an_equal_copy() {
    let mut env = Environment::new();
    env.define("a".to_string(), RuntimeValue::String("x".to_string())).unwrap();
    let copy = env.snapshot();
    env.define("b".to_string(), num("1")).unwrap();
    assert_eq!(copy.get("a"), RuntimeValue::String("x".to_string()));
    assert_eq!(copy.try_get("b"), None);
}
