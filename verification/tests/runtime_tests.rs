use smpl::env::Env;
use smpl::value::{values_equal, Struct, Value};
use smpl::vec_builtins::{
    add, contains, get, insert, len, new, push, remove, vec_module_name, BuiltinError, BuiltinMap, VecBuiltin,
    VecError,
};

fn int_of(v: &Value) -> i64 {
    match v {
        Value::Int(i) => *i,
        _ => panic!("not an int"),
    }
}

fn pushed(items: &[i64]) -> Value {
    let mut v = new(None).ok().unwrap();
    for i in items {
        v = push(Some(vec![v, Value::Int(*i)])).ok().unwrap();
    }
    v
}

fn copy(v: &Value) -> Value {
    v.duplicate()
}

#[test]
fn interpreter_vec_new() {
    let v = new(None).ok().unwrap();
    assert_eq!(int_of(&len(Some(vec![v])).ok().unwrap()), 0);
}

#[test]
fn vec_new_takes_no_arguments() {
    match new(Some(vec![Value::Int(1)])) {
        Err(BuiltinError::ArgCount { expected: 0, found: 1 }) => {}
        _ => panic!("expected an argument count error"),
    }
}

#[test]
fn interpreter_vec_push() {
    let v = pushed(&[123, 456]);
    assert_eq!(int_of(&len(Some(vec![v])).ok().unwrap()), 2);
}

#[test]
fn interpreter_vec_get() {
    let v = pushed(&[123, 456]);
    let a = int_of(&get(Some(vec![copy(&v), Value::Int(0)])).ok().unwrap());
    let b = int_of(&get(Some(vec![copy(&v), Value::Int(1)])).ok().unwrap());
    assert_eq!(a * b, 123 * 456);
}

#[test]
fn vec_get_out_of_range() {
    let v = pushed(&[1, 2]);
    match get(Some(vec![copy(&v), Value::Int(2)])) {
        Err(BuiltinError::Vec(VecError::IndexOutOfRange(2, 2))) => {}
        _ => panic!("expected an index error"),
    }
    match get(Some(vec![v, Value::Int(-1)])) {
        Err(BuiltinError::Vec(VecError::IndexOutOfRange(-1, 2))) => {}
        _ => panic!("expected an index error"),
    }
}

#[test]
fn interpreter_vec_remove() {
    let v = pushed(&[123, 456, 789]);
    let v = remove(Some(vec![v, Value::Int(1)])).ok().unwrap();
    assert_eq!(int_of(&get(Some(vec![copy(&v), Value::Int(1)])).ok().unwrap()), 789);
    assert_eq!(int_of(&len(Some(vec![v])).ok().unwrap()), 2);
}

#[test]
fn vec_remove_out_of_range() {
    let v = pushed(&[1]);
    match remove(Some(vec![v, Value::Int(1)])) {
        Err(BuiltinError::Vec(VecError::IndexOutOfRange(1, 1))) => {}
        _ => panic!("expected an index error"),
    }
}

#[test]
fn interpreter_vec_insert() {
    let v = pushed(&[123, 456]);
    let v = insert(Some(vec![v, Value::Int(0), Value::Int(1337)])).ok().unwrap();
    assert_eq!(int_of(&get(Some(vec![copy(&v), Value::Int(0)])).ok().unwrap()), 1337);
    assert_eq!(int_of(&get(Some(vec![copy(&v), Value::Int(1)])).ok().unwrap()), 123);
    assert_eq!(int_of(&len(Some(vec![v])).ok().unwrap()), 3);
}

#[test]
fn interpreter_vec_contains() {
    let v = pushed(&[1, 2, 3, 4, 5, 6, 7]);
    assert!(matches!(contains(Some(vec![copy(&v), Value::Int(5)])), Ok(Value::Bool(true))));
    assert!(matches!(contains(Some(vec![v, Value::Int(20)])), Ok(Value::Bool(false))));
}

#[test]
fn vec_wrong_argument_count() {
    let v = pushed(&[1]);
    match push(Some(vec![v])) {
        Err(BuiltinError::ArgCount { expected: 2, found: 1 }) => {}
        _ => panic!("expected an argument count error"),
    }
    assert!(matches!(len(None), Err(BuiltinError::ArgCount { expected: 1, found: 0 })));
}

#[test]
fn vec_module_names() {
    assert_eq!(vec_module_name("int").ok().unwrap(), "vec_int");
    assert_eq!(vec_module_name("Point").ok().unwrap(), "vec_Point");
}

#[test]
fn vec_builtins_are_registered() {
    let mut map = BuiltinMap::new();
    assert!(add(&mut map, "int").is_ok());
    let m = "vec_int".to_string();
    assert!(matches!(map.get_builtin(&m, &"push".to_string()), Some(VecBuiltin::Push)));
    assert!(matches!(map.get_builtin(&m, &"remove".to_string()), Some(VecBuiltin::Remove)));
    assert!(map.get_builtin(&"vec_float".to_string(), &"push".to_string()).is_none());
}

#[test]
fn env_reads_what_was_bound() {
    let mut env = Env::new();
    assert!(env.map_value("a".to_string(), Value::Int(1)).is_none());
    let old = env.map_value("a".to_string(), Value::Int(2));
    assert!(matches!(old, Some(Value::Int(1))));
    assert!(matches!(env.get_value("a"), Some(Value::Int(2))));
    assert!(env.get_value("b").is_none());
}

#[test]
fn env_prefers_values_over_temporaries() {
    let mut env = Env::new();
    env.map_tmp("x".to_string(), Value::Int(1));
    assert!(matches!(env.get("x"), Some(Value::Int(1))));
    env.map_value("x".to_string(), Value::Int(2));
    assert!(matches!(env.get("x"), Some(Value::Int(2))));
    let r = env.get_ref("x").unwrap();
    assert!(matches!(env.read_ref(&r), Some(Value::Int(2))));
}

#[test]
fn env_wipe_keeps_values() {
    let mut env = Env::new();
    env.map_tmp("t".to_string(), Value::Bool(true));
    env.map_value("v".to_string(), Value::Bool(false));
    env.wipe_tmps();
    assert!(env.get_tmp("t").is_none());
    assert!(env.ref_tmp("t").is_none());
    assert!(matches!(env.get_value("v"), Some(Value::Bool(false))));
}

#[test]
fn env_fork_is_independent() {
    let mut env = Env::new();
    env.map_value("v".to_string(), Value::Int(7));
    let mut forked = env.fork();
    forked.map_value("v".to_string(), Value::Int(8));
    assert!(matches!(env.get_value("v"), Some(Value::Int(7))));
    assert!(matches!(forked.get_value("v"), Some(Value::Int(8))));
    let r = env.ref_value("v").unwrap();
    assert!(matches!(env.read_ref(&r), Some(Value::Int(7))));
}

#[test]
fn struct_fields_read_back() {
    let mut s = Struct::new();
    s.set_field("x".to_string(), Value::Int(1));
    s.set_field("y".to_string(), Value::String("hi".to_string()));
    s.set_field("x".to_string(), Value::Int(3));
    assert!(matches!(s.get_field(&"x".to_string()), Some(Value::Int(3))));
    assert!(s.get_field(&"z".to_string()).is_none());
    assert_eq!(s.fields.len(), 2);
}

#[test]
fn value_equality_is_deep() {
    let a = Value::Array(vec![Value::Int(1), Value::String("a".to_string())]);
    let b = Value::Array(vec![Value::Int(1), Value::String("a".to_string())]);
    let c = Value::Array(vec![Value::Int(1), Value::String("b".to_string())]);
    assert!(values_equal(&a, &b));
    assert!(!values_equal(&a, &c));
    assert!(values_equal(&a, &a.duplicate()));
}

#[test]
fn env_write_through_reference_is_seen_by_the_name() {
    let mut env = Env::new();
    env.map_value("v".to_string(), Value::Int(1));
    env.map_value("w".to_string(), Value::Int(5));
    let r = env.ref_value("v").unwrap();
    assert!(env.write_ref(&r, Value::Int(9)));
    assert!(matches!(env.get_value("v"), Some(Value::Int(9))));
    assert!(matches!(env.get("v"), Some(Value::Int(9))));
    assert!(matches!(env.get_value("w"), Some(Value::Int(5))));
}

#[test]
fn env_write_through_temporary_reference_is_seen() {
    let mut env = Env::new();
    env.map_tmp("t".to_string(), Value::Bool(false));
    let r = env.ref_tmp("t").unwrap();
    assert!(env.write_ref(&r, Value::Bool(true)));
    assert!(matches!(env.get_tmp("t"), Some(Value::Bool(true))));
}

#[test]
fn env_rebinding_leaves_old_reference_on_old_cell() {
    let mut env = Env::new();
    env.map_value("v".to_string(), Value::Int(1));
    let r = env.ref_value("v").unwrap();
    env.map_value("v".to_string(), Value::Int(2));
    assert!(env.write_ref(&r, Value::Int(3)));
    assert!(matches!(env.get_value("v"), Some(Value::Int(2))));
    assert!(matches!(env.read_ref(&r), Some(Value::Int(3))));
}
