use esoteric_reaction::functional_groups::FunctionalGroup;
use esoteric_reaction::traits::Valuable;
use esoteric_reaction::value::{value_eq, Value};

fn string(s: &str) -> Value {
    Value::String(s.chars().collect())
}

fn pair(a: Value, b: Value) -> Value {
    Value::Pair(Box::new(a), Box::new(b))
}

#[test]
fn numbers_add_and_overflow_is_refused() {
    assert!(matches!(Value::Number(3).add(Value::Number(4)), Some(Value::Number(7))));
    assert!(Value::Number(i64::MAX).add(Value::Number(1)).is_none());
}

#[test]
fn booleans_combine_with_and() {
    assert!(matches!(Value::Boolean(true).add(Value::Boolean(false)), Some(Value::Boolean(false))));
    assert!(matches!(Value::Boolean(true).add(Value::Boolean(true)), Some(Value::Boolean(true))));
}

#[test]
fn strings_and_lists_concatenate() {
    assert!(value_eq(&string("ab").add(string("cd")).unwrap(), &string("abcd")));
    let l = Value::List(vec![Value::Number(1)]).add(Value::List(vec![Value::Number(2), Value::Number(3)]));
    assert!(value_eq(&l.unwrap(), &Value::List(vec![Value::Number(1), Value::Number(2), Value::Number(3)])));
}

#[test]
fn pairs_add_member_by_member() {
    let s = pair(Value::Number(1), string("a")).add(pair(Value::Number(2), string("b")));
    assert!(value_eq(&s.unwrap(), &pair(Value::Number(3), string("ab"))));
}

#[test]
fn maps_take_the_right_entries() {
    let l = Value::Mapping(vec![(Value::Number(1), string("a")), (Value::Number(2), string("b"))]);
    let r = Value::Mapping(vec![(Value::Number(2), string("z")), (Value::Number(3), string("c"))]);
    let want = Value::Mapping(vec![
        (Value::Number(1), string("a")),
        (Value::Number(2), string("z")),
        (Value::Number(3), string("c")),
    ]);
    assert!(value_eq(&l.add(r).unwrap(), &want));
}

#[test]
fn different_kinds_do_not_add() {
    assert!(Value::Number(1).add(Value::Boolean(true)).is_none());
    assert!(string("a").add(Value::List(vec![])).is_none());
}

#[test]
fn groups_add_through_their_values() {
    let a = FunctionalGroup::from_value(Value::Number(1));
    let b = FunctionalGroup::from_value(Value::Number(2));
    let sum = a.add(b).unwrap();
    assert!(matches!(sum, FunctionalGroup::Ether(_)));
    assert!(matches!(sum.value(), Ok(Value::Number(3))));
    let s = FunctionalGroup::from_value(string("re")).add(FunctionalGroup::from_value(string("act"))).unwrap();
    assert!(value_eq(&s.value().unwrap(), &string("react")));
}

#[test]
fn groups_of_different_kinds_do_not_add() {
    let a = FunctionalGroup::from_value(Value::Number(1));
    let b = FunctionalGroup::from_value(string("x"));
    assert!(a.add(b).is_none());
}
