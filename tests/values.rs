use esoteric_reaction::depth::within_depth;
use esoteric_reaction::element::Element;
use esoteric_reaction::flatten::flatten_atoms;
use esoteric_reaction::functional_groups::alkane::Alkane;
use esoteric_reaction::functional_groups::FunctionalGroup;

use esoteric_reaction::molecule::Molecule;
use esoteric_reaction::traits::Valuable;
use esoteric_reaction::value::{value_eq, Value};

fn string(s: &str) -> Value {
    Value::String(s.chars().collect())
}

fn pair(a: Value, b: Value) -> Value {
    Value::Pair(Box::new(a), Box::new(b))
}

fn round_trip(v: Value) -> Value {
    FunctionalGroup::from_value(v).value().unwrap()
}

#[test]
fn round_trip_scalars() {
    assert!(value_eq(&round_trip(Value::Number(-5)), &Value::Number(-5)));
    assert!(value_eq(&round_trip(Value::Boolean(true)), &Value::Boolean(true)));
    assert!(value_eq(&round_trip(Value::Boolean(false)), &Value::Boolean(false)));
    assert!(value_eq(&round_trip(string("reaction")), &string("reaction")));
}

#[test]
fn round_trip_pair_list_and_map() {
    let p = pair(Value::Number(1), string("one"));
    assert!(value_eq(&round_trip(pair(Value::Number(1), string("one"))), &p));
    let list = || Value::List(vec![Value::Number(1), string("two"), pair(Value::Boolean(true), Value::Number(3))]);
    assert!(value_eq(&round_trip(list()), &list()));
    let map = || Value::Mapping(vec![(string("a"), Value::Number(1)), (string("b"), list())]);
    assert!(value_eq(&round_trip(map()), &map()));
}

#[test]
fn list_of_pairs_reads_back_as_map() {
    let v = Value::List(vec![pair(Value::Number(1), Value::Number(2))]);
    let back = round_trip(v);
    assert!(value_eq(&back, &Value::Mapping(vec![(Value::Number(1), Value::Number(2))])));
}

#[test]
fn empty_list_reads_back_as_empty_map() {
    assert!(value_eq(&round_trip(Value::List(vec![])), &Value::Mapping(vec![])));
}

#[test]
fn value_eq_distinguishes() {
    assert!(!value_eq(&Value::Number(1), &Value::Number(2)));
    assert!(!value_eq(&Value::Number(1), &Value::Boolean(true)));
    assert!(!value_eq(&string("ab"), &string("ba")));
    assert!(!value_eq(&Value::List(vec![Value::Number(1)]), &Value::List(vec![])));
}

#[test]
fn flatten_of_flat_graph_keeps_shape() {
    let mut alk = Alkane::new_n_alkane(3);
    alk.add_element(Element::H);
    let flat = flatten_atoms(&alk.chain);
    assert_eq!(flat.node_indices(), alk.chain.node_indices());
    assert_eq!(flat.edge_indices().len(), alk.chain.edge_indices().len());
}

#[test]
fn flatten_inlines_nested_groups() {
    let mut alk = Alkane::new_n_alkane(2);
    alk.add_functional_group(FunctionalGroup::from_value(Value::Number(6)));
    let before_nodes = alk.chain.node_indices().len();
    let flat = flatten_atoms(&alk.chain);
    let nodes = flat.node_indices();
    assert_eq!(nodes.len(), before_nodes + 1);
    for n in nodes {
        assert!(matches!(flat.node_weight(n), Some(Molecule::E(_))));
    }
    assert_eq!(flat.edge_indices().len(), 3);
}

#[test]
fn nesting_depth_is_bounded() {
    let n = FunctionalGroup::from_value(Value::Number(4));
    assert!(within_depth(&n, 1));
    assert!(!within_depth(&n, 0));
    let m = FunctionalGroup::from_value(Value::Mapping(vec![(Value::Number(1), Value::Number(2))]));
    assert!(within_depth(&m, 3));
    assert!(!within_depth(&m, 2));
}

#[test]
fn flatten_removes_wrappers_and_bonds_heads() {
    let mut alk = Alkane::new_n_alkane(1);
    alk.add_functional_group(FunctionalGroup::from_value(Value::Number(6)));
    let c = alk.backbone()[0];
    let wrapper = alk.chain.neighbors(c)[0];
    let flat = flatten_atoms(&alk.chain);
    assert!(!flat.node_indices().contains(&wrapper));
    let heads: Vec<usize> = flat.neighbors(c);
    assert_eq!(heads.len(), 1);
    assert!(matches!(flat.node_weight(heads[0]), Some(Molecule::E(Element::O))));
}
