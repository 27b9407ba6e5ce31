use esoteric_reaction::element::Element;
use esoteric_reaction::functional_groups::alkane::{Alkane, AlkaneElement, AlkaneError};
use esoteric_reaction::functional_groups::amine::Amine;
use esoteric_reaction::functional_groups::borinic::BorinicAcid;
use esoteric_reaction::functional_groups::ether::Ether;
use esoteric_reaction::functional_groups::sulfide::Sulfide;
use esoteric_reaction::functional_groups::FunctionalGroup;
use esoteric_reaction::molecule::{FgElement, Molecule};
use esoteric_reaction::traits::{Valuable, Weighable};
use esoteric_reaction::value::{value_eq, Value, ValueError};

fn chars(s: &str) -> Vec<char> {
    s.chars().collect()
}

fn string(s: &str) -> Value {
    Value::String(chars(s))
}

fn pair(a: Value, b: Value) -> Value {
    Value::Pair(Box::new(a), Box::new(b))
}

#[test]
fn ether_from_three_is_number_three() {
    let e = Ether::from_number(3);
    assert!(matches!(e.value(), Ok(Value::Number(3))));
}

#[test]
fn ether_keeps_large_and_negative_numbers() {
    assert!(matches!(Ether::from_number(i64::MAX).value(), Ok(Value::Number(i64::MAX))));
    assert!(matches!(Ether::from_number(-42).value(), Ok(Value::Number(-42))));
    assert!(matches!(Ether::from_number(0).value(), Ok(Value::Number(0))));
}

#[test]
fn lone_oxygen_is_no_number() {
    assert!(matches!(Ether::new().value(), Err(ValueError::WrongNeighbourCount)));
}

#[test]
fn ether_on_a_group_fails() {
    let e = Ether::new_with(FgElement::F(FunctionalGroup::Ether(Ether::from_number(1))));
    assert!(matches!(e.value(), Err(ValueError::UnexpectedGroup)));
}

#[test]
fn amine_with_one_member_fails() {
    let mut a = Amine::new();
    let h = a.0.head;
    a.0.bond_new(h, Molecule::F(FunctionalGroup::Ether(Ether::from_number(1))));
    assert!(matches!(a.value(), Err(ValueError::WrongNeighbourCount)));
}

#[test]
fn sulfide_with_two_neighbours_fails() {
    let mut s = Sulfide::from_chars(&chars("a"));
    let h = s.0.head;
    s.0.bond_new(h, Molecule::F(FunctionalGroup::Ether(Ether::from_number(98))));
    assert!(matches!(s.value(), Err(ValueError::WrongNeighbourCount)));
}

#[test]
fn string_alkane_with_bare_anchor_fails() {
    let alk = Alkane::new_n_alkane(2);
    let s = Sulfide::new_with(FgElement::F(FunctionalGroup::Alkane(alk)));
    assert!(matches!(s.value(), Err(ValueError::WrongNeighbourCount)));
}

#[test]
fn borinic_true_and_false() {
    let t = BorinicAcid::from_bool(true);
    assert_eq!(t.0.neighbors(t.0.head).len(), 2);
    assert!(matches!(t.value(), Ok(Value::Boolean(true))));
    let f = BorinicAcid::from_bool(false);
    assert_eq!(f.0.neighbors(f.0.head).len(), 1);
    assert!(matches!(f.value(), Ok(Value::Boolean(false))));
}

#[test]
fn sulfide_two_characters() {
    let s = Sulfide::from_chars(&chars("hi"));
    let ns = s.0.neighbors(s.0.head);
    assert_eq!(ns.len(), 1);
    assert!(matches!(s.0.node_weight(ns[0]), Some(Molecule::F(FunctionalGroup::Alkane(_)))));
    assert!(value_eq(&s.value().unwrap(), &string("hi")));
}

#[test]
fn sulfide_one_and_zero_characters() {
    let one = Sulfide::from_chars(&chars("x"));
    let ns = one.0.neighbors(one.0.head);
    assert_eq!(ns.len(), 1);
    assert!(matches!(one.0.node_weight(ns[0]), Some(Molecule::F(FunctionalGroup::Ether(_)))));
    assert!(value_eq(&one.value().unwrap(), &string("x")));
    let none = Sulfide::from_chars(&chars(""));
    assert_eq!(none.0.neighbors(none.0.head).len(), 0);
    assert!(value_eq(&none.value().unwrap(), &string("")));
}

#[test]
fn sulfide_non_ascii_characters() {
    let s = Sulfide::from_chars(&chars("é☃𝄞"));
    assert!(value_eq(&s.value().unwrap(), &string("é☃𝄞")));
}

#[test]
fn sulfide_with_bare_element_fails() {
    let s = Sulfide::new_with(FgElement::E(Element::C));
    assert!(matches!(s.value(), Err(ValueError::BareElement)));
}

#[test]
fn sulfide_with_boolean_fails() {
    let s = Sulfide::new_with(FgElement::F(FunctionalGroup::BorinicAcid(BorinicAcid::from_bool(true))));
    assert!(matches!(s.value(), Err(ValueError::UnexpectedGroup)));
}

#[test]
fn amine_reads_key_then_value() {
    let a = Amine::new_with(
        FgElement::F(FunctionalGroup::Ether(Ether::from_number(1))),
        FgElement::F(FunctionalGroup::Ether(Ether::from_number(2))),
    );
    assert!(value_eq(&a.value().unwrap(), &pair(Value::Number(1), Value::Number(2))));
}

#[test]
fn amine_without_members_fails() {
    assert!(matches!(Amine::new().value(), Err(ValueError::WrongNeighbourCount)));
}

#[test]
fn amine_with_element_fails() {
    let a = Amine::new_with(FgElement::E(Element::H), FgElement::F(FunctionalGroup::Ether(Ether::from_number(2))));
    assert!(matches!(a.value(), Err(ValueError::BareElement)));
}

fn amine_item(k: i64, s: &str) -> AlkaneElement {
    AlkaneElement::F(FunctionalGroup::Amine(Amine::new_with(
        FgElement::F(FunctionalGroup::Ether(Ether::from_number(k))),
        FgElement::F(FunctionalGroup::Sulfide(Sulfide::from_chars(&chars(s)))),
    )))
}

#[test]
fn alkane_of_five_amines_is_a_map() {
    let items = vec![amine_item(1, "a"), amine_item(2, "bb"), amine_item(3, ""), amine_item(4, "dd"), amine_item(5, "e")];
    let alk = Alkane::new_with(items);
    match alk.value() {
        Ok(Value::Mapping(es)) => {
            assert_eq!(es.len(), 5);
            assert!(value_eq(&es[1].0, &Value::Number(2)));
            assert!(value_eq(&es[1].1, &string("bb")));
        },
        other => panic!("expected a map, got {:?}", other),
    }
}

#[test]
fn alkane_with_a_non_pair_is_a_list() {
    let items = vec![
        amine_item(1, "a"),
        amine_item(2, "b"),
        AlkaneElement::F(FunctionalGroup::Ether(Ether::from_number(7))),
        amine_item(4, "d"),
        amine_item(5, "e"),
    ];
    let alk = Alkane::new_with(items);
    match alk.value() {
        Ok(Value::List(vs)) => {
            assert_eq!(vs.len(), 5);
            assert!(value_eq(&vs[2], &Value::Number(7)));
            assert!(value_eq(&vs[0], &pair(Value::Number(1), string("a"))));
        },
        other => panic!("expected a list, got {:?}", other),
    }
}

#[test]
fn map_with_equal_keys_keeps_the_last_value() {
    let alk = Alkane::new_with(vec![amine_item(1, "a"), amine_item(1, "b")]);
    match alk.value() {
        Ok(Value::Mapping(es)) => {
            assert_eq!(es.len(), 1);
            assert!(value_eq(&es[0].1, &string("b")));
        },
        other => panic!("expected a map, got {:?}", other),
    }
}

#[test]
fn alkane_with_bare_element_fails() {
    let alk = Alkane::new_with(vec![AlkaneElement::E(Element::O)]);
    assert!(matches!(alk.value(), Err(ValueError::BareElement)));
}

#[test]
fn empty_alkane_reads_as_empty_map() {
    let alk = Alkane::new_n_alkane(0);
    match alk.value() {
        Ok(Value::Mapping(es)) => assert_eq!(es.len(), 0),
        other => panic!("expected an empty map, got {:?}", other),
    }
}

#[test]
fn new_n_alkane_has_n_carbons() {
    for n in [0usize, 1, 2, 5, 17] {
        assert_eq!(Alkane::new_n_alkane(n).backbone().iter().count(), n);
    }
}

#[test]
fn moves_down_then_up_return() {
    let mut alk = Alkane::new_n_alkane(6);
    while alk.move_up() {}
    assert!(alk.move_down());
    let start = alk.current_atom;
    for _ in 0..3 {
        assert!(alk.move_down());
    }
    for _ in 0..3 {
        assert!(alk.move_up());
    }
    assert_eq!(alk.current_atom, start);
}

#[test]
fn moves_stop_at_the_ends() {
    let mut alk = Alkane::new_n_alkane(2);
    let last = alk.current_atom;
    assert!(!alk.move_down());
    assert_eq!(alk.current_atom, last);
    assert!(alk.move_up());
    let first = alk.current_atom;
    assert_eq!(first, alk.backbone()[0]);
    assert!(!alk.move_up());
    assert_eq!(alk.current_atom, first);
}

#[test]
fn add_carbon_after_inserts_after_cursor() {
    let mut alk = Alkane::new_n_alkane(3);
    while alk.move_up() {}
    let first = alk.current_atom;
    let before = alk.backbone().clone();
    alk.add_carbon_after();
    let after = alk.backbone().clone();
    assert_eq!(after.len(), 4);
    assert_eq!(after[0], first);
    assert_eq!(after[2], before[1]);
    assert_eq!(after[3], before[2]);
    assert!(!before.contains(&after[1]));
    assert_eq!(alk.current_atom, first);
    assert!(alk.chain.neighbors(after[1]).contains(&before[1]));
    assert!(!alk.chain.neighbors(first).contains(&before[1]));
}

#[test]
fn add_carbon_before_inserts_before_cursor() {
    let mut alk = Alkane::new_n_alkane(3);
    let before = alk.backbone().clone();
    alk.add_carbon_before();
    let after = alk.backbone().clone();
    assert_eq!(after.len(), 4);
    assert_eq!(after[3], before[2]);
    assert_eq!(after[1], before[1]);
    assert!(!before.contains(&after[2]));
}

#[test]
fn add_carbon_before_the_first_appends() {
    let mut alk = Alkane::new_n_alkane(2);
    while alk.move_up() {}
    let before = alk.backbone().clone();
    alk.add_carbon_before();
    let after = alk.backbone().clone();
    assert_eq!(after.len(), 3);
    assert_eq!(&after[..2], &before[..]);
    assert!(alk.chain.neighbors(before[0]).contains(&after[2]));
}

#[test]
fn fill_with_too_many_items_is_refused() {
    let mut alk = Alkane::new_n_alkane(1);
    let r = alk.fill(vec![AlkaneElement::E(Element::H), AlkaneElement::E(Element::O)]);
    assert!(matches!(r, Err(AlkaneError::TooManyItems)));
    assert_eq!(alk.get_bonded_molecules(alk.backbone()[0]).len(), 0);
}

#[test]
fn fill_attaches_in_order_and_keeps_cursor() {
    let mut alk = Alkane::new_n_alkane(3);
    let cursor = alk.current_atom;
    let r = alk.fill(vec![AlkaneElement::E(Element::H), AlkaneElement::E(Element::O)]);
    assert!(r.is_ok());
    assert_eq!(alk.current_atom, cursor);
    let bb = alk.backbone().clone();
    assert!(matches!(alk.get_bonded_molecules(bb[0])[..], [Molecule::E(Element::H)]));
    assert!(matches!(alk.get_bonded_molecules(bb[1])[..], [Molecule::E(Element::O)]));
    assert_eq!(alk.get_bonded_molecules(bb[2]).len(), 0);
}

#[test]
fn add_element_bonds_to_cursor() {
    let mut alk = Alkane::new();
    alk.add_element(Element::N);
    alk.add_element(Element::S);
    let got = alk.get_currently_bonded_molecules();
    assert!(matches!(got[..], [Molecule::E(Element::S), Molecule::E(Element::N)]));
}

#[test]
fn ether_weight_is_element_weight() {
    assert_eq!(Ether::new_with(FgElement::E(Element::S)).atomic_numbers(), Some(16));
    assert_eq!(Ether::new_with(FgElement::E(Element::C)).atomic_numbers(), Some(6));
    assert_eq!(Element::O.atomic_numbers(), Some(8));
}

#[test]
fn nested_ether_weight_is_leaf_weight() {
    let inner = Ether::new_with(FgElement::E(Element::N));
    let outer = Ether::new_with(FgElement::F(FunctionalGroup::Ether(inner)));
    assert_eq!(outer.atomic_numbers(), Some(7));
    let deeper = Ether::new_with(FgElement::F(FunctionalGroup::Ether(outer)));
    assert_eq!(deeper.atomic_numbers(), Some(7));
}

#[test]
fn weight_sums_head_neighbours() {
    let b = BorinicAcid::new_with(FgElement::E(Element::C));
    assert_eq!(b.atomic_numbers(), Some(8 + 6));
}

#[test]
fn weight_overflow_is_none() {
    let mut alk = Alkane::new();
    alk.add_functional_group(FunctionalGroup::Ether(Ether::from_number(i64::MAX)));
    alk.add_functional_group(FunctionalGroup::Ether(Ether::from_number(1)));
    assert_eq!(alk.atomic_numbers(), None);
}

#[test]
fn chain_of_n_has_n_minus_one_bonds() {
    let alk = Alkane::new_n_alkane(4);
    assert_eq!(alk.chain.node_indices().len(), 4);
    assert_eq!(alk.chain.edge_indices().len(), 3);
    let bb = alk.backbone().clone();
    for i in 0..3 {
        assert!(alk.chain.neighbors(bb[i]).contains(&bb[i + 1]));
    }
    for c in bb {
        assert!(matches!(alk.chain.node_weight(c), Some(Molecule::E(Element::C))));
    }
}

#[test]
fn inserting_carbons_keeps_side_groups() {
    let mut alk = Alkane::new_with(vec![AlkaneElement::E(Element::H), AlkaneElement::E(Element::O), AlkaneElement::E(Element::N)]);
    while alk.move_up() {}
    alk.move_down();
    alk.add_carbon_after();
    alk.add_carbon_before();
    let bb = alk.backbone().clone();
    assert_eq!(bb.len(), 5);
    assert!(matches!(alk.get_bonded_molecules(bb[0])[..], [Molecule::E(Element::H)]));
    assert_eq!(alk.get_bonded_molecules(bb[1]).len(), 0);
    assert!(matches!(alk.get_bonded_molecules(bb[2])[..], [Molecule::E(Element::O)]));
    assert_eq!(alk.get_bonded_molecules(bb[3]).len(), 0);
    assert!(matches!(alk.get_bonded_molecules(bb[4])[..], [Molecule::E(Element::N)]));
    assert_eq!(alk.chain.edge_indices().len(), 4 + 3);
}

#[test]
fn ether_graph_is_two_atoms_one_bond() {
    let e = Ether::from_number(3);
    assert_eq!(e.0.node_indices().len(), 2);
    assert_eq!(e.0.edge_indices().len(), 1);
    let a = Amine::new_with(FgElement::E(Element::H), FgElement::E(Element::O));
    assert_eq!(a.0.node_indices().len(), 3);
    assert_eq!(a.0.edge_indices().len(), 2);
    assert!(matches!(a.0.node_weight(a.0.head), Some(Molecule::E(Element::N))));
}
