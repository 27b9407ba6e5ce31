//! Valuation: reading a functional group's graph back as a value.
use crate::atoms::Atoms;
use crate::functional_groups::alkane::Alkane;
use crate::functional_groups::amine::Amine;
use crate::functional_groups::sulfide::Sulfide;
use crate::functional_groups::FunctionalGroup;
use crate::molecule::Molecule;
use crate::value::{
    lemma_models_upto, list_or_mapping, list_or_mapping_of, models_upto, result_model, value_model,
    Value, ValueError, ValueModel,
};
use crate::element::element_weight;
use vstd::prelude::*;

verus! {

/// The code of a character.
pub open spec fn char_code(c: char) -> u32 {
    c as u32
}

/// The character whose code is the low 32 bits of `n`, or U+FFFD when there
/// is none.
pub open spec fn code_char(n: i64) -> char {
    if exists|c: char| #[trigger] char_code(c) == n as u32 {
        choose|c: char| #[trigger] char_code(c) == n as u32
    } else {
        '\u{FFFD}'
    }
}

/// The number an ether's graph encodes: its head must have exactly one
/// neighbour, an element, whose weight is the number.
pub open spec fn ether_number(a: Atoms) -> Result<i64, ValueError> {
    let ns = a.nbrs(a.head);
    if ns.len() != 1 {
        Err(ValueError::WrongNeighbourCount)
    } else {
        match a.molecule_at(ns[0]) {
            Some(Molecule::E(el)) => Ok(element_weight(el)),
            Some(Molecule::F(_)) => Err(ValueError::UnexpectedGroup),
            None => Err(ValueError::MissingNode),
        }
    }
}

/// The characters of a string alkane, over its first `n` backbone carbons:
/// each carbon's first side group must be an ether, giving one character.
pub open spec fn string_chars(k: Alkane, n: nat) -> Result<Seq<char>, ValueError>
    decreases n,
{
    if n == 0 || n > k.backbone@.len() {
        Ok(Seq::empty())
    } else {
        match string_chars(k, (n - 1) as nat) {
            Err(e) => Err(e),
            Ok(cs) => {
                let bonds = k.bonded(k.backbone@[n - 1]);
                if bonds.len() == 0 {
                    Err(ValueError::WrongNeighbourCount)
                } else {
                    match k.chain.molecule_at(bonds[0]) {
                        Some(Molecule::F(FunctionalGroup::Ether(e))) => match ether_number(e.0) {
                            Ok(x) => Ok(cs.push(code_char(x))),
                            Err(er) => Err(er),
                        },
                        Some(_) => Err(ValueError::UnexpectedGroup),
                        None => Err(ValueError::MissingNode),
                    }
                }
            },
        }
    }
}

/// The characters the head neighbours `ns[..n]` of a sulfide encode: one
/// character for an ether, the characters of a string alkane. A sulfide has
/// at most one such neighbour.
pub open spec fn sulfide_chars(a: Atoms, ns: Seq<usize>, n: nat) -> Result<Seq<char>, ValueError>
    decreases n,
{
    if n == 0 || n > ns.len() {
        Ok(Seq::empty())
    } else {
        match sulfide_chars(a, ns, (n - 1) as nat) {
            Err(e) => Err(e),
            Ok(cs) => match a.molecule_at(ns[n - 1]) {
                None => Err(ValueError::MissingNode),
                Some(Molecule::E(_)) => Err(ValueError::BareElement),
                Some(Molecule::F(FunctionalGroup::Ether(e))) => match ether_number(e.0) {
                    Ok(x) => Ok(cs.push(code_char(x))),
                    Err(er) => Err(er),
                },
                Some(Molecule::F(FunctionalGroup::Alkane(k))) => match string_chars(
                    k,
                    k.backbone@.len(),
                ) {
                    Ok(more) => Ok(cs + more),
                    Err(er) => Err(er),
                },
                Some(Molecule::F(_)) => Err(ValueError::UnexpectedGroup),
            },
        }
    }
}

/// The side groups of the first `n` backbone carbons of `k`, carbon by
/// carbon.
pub open spec fn side_nodes(k: Alkane, n: nat) -> Seq<usize>
    decreases n,
{
    if n == 0 || n > k.backbone@.len() {
        Seq::empty()
    } else {
        side_nodes(k, (n - 1) as nat) + k.bonded(k.backbone@[n - 1])
    }
}

/// The value a functional group encodes.
pub open spec fn fg_value(fg: FunctionalGroup) -> Result<ValueModel, ValueError>
    decreases fg, 0nat,
{
    match fg {
        FunctionalGroup::Ether(g) => match ether_number(g.0) {
            Ok(x) => Ok(ValueModel::Number(x)),
            Err(e) => Err(e),
        },
        FunctionalGroup::BorinicAcid(g) => Ok(ValueModel::Boolean(g.0.nbrs(g.0.head).len() > 1)),
        FunctionalGroup::Sulfide(g) => if g.0.nbrs(g.0.head).len() > 1 {
            Err(ValueError::WrongNeighbourCount)
        } else {
            match sulfide_chars(g.0, g.0.nbrs(g.0.head), g.0.nbrs(g.0.head).len()) {
                Ok(cs) => Ok(ValueModel::Str(cs)),
                Err(e) => Err(e),
            }
        },
        FunctionalGroup::Amine(g) => {
            let a = g.0;
            let ns = a.nbrs(a.head);
            if ns.len() != 2 {
                Err(ValueError::WrongNeighbourCount)
            } else {
                let x = ns[0];
                let y = ns[1];
                if !(a.has_node(x) && a.nodes()[x] < a.molecules@.len()) {
                    Err(ValueError::MissingNode)
                } else if !(a.has_node(y) && a.nodes()[y] < a.molecules@.len()) {
                    Err(ValueError::MissingNode)
                } else {
                    match a.molecules@[a.nodes()[x] as int] {
                        Molecule::E(_) => Err(ValueError::BareElement),
                        Molecule::F(f1) => match a.molecules@[a.nodes()[y] as int] {
                            Molecule::E(_) => Err(ValueError::BareElement),
                            Molecule::F(f2) => match fg_value(f1) {
                                Err(e) => Err(e),
                                Ok(v1) => match fg_value(f2) {
                                    Err(e) => Err(e),
                                    Ok(v2) => Ok(ValueModel::Pair(Box::new(v1), Box::new(v2))),
                                },
                            },
                        },
                    }
                }
            }
        },
        FunctionalGroup::Alkane(g) => {
            let ns = side_nodes(g, g.backbone@.len());
            match node_values(g.chain, ns, ns.len()) {
                Ok(vals) => Ok(list_or_mapping(vals)),
                Err(e) => Err(e),
            }
        },
    }
}

/// The pair whose members are the values of the groups `m1` and `m2`.
pub open spec fn pair_value(m1: Molecule, m2: Molecule) -> Result<ValueModel, ValueError> {
    match (m1, m2) {
        (Molecule::F(f1), Molecule::F(f2)) => match fg_value(f1) {
            Err(e) => Err(e),
            Ok(v1) => match fg_value(f2) {
                Err(e) => Err(e),
                Ok(v2) => Ok(ValueModel::Pair(Box::new(v1), Box::new(v2))),
            },
        },
        _ => Err(ValueError::BareElement),
    }
}

/// The values of the groups at nodes `ns[..n]` of `a`, in order; a bare
/// element there is an error.
pub open spec fn node_values(a: Atoms, ns: Seq<usize>, n: nat) -> Result<Seq<ValueModel>, ValueError>
    decreases a, n,
{
    if n == 0 || n > ns.len() {
        Ok(Seq::empty())
    } else {
        match node_values(a, ns, (n - 1) as nat) {
            Err(e) => Err(e),
            Ok(vs) => {
                let x = ns[n - 1];
                if !(a.has_node(x) && a.nodes()[x] < a.molecules@.len()) {
                    Err(ValueError::MissingNode)
                } else {
                    match a.molecules@[a.nodes()[x] as int] {
                        Molecule::E(_) => Err(ValueError::BareElement),
                        Molecule::F(f) => match fg_value(f) {
                            Ok(v) => Ok(vs.push(v)),
                            Err(e) => Err(e),
                        },
                    }
                }
            },
        }
    }
}

/// Relies on `char::from_u32`: the character with code `c`, if `c` is a
/// character's code.
#[verifier::external_body]
fn char_from_code(c: u32) -> (r: Option<char>)
    ensures
        r matches Some(ch) ==> char_code(ch) == c,
        r is None ==> forall|ch: char| #[trigger] char_code(ch) != c,
{
    char::from_u32(c)
}

/// The character for a number read from an ether.
pub fn char_of_code(n: i64) -> (r: char)
    ensures
        r == code_char(n),
{
    match char_from_code(n as u32) {
        Some(c) => {
            proof {
                let d = choose|d: char| #[trigger] char_code(d) == n as u32;
                assert(char_code(d) == char_code(c));
                vstd::utf8::char_u32_cast(d, n as u32);
                vstd::utf8::char_u32_cast(c, n as u32);
            }
            c
        },
        None => '\u{FFFD}',
    }
}

/// The number an ether encodes.
pub fn ether_value(a: &Atoms) -> (r: Result<i64, ValueError>)
    ensures
        r == ether_number(*a),
{
    let ns = a.neighbors(a.head);
    if ns.len() != 1 {
        return Err(ValueError::WrongNeighbourCount);
    }
    match a.node_weight(ns[0]) {
        Some(Molecule::E(el)) => Ok(el.atomic_weight()),
        Some(Molecule::F(_)) => Err(ValueError::UnexpectedGroup),
        None => Err(ValueError::MissingNode),
    }
}

/// The characters of a string alkane.
#[verifier::loop_isolation(false)]
pub fn string_alkane_chars(k: &Alkane) -> (r: Result<Vec<char>, ValueError>)
    ensures
        match r {
            Ok(cs) => string_chars(*k, k.backbone@.len()) == Ok::<Seq<char>, ValueError>(cs@),
            Err(e) => string_chars(*k, k.backbone@.len()) == Err::<Seq<char>, ValueError>(e),
        },
{
    let mut cs: Vec<char> = Vec::new();
    let mut i: usize = 0;
    while i < k.backbone.len()
        invariant
            0 <= i <= k.backbone@.len(),
            string_chars(*k, i as nat) == Ok::<Seq<char>, ValueError>(cs@),
        decreases k.backbone@.len() - i,
    {
        let bonds = k.bonded_nodes(k.backbone[i]);
        if bonds.len() == 0 {
            proof { lemma_string_chars_err(*k, (i + 1) as nat, k.backbone@.len()); }
            return Err(ValueError::WrongNeighbourCount);
        } else {
            match k.chain.node_weight(bonds[0]) {
                Some(Molecule::F(FunctionalGroup::Ether(e))) => match ether_value(&e.0) {
                    Ok(x) => cs.push(char_of_code(x)),
                    Err(er) => {
                        proof { lemma_string_chars_err(*k, (i + 1) as nat, k.backbone@.len()); }
                        return Err(er);
                    },
                },
                Some(_) => {
                    proof { lemma_string_chars_err(*k, (i + 1) as nat, k.backbone@.len()); }
                    return Err(ValueError::UnexpectedGroup);
                },
                None => {
                    proof { lemma_string_chars_err(*k, (i + 1) as nat, k.backbone@.len()); }
                    return Err(ValueError::MissingNode);
                },
            }
        }
        i = i + 1;
    }
    Ok(cs)
}

/// An error met on the first `k` carbons of a string alkane is its error.
pub proof fn lemma_string_chars_err(a: Alkane, k: nat, n: nat)
    requires
        k <= n <= a.backbone@.len(),
        string_chars(a, k) is Err,
    ensures
        string_chars(a, n) == string_chars(a, k),
    decreases n - k,
{
    if k < n {
        lemma_string_chars_err(a, k, (n - 1) as nat);
    }
}

/// An error met on the first `k` neighbours of a sulfide is its error.
pub proof fn lemma_sulfide_chars_err(a: Atoms, ns: Seq<usize>, k: nat, n: nat)
    requires
        k <= n <= ns.len(),
        sulfide_chars(a, ns, k) is Err,
    ensures
        sulfide_chars(a, ns, n) == sulfide_chars(a, ns, k),
    decreases n - k,
{
    if k < n {
        lemma_sulfide_chars_err(a, ns, k, (n - 1) as nat);
    }
}

/// An error met on the first `k` nodes is the error of all `n`.
pub proof fn lemma_node_values_err(a: Atoms, ns: Seq<usize>, k: nat, n: nat)
    requires
        k <= n <= ns.len(),
        node_values(a, ns, k) is Err,
    ensures
        node_values(a, ns, n) == node_values(a, ns, k),
    decreases n - k,
{
    if k < n {
        lemma_node_values_err(a, ns, k, (n - 1) as nat);
    }
}

/// The string a sulfide encodes.
#[verifier::loop_isolation(false)]
pub fn sulfide_value(s: &Sulfide) -> (r: Result<Value, ValueError>)
    ensures
        result_model(r) == fg_value(FunctionalGroup::Sulfide(*s)),
{
    let a = &s.0;
    let ns = a.neighbors(a.head);
    if ns.len() > 1 {
        return Err(ValueError::WrongNeighbourCount);
    }
    let mut cs: Vec<char> = Vec::new();
    let mut i: usize = 0;
    while i < ns.len()
        invariant
            ns@ == a.nbrs(a.head),
            0 <= i <= ns@.len(),
            sulfide_chars(*a, ns@, i as nat) == Ok::<Seq<char>, ValueError>(cs@),
        decreases ns@.len() - i,
    {
        let err: ValueError;
        match a.node_weight(ns[i]) {
            None => {
                err = ValueError::MissingNode;
            },
            Some(Molecule::E(_)) => {
                err = ValueError::BareElement;
            },
            Some(Molecule::F(FunctionalGroup::Ether(e))) => match ether_value(&e.0) {
                Ok(x) => {
                    cs.push(char_of_code(x));
                    i = i + 1;
                    continue;
                },
                Err(er) => {
                    err = er;
                },
            },
            Some(Molecule::F(FunctionalGroup::Alkane(k))) => match string_alkane_chars(k) {
                Ok(more) => {
                    let mut more = more;
                    let ghost before = cs@;
                    cs.append(&mut more);
                    proof { assert(cs@ == before + string_chars(*k, k.backbone@.len())->Ok_0); }
                    i = i + 1;
                    continue;
                },
                Err(er) => {
                    err = er;
                },
            },
            Some(Molecule::F(_)) => {
                err = ValueError::UnexpectedGroup;
            },
        }
        proof { lemma_sulfide_chars_err(*a, ns@, (i + 1) as nat, ns@.len()); }
        return Err(err);
    }
    Ok(Value::String(cs))
}

/// The pair an amine encodes: its head must have exactly two neighbours,
/// both groups; the pair is their values in the order the head's neighbours
/// are walked.
pub fn amine_value(g: &Amine) -> (r: Result<Value, ValueError>)
    ensures
        result_model(r) == fg_value(FunctionalGroup::Amine(*g)),
    decreases g, 1nat,
{
    let a = &g.0;
    let ns = a.neighbors(a.head);
    if ns.len() != 2 {
        return Err(ValueError::WrongNeighbourCount);
    }
    let m1 = match a.node_weight(ns[0]) {
        Some(m) => m,
        None => return Err(ValueError::MissingNode),
    };
    let m2 = match a.node_weight(ns[1]) {
        Some(m) => m,
        None => return Err(ValueError::MissingNode),
    };
    let f1 = match m1 {
        Molecule::F(f) => f,
        Molecule::E(_) => return Err(ValueError::BareElement),
    };
    let f2 = match m2 {
        Molecule::F(f) => f,
        Molecule::E(_) => return Err(ValueError::BareElement),
    };
    let v1 = match value_of_group(f1) {
        Ok(v) => v,
        Err(e) => return Err(e),
    };
    let v2 = match value_of_group(f2) {
        Ok(v) => v,
        Err(e) => return Err(e),
    };
    Ok(Value::Pair(Box::new(v1), Box::new(v2)))
}

/// The values of the groups at nodes `ns` of `a`, in order.
#[verifier::loop_isolation(false)]
pub fn node_values_of(a: &Atoms, ns: &Vec<usize>) -> (r: Result<Vec<Value>, ValueError>)
    ensures
        match r {
            Ok(vs) => node_values(*a, ns@, ns@.len()) == Ok::<Seq<ValueModel>, ValueError>(models_upto(vs@, vs@.len())),
            Err(e) => node_values(*a, ns@, ns@.len()) == Err::<Seq<ValueModel>, ValueError>(e),
        },
    decreases a, 1nat,
{
    let mut vals: Vec<Value> = Vec::new();
    let ghost mut vms: Seq<ValueModel> = Seq::empty();
    let mut i: usize = 0;
    while i < ns.len()
        invariant
            0 <= i <= ns@.len(),
            node_values(*a, ns@, i as nat) == Ok::<Seq<ValueModel>, ValueError>(vms),
            vms.len() == i,
            vals@.len() == i,
            forall|j: int| 0 <= j < i ==> vms[j] == value_model(#[trigger] vals@[j]),
        decreases ns@.len() - i,
    {
        let err: ValueError;
        match a.node_weight(ns[i]) {
            None => {
                err = ValueError::MissingNode;
            },
            Some(Molecule::E(_)) => {
                err = ValueError::BareElement;
            },
            Some(Molecule::F(f)) => match value_of_group(f) {
                Ok(v) => {
                    proof { vms = vms.push(value_model(v)); }
                    vals.push(v);
                    i = i + 1;
                    continue;
                },
                Err(e) => {
                    err = e;
                },
            },
        }
        proof { lemma_node_values_err(*a, ns@, (i + 1) as nat, ns@.len()); }
        return Err(err);
    }
    proof {
        lemma_models_upto(vals@, vals@.len());
        assert(models_upto(vals@, vals@.len()) =~= vms);
    }
    Ok(vals)
}

/// The value a functional group encodes.
pub fn value_of_group(fg: &FunctionalGroup) -> (r: Result<Value, ValueError>)
    ensures
        result_model(r) == fg_value(*fg),
    decreases fg, 0nat,
{
    match fg {
        FunctionalGroup::Ether(g) => match ether_value(&g.0) {
            Ok(x) => Ok(Value::Number(x)),
            Err(e) => Err(e),
        },
        FunctionalGroup::BorinicAcid(g) => {
            let ns = g.0.neighbors(g.0.head);
            Ok(Value::Boolean(ns.len() > 1))
        },
        FunctionalGroup::Sulfide(g) => sulfide_value(g),
        FunctionalGroup::Amine(g) => amine_value(g),
        FunctionalGroup::Alkane(g) => alkane_value(g),
    }
}

/// The list or map an alkane encodes.
pub fn alkane_value(k: &Alkane) -> (r: Result<Value, ValueError>)
    ensures
        result_model(r) == fg_value(FunctionalGroup::Alkane(*k)),
    decreases k, 1nat,
{
    let ns = alkane_side_nodes(k);
    match node_values_of(&k.chain, &ns) {
        Ok(vals) => Ok(list_or_mapping_of(vals)),
        Err(e) => Err(e),
    }
}

/// The side groups of all backbone carbons, carbon by carbon.
#[verifier::loop_isolation(false)]
pub fn alkane_side_nodes(k: &Alkane) -> (r: Vec<usize>)
    ensures
        r@ == side_nodes(*k, k.backbone@.len()),
{
    let mut ns: Vec<usize> = Vec::new();
    let mut i: usize = 0;
    while i < k.backbone.len()
        invariant
            0 <= i <= k.backbone@.len(),
            ns@ == side_nodes(*k, i as nat),
        decreases k.backbone@.len() - i,
    {
        let mut b = k.bonded_nodes(k.backbone[i]);
        ns.append(&mut b);
        i = i + 1;
    }
    ns
}

/// The character of a character's own code is that character.
pub proof fn lemma_code_char(c: char)
    ensures
        code_char(c as u32 as i64) == c,
{
    let n = c as u32 as i64;
    assert(char_code(c) == n as u32);
    let d = choose|d: char| #[trigger] char_code(d) == n as u32;
    vstd::utf8::char_u32_cast(d, n as u32);
    vstd::utf8::char_u32_cast(c, n as u32);
}

/// An alkane whose `i`-th carbon carries exactly the node `s(i)`, holding the
/// group `f(i)`: its side nodes are those nodes in order.
pub proof fn lemma_side_nodes_single(k: Alkane, n: nat)
    requires
        n <= k.backbone@.len(),
        forall|i: int| 0 <= i < n ==> (#[trigger] k.bonded(k.backbone@[i])).len() == 1,
    ensures
        side_nodes(k, n).len() == n,
        forall|i: int| 0 <= i < n ==> #[trigger] side_nodes(k, n)[i] == k.bonded(k.backbone@[i])[0],
    decreases n,
{
    if n > 0 {
        lemma_side_nodes_single(k, (n - 1) as nat);
        let prev = side_nodes(k, (n - 1) as nat);
        let b = k.bonded(k.backbone@[n - 1]);
        assert(side_nodes(k, n) == prev + b);
        assert forall|i: int| 0 <= i < n implies #[trigger] side_nodes(k, n)[i] == k.bonded(k.backbone@[i])[0] by {
            if i < n - 1 {
                assert(side_nodes(k, n)[i] == prev[i]);
            } else {
                assert(side_nodes(k, n)[i] == b[0]);
            }
        }
    }
}

/// The values of nodes that each hold a group with a value are those values.
pub proof fn lemma_node_values_ok(a: Atoms, ns: Seq<usize>, ws: Seq<ValueModel>, n: nat)
    requires
        n <= ns.len(),
        ws.len() == ns.len(),
        forall|i: int| 0 <= i < ns.len() ==> match a.molecule_at(#[trigger] ns[i]) {
            Some(Molecule::F(f)) => fg_value(f) == Ok::<ValueModel, ValueError>(ws[i]),
            _ => false,
        },
    ensures
        node_values(a, ns, n) == Ok::<Seq<ValueModel>, ValueError>(ws.take(n as int)),
    decreases n,
{
    if n > 0 {
        lemma_node_values_ok(a, ns, ws, (n - 1) as nat);
        assert(ws.take(n as int) =~= ws.take(n - 1).push(ws[n - 1]));
        let x = ns[n - 1];
        assert(a.molecule_at(x) is Some);
    } else {
        assert(ws.take(0) =~= Seq::<ValueModel>::empty());
    }
}

/// An alkane whose `i`-th carbon carries exactly one group, of value `ws[i]`,
/// reads as `ws`, as a map when all of them are pairs.
pub proof fn lemma_alkane_value(k: Alkane, ws: Seq<ValueModel>)
    requires
        ws.len() == k.backbone@.len(),
        forall|i: int| 0 <= i < ws.len() ==> (#[trigger] k.bonded(k.backbone@[i])).len() == 1,
        forall|i: int| 0 <= i < ws.len() ==> match k.chain.molecule_at(#[trigger] k.bonded(k.backbone@[i])[0]) {
            Some(Molecule::F(f)) => fg_value(f) == Ok::<ValueModel, ValueError>(ws[i]),
            _ => false,
        },
    ensures
        fg_value(FunctionalGroup::Alkane(k)) == Ok::<ValueModel, ValueError>(list_or_mapping(ws)),
{
    let n = k.backbone@.len();
    lemma_side_nodes_single(k, n);
    let ns = side_nodes(k, n);
    assert forall|i: int| 0 <= i < ns.len() implies match k.chain.molecule_at(#[trigger] ns[i]) {
        Some(Molecule::F(f)) => fg_value(f) == Ok::<ValueModel, ValueError>(ws[i]),
        _ => false,
    } by {
        assert(ns[i] == k.bonded(k.backbone@[i])[0]);
    }
    lemma_node_values_ok(k.chain, ns, ws, ns.len());
    assert(ws.take(ns.len() as int) =~= ws);
}

/// A string alkane whose `i`-th carbon carries exactly one ether, encoding the
/// code of `cs[i]`, reads as `cs`.
pub proof fn lemma_string_chars_of(k: Alkane, cs: Seq<char>, n: nat)
    requires
        n <= k.backbone@.len(),
        cs.len() == k.backbone@.len(),
        forall|i: int| 0 <= i < cs.len() ==> (#[trigger] k.bonded(k.backbone@[i])).len() == 1,
        forall|i: int| 0 <= i < cs.len() ==> match k.chain.molecule_at(#[trigger] k.bonded(k.backbone@[i])[0]) {
            Some(Molecule::F(FunctionalGroup::Ether(e))) => ether_number(e.0) == Ok::<i64, ValueError>(cs[i] as u32 as i64),
            _ => false,
        },
    ensures
        string_chars(k, n) == Ok::<Seq<char>, ValueError>(cs.take(n as int)),
    decreases n,
{
    if n > 0 {
        lemma_string_chars_of(k, cs, (n - 1) as nat);
        lemma_code_char(cs[n - 1]);
        assert(cs.take(n as int) =~= cs.take(n - 1).push(cs[n - 1]));
        let b = k.bonded(k.backbone@[n - 1]);
        assert(k.chain.molecule_at(b[0]) is Some);
    } else {
        assert(cs.take(0) =~= Seq::<char>::empty());
    }
}

} // verus!
