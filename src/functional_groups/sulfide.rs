//! Sulfide: a sulfur head bonded to nothing, an ether or an alkane of ethers;
//! encodes a string.
use crate::atoms::Atoms;
use crate::element::Element;
use crate::functional_groups::alkane::{Alkane, AlkaneElement};
use crate::functional_groups::ether::Ether;
use crate::functional_groups::FunctionalGroup;
use crate::molecule::{FgElement, Molecule};
use crate::valuation::{
    ether_number, fg_value, lemma_code_char, lemma_string_chars_of, string_chars, sulfide_chars,
};
use crate::value::{ValueError, ValueModel};
use vstd::prelude::*;

verus! {

pub struct Sulfide(pub Atoms);

/// One ether per character of `cs`, each encoding that character's code.
fn ether_items(cs: &Vec<char>) -> (items: Vec<AlkaneElement>)
    ensures
        items@.len() == cs@.len(),
        forall|j: int| 0 <= j < cs@.len() ==> match #[trigger] items@[j] {
            AlkaneElement::F(FunctionalGroup::Ether(e)) => ether_number(e.0) == Ok::<i64, ValueError>(cs@[j] as u32 as i64),
            _ => false,
        },
{
    let mut items: Vec<AlkaneElement> = Vec::new();
    let mut i: usize = 0;
    while i < cs.len()
        invariant
            0 <= i <= cs@.len(),
            items@.len() == i,
            forall|j: int| 0 <= j < i ==> match #[trigger] items@[j] {
                AlkaneElement::F(FunctionalGroup::Ether(e)) => ether_number(e.0) == Ok::<i64, ValueError>(cs@[j] as u32 as i64),
                _ => false,
            },
        decreases cs@.len() - i,
    {
        let e = Ether::from_char(cs[i]);
        items.push(AlkaneElement::F(FunctionalGroup::Ether(e)));
        proof {
            assert(items@[i as int] == AlkaneElement::F(FunctionalGroup::Ether(e)));
        }
        i = i + 1;
    }
    items
}

impl Sulfide {
    /// A lone sulfur head: the empty string.
    pub fn new() -> (r: Sulfide)
        ensures
            r.0.molecule_at(r.0.head) == Some(Molecule::E(Element::S)),
            r.0.wf(),
            r.0.has_node(r.0.head),
            r.0.nbrs(r.0.head) == Seq::<usize>::empty(),
            fg_value(FunctionalGroup::Sulfide(r)) == Ok::<ValueModel, ValueError>(ValueModel::Str(Seq::empty())),
    {
        let mut atoms = Atoms::new();
        atoms.add_node(Molecule::E(Element::S));
        Sulfide(atoms)
    }

    /// A sulfur head bonded to `r`.
    pub fn new_with(r: FgElement) -> (e: Sulfide)
        ensures
            e.0.wf(),
            e.0.has_node(e.0.head),
            e.0.nbrs(e.0.head).len() == 1,
            e.0.molecule_at(e.0.nbrs(e.0.head)[0]) == Some(r.molecule()),
            e.0.molecule_at(e.0.head) == Some(Molecule::E(Element::S)),
    {
        let mut e = Sulfide::new();
        let head = e.0.head;
        e.0.bond_new(head, r.as_molecule());
        e
    }

    /// The sulfide that encodes `cs`: nothing bonded for no character, one
    /// ether for one character, an alkane of ethers for more.
    #[verifier::rlimit(40)]
    pub fn from_chars(cs: &Vec<char>) -> (r: Sulfide)
        ensures
            r.0.wf(),
            fg_value(FunctionalGroup::Sulfide(r)) == Ok::<ValueModel, ValueError>(ValueModel::Str(cs@)),
            r.0.molecule_at(r.0.head) == Some(Molecule::E(Element::S)),
            cs@.len() == 0 ==> r.0.nbrs(r.0.head).len() == 0,
            cs@.len() > 0 ==> r.0.nbrs(r.0.head).len() == 1,
            cs@.len() == 1 ==> (r.0.molecule_at(r.0.nbrs(r.0.head)[0]) matches Some(
                Molecule::F(FunctionalGroup::Ether(e)),
            ) && ether_number(e.0) == Ok::<i64, ValueError>(cs@[0] as u32 as i64)),
            cs@.len() > 1 ==> (r.0.molecule_at(r.0.nbrs(r.0.head)[0]) matches Some(
                Molecule::F(FunctionalGroup::Alkane(k)),
            ) && k.backbone@.len() == cs@.len() && forall|i: int|
                0 <= i < cs@.len() ==> (#[trigger] k.bonded(k.backbone@[i])).len() == 1 && (k.chain.molecule_at(
                    k.bonded(k.backbone@[i])[0],
                ) matches Some(Molecule::F(FunctionalGroup::Ether(e))) && ether_number(e.0) == Ok::<
                    i64,
                    ValueError,
                >(cs@[i] as u32 as i64))),
    {
        if cs.len() == 0 {
            let r = Sulfide::new();
            proof { assert(cs@ =~= Seq::<char>::empty()); }
            return r;
        }
        if cs.len() == 1 {
            let e = Ether::from_char(cs[0]);
            let ghost eg = e;
            let r = Sulfide::new_with(FgElement::F(FunctionalGroup::Ether(e)));
            proof {
                lemma_code_char(cs@[0]);
                let ns = r.0.nbrs(r.0.head);
                assert(sulfide_chars(r.0, ns, 0) == Ok::<Seq<char>, ValueError>(Seq::empty()));
                assert(ether_number(eg.0) == Ok::<i64, ValueError>(cs@[0] as u32 as i64));
                assert(Seq::<char>::empty().push(cs@[0]) =~= cs@);
            }
            return r;
        }
        let items = ether_items(cs);
        let ghost its = items@;
        let alk = Alkane::new_with(items);
        let ghost k = alk;
        let r = Sulfide::new_with(FgElement::F(FunctionalGroup::Alkane(alk)));
        proof {
            assert forall|j: int| 0 <= j < cs@.len() implies match k.chain.molecule_at(#[trigger] k.bonded(k.backbone@[j])[0]) {
                Some(Molecule::F(FunctionalGroup::Ether(e))) => ether_number(e.0) == Ok::<i64, ValueError>(cs@[j] as u32 as i64),
                _ => false,
            } by {
                assert(its[j].molecule() == k.chain.molecule_at(k.bonded(k.backbone@[j])[0])->Some_0);
                match its[j] {
                    AlkaneElement::F(FunctionalGroup::Ether(e)) => {},
                    _ => {},
                }
            }
            lemma_string_chars_of(k, cs@, cs@.len());
            assert(cs@.take(cs@.len() as int) =~= cs@);
            let ns = r.0.nbrs(r.0.head);
            assert(sulfide_chars(r.0, ns, 0) == Ok::<Seq<char>, ValueError>(Seq::empty()));
            assert(Seq::<char>::empty() + cs@ =~= cs@);
        }
        r
    }
}

} // verus!
