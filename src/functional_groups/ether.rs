//! Ether: an oxygen head bonded to one element; encodes a number.
use crate::atoms::Atoms;
use crate::graph::graph_edges;
use crate::element::{element_weight, Element};
use crate::functional_groups::FunctionalGroup;
use crate::molecule::{FgElement, Molecule};
use crate::valuation::fg_value;
use crate::value::ValueModel;
use crate::weight::{lemma_single_neighbor_weight, mol_weight, weight_fits};
use vstd::prelude::*;

verus! {

pub struct Ether(pub Atoms);

impl Ether {
    /// The group as a molecule.
    pub open spec fn molecule(self) -> Molecule {
        Molecule::F(FunctionalGroup::Ether(self))
    }

    /// A lone oxygen head, which encodes no number yet.
    pub fn new() -> (r: Ether)
        ensures
            r.0.wf(),
            r.0.has_node(r.0.head),
            r.0.nbrs(r.0.head) == Seq::<usize>::empty(),
            r.0.molecule_at(r.0.head) == Some(Molecule::E(Element::O)),
            r.0.nodes().dom().len() == 1,
            graph_edges(r.0.graph).dom().len() == 0,
            fg_value(FunctionalGroup::Ether(r)) == Err::<ValueModel, crate::value::ValueError>(crate::value::ValueError::WrongNeighbourCount),
    {
        let mut atoms = Atoms::new();
        atoms.add_node(Molecule::E(Element::O));
        Ether(atoms)
    }

    /// An oxygen head bonded to `r`; the ether weighs what `r` weighs.
    pub fn new_with(r: FgElement) -> (e: Ether)
        ensures
            e.0.wf(),
            e.0.has_node(e.0.head),
            e.0.nbrs(e.0.head).len() == 1,
            e.0.molecule_at(e.0.nbrs(e.0.head)[0]) == Some(r.molecule()),
            e.0.molecule_at(e.0.head) == Some(Molecule::E(Element::O)),
            e.0.nodes().dom().len() == 2,
            graph_edges(e.0.graph).dom().len() == 1,
            mol_weight(e.molecule()) == mol_weight(r.molecule()),
            weight_fits(e.molecule()) == weight_fits(r.molecule()),
    {
        let ghost m = r.molecule();
        let mut e = Ether::new();
        let head = e.0.head;
        let x = e.0.bond_new(head, r.as_molecule());
        proof {
            lemma_single_neighbor_weight(e.0, x, m);
        }
        e
    }

    /// The ether that encodes `n`: an oxygen bonded to the element whose
    /// weight is `n`.
    pub fn from_number(n: i64) -> (e: Ether)
        ensures
            e.0.wf(),
            fg_value(FunctionalGroup::Ether(e)) == Ok::<ValueModel, crate::value::ValueError>(ValueModel::Number(n)),
            mol_weight(e.molecule()) == n,
            e.0.molecule_at(e.0.head) == Some(Molecule::E(Element::O)),
            e.0.nodes().dom().len() == 2,
            graph_edges(e.0.graph).dom().len() == 1,
            e.0.nbrs(e.0.head).len() == 1,
            e.0.molecule_at(e.0.nbrs(e.0.head)[0]) == Some(Molecule::E(Element::from_atomic_number_spec(n))),
    {
        let el = Element::from_atomic_number(n);
        let e = Ether::new_with(FgElement::E(el));
        proof {
            assert(weight_fits(Molecule::E(el)));
        }
        e
    }

    /// The ether that encodes the code of `c`.
    pub fn from_char(c: char) -> (e: Ether)
        ensures
            e.0.wf(),
            fg_value(FunctionalGroup::Ether(e)) == Ok::<ValueModel, crate::value::ValueError>(ValueModel::Number(c as u32 as i64)),
            crate::valuation::ether_number(e.0) == Ok::<i64, crate::value::ValueError>(c as u32 as i64),
            e.0.molecule_at(e.0.head) == Some(Molecule::E(Element::O)),
            e.0.nodes().dom().len() == 2,
            graph_edges(e.0.graph).dom().len() == 1,
    {
        Ether::from_number(c as u32 as i64)
    }
}

} // verus!
