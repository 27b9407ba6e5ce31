//! BorinicAcid: a boron head on a boron-oxygen-hydrogen scaffold; encodes a
//! boolean.
use crate::atoms::Atoms;
use crate::graph::graph_edges;
use crate::element::Element;
use crate::functional_groups::FunctionalGroup;
use crate::molecule::{FgElement, Molecule};
use crate::valuation::fg_value;
use crate::value::{ValueError, ValueModel};
use vstd::prelude::*;

verus! {

pub struct BorinicAcid(pub Atoms);

impl BorinicAcid {
    /// The scaffold B-O-H: the head boron has the oxygen as its one
    /// neighbour, which reads as false.
    pub fn new() -> (r: BorinicAcid)
        ensures
            r.0.wf(),
            r.0.has_node(r.0.head),
            r.0.nbrs(r.0.head).len() == 1,
            r.0.molecule_at(r.0.head) == Some(Molecule::E(Element::B)),
            r.0.molecule_at(r.0.nbrs(r.0.head)[0]) == Some(Molecule::E(Element::O)),
            r.0.nodes().dom().len() == 3,
            graph_edges(r.0.graph).dom().len() == 2,
            fg_value(FunctionalGroup::BorinicAcid(r)) == Ok::<ValueModel, ValueError>(ValueModel::Boolean(false)),
    {
        let mut atoms = Atoms::new();
        let b = atoms.add_node(Molecule::E(Element::B));
        let o = atoms.bond_new(b, Molecule::E(Element::O));
        proof {
            assert(atoms.nbrs(b) =~= seq![o]);
        }
        atoms.bond_new(o, Molecule::E(Element::H));
        BorinicAcid(atoms)
    }

    /// The scaffold with `r` bonded to the boron, which reads as true.
    pub fn new_with(r: FgElement) -> (e: BorinicAcid)
        ensures
            e.0.wf(),
            e.0.has_node(e.0.head),
            e.0.nbrs(e.0.head).len() == 2,
            e.0.molecule_at(e.0.nbrs(e.0.head)[0]) == Some(r.molecule()),
            e.0.molecule_at(e.0.nbrs(e.0.head)[1]) == Some(Molecule::E(Element::O)),
            e.0.molecule_at(e.0.head) == Some(Molecule::E(Element::B)),
            e.0.nodes().dom().len() == 4,
            graph_edges(e.0.graph).dom().len() == 3,
            fg_value(FunctionalGroup::BorinicAcid(e)) == Ok::<ValueModel, ValueError>(ValueModel::Boolean(true)),
    {
        let mut e = BorinicAcid::new();
        let head = e.0.head;
        e.0.bond_new(head, r.as_molecule());
        e
    }

    /// The borinic acid that encodes `b`: the scaffold, with a hydrogen bonded
    /// to the boron when `b` holds, which gives the head one more neighbour.
    pub fn from_bool(b: bool) -> (e: BorinicAcid)
        ensures
            e.0.wf(),
            e.0.nbrs(e.0.head).len() == if b { 2int } else { 1int },
            b ==> e.0.molecule_at(e.0.nbrs(e.0.head)[0]) == Some(Molecule::E(Element::H)),
            fg_value(FunctionalGroup::BorinicAcid(e)) == Ok::<ValueModel, ValueError>(ValueModel::Boolean(b)),
    {
        if b {
            BorinicAcid::new_with(FgElement::E(Element::H))
        } else {
            BorinicAcid::new()
        }
    }
}

} // verus!
