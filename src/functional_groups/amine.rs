//! Amine: a nitrogen head bonded to two groups; encodes a pair.
use crate::atoms::Atoms;
use crate::graph::graph_edges;
use crate::weight::{lemma_two_neighbor_weight, mol_weight};
use crate::element::Element;
use crate::functional_groups::FunctionalGroup;
use crate::molecule::{FgElement, Molecule};
use crate::valuation::{fg_value, pair_value};
use crate::value::{ValueError, ValueModel};
use vstd::prelude::*;

verus! {

pub struct Amine(pub Atoms);

impl Amine {
    /// A lone nitrogen head, which holds no pair.
    pub fn new() -> (r: Amine)
        ensures
            r.0.wf(),
            r.0.has_node(r.0.head),
            fg_value(FunctionalGroup::Amine(r)) == Err::<ValueModel, ValueError>(ValueError::WrongNeighbourCount),
    {
        let mut atoms = Atoms::new();
        atoms.add_node(Molecule::E(Element::N));
        Amine(atoms)
    }

    /// A nitrogen bonded to `k` and `v`. The bonds are made value first, so
    /// that the head's neighbours are walked key first: the pair reads back as
    /// `(k, v)`.
    pub fn new_with(k: FgElement, v: FgElement) -> (r: Amine)
        ensures
            r.0.wf(),
            r.0.has_node(r.0.head),
            r.0.nbrs(r.0.head).len() == 2,
            r.0.molecule_at(r.0.nbrs(r.0.head)[0]) == Some(k.molecule()),
            r.0.molecule_at(r.0.nbrs(r.0.head)[1]) == Some(v.molecule()),
            r.0.molecule_at(r.0.head) == Some(Molecule::E(Element::N)),
            r.0.nodes().dom().len() == 3,
            graph_edges(r.0.graph).dom().len() == 2,
            fg_value(FunctionalGroup::Amine(r)) == pair_value(k.molecule(), v.molecule()),
            mol_weight(Molecule::F(FunctionalGroup::Amine(r))) == mol_weight(k.molecule()) + mol_weight(v.molecule()),
    {
        let ghost mk = k.molecule();
        let ghost mv = v.molecule();
        let mut atoms = Atoms::new();
        let n = atoms.add_node(Molecule::E(Element::N));
        let ki = atoms.add_node(k.as_molecule());
        let vi = atoms.add_node(v.as_molecule());
        atoms.add_edge(n, vi);
        atoms.add_edge(n, ki);
        let r = Amine(atoms);
        proof {
            assert(r.0.nbrs(r.0.head) =~= seq![ki, vi]);
            lemma_two_neighbor_weight(r.0, ki, vi, mk, mv);
        }
        r
    }
}

} // verus!
