//! Access to the atoms of anything built on a group of atoms.
use crate::atoms::Atoms;
use crate::flatten::{
    all_elements, flatten_atoms, groups_attached, heads_spliced, is_wrapper, keeps_elements,
};
use crate::functional_groups::alkane::Alkane;
use crate::functional_groups::amine::Amine;
use crate::functional_groups::borinic::BorinicAcid;
use crate::functional_groups::ether::Ether;
use crate::functional_groups::sulfide::Sulfide;
use crate::functional_groups::FunctionalGroup;
use crate::graph::{graph_edges, graph_nodes};
use vstd::prelude::*;

verus! {

/// Whether `r` is what flattening `a` promises: the same head; the element
/// nodes of `a` and the edges between them kept; every group node with a
/// neighbour gone, a copy of its group's head bonded to each of its
/// neighbours; only elements left when every group at every depth is bonded
/// to something; and for a graph of elements alone the same nodes, edges and
/// molecules.
pub open spec fn flattened_from(a: Atoms, r: Atoms) -> bool {
    &&& r.head == a.head
    &&& keeps_elements(a, r)
    &&& forall|n: usize| #[trigger] is_wrapper(a, n) ==> !r.has_node(n)
    &&& heads_spliced(a, r)
    &&& groups_attached(a) ==> all_elements(r)
    &&& all_elements(a) ==> {
        &&& graph_nodes(r.graph) == graph_nodes(a.graph)
        &&& graph_edges(r.graph) == graph_edges(a.graph)
        &&& forall|n: usize| #[trigger] r.molecule_at(n) == a.molecule_at(n)
    }
}

/// Something built on a group of atoms.
pub trait AtomLike {
    /// The group of atoms it is built on.
    spec fn atoms_of(&self) -> Atoms;

    fn get_atoms(&self) -> (r: &Atoms)
        ensures
            *r == self.atoms_of(),
    ;

    /// The atoms with every nested functional group inlined.
    fn flatten(&self) -> (r: Atoms)
        ensures
            flattened_from(self.atoms_of(), r),
    ;
}

impl AtomLike for Atoms {
    open spec fn atoms_of(&self) -> Atoms {
        *self
    }

    fn get_atoms(&self) -> (r: &Atoms) {
        self
    }

    fn flatten(&self) -> (r: Atoms) {
        flatten_atoms(self)
    }
}

impl AtomLike for FunctionalGroup {
    open spec fn atoms_of(&self) -> Atoms {
        self.atoms()
    }

    fn get_atoms(&self) -> (r: &Atoms) {
        FunctionalGroup::get_atoms(self)
    }

    fn flatten(&self) -> (r: Atoms) {
        flatten_atoms(FunctionalGroup::get_atoms(self))
    }
}

impl AtomLike for Ether {
    open spec fn atoms_of(&self) -> Atoms {
        self.0
    }

    fn get_atoms(&self) -> (r: &Atoms) {
        &self.0
    }

    fn flatten(&self) -> (r: Atoms) {
        flatten_atoms(&self.0)
    }
}

impl AtomLike for BorinicAcid {
    open spec fn atoms_of(&self) -> Atoms {
        self.0
    }

    fn get_atoms(&self) -> (r: &Atoms) {
        &self.0
    }

    fn flatten(&self) -> (r: Atoms) {
        flatten_atoms(&self.0)
    }
}

impl AtomLike for Sulfide {
    open spec fn atoms_of(&self) -> Atoms {
        self.0
    }

    fn get_atoms(&self) -> (r: &Atoms) {
        &self.0
    }

    fn flatten(&self) -> (r: Atoms) {
        flatten_atoms(&self.0)
    }
}

impl AtomLike for Amine {
    open spec fn atoms_of(&self) -> Atoms {
        self.0
    }

    fn get_atoms(&self) -> (r: &Atoms) {
        &self.0
    }

    fn flatten(&self) -> (r: Atoms) {
        flatten_atoms(&self.0)
    }
}

impl AtomLike for Alkane {
    open spec fn atoms_of(&self) -> Atoms {
        self.chain
    }

    fn get_atoms(&self) -> (r: &Atoms) {
        &self.chain
    }

    fn flatten(&self) -> (r: Atoms) {
        flatten_atoms(&self.chain)
    }
}

} // verus!
