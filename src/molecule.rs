//! The payload of a graph node: an element or a functional group.
use crate::element::Element;
use crate::functional_groups::FunctionalGroup;
use vstd::prelude::*;

verus! {

/// A single element or a single functional group.
pub enum Molecule {
    E(Element),
    F(FunctionalGroup),
}

/// What a constructor attaches: an element or a functional group.
pub enum FgElement {
    E(Element),
    F(FunctionalGroup),
}

impl FgElement {
    /// The molecule that holds this element or group.
    pub open spec fn molecule(self) -> Molecule {
        match self {
            FgElement::E(e) => Molecule::E(e),
            FgElement::F(f) => Molecule::F(f),
        }
    }

    pub fn as_molecule(self) -> (r: Molecule)
        ensures
            r == self.molecule(),
    {
        match self {
            FgElement::E(e) => Molecule::E(e),
            FgElement::F(f) => Molecule::F(f),
        }
    }
}

} // verus!
