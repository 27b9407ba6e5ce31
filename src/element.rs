//! Chemical elements: the leaves of every atom graph.
use vstd::prelude::*;

verus! {

/// Markers that are not chemical elements.
#[derive(Debug, Clone, Copy, PartialEq, Eq, Structural)]
pub enum ElementHeader {
    AlkaneHeader,
}

/// An element symbol. `Numbered` stands for the element with a given atomic
/// number when no named variant exists for it.
#[derive(Debug, Clone, Copy, PartialEq, Eq, Structural)]
pub enum Element {
    Header(ElementHeader),
    H,
    C,
    O,
    B,
    N,
    S,
    Numbered(i64),
}

/// The fixed weight (atomic number) of an element.
pub open spec fn element_weight(e: Element) -> i64 {
    match e {
        Element::Header(_) => 0,
        Element::H => 1,
        Element::B => 5,
        Element::C => 6,
        Element::N => 7,
        Element::O => 8,
        Element::S => 16,
        Element::Numbered(n) => n,
    }
}

impl Element {
    /// The element with atomic number `n`.
    pub open spec fn from_atomic_number_spec(n: i64) -> Element {
        if n == 1 {
            Element::H
        } else if n == 5 {
            Element::B
        } else if n == 6 {
            Element::C
        } else if n == 7 {
            Element::N
        } else if n == 8 {
            Element::O
        } else if n == 16 {
            Element::S
        } else {
            Element::Numbered(n)
        }
    }

    pub fn atomic_weight(&self) -> (r: i64)
        ensures
            r == element_weight(*self),
    {
        match self {
            Element::Header(_) => 0,
            Element::H => 1,
            Element::B => 5,
            Element::C => 6,
            Element::N => 7,
            Element::O => 8,
            Element::S => 16,
            Element::Numbered(n) => *n,
        }
    }

    /// The element with atomic number `n`, by its symbol where it has one here.
    pub fn from_atomic_number(n: i64) -> (r: Element)
        ensures
            r == Element::from_atomic_number_spec(n),
            element_weight(r) == n,
            r !is Header,
    {
        match n {
            1 => Element::H,
            5 => Element::B,
            6 => Element::C,
            7 => Element::N,
            8 => Element::O,
            16 => Element::S,
            _ => Element::Numbered(n),
        }
    }
}

} // verus!
