//! What can be read back as a value, and what can be weighed.
use crate::element::Element;
use crate::functional_groups::alkane::Alkane;
use crate::functional_groups::amine::Amine;
use crate::functional_groups::borinic::BorinicAcid;
use crate::functional_groups::ether::Ether;
use crate::functional_groups::sulfide::Sulfide;
use crate::functional_groups::FunctionalGroup;
use crate::molecule::Molecule;
use crate::valuation::{alkane_value, amine_value, fg_value, sulfide_value, value_of_group};
use crate::value::{result_model, Value, ValueError};
use crate::weight::{checked_weight, head_sum, molecule_weight};
use vstd::prelude::*;

verus! {

/// A functional group that reads back as a value.
pub trait Valuable {
    /// The functional group that is read.
    spec fn group(&self) -> FunctionalGroup;

    fn value(&self) -> (r: Result<Value, ValueError>)
        ensures
            result_model(r) == fg_value(self.group()),
    ;
}

/// Something with a weight: the sum of the weights bonded to its head.
pub trait Weighable {
    /// The molecule that is weighed.
    spec fn weighed(&self) -> Molecule;

    /// The weight, or `None` when a partial sum leaves the `i64` range.
    fn atomic_numbers(&self) -> (r: Option<i64>)
        ensures
            r == checked_weight(self.weighed()),
    ;
}

impl Valuable for FunctionalGroup {
    open spec fn group(&self) -> FunctionalGroup {
        *self
    }

    fn value(&self) -> (r: Result<Value, ValueError>) {
        value_of_group(self)
    }
}

impl Valuable for Ether {
    open spec fn group(&self) -> FunctionalGroup {
        FunctionalGroup::Ether(*self)
    }

    fn value(&self) -> (r: Result<Value, ValueError>) {
        match crate::valuation::ether_value(&self.0) {
            Ok(x) => Ok(Value::Number(x)),
            Err(e) => Err(e),
        }
    }
}

impl Valuable for BorinicAcid {
    open spec fn group(&self) -> FunctionalGroup {
        FunctionalGroup::BorinicAcid(*self)
    }

    fn value(&self) -> (r: Result<Value, ValueError>) {
        let ns = self.0.neighbors(self.0.head);
        Ok(Value::Boolean(ns.len() > 1))
    }
}

impl Valuable for Sulfide {
    open spec fn group(&self) -> FunctionalGroup {
        FunctionalGroup::Sulfide(*self)
    }

    fn value(&self) -> (r: Result<Value, ValueError>) {
        sulfide_value(self)
    }
}

impl Valuable for Amine {
    open spec fn group(&self) -> FunctionalGroup {
        FunctionalGroup::Amine(*self)
    }

    fn value(&self) -> (r: Result<Value, ValueError>) {
        amine_value(self)
    }
}

impl Valuable for Alkane {
    open spec fn group(&self) -> FunctionalGroup {
        FunctionalGroup::Alkane(*self)
    }

    fn value(&self) -> (r: Result<Value, ValueError>) {
        alkane_value(self)
    }
}

impl Weighable for Element {
    open spec fn weighed(&self) -> Molecule {
        Molecule::E(*self)
    }

    fn atomic_numbers(&self) -> (r: Option<i64>) {
        Some(self.atomic_weight())
    }
}

impl Weighable for Molecule {
    open spec fn weighed(&self) -> Molecule {
        *self
    }

    fn atomic_numbers(&self) -> (r: Option<i64>) {
        molecule_weight(self)
    }
}

impl Weighable for FunctionalGroup {
    open spec fn weighed(&self) -> Molecule {
        Molecule::F(*self)
    }

    fn atomic_numbers(&self) -> (r: Option<i64>) {
        head_sum(self.get_atoms())
    }
}

impl Weighable for Ether {
    open spec fn weighed(&self) -> Molecule {
        Molecule::F(FunctionalGroup::Ether(*self))
    }

    fn atomic_numbers(&self) -> (r: Option<i64>) {
        head_sum(&self.0)
    }
}

impl Weighable for BorinicAcid {
    open spec fn weighed(&self) -> Molecule {
        Molecule::F(FunctionalGroup::BorinicAcid(*self))
    }

    fn atomic_numbers(&self) -> (r: Option<i64>) {
        head_sum(&self.0)
    }
}

impl Weighable for Sulfide {
    open spec fn weighed(&self) -> Molecule {
        Molecule::F(FunctionalGroup::Sulfide(*self))
    }

    fn atomic_numbers(&self) -> (r: Option<i64>) {
        head_sum(&self.0)
    }
}

impl Weighable for Amine {
    open spec fn weighed(&self) -> Molecule {
        Molecule::F(FunctionalGroup::Amine(*self))
    }

    fn atomic_numbers(&self) -> (r: Option<i64>) {
        head_sum(&self.0)
    }
}

impl Weighable for Alkane {
    open spec fn weighed(&self) -> Molecule {
        Molecule::F(FunctionalGroup::Alkane(*self))
    }

    fn atomic_numbers(&self) -> (r: Option<i64>) {
        head_sum(&self.chain)
    }
}

} // verus!
