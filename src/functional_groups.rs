//! The five functional groups, each a group of atoms of a canonical shape.
pub mod alkane;
pub mod amine;
pub mod borinic;
pub mod ether;
pub mod sulfide;

use self::alkane::Alkane;
use self::amine::Amine;
use self::borinic::BorinicAcid;
use self::ether::Ether;
use self::sulfide::Sulfide;
use self::alkane::AlkaneElement;
use crate::atoms::Atoms;
use crate::molecule::{FgElement, Molecule};
use crate::weight::{mol_weight, weight_fits};
use crate::valuation::{fg_value, lemma_alkane_value, pair_value, value_of_group};
use crate::value::{
    all_pairs, canonical, entry_models_upto, keys_distinct, lemma_entry_models_upto,
    lemma_models_upto, lemma_pairs_to_entries_distinct, list_or_mapping, models_upto,
    pairs_to_entries, value_add, value_model, Value, ValueError, ValueModel,
};
use vstd::prelude::*;

verus! {

/// A functional group: the encoding of one kind of value.
pub enum FunctionalGroup {
    Ether(Ether),
    BorinicAcid(BorinicAcid),
    Sulfide(Sulfide),
    Amine(Amine),
    Alkane(Alkane),
}

impl FunctionalGroup {
    /// The group of atoms inside this functional group.
    pub open spec fn atoms(self) -> Atoms {
        match self {
            FunctionalGroup::Ether(g) => g.0,
            FunctionalGroup::BorinicAcid(g) => g.0,
            FunctionalGroup::Sulfide(g) => g.0,
            FunctionalGroup::Amine(g) => g.0,
            FunctionalGroup::Alkane(g) => g.chain,
        }
    }

    pub fn get_atoms(&self) -> (r: &Atoms)
        ensures
            *r == self.atoms(),
    {
        match self {
            FunctionalGroup::Ether(g) => &g.0,
            FunctionalGroup::BorinicAcid(g) => &g.0,
            FunctionalGroup::Sulfide(g) => &g.0,
            FunctionalGroup::Amine(g) => &g.0,
            FunctionalGroup::Alkane(g) => &g.chain,
        }
    }
}

/// Whether two groups are of the same kind.
pub open spec fn same_kind(a: FunctionalGroup, b: FunctionalGroup) -> bool {
    match (a, b) {
        (FunctionalGroup::Ether(_), FunctionalGroup::Ether(_)) => true,
        (FunctionalGroup::BorinicAcid(_), FunctionalGroup::BorinicAcid(_)) => true,
        (FunctionalGroup::Sulfide(_), FunctionalGroup::Sulfide(_)) => true,
        (FunctionalGroup::Amine(_), FunctionalGroup::Amine(_)) => true,
        (FunctionalGroup::Alkane(_), FunctionalGroup::Alkane(_)) => true,
        _ => false,
    }
}

/// The sum of the values of two groups of the same kind, when both read
/// back and the values add.
pub open spec fn group_sum(a: FunctionalGroup, b: FunctionalGroup) -> Option<ValueModel> {
    if same_kind(a, b) && fg_value(a) is Ok && fg_value(b) is Ok {
        value_add(fg_value(a)->Ok_0, fg_value(b)->Ok_0)
    } else {
        None
    }
}

impl FunctionalGroup {
    /// The group that encodes the sum of the values of two groups of the same
    /// kind; `None` when the kinds differ, a group does not read back, or the
    /// values do not add.
    pub fn add(self, rhs: FunctionalGroup) -> (r: Option<FunctionalGroup>)
        ensures
            r is Some <==> group_sum(self, rhs) is Some,
            r matches Some(g) ==> canonical(group_sum(self, rhs)->Some_0) ==> fg_value(g) == Ok::<ValueModel, ValueError>(group_sum(self, rhs)->Some_0),
    {
        let same = match (&self, &rhs) {
            (FunctionalGroup::Ether(_), FunctionalGroup::Ether(_)) => true,
            (FunctionalGroup::BorinicAcid(_), FunctionalGroup::BorinicAcid(_)) => true,
            (FunctionalGroup::Sulfide(_), FunctionalGroup::Sulfide(_)) => true,
            (FunctionalGroup::Amine(_), FunctionalGroup::Amine(_)) => true,
            (FunctionalGroup::Alkane(_), FunctionalGroup::Alkane(_)) => true,
            _ => false,
        };
        if !same {
            return None;
        }
        let l = match value_of_group(&self) {
            Ok(v) => v,
            Err(_) => return None,
        };
        let r = match value_of_group(&rhs) {
            Ok(v) => v,
            Err(_) => return None,
        };
        match l.add(r) {
            Some(v) => Some(FunctionalGroup::from_value(v)),
            None => None,
        }
    }

    pub fn new_ether(r: FgElement) -> (g: Self)
        ensures
            g is Ether,
            g.atoms().wf(),
            g.atoms().nbrs(g.atoms().head).len() == 1,
            g.atoms().molecule_at(g.atoms().nbrs(g.atoms().head)[0]) == Some(r.molecule()),
            mol_weight(Molecule::F(g)) == mol_weight(r.molecule()),
            weight_fits(Molecule::F(g)) == weight_fits(r.molecule()),
    {
        Self::Ether(Ether::new_with(r))
    }

    pub fn new_borinic_acid(r: FgElement) -> (g: Self)
        ensures
            g is BorinicAcid,
            g.atoms().wf(),
            fg_value(g) == Ok::<ValueModel, ValueError>(ValueModel::Boolean(true)),
    {
        Self::BorinicAcid(BorinicAcid::new_with(r))
    }

    pub fn new_sulfide(r: FgElement) -> (g: Self)
        ensures
            g is Sulfide,
            g.atoms().wf(),
            g.atoms().nbrs(g.atoms().head).len() == 1,
            g.atoms().molecule_at(g.atoms().nbrs(g.atoms().head)[0]) == Some(r.molecule()),
    {
        Self::Sulfide(Sulfide::new_with(r))
    }

    pub fn new_amine(r1: FgElement, r2: FgElement) -> (g: Self)
        ensures
            g is Amine,
            g.atoms().wf(),
            fg_value(g) == pair_value(r1.molecule(), r2.molecule()),
            g.atoms().molecule_at(g.atoms().head) == Some(Molecule::E(crate::element::Element::N)),
            g.atoms().nbrs(g.atoms().head).len() == 2,
            g.atoms().molecule_at(g.atoms().nbrs(g.atoms().head)[0]) == Some(r1.molecule()),
            g.atoms().molecule_at(g.atoms().nbrs(g.atoms().head)[1]) == Some(r2.molecule()),
            g.atoms().nodes().dom().len() == 3,
            crate::graph::graph_edges(g.atoms().graph).dom().len() == 2,
            mol_weight(Molecule::F(g)) == mol_weight(r1.molecule()) + mol_weight(r2.molecule()),
    {
        Self::Amine(Amine::new_with(r1, r2))
    }

    pub fn new_alkane() -> (g: Self)
        ensures
            g is Alkane,
            g->Alkane_0.wf(),
            g->Alkane_0.backbone@.len() == 1,
    {
        Self::Alkane(Alkane::new())
    }

    /// The group that encodes `v`: an ether for a number, a borinic acid for a
    /// boolean, a sulfide for a string, an amine for a pair, an alkane of one
    /// group per item for a list, and of one amine per entry for a map. A
    /// canonical value reads back as itself.
    #[verifier::loop_isolation(false)]
    pub fn from_value(v: Value) -> (g: Self)
        ensures
            g.atoms().wf(),
            canonical(v@) ==> fg_value(g) == Ok::<ValueModel, ValueError>(v@),
            v is Number ==> g is Ether,
            v is Boolean ==> g is BorinicAcid,
            v is String ==> g is Sulfide,
            v is Pair ==> g is Amine,
            v is List || v is Mapping ==> g is Alkane,
            v@ == ValueModel::List(Seq::empty()) ==> fg_value(g) == Ok::<ValueModel, ValueError>(ValueModel::Mapping(Seq::empty())),
        decreases v,
    {
        let ghost vm = v@;
        match v {
            Value::Number(n) => Self::Ether(Ether::from_number(n)),
            Value::Boolean(b) => Self::BorinicAcid(BorinicAcid::from_bool(b)),
            Value::String(cs) => Self::Sulfide(Sulfide::from_chars(&cs)),
            Value::Pair(a, b) => {
                let ga = Self::from_value(*a);
                let gb = Self::from_value(*b);
                Self::Amine(Amine::new_with(FgElement::F(ga), FgElement::F(gb)))
            },
            Value::List(xs) => {
                let ghost ms = models_upto(xs@, xs@.len());
                proof {
                    lemma_models_upto(xs@, xs@.len());
                }
                let ghost xs0 = xs@;
                let ghost xv = xs;
                let len = xs.len();
                let mut rest = xs;
                let mut items: Vec<AlkaneElement> = Vec::new();
                let mut i: usize = 0;
                while rest.len() > 0
                    invariant
                        0 <= i <= xs0.len(),
                        rest@ == xs0.skip(i as int),
                        i + rest@.len() == xs0.len(),
                        xs0.len() == len,
                        items@.len() == i,
                        ms.len() == xs0.len(),
                        vm == ValueModel::List(ms),
                        forall|j: int| 0 <= j < xs0.len() ==> #[trigger] ms[j] == value_model(xs0[j]),
                        forall|j: int| 0 <= j < i ==> match #[trigger] items@[j] {
                            AlkaneElement::F(f) => canonical(ms[j]) ==> fg_value(f) == Ok::<ValueModel, ValueError>(ms[j]),
                            _ => false,
                        },
                    decreases rest@.len(),
                {
                    let x = rest.remove(0);
                    proof {
                        assert(x == xs0[i as int]);
                        assert(rest@ =~= xs0.skip(i + 1));
                        assert(decreases_to!(v => xv));
                        assert(decreases_to!(xv => xv[i as int]));
                    }
                    let f = Self::from_value(x);
                    items.push(AlkaneElement::F(f));
                    proof {
                        assert(items@[i as int] == AlkaneElement::F(f));
                    }
                    i = i + 1;
                }
                let ghost its = items@;
                let k = Alkane::new_with(items);
                proof {
                    if canonical(vm) {
                        assert forall|j: int| 0 <= j < ms.len() implies match k.chain.molecule_at(#[trigger] k.bonded(k.backbone@[j])[0]) {
                            Some(Molecule::F(f)) => fg_value(f) == Ok::<ValueModel, ValueError>(ms[j]),
                            _ => false,
                        } by {
                            assert(canonical(ms[j]));
                            match its[j] {
                                AlkaneElement::F(f) => {},
                                _ => {},
                            }
                        }
                        lemma_alkane_value(k, ms);
                    }
                    if vm == ValueModel::List(Seq::empty()) {
                        assert(ms.len() == 0);
                        lemma_alkane_value(k, ms);
                        assert(all_pairs(ms));
                        assert(pairs_to_entries(ms, 0) == Seq::<(ValueModel, ValueModel)>::empty());
                    }
                }
                Self::Alkane(k)
            },
            Value::Mapping(es) => {
                let ghost ems = entry_models_upto(es@, es@.len());
                proof {
                    lemma_entry_models_upto(es@, es@.len());
                }
                let ghost es0 = es@;
                let ghost ev = es;
                let len = es.len();
                let ghost ws = Seq::new(ems.len(), |j: int| ValueModel::Pair(Box::new(ems[j].0), Box::new(ems[j].1)));
                let mut rest = es;
                let mut items: Vec<AlkaneElement> = Vec::new();
                let mut i: usize = 0;
                while rest.len() > 0
                    invariant
                        0 <= i <= es0.len(),
                        rest@ == es0.skip(i as int),
                        i + rest@.len() == es0.len(),
                        es0.len() == len,
                        items@.len() == i,
                        ems.len() == es0.len(),
                        ws.len() == es0.len(),
                        vm == ValueModel::Mapping(ems),
                        forall|j: int| 0 <= j < es0.len() ==> #[trigger] ems[j] == (value_model(es0[j].0), value_model(es0[j].1)),
                        forall|j: int| 0 <= j < es0.len() ==> #[trigger] ws[j] == ValueModel::Pair(Box::new(ems[j].0), Box::new(ems[j].1)),
                        forall|j: int| 0 <= j < i ==> match #[trigger] items@[j] {
                            AlkaneElement::F(f) => canonical(ems[j].0) && canonical(ems[j].1) ==> fg_value(f) == Ok::<ValueModel, ValueError>(ws[j]),
                            _ => false,
                        },
                    decreases rest@.len(),
                {
                    let entry = rest.remove(0);
                    proof {
                        assert(entry == es0[i as int]);
                        assert(rest@ =~= es0.skip(i + 1));
                        assert(decreases_to!(v => ev));
                        assert(decreases_to!(ev => ev[i as int]));
                    }
                    let (key, val) = entry;
                    let gk = Self::from_value(key);
                    let gv = Self::from_value(val);
                    let f = Self::Amine(Amine::new_with(FgElement::F(gk), FgElement::F(gv)));
                    items.push(AlkaneElement::F(f));
                    proof {
                        assert(items@[i as int] == AlkaneElement::F(f));
                    }
                    i = i + 1;
                }
                let ghost its = items@;
                let k = Alkane::new_with(items);
                proof {
                    if canonical(vm) {
                        assert forall|j: int| 0 <= j < ws.len() implies match k.chain.molecule_at(#[trigger] k.bonded(k.backbone@[j])[0]) {
                            Some(Molecule::F(f)) => fg_value(f) == Ok::<ValueModel, ValueError>(ws[j]),
                            _ => false,
                        } by {
                            assert(canonical(ems[j].0) && canonical(ems[j].1));
                            match its[j] {
                                AlkaneElement::F(f) => {},
                                _ => {},
                            }
                        }
                        lemma_alkane_value(k, ws);
                        assert(all_pairs(ws));
                        lemma_pairs_to_entries_distinct(ws, ems, ws.len());
                        assert(ems.take(ws.len() as int) =~= ems);
                    }
                }
                Self::Alkane(k)
            },
        }
    }
}

} // verus!
