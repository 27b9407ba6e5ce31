//! How deeply functional groups nest inside one another.
//!
//! Valuation, weighing and flattening recurse once per level of nesting; a
//! caller that takes groups from an untrusted source can bound that depth
//! first with `within_depth`.
use crate::atoms::Atoms;
use crate::functional_groups::FunctionalGroup;
use crate::molecule::Molecule;
use vstd::prelude::*;

verus! {

/// Whether `fg`, and every group stored inside it at any depth, nests at most
/// `limit` levels deep; a group that holds only elements is one level.
pub open spec fn group_within(fg: FunctionalGroup, limit: nat) -> bool
    decreases fg, 0nat,
{
    limit > 0 && match fg {
        FunctionalGroup::Ether(g) => molecules_within(g.0, (limit - 1) as nat, g.0.molecules@.len()),
        FunctionalGroup::BorinicAcid(g) => molecules_within(g.0, (limit - 1) as nat, g.0.molecules@.len()),
        FunctionalGroup::Sulfide(g) => molecules_within(g.0, (limit - 1) as nat, g.0.molecules@.len()),
        FunctionalGroup::Amine(g) => molecules_within(g.0, (limit - 1) as nat, g.0.molecules@.len()),
        FunctionalGroup::Alkane(g) => molecules_within(g.chain, (limit - 1) as nat, g.chain.molecules@.len()),
    }
}

/// Whether every group among the first `n` molecules of `a` nests at most
/// `limit` levels deep.
pub open spec fn molecules_within(a: Atoms, limit: nat, n: nat) -> bool
    decreases a, n,
{
    if n == 0 || n > a.molecules@.len() {
        true
    } else {
        molecules_within(a, limit, (n - 1) as nat) && match a.molecules@[n - 1] {
            Molecule::E(_) => true,
            Molecule::F(f) => group_within(f, limit),
        }
    }
}

/// Whether `fg` nests at most `limit` levels deep. The check itself recurses
/// at most `limit` times.
pub fn within_depth(fg: &FunctionalGroup, limit: usize) -> (r: bool)
    ensures
        r == group_within(*fg, limit as nat),
    decreases fg, 0nat,
{
    if limit == 0 {
        return false;
    }
    match fg {
        FunctionalGroup::Ether(g) => molecules_within_depth(&g.0, limit - 1),
        FunctionalGroup::BorinicAcid(g) => molecules_within_depth(&g.0, limit - 1),
        FunctionalGroup::Sulfide(g) => molecules_within_depth(&g.0, limit - 1),
        FunctionalGroup::Amine(g) => molecules_within_depth(&g.0, limit - 1),
        FunctionalGroup::Alkane(g) => molecules_within_depth(&g.chain, limit - 1),
    }
}

/// Whether every group stored in `a` nests at most `limit` levels deep.
fn molecules_within_depth(a: &Atoms, limit: usize) -> (r: bool)
    ensures
        r == molecules_within(*a, limit as nat, a.molecules@.len()),
    decreases a, 1nat,
{
    let mut i: usize = 0;
    while i < a.molecules.len()
        invariant
            0 <= i <= a.molecules@.len(),
            molecules_within(*a, limit as nat, i as nat),
        decreases a.molecules@.len() - i,
    {
        proof {
            assert(decreases_to!(a.molecules => a.molecules@[i as int]));
        }
        match &a.molecules[i] {
            Molecule::E(_) => {},
            Molecule::F(f) => {
                if !within_depth(f, limit) {
                    proof {
                        lemma_within_prefix(*a, limit as nat, (i + 1) as nat, a.molecules@.len());
                    }
                    return false;
                }
            },
        }
        i = i + 1;
    }
    true
}

/// A bound on the first `n` molecules holds on the first `k <= n`.
pub proof fn lemma_within_prefix(a: Atoms, limit: nat, k: nat, n: nat)
    requires
        k <= n <= a.molecules@.len(),
        !molecules_within(a, limit, k),
    ensures
        !molecules_within(a, limit, n),
    decreases n - k,
{
    if k < n {
        lemma_within_prefix(a, limit, k, (n - 1) as nat);
    }
}

} // verus!
