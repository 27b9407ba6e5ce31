//! Weighing: the sum of the weights of the molecules bonded to a group's head.
use crate::atoms::Atoms;
use crate::element::element_weight;
use crate::functional_groups::FunctionalGroup;
use crate::molecule::Molecule;
use vstd::prelude::*;

verus! {

/// The weight of a molecule: an element's fixed weight, or for a group the
/// sum of the weights of the molecules bonded to its head.
pub open spec fn mol_weight(m: Molecule) -> int
    decreases m, 0nat,
{
    match m {
        Molecule::E(e) => element_weight(e) as int,
        Molecule::F(fg) => match fg {
            FunctionalGroup::Ether(g) => sum_weights(g.0, g.0.nbrs(g.0.head), g.0.nbrs(g.0.head).len()),
            FunctionalGroup::BorinicAcid(g) => sum_weights(g.0, g.0.nbrs(g.0.head), g.0.nbrs(g.0.head).len()),
            FunctionalGroup::Sulfide(g) => sum_weights(g.0, g.0.nbrs(g.0.head), g.0.nbrs(g.0.head).len()),
            FunctionalGroup::Amine(g) => sum_weights(g.0, g.0.nbrs(g.0.head), g.0.nbrs(g.0.head).len()),
            FunctionalGroup::Alkane(g) => sum_weights(
                g.chain,
                g.chain.nbrs(g.chain.head),
                g.chain.nbrs(g.chain.head).len(),
            ),
        },
    }
}

/// The sum of the weights of the molecules at the first `n` nodes of `ns`; a
/// node without a molecule weighs nothing.
pub open spec fn sum_weights(a: Atoms, ns: Seq<usize>, n: nat) -> int
    decreases a, n,
{
    if n == 0 || n > ns.len() {
        0
    } else {
        let x = ns[n - 1];
        sum_weights(a, ns, (n - 1) as nat) + if a.has_node(x) && a.nodes()[x] < a.molecules@.len() {
            mol_weight(a.molecules@[a.nodes()[x] as int])
        } else {
            0
        }
    }
}

/// Every partial sum met while weighing `m` fits in an `i64`.
pub open spec fn weight_fits(m: Molecule) -> bool
    decreases m, 0nat,
{
    match m {
        Molecule::E(_) => true,
        Molecule::F(fg) => match fg {
            FunctionalGroup::Ether(g) => sums_fit(g.0, g.0.nbrs(g.0.head), g.0.nbrs(g.0.head).len()),
            FunctionalGroup::BorinicAcid(g) => sums_fit(g.0, g.0.nbrs(g.0.head), g.0.nbrs(g.0.head).len()),
            FunctionalGroup::Sulfide(g) => sums_fit(g.0, g.0.nbrs(g.0.head), g.0.nbrs(g.0.head).len()),
            FunctionalGroup::Amine(g) => sums_fit(g.0, g.0.nbrs(g.0.head), g.0.nbrs(g.0.head).len()),
            FunctionalGroup::Alkane(g) => sums_fit(
                g.chain,
                g.chain.nbrs(g.chain.head),
                g.chain.nbrs(g.chain.head).len(),
            ),
        },
    }
}

/// Every partial sum of `sum_weights(a, ns, k)` for `k <= n`, and every
/// weight it adds up, fits in an `i64`.
pub open spec fn sums_fit(a: Atoms, ns: Seq<usize>, n: nat) -> bool
    decreases a, n,
{
    if n == 0 || n > ns.len() {
        true
    } else {
        let x = ns[n - 1];
        &&& sums_fit(a, ns, (n - 1) as nat)
        &&& if a.has_node(x) && a.nodes()[x] < a.molecules@.len() {
            weight_fits(a.molecules@[a.nodes()[x] as int])
        } else {
            true
        }
        &&& i64::MIN <= sum_weights(a, ns, n) <= i64::MAX
    }
}

/// The weight of `m`, when every partial sum fits in an `i64`.
pub open spec fn checked_weight(m: Molecule) -> Option<i64> {
    if weight_fits(m) {
        Some(mol_weight(m) as i64)
    } else {
        None
    }
}

/// The weight of the molecules bonded to the head of `a`.
pub open spec fn head_weight(a: Atoms) -> int {
    sum_weights(a, a.nbrs(a.head), a.nbrs(a.head).len())
}

/// Whether weighing the head of `a` stays within `i64`.
pub open spec fn head_weight_fits(a: Atoms) -> bool {
    sums_fit(a, a.nbrs(a.head), a.nbrs(a.head).len())
}

/// Weighs a molecule.
pub fn molecule_weight(m: &Molecule) -> (r: Option<i64>)
    ensures
        r == checked_weight(*m),
    decreases m, 0nat,
{
    match m {
        Molecule::E(e) => Some(e.atomic_weight()),
        Molecule::F(fg) => match fg {
            FunctionalGroup::Ether(g) => head_sum(&g.0),
            FunctionalGroup::BorinicAcid(g) => head_sum(&g.0),
            FunctionalGroup::Sulfide(g) => head_sum(&g.0),
            FunctionalGroup::Amine(g) => head_sum(&g.0),
            FunctionalGroup::Alkane(g) => head_sum(&g.chain),
        },
    }
}

/// Sums the weights of the molecules bonded to the head of `a`.
pub fn head_sum(a: &Atoms) -> (r: Option<i64>)
    ensures
        r == if head_weight_fits(*a) {
            Some(head_weight(*a) as i64)
        } else {
            None
        },
    decreases a, 1nat,
{
    let ns = a.neighbors(a.head);
    let mut total: i64 = 0;
    let mut i: usize = 0;
    while i < ns.len()
        invariant
            ns@ == a.nbrs(a.head),
            0 <= i <= ns@.len(),
            sums_fit(*a, ns@, i as nat),
            total == sum_weights(*a, ns@, i as nat),
        decreases ns@.len() - i,
    {
        let x = ns[i];
        let w: i64 = match a.node_weight(x) {
            Some(m) => {
                proof {
                    assert(decreases_to!(a.molecules => a.molecules@[a.nodes()[x] as int]));
                }
                match molecule_weight(m) {
                    Some(w) => w,
                    None => {
                        proof {
                            if sums_fit(*a, ns@, ns@.len()) {
                                lemma_sums_fit_prefix(*a, ns@, (i + 1) as nat, ns@.len());
                            }
                        }
                        return None;
                    },
                }
            },
            None => 0,
        };
        match total.checked_add(w) {
            Some(t) => total = t,
            None => {
                proof {
                            if sums_fit(*a, ns@, ns@.len()) {
                                lemma_sums_fit_prefix(*a, ns@, (i + 1) as nat, ns@.len());
                            }
                        }
                return None;
            },
        }
        i = i + 1;
    }
    Some(total)
}

/// A sum that fits up to `n` fits up to every `k <= n`.
pub proof fn lemma_sums_fit_prefix(a: Atoms, ns: Seq<usize>, k: nat, n: nat)
    requires
        k <= n <= ns.len(),
        sums_fit(a, ns, n),
    ensures
        sums_fit(a, ns, k),
    decreases n - k,
{
    if k < n {
        lemma_sums_fit_prefix(a, ns, k, (n - 1) as nat);
    }
}

/// The weight of a molecule that weighs without overflow fits in an `i64`.
pub proof fn lemma_fits_in_range(m: Molecule)
    requires
        weight_fits(m),
    ensures
        i64::MIN <= mol_weight(m) <= i64::MAX,
{
    match m {
        Molecule::E(e) => {},
        Molecule::F(fg) => {
            let a = fg.atoms();
            let ns = a.nbrs(a.head);
            if ns.len() > 0 {
                assert(sums_fit(a, ns, ns.len()));
            }
        },
    }
}

/// A head with a single neighbour `x` weighs what the molecule at `x` weighs.
pub proof fn lemma_single_neighbor_weight(a: Atoms, x: usize, m: Molecule)
    requires
        a.nbrs(a.head) == seq![x],
        a.molecule_at(x) == Some(m),
    ensures
        head_weight(a) == mol_weight(m),
        head_weight_fits(a) == weight_fits(m),
{
    let ns = a.nbrs(a.head);
    assert(sum_weights(a, ns, 0) == 0);
    assert(sums_fit(a, ns, 0));
    if weight_fits(m) {
        lemma_fits_in_range(m);
    }
}

/// A head with exactly the two neighbours `x` and `y` weighs what their
/// molecules weigh together.
pub proof fn lemma_two_neighbor_weight(a: Atoms, x: usize, y: usize, mx: Molecule, my: Molecule)
    requires
        a.nbrs(a.head) == seq![x, y],
        a.molecule_at(x) == Some(mx),
        a.molecule_at(y) == Some(my),
    ensures
        head_weight(a) == mol_weight(mx) + mol_weight(my),
{
    let ns = a.nbrs(a.head);
    assert(sum_weights(a, ns, 0) == 0);
    assert(sum_weights(a, ns, 1) == mol_weight(mx));
}

} // verus!
