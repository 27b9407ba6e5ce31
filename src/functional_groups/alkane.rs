//! Alkane: an ordered backbone of carbons with a cursor; encodes a list or a
//! map.
use crate::atoms::{bonded_once, ends_join, rewired, unbonded, Atoms};
use crate::graph::{lemma_filter_congruent, lemma_neighbors_present};
use crate::element::Element;
use crate::functional_groups::FunctionalGroup;
use crate::molecule::Molecule;
use vstd::prelude::*;

verus! {

/// What can be attached to a backbone carbon.
pub enum AlkaneElement {
    E(Element),
    M(Molecule),
    F(FunctionalGroup),
}

impl AlkaneElement {
    /// The molecule that this attachment becomes.
    pub open spec fn molecule(self) -> Molecule {
        match self {
            AlkaneElement::E(e) => Molecule::E(e),
            AlkaneElement::M(m) => m,
            AlkaneElement::F(f) => Molecule::F(f),
        }
    }

    pub fn into_molecule(self) -> (r: Molecule)
        ensures
            r == self.molecule(),
    {
        match self {
            AlkaneElement::E(e) => Molecule::E(e),
            AlkaneElement::M(m) => m,
            AlkaneElement::F(f) => Molecule::F(f),
        }
    }
}

/// Why an alkane refused an edit.
#[derive(Debug, Clone, Copy, PartialEq, Eq, Structural)]
pub enum AlkaneError {
    /// More items than backbone carbons to hold them.
    TooManyItems,
}

/// The position of `x` in `s`.
pub open spec fn position(s: Seq<usize>, x: usize) -> int {
    choose|i: int| 0 <= i < s.len() && s[i] == x
}

/// Where the cursor goes on a move towards the end of the backbone.
pub open spec fn step_down(bb: Seq<usize>, c: usize) -> usize {
    if bb.contains(c) && position(bb, c) + 1 < bb.len() {
        bb[position(bb, c) + 1]
    } else {
        c
    }
}

/// Where the cursor goes on a move towards the start of the backbone.
pub open spec fn step_up(bb: Seq<usize>, c: usize) -> usize {
    if bb.contains(c) && position(bb, c) > 0 {
        bb[position(bb, c) - 1]
    } else {
        c
    }
}

/// The cursor after `k` moves down.
pub open spec fn steps_down(bb: Seq<usize>, c: usize, k: nat) -> usize
    decreases k,
{
    if k == 0 {
        c
    } else {
        step_down(bb, steps_down(bb, c, (k - 1) as nat))
    }
}

/// The cursor after `k` moves up.
pub open spec fn steps_up(bb: Seq<usize>, c: usize, k: nat) -> usize
    decreases k,
{
    if k == 0 {
        c
    } else {
        step_up(bb, steps_up(bb, c, (k - 1) as nat))
    }
}

/// In a backbone without repeats, the element at `i` is at position `i`.
pub proof fn lemma_position(bb: Seq<usize>, i: int)
    requires
        bb.no_duplicates(),
        0 <= i < bb.len(),
    ensures
        bb.contains(bb[i]),
        position(bb, bb[i]) == i,
{
    assert(bb.contains(bb[i]));
    let j = position(bb, bb[i]);
    assert(bb[j] == bb[i]);
}

/// `k` moves down, each of which stays on the backbone, followed by `k` moves
/// up bring the cursor back where it started.
pub proof fn lemma_down_then_up(bb: Seq<usize>, c: usize, k: nat)
    requires
        bb.no_duplicates(),
        bb.contains(c),
        position(bb, c) + k < bb.len(),
    ensures
        steps_up(bb, steps_down(bb, c, k), k) == c,
{
    lemma_steps_down(bb, c, k);
    lemma_steps_up(bb, steps_down(bb, c, k), k);
    let p = position(bb, c);
    assert(bb[p] == c);
    lemma_position(bb, p);
}

/// Moving down `k` times from position `p` reaches position `p + k`.
pub proof fn lemma_steps_down(bb: Seq<usize>, c: usize, k: nat)
    requires
        bb.no_duplicates(),
        bb.contains(c),
        position(bb, c) + k < bb.len(),
    ensures
        steps_down(bb, c, k) == bb[position(bb, c) + k],
    decreases k,
{
    let p = position(bb, c);
    if k == 0 {
        assert(bb[p] == c);
    } else {
        lemma_steps_down(bb, c, (k - 1) as nat);
        lemma_position(bb, p + k - 1);
    }
}

/// Moving up `k` times from position `p >= k` reaches position `p - k`.
pub proof fn lemma_steps_up(bb: Seq<usize>, c: usize, k: nat)
    requires
        bb.no_duplicates(),
        bb.contains(c),
        position(bb, c) >= k,
    ensures
        steps_up(bb, c, k) == bb[position(bb, c) - k],
    decreases k,
{
    let p = position(bb, c);
    if k == 0 {
        assert(bb[p] == c);
    } else {
        lemma_steps_up(bb, c, (k - 1) as nat);
        lemma_position(bb, p - k + 1);
    }
}

/// Inserting an element that a duplicate-free sequence lacks keeps it
/// duplicate-free, and every other element comes from the old sequence.
pub proof fn lemma_insert_fresh(s: Seq<usize>, k: int, c: usize)
    requires
        s.no_duplicates(),
        !s.contains(c),
        0 <= k <= s.len(),
    ensures
        s.insert(k, c).no_duplicates(),
        s.insert(k, c)[k] == c,
        forall|i: int| 0 <= i < s.len() + 1 && i != k ==> s.contains(#[trigger] s.insert(k, c)[i]),
        s.insert(k, c).contains(c),
{
    let t = s.insert(k, c);
    assert forall|i: int| 0 <= i < s.len() + 1 && i != k implies s.contains(#[trigger] t[i]) by {
        if i < k {
            assert(t[i] == s[i]);
        } else {
            assert(t[i] == s[i - 1]);
        }
    }
    assert forall|i: int, j: int| 0 <= i < t.len() && 0 <= j < t.len() && i != j implies t[i] != t[j] by {
        if i == k {
            assert(s.contains(t[j]));
        } else if j == k {
            assert(s.contains(t[i]));
        } else {
            let i0 = if i < k { i } else { i - 1 };
            let j0 = if j < k { j } else { j - 1 };
            assert(t[i] == s[i0] && t[j] == s[j0]);
        }
    }
    assert(t[k] == c);
}

/// Appending a carbon bonded only to the last one keeps a chain free of side
/// groups.
pub proof fn lemma_append_no_side(a: Alkane, b: Alkane, c: usize)
    requires
        a.wf(),
        a.no_side_groups(),
        a.backbone@.len() > 0,
        a.current_atom == a.backbone@.last(),
        !a.chain.has_node(c),
        b.backbone@ == a.backbone@.push(c),
        b.chain.nbrs(c) == seq![a.current_atom],
        b.chain.nbrs(a.current_atom) == seq![c] + a.chain.nbrs(a.current_atom),
        forall|n: usize|
            n != a.current_atom && a.chain.has_node(n) ==> #[trigger] b.chain.nbrs(n) == a.chain.nbrs(n),
    ensures
        b.no_side_groups(),
{
    let cur = a.current_atom;
    let off_old = |x: usize| !a.backbone@.contains(x);
    let off_new = |x: usize| !b.backbone@.contains(x);
    assert forall|x: usize| #[trigger] off_new(x) implies off_old(x) by {
        if a.backbone@.contains(x) {
            let j = choose|j: int| 0 <= j < a.backbone@.len() && a.backbone@[j] == x;
            assert(b.backbone@[j] == x);
        }
    }
    let n = a.backbone@.len();
    assert(b.backbone@[n as int] == c);
    assert(b.backbone@[n - 1] == cur);
    assert forall|i: int| 0 <= i < b.backbone@.len() implies (#[trigger] b.bonded(b.backbone@[i])).len() == 0 by {
        if i == n {
            lemma_filter_prepend(cur, Seq::<usize>::empty(), off_new);
            assert(seq![cur] + Seq::<usize>::empty() =~= seq![cur]);
            assert(Seq::<usize>::empty().filter(off_new) =~= Seq::<usize>::empty()) by {
                reveal(Seq::filter);
            }
        } else {
            let x = a.backbone@[i];
            assert(b.backbone@[i] == x);
            assert(a.bonded(x).len() == 0);
            assert(a.chain.has_node(x));
            if x == cur {
                lemma_filter_prepend(c, a.chain.nbrs(cur), off_new);
            }
            lemma_filter_empty_mono(a.chain.nbrs(x), off_old, off_new);
        }
    }
}

/// Whether `bbf` is `bb0` with `c` added.
pub open spec fn grown_by(bb0: Seq<usize>, bbf: Seq<usize>, c: usize) -> bool {
    forall|y: usize| #[trigger] bbf.contains(y) <==> (bb0.contains(y) || y == c)
}

/// Off-backbone neighbours before and after the backbone gains a node `c`
/// that is no neighbour of `x`: the same.
pub proof fn lemma_sides_grown(a0: Atoms, x: usize, c: usize, bb0: Seq<usize>, bbf: Seq<usize>)
    requires
        a0.wf(),
        a0.has_node(x),
        !a0.has_node(c),
        grown_by(bb0, bbf, c),
    ensures
        a0.nbrs(x).filter(|y: usize| !bbf.contains(y)) == a0.nbrs(x).filter(|y: usize| !bb0.contains(y)),
{
    let s = a0.nbrs(x);
    assert forall|i: int| 0 <= i < s.len() implies s[i] != c by {
        lemma_neighbors_present(a0.graph, x, i);
    }
    let qo = |y: usize| !bb0.contains(y);
    let qf = |y: usize| !bbf.contains(y);
    assert forall|y: usize| y != c implies #[trigger] qo(y) == qf(y) by {
        assert(bbf.contains(y) == bb0.contains(y));
    }
    lemma_filter_congruent(s, qo, qf, c);
}

/// Inserting `c` between `p` and `s` (add `c`, unbond `p`-`s`, bond `p`-`c`,
/// bond `c`-`s`) keeps every backbone node's off-backbone neighbours and gives
/// `c` none.
pub proof fn lemma_rewire_keeps_sides(a0: Atoms, a1: Atoms, a2: Atoms, a3: Atoms, a4: Atoms, p: usize, c: usize, s: usize, bb0: Seq<usize>, bbf: Seq<usize>)
    requires
        a0.wf(),
        forall|x: usize| #[trigger] bb0.contains(x) ==> a0.has_node(x),
        bb0.contains(p),
        bb0.contains(s),
        p != s,
        !a0.has_node(c),
        grown_by(bb0, bbf, c),
        forall|n: usize| a0.has_node(n) ==> #[trigger] a1.nbrs(n) == a0.nbrs(n),
        a1.nbrs(c) == Seq::<usize>::empty(),
        forall|n: usize| a0.has_node(n) ==> #[trigger] a1.has_node(n),
        a1.has_node(c),
        forall|q: spec_fn(usize) -> bool, n: usize|
            !q(p) && !q(s) && a1.has_node(n) ==> #[trigger] a2.nbrs(n).filter(q) == a1.nbrs(n).filter(q),
        a2.nodes() == a1.nodes(),
        a3.nbrs(p) == seq![c] + a2.nbrs(p),
        forall|q: spec_fn(usize) -> bool| !q(p) ==> #[trigger] a3.nbrs(c).filter(q) == a2.nbrs(c).filter(q),
        forall|n: usize| n != p && n != c && a2.has_node(n) ==> #[trigger] a3.nbrs(n) == a2.nbrs(n),
        a3.nodes() == a2.nodes(),
        a4.nbrs(c) == seq![s] + a3.nbrs(c),
        forall|q: spec_fn(usize) -> bool| !q(c) ==> #[trigger] a4.nbrs(s).filter(q) == a3.nbrs(s).filter(q),
        forall|n: usize| n != c && n != s && a3.has_node(n) ==> #[trigger] a4.nbrs(n) == a3.nbrs(n),
    ensures
        forall|x: usize| #[trigger] bb0.contains(x) ==> a4.nbrs(x).filter(|y: usize| !bbf.contains(y)) == a0.nbrs(x).filter(|y: usize| !bb0.contains(y)),
        a4.nbrs(c).filter(|y: usize| !bbf.contains(y)).len() == 0,
{
    let qf = |y: usize| !bbf.contains(y);
    assert(!qf(p) && !qf(s) && !qf(c));
    assert forall|x: usize| #[trigger] bb0.contains(x) implies a4.nbrs(x).filter(|y: usize| !bbf.contains(y)) == a0.nbrs(x).filter(|y: usize| !bb0.contains(y)) by {
        assert(a0.has_node(x));
        assert(x != c);
        assert(a2.nbrs(x).filter(qf) == a1.nbrs(x).filter(qf));
        if x == p {
            lemma_filter_prepend(c, a2.nbrs(p), qf);
        }
        assert(a3.nbrs(x).filter(qf) == a2.nbrs(x).filter(qf));
        assert(a4.nbrs(x).filter(qf) == a3.nbrs(x).filter(qf));
        lemma_sides_grown(a0, x, c, bb0, bbf);
    }
    assert(a2.nbrs(c).filter(qf) == a1.nbrs(c).filter(qf));
    assert(Seq::<usize>::empty().filter(qf) =~= Seq::<usize>::empty()) by {
        reveal(Seq::filter);
    }
    lemma_filter_prepend(s, a3.nbrs(c), qf);
}

/// Bonding a new backbone node `c` to the backbone node `at` keeps every
/// backbone node's off-backbone neighbours and gives `c` none.
pub proof fn lemma_bond_keeps_sides(a0: Atoms, a1: Atoms, at: usize, c: usize, bb0: Seq<usize>, bbf: Seq<usize>)
    requires
        a0.wf(),
        forall|x: usize| #[trigger] bb0.contains(x) ==> a0.has_node(x),
        bb0.contains(at),
        !a0.has_node(c),
        grown_by(bb0, bbf, c),
        a1.nbrs(at) == seq![c] + a0.nbrs(at),
        a1.nbrs(c) == seq![at],
        forall|n: usize| n != at && a0.has_node(n) ==> #[trigger] a1.nbrs(n) == a0.nbrs(n),
    ensures
        forall|x: usize| #[trigger] bb0.contains(x) ==> a1.nbrs(x).filter(|y: usize| !bbf.contains(y)) == a0.nbrs(x).filter(|y: usize| !bb0.contains(y)),
        a1.nbrs(c).filter(|y: usize| !bbf.contains(y)).len() == 0,
{
    let qf = |y: usize| !bbf.contains(y);
    assert forall|x: usize| #[trigger] bb0.contains(x) implies a1.nbrs(x).filter(|y: usize| !bbf.contains(y)) == a0.nbrs(x).filter(|y: usize| !bb0.contains(y)) by {
        if x == at {
            lemma_filter_prepend(c, a0.nbrs(at), qf);
        }
        lemma_sides_grown(a0, x, c, bb0, bbf);
    }
    assert(Seq::<usize>::empty().filter(qf) =~= Seq::<usize>::empty()) by {
        reveal(Seq::filter);
    }
    lemma_filter_prepend(at, Seq::<usize>::empty(), qf);
    assert(seq![at] + Seq::<usize>::empty() =~= seq![at]);
}

/// Inserting `c` into a sequence adds exactly `c` to what it holds.
pub proof fn lemma_grown_insert(bb0: Seq<usize>, k: int, c: usize)
    requires
        0 <= k <= bb0.len(),
    ensures
        grown_by(bb0, bb0.insert(k, c), c),
{
    let t = bb0.insert(k, c);
    assert forall|y: usize| #[trigger] t.contains(y) <==> (bb0.contains(y) || y == c) by {
        if t.contains(y) && y != c {
            let i = choose|i: int| 0 <= i < t.len() && t[i] == y;
            if i < k {
                assert(bb0[i] == y);
            } else {
                assert(bb0[i - 1] == y);
            }
        }
        if bb0.contains(y) {
            let i = choose|i: int| 0 <= i < bb0.len() && bb0[i] == y;
            if i < k {
                assert(t[i] == y);
            } else {
                assert(t[i + 1] == y);
            }
        }
        if y == c {
            assert(t[k] == c);
        }
    }
}

/// Filtering a sequence with one element in front.
pub proof fn lemma_filter_prepend(x: usize, t: Seq<usize>, p: spec_fn(usize) -> bool)
    ensures
        (seq![x] + t).filter(p) == if p(x) {
            seq![x] + t.filter(p)
        } else {
            t.filter(p)
        },
{
    reveal(Seq::filter);
    Seq::filter_distributes_over_add(seq![x], t, p);
    assert(seq![x].drop_last() =~= Seq::<usize>::empty());
    assert(Seq::<usize>::empty().filter(p) =~= Seq::<usize>::empty());
    assert(seq![x].filter(p) =~= if p(x) { seq![x] } else { Seq::<usize>::empty() });
    assert((seq![x] + t).filter(p) == seq![x].filter(p) + t.filter(p));
    if !p(x) {
        assert(Seq::<usize>::empty() + t.filter(p) =~= t.filter(p));
    }
}

/// A filter that keeps nothing keeps nothing under a stricter predicate.
pub proof fn lemma_filter_empty_mono(s: Seq<usize>, p: spec_fn(usize) -> bool, q: spec_fn(usize) -> bool)
    requires
        s.filter(p).len() == 0,
        forall|x: usize| #[trigger] q(x) ==> p(x),
    ensures
        s.filter(q).len() == 0,
{
    if s.filter(q).len() > 0 {
        let y = s.filter(q)[0];
        s.lemma_filter_pred(q, 0);
        assert(s.filter(q).contains(y));
        s.lemma_filter_contains_rev(q, y);
        let i = choose|i: int| 0 <= i < s.len() && s[i] == y;
        s.lemma_filter_contains(p, i);
    }
}

/// A chain of carbons. `backbone` lists the backbone nodes in order; every
/// other node of `chain` is a side group. `current_atom` is the cursor.
pub struct Alkane {
    pub chain: Atoms,
    pub current_atom: usize,
    pub backbone: Vec<usize>,
}

impl Alkane {
    /// The backbone holds distinct present nodes and starts at the head; the
    /// cursor is on it unless it is empty, and then the graph is empty too.
    pub open spec fn wf(&self) -> bool {
        &&& self.chain.wf()
        &&& self.backbone@.no_duplicates()
        &&& forall|i: int|
            0 <= i < self.backbone@.len() ==> self.chain.has_node(#[trigger] self.backbone@[i])
        &&& self.backbone@.len() > 0 ==> self.backbone@.contains(self.current_atom)
            && self.chain.head == self.backbone@[0]
        &&& self.backbone@.len() == 0 ==> self.chain.nodes().dom().len() == 0
    }

    /// The cursor's position on the backbone.
    pub open spec fn cursor_index(&self) -> int {
        position(self.backbone@, self.current_atom)
    }

    /// The backbone carbons at `i` and `i + 1` are bonded.
    pub open spec fn linked(&self, i: int) -> bool {
        exists|x: usize| #[trigger] ends_join(self.chain.edges(), x, self.backbone@[i], self.backbone@[i + 1])
    }

    /// No backbone carbon carries a side group.
    pub open spec fn no_side_groups(&self) -> bool {
        forall|i: int|
            0 <= i < self.backbone@.len() ==> (#[trigger] self.bonded(self.backbone@[i])).len() == 0
    }

    /// The side groups bonded to node `n`: its neighbours off the backbone.
    pub open spec fn bonded(&self, n: usize) -> Seq<usize> {
        let bb = self.backbone@;
        self.chain.nbrs(n).filter(|x: usize| !bb.contains(x))
    }

    /// A chain of one carbon, which is the cursor.
    pub fn new() -> (r: Alkane)
        ensures
            r.wf(),
            r.backbone@.len() == 1,
            r.current_atom == r.backbone@[0],
            r.no_side_groups(),
            r.chain.molecule_at(r.backbone@[0]) == Some(Molecule::E(Element::C)),
            r.chain.nodes().dom().len() == 1,
            r.chain.edges().dom().len() == 0,
    {
        let mut chain = Atoms::new();
        let c = chain.add_node(Molecule::E(Element::C));
        let mut backbone: Vec<usize> = Vec::new();
        backbone.push(c);
        let r = Alkane { chain, current_atom: c, backbone };
        proof {
            assert(r.backbone@[0] == c);
            assert(r.backbone@ =~= seq![c]);
            assert(r.chain.nodes().dom() =~= set![c]);
            assert(r.chain.nbrs(c) =~= Seq::<usize>::empty());
            assert(r.bonded(c) =~= Seq::<usize>::empty()) by {
                reveal(Seq::filter);
            }
        }
        r
    }

    /// A chain of `n` carbons with nothing attached; the cursor is on the last
    /// one.
    pub fn new_n_alkane(n: usize) -> (r: Alkane)
        ensures
            r.wf(),
            r.backbone@.len() == n,
            n > 0 ==> r.current_atom == r.backbone@[n - 1],
            r.no_side_groups(),
            forall|i: int| 0 <= i < n ==> #[trigger] r.chain.molecule_at(r.backbone@[i]) == Some(Molecule::E(Element::C)),
            forall|i: int| 0 <= i < n - 1 ==> #[trigger] r.linked(i),
            r.chain.nodes().dom().len() == n,
            r.chain.edges().dom().len() == if n == 0 { 0 } else { n - 1 },
    {
        if n == 0 {
            let r = Alkane { chain: Atoms::new(), current_atom: 0, backbone: Vec::new() };
            return r;
        }
        let mut alk = Alkane::new();
        let mut i: usize = 1;
        while i < n
            invariant
                1 <= i <= n,
                alk.wf(),
                alk.backbone@.len() == i,
                alk.current_atom == alk.backbone@[i - 1],
                alk.no_side_groups(),
                forall|k: int| 0 <= k < i ==> #[trigger] alk.chain.molecule_at(alk.backbone@[k]) == Some(Molecule::E(Element::C)),
                forall|k: int| 0 <= k < i - 1 ==> #[trigger] alk.linked(k),
                alk.chain.nodes().dom().len() == i,
                alk.chain.edges().dom().len() == i - 1,
            decreases n - i,
        {
            proof {
                lemma_position(alk.backbone@, i - 1);
            }
            let ghost a0 = alk;
            alk.add_carbon_after();
            let ghost a1 = alk;
            proof {
                let c = a1.backbone@[i as int];
                let x = choose|x: usize| !a0.chain.edges().contains_key(x) && #[trigger] a0.chain.edges().insert(x, (a0.current_atom, c)) == a1.chain.edges();
                assert(a1.backbone@ == a0.backbone@.insert(i as int, c));
                assert forall|k: int| 0 <= k < i + 1 implies #[trigger] a1.chain.molecule_at(a1.backbone@[k]) == Some(Molecule::E(Element::C)) by {
                    if k < i {
                        assert(a1.backbone@[k] == a0.backbone@[k]);
                        assert(a0.chain.has_node(a0.backbone@[k]));
                    }
                }
                assert forall|k: int| 0 <= k < i implies #[trigger] a1.linked(k) by {
                    if k < i - 1 {
                        assert(a0.linked(k));
                        let y = choose|y: usize| #[trigger] ends_join(a0.chain.edges(), y, a0.backbone@[k], a0.backbone@[k + 1]);
                        assert(a1.backbone@[k] == a0.backbone@[k]);
                        assert(a1.backbone@[k + 1] == a0.backbone@[k + 1]);
                        assert(y != x);
                        assert(ends_join(a1.chain.edges(), y, a1.backbone@[k], a1.backbone@[k + 1]));
                    } else {
                        assert(a1.backbone@[k] == a0.current_atom);
                        assert(ends_join(a1.chain.edges(), x, a1.backbone@[k], a1.backbone@[k + 1]));
                    }
                }
                assert(a1.chain.edges().dom() == a0.chain.edges().dom().insert(x));
            }
            proof {
                assert(a1.no_side_groups());
            }
            alk.move_down();
            proof {
                lemma_position(alk.backbone@, i - 1);
                assert forall|j: int| 0 <= j < alk.backbone@.len() implies (#[trigger] alk.bonded(alk.backbone@[j])).len() == 0 by {
                    assert(alk.bonded(alk.backbone@[j]) == a1.bonded(a1.backbone@[j]));
                }
                assert forall|k: int| 0 <= k < i implies #[trigger] alk.linked(k) by {
                    assert(a1.linked(k));
                    let y = choose|y: usize| #[trigger] ends_join(a1.chain.edges(), y, a1.backbone@[k], a1.backbone@[k + 1]);
                    assert(ends_join(alk.chain.edges(), y, alk.backbone@[k], alk.backbone@[k + 1]));
                }
            }
            i = i + 1;
        }
        alk
    }

    /// The position of `target` on the backbone.
    pub fn get_atom_index(&self, target: usize) -> (r: Option<usize>)
        requires
            self.backbone@.no_duplicates(),
        ensures
            r matches Some(i) ==> i < self.backbone@.len() && self.backbone@[i as int] == target
                && position(self.backbone@, target) == i,
            r is None ==> !self.backbone@.contains(target),
    {
        let mut i: usize = 0;
        while i < self.backbone.len()
            invariant
                self.backbone@.no_duplicates(),
                0 <= i <= self.backbone@.len(),
                forall|j: int| 0 <= j < i ==> self.backbone@[j] != target,
            decreases self.backbone@.len() - i,
        {
            if self.backbone[i] == target {
                proof {
                    lemma_position(self.backbone@, i as int);
                }
                return Some(i);
            }
            i = i + 1;
        }
        None
    }

    /// The cursor's position on the backbone.
    pub fn get_current_atom_index(&self) -> (r: Option<usize>)
        requires
            self.backbone@.no_duplicates(),
        ensures
            r matches Some(i) ==> i < self.backbone@.len() && self.backbone@[i as int]
                == self.current_atom && self.cursor_index() == i,
            r is None ==> !self.backbone@.contains(self.current_atom),
    {
        self.get_atom_index(self.current_atom)
    }

    /// Moves the cursor to the previous backbone carbon; false, and no move, at
    /// the first one.
    pub fn move_up(&mut self) -> (r: bool)
        requires
            old(self).wf(),
        ensures
            final(self).wf(),
            final(self).chain == old(self).chain,
            final(self).backbone@ == old(self).backbone@,
            final(self).current_atom == step_up(old(self).backbone@, old(self).current_atom),
            r == (old(self).backbone@.contains(old(self).current_atom) && old(self).cursor_index() > 0),
    {
        match self.get_current_atom_index() {
            Some(idx) => {
                if idx > 0 {
                    self.current_atom = self.backbone[idx - 1];
                    true
                } else {
                    false
                }
            },
            None => false,
        }
    }

    /// Moves the cursor to the next backbone carbon; false, and no move, at the
    /// last one.
    pub fn move_down(&mut self) -> (r: bool)
        requires
            old(self).wf(),
        ensures
            final(self).wf(),
            final(self).chain == old(self).chain,
            final(self).backbone@ == old(self).backbone@,
            final(self).current_atom == step_down(old(self).backbone@, old(self).current_atom),
            r == (old(self).backbone@.contains(old(self).current_atom) && old(self).cursor_index() + 1
                < old(self).backbone@.len()),
    {
        match self.get_current_atom_index() {
            Some(idx) => {
                if idx < self.backbone.len() - 1 {
                    self.current_atom = self.backbone[idx + 1];
                    true
                } else {
                    false
                }
            },
            None => false,
        }
    }

    /// Inserts a new carbon right after the cursor, rewiring the backbone
    /// through it; on an empty backbone it becomes the only carbon and the
    /// cursor. The cursor does not move otherwise.
    pub fn add_carbon_after(&mut self)
        requires
            old(self).wf(),
        ensures
            final(self).wf(),
            old(self).backbone@.len() == 0 ==> final(self).backbone@.len() == 1,
            old(self).backbone@.len() > 0 ==> {
                &&& final(self).backbone@ == old(self).backbone@.insert(
                    old(self).cursor_index() + 1,
                    final(self).backbone@[old(self).cursor_index() + 1],
                )
                &&& final(self).current_atom == old(self).current_atom
                &&& !old(self).chain.has_node(final(self).backbone@[old(self).cursor_index() + 1])
                &&& final(self).chain.molecule_at(final(self).backbone@[old(self).cursor_index() + 1]) == Some(Molecule::E(Element::C))
                &&& final(self).chain.nodes().dom() == old(self).chain.nodes().dom().insert(final(self).backbone@[old(self).cursor_index() + 1])
                &&& final(self).chain.nodes().dom().len() == old(self).chain.nodes().dom().len() + 1
                &&& old(self).cursor_index() + 1 == old(self).backbone@.len() ==> bonded_once(old(self).chain.edges(), final(self).chain.edges(), old(self).current_atom, final(self).backbone@[old(self).cursor_index() + 1])
                &&& old(self).cursor_index() + 1 < old(self).backbone@.len() ==> rewired(old(self).chain.edges(), final(self).chain.edges(), old(self).current_atom, final(self).backbone@[old(self).cursor_index() + 1], old(self).backbone@[old(self).cursor_index() + 1])
                &&& final(self).bonded(final(self).backbone@[old(self).cursor_index() + 1]).len() == 0
            },
            forall|x: usize| old(self).backbone@.contains(x) ==> #[trigger] final(self).bonded(x) == old(self).bonded(x),
            old(self).backbone@.len() == 0 ==> {
                &&& final(self).chain.molecule_at(final(self).backbone@[0]) == Some(Molecule::E(Element::C))
                &&& final(self).chain.nodes().dom() == set![final(self).backbone@[0]]
                &&& final(self).chain.edges() == old(self).chain.edges()
                &&& final(self).current_atom == final(self).backbone@[0]
            },
            forall|n: usize| old(self).chain.has_node(n) ==> #[trigger] final(self).chain.molecule_at(n) == old(self).chain.molecule_at(n),
            old(self).no_side_groups() && (old(self).backbone@.len() == 0 || old(self).cursor_index() + 1
                == old(self).backbone@.len()) ==> final(self).no_side_groups(),
    {
        match self.get_current_atom_index() {
            None => self.first_carbon(),
            Some(idx) => self.carbon_after(idx),
        }
    }

    /// Puts the first carbon on an empty backbone, with the cursor on it.
    fn first_carbon(&mut self)
        requires
            old(self).wf(),
            old(self).backbone@.len() == 0,
        ensures
            final(self).wf(),
            final(self).backbone@.len() == 1,
            final(self).no_side_groups(),
            final(self).current_atom == final(self).backbone@[0],
            final(self).chain.molecule_at(final(self).backbone@[0]) == Some(Molecule::E(Element::C)),
            final(self).chain.nodes().dom() == set![final(self).backbone@[0]],
            final(self).chain.edges() == old(self).chain.edges(),
    {
        proof {
            old(self).chain.nodes().dom().lemma_len0_is_empty();
        }
        let c = self.chain.add_node(Molecule::E(Element::C));
        self.backbone.push(c);
        self.current_atom = c;
        proof {
            assert(self.backbone@ =~= seq![c]);
            assert(self.backbone@[0] == c);
            assert(self.chain.nodes().dom() =~= set![c]);
            assert(self.chain.nbrs(c) =~= Seq::<usize>::empty());
            assert(self.bonded(c) =~= Seq::<usize>::empty()) by {
                reveal(Seq::filter);
            }
        }
    }

    /// Inserts a new carbon after the cursor, at position `idx`.
    #[verifier::rlimit(40)]
    fn carbon_after(&mut self, idx: usize)
        requires
            old(self).wf(),
            idx < old(self).backbone@.len(),
            old(self).backbone@[idx as int] == old(self).current_atom,
            old(self).cursor_index() == idx,
        ensures
            final(self).wf(),
            final(self).backbone@ == old(self).backbone@.insert(
                idx + 1,
                final(self).backbone@[idx + 1],
            ),
            final(self).current_atom == old(self).current_atom,
            !old(self).chain.has_node(final(self).backbone@[idx + 1]),
            final(self).chain.molecule_at(final(self).backbone@[idx + 1]) == Some(Molecule::E(Element::C)),
            final(self).chain.nodes().dom() == old(self).chain.nodes().dom().insert(final(self).backbone@[idx + 1]),
            final(self).chain.nodes().dom().len() == old(self).chain.nodes().dom().len() + 1,
            forall|n: usize| old(self).chain.has_node(n) ==> #[trigger] final(self).chain.molecule_at(n) == old(self).chain.molecule_at(n),
            idx + 1 == old(self).backbone@.len() ==> bonded_once(old(self).chain.edges(), final(self).chain.edges(), old(self).current_atom, final(self).backbone@[idx + 1]),
            idx + 1 < old(self).backbone@.len() ==> rewired(old(self).chain.edges(), final(self).chain.edges(), old(self).current_atom, final(self).backbone@[idx + 1], old(self).backbone@[idx + 1]),
            old(self).no_side_groups() && idx + 1 == old(self).backbone@.len() ==> final(self).no_side_groups(),
            forall|x: usize| old(self).backbone@.contains(x) ==> #[trigger] final(self).bonded(x) == old(self).bonded(x),
            final(self).bonded(final(self).backbone@[idx + 1]).len() == 0,
    {
        let ghost bb0 = self.backbone@;
        let ghost e0 = self.chain.edges();
        let ghost a0 = self.chain;
        let cur = self.current_atom;
        proof {
            assert(self.chain.has_node(bb0[idx as int]));
        }
        let c: usize;
        if idx < self.backbone.len() - 1 {
            let next = self.backbone[idx + 1];
            proof {
                assert(self.chain.has_node(bb0[idx + 1]));
            }
            c = self.chain.add_node(Molecule::E(Element::C));
            let ghost a1 = self.chain;
            proof {
                lemma_position(bb0, idx as int);
                lemma_position(bb0, idx + 1);
                assert(cur != next);
            }
            self.chain.unbond(cur, next);
            let ghost a2 = self.chain;
            let ghost m = self.chain.edges();
            self.chain.add_edge(cur, c);
            let ghost a3 = self.chain;
            let ghost m1 = self.chain.edges();
            self.chain.add_edge(c, next);
            proof {
                lemma_grown_insert(bb0, idx + 1, c);
                assert forall|x: usize| #[trigger] bb0.contains(x) implies a0.has_node(x) by {
                    let j = choose|j: int| 0 <= j < bb0.len() && bb0[j] == x;
                }
                lemma_rewire_keeps_sides(a0, a1, a2, a3, self.chain, cur, c, next, bb0, bb0.insert(idx + 1, c));
                assert(unbonded(e0, m, cur, next));
                assert(bonded_once(m, m1, cur, c));
                assert(bonded_once(m1, self.chain.edges(), c, next));
                assert(rewired(e0, self.chain.edges(), cur, c, next));
            }
        } else {
            c = self.chain.bond_new(cur, Molecule::E(Element::C));
            proof {
                lemma_grown_insert(bb0, idx + 1, c);
                assert forall|x: usize| #[trigger] bb0.contains(x) implies a0.has_node(x) by {
                    let j = choose|j: int| 0 <= j < bb0.len() && bb0[j] == x;
                }
                lemma_bond_keeps_sides(a0, self.chain, cur, c, bb0, bb0.insert(idx + 1, c));
            }
        }
        self.backbone.insert(idx + 1, c);
        proof {
            if idx + 1 == bb0.len() {
                assert(self.backbone@ =~= bb0.push(c));
                if old(self).no_side_groups() {
                    lemma_append_no_side(*old(self), *self, c);
                }
            }
            lemma_insert_fresh(bb0, idx + 1, c);
            assert(self.backbone@[idx as int] == cur);
            assert(self.backbone@[0] == bb0[0]);
            assert forall|i: int| 0 <= i < self.backbone@.len() implies self.chain.has_node(#[trigger] self.backbone@[i]) by {
                if i != idx + 1 {
                    assert(bb0.contains(self.backbone@[i]));
                }
            }
        }
    }

    /// Inserts a new carbon right before the cursor, rewiring the backbone
    /// through it. When the cursor is on the first carbon, which has no
    /// predecessor, the new carbon is bonded to it and appended at the end of
    /// the backbone instead. On an empty backbone it becomes the only carbon and
    /// the cursor.
    pub fn add_carbon_before(&mut self)
        requires
            old(self).wf(),
        ensures
            final(self).wf(),
            old(self).backbone@.len() == 0 ==> final(self).backbone@.len() == 1,
            old(self).backbone@.len() > 0 ==> final(self).current_atom == old(self).current_atom,
            old(self).backbone@.len() > 0 && old(self).cursor_index() > 0 ==> final(self).backbone@
                == old(self).backbone@.insert(
                old(self).cursor_index(),
                final(self).backbone@[old(self).cursor_index()],
            ) && !old(self).chain.has_node(final(self).backbone@[old(self).cursor_index()]),
            old(self).backbone@.len() > 0 && old(self).cursor_index() == 0 ==> final(self).backbone@
                == old(self).backbone@.push(final(self).backbone@.last())
                && !old(self).chain.has_node(final(self).backbone@.last()),
            old(self).backbone@.len() > 0 && old(self).cursor_index() > 0 ==> {
                let c = final(self).backbone@[old(self).cursor_index()];
                &&& final(self).chain.molecule_at(c) == Some(Molecule::E(Element::C))
                &&& final(self).chain.nodes().dom() == old(self).chain.nodes().dom().insert(c)
                &&& rewired(old(self).chain.edges(), final(self).chain.edges(), old(self).backbone@[old(self).cursor_index() - 1], c, old(self).current_atom)
                &&& final(self).bonded(c).len() == 0
            },
            forall|x: usize| old(self).backbone@.contains(x) ==> #[trigger] final(self).bonded(x) == old(self).bonded(x),
            old(self).backbone@.len() > 0 && old(self).cursor_index() == 0 ==> {
                let c = final(self).backbone@.last();
                &&& final(self).chain.molecule_at(c) == Some(Molecule::E(Element::C))
                &&& final(self).chain.nodes().dom() == old(self).chain.nodes().dom().insert(c)
                &&& bonded_once(old(self).chain.edges(), final(self).chain.edges(), old(self).current_atom, c)
                &&& final(self).bonded(c).len() == 0
            },
            old(self).backbone@.len() == 0 ==> {
                &&& final(self).chain.molecule_at(final(self).backbone@[0]) == Some(Molecule::E(Element::C))
                &&& final(self).chain.nodes().dom() == set![final(self).backbone@[0]]
                &&& final(self).chain.edges() == old(self).chain.edges()
            },
    {
        match self.get_current_atom_index() {
            None => self.first_carbon(),
            Some(idx) => {
                if idx > 0 {
                    self.carbon_before(idx);
                } else {
                    let len = self.backbone.len();
                    self.carbon_after_last_from(idx, len);
                }
            },
        }
    }

    /// Inserts a new carbon before the cursor, which is at position `idx > 0`.
    #[verifier::rlimit(30)]
    fn carbon_before(&mut self, idx: usize)
        requires
            old(self).wf(),
            0 < idx < old(self).backbone@.len(),
            old(self).backbone@[idx as int] == old(self).current_atom,
        ensures
            final(self).wf(),
            final(self).backbone@ == old(self).backbone@.insert(idx as int, final(self).backbone@[idx as int]),
            final(self).current_atom == old(self).current_atom,
            !old(self).chain.has_node(final(self).backbone@[idx as int]),
            final(self).chain.molecule_at(final(self).backbone@[idx as int]) == Some(Molecule::E(Element::C)),
            final(self).chain.nodes().dom() == old(self).chain.nodes().dom().insert(final(self).backbone@[idx as int]),
            final(self).chain.nodes().dom().len() == old(self).chain.nodes().dom().len() + 1,
            forall|n: usize| old(self).chain.has_node(n) ==> #[trigger] final(self).chain.molecule_at(n) == old(self).chain.molecule_at(n),
            rewired(old(self).chain.edges(), final(self).chain.edges(), old(self).backbone@[idx - 1], final(self).backbone@[idx as int], old(self).current_atom),
            forall|x: usize| old(self).backbone@.contains(x) ==> #[trigger] final(self).bonded(x) == old(self).bonded(x),
            final(self).bonded(final(self).backbone@[idx as int]).len() == 0,
    {
        let ghost bb0 = self.backbone@;
        let ghost e0 = self.chain.edges();
        let ghost a0 = self.chain;
        let cur = self.current_atom;
        let prev = self.backbone[idx - 1];
        proof {
            assert(self.chain.has_node(bb0[idx as int]));
            assert(self.chain.has_node(bb0[idx - 1]));
        }
        let c = self.chain.add_node(Molecule::E(Element::C));
        let ghost a1 = self.chain;
        proof {
            lemma_position(bb0, idx as int);
            lemma_position(bb0, idx - 1);
            assert(prev != cur);
        }
        self.chain.unbond(prev, cur);
        let ghost a2 = self.chain;
        let ghost m = self.chain.edges();
        self.chain.add_edge(prev, c);
        let ghost a3 = self.chain;
        let ghost m1 = self.chain.edges();
        self.chain.add_edge(c, cur);
        proof {
            lemma_grown_insert(bb0, idx as int, c);
            assert forall|x: usize| #[trigger] bb0.contains(x) implies a0.has_node(x) by {
                let j = choose|j: int| 0 <= j < bb0.len() && bb0[j] == x;
            }
            lemma_rewire_keeps_sides(a0, a1, a2, a3, self.chain, prev, c, cur, bb0, bb0.insert(idx as int, c));
            assert(unbonded(e0, m, prev, cur));
            assert(bonded_once(m, m1, prev, c));
            assert(bonded_once(m1, self.chain.edges(), c, cur));
            assert(rewired(e0, self.chain.edges(), prev, c, cur));
        }
        self.backbone.insert(idx, c);
        proof {
            lemma_insert_fresh(bb0, idx as int, c);
            assert(self.backbone@[idx + 1] == cur);
            assert(self.backbone@[0] == bb0[0]);
            assert forall|i: int| 0 <= i < self.backbone@.len() implies self.chain.has_node(#[trigger] self.backbone@[i]) by {
                if i != idx {
                    assert(bb0.contains(self.backbone@[i]));
                }
            }
        }
    }

    /// Bonds a new carbon to the carbon at `idx` and appends it to the end of
    /// the backbone.
    #[verifier::rlimit(30)]
    fn carbon_after_last_from(&mut self, idx: usize, len: usize)
        requires
            old(self).wf(),
            idx < old(self).backbone@.len(),
            len == old(self).backbone@.len(),
        ensures
            final(self).wf(),
            final(self).backbone@ == old(self).backbone@.push(final(self).backbone@.last()),
            final(self).current_atom == old(self).current_atom,
            !old(self).chain.has_node(final(self).backbone@.last()),
            final(self).chain.molecule_at(final(self).backbone@.last()) == Some(Molecule::E(Element::C)),
            final(self).chain.nodes().dom() == old(self).chain.nodes().dom().insert(final(self).backbone@.last()),
            final(self).chain.nodes().dom().len() == old(self).chain.nodes().dom().len() + 1,
            forall|n: usize| old(self).chain.has_node(n) ==> #[trigger] final(self).chain.molecule_at(n) == old(self).chain.molecule_at(n),
            bonded_once(old(self).chain.edges(), final(self).chain.edges(), old(self).backbone@[idx as int], final(self).backbone@.last()),
            forall|x: usize| old(self).backbone@.contains(x) ==> #[trigger] final(self).bonded(x) == old(self).bonded(x),
            final(self).bonded(final(self).backbone@.last()).len() == 0,
    {
        let ghost bb0 = self.backbone@;
        let ghost a0 = self.chain;
        proof {
            assert(self.chain.has_node(bb0[idx as int]));
        }
        let at = self.backbone[idx];
        let c = self.chain.bond_new(at, Molecule::E(Element::C));
        proof {
            lemma_grown_insert(bb0, len as int, c);
            assert forall|x: usize| #[trigger] bb0.contains(x) implies a0.has_node(x) by {
                let j = choose|j: int| 0 <= j < bb0.len() && bb0[j] == x;
            }
            assert(bb0.contains(at));
            lemma_bond_keeps_sides(a0, self.chain, at, c, bb0, bb0.insert(len as int, c));
        }
        self.backbone.insert(len, c);
        proof {
            lemma_insert_fresh(bb0, len as int, c);
            assert(self.backbone@ =~= bb0.push(c));
            assert(self.backbone@[0] == bb0[0]);
            assert(self.backbone@.contains(self.current_atom)) by {
                let j = choose|j: int| 0 <= j < bb0.len() && bb0[j] == self.current_atom;
                assert(self.backbone@[j] == self.current_atom);
            }
            assert forall|i: int| 0 <= i < self.backbone@.len() implies self.chain.has_node(#[trigger] self.backbone@[i]) by {
                if i != len {
                    assert(bb0.contains(self.backbone@[i]));
                }
            }
        }
    }

    /// Bonds a new side node holding `m` to the backbone carbon `at`. The new
    /// node comes first among `at`'s side groups; no other carbon's side groups
    /// change.
    #[verifier::rlimit(30)]
    pub fn attach_at(&mut self, at: usize, m: Molecule) -> (r: usize)
        requires
            old(self).wf(),
            old(self).backbone@.contains(at),
        ensures
            final(self).wf(),
            final(self).backbone@ == old(self).backbone@,
            final(self).current_atom == old(self).current_atom,
            !old(self).chain.has_node(r),
            final(self).chain.molecule_at(r) == Some(m),
            forall|n: usize| old(self).chain.has_node(n) ==> #[trigger] final(self).chain.molecule_at(n) == old(self).chain.molecule_at(n),
            final(self).bonded(at) == seq![r] + old(self).bonded(at),
            forall|x: usize| x != at && old(self).backbone@.contains(x) ==> #[trigger] final(self).bonded(x) == old(self).bonded(x),
            final(self).chain.nodes().dom() == old(self).chain.nodes().dom().insert(r),
            final(self).chain.nodes().dom().len() == old(self).chain.nodes().dom().len() + 1,
            final(self).chain.edges().dom().len() == old(self).chain.edges().dom().len() + 1,
            bonded_once(old(self).chain.edges(), final(self).chain.edges(), at, r),
    {
        proof {
            let j = choose|j: int| 0 <= j < self.backbone@.len() && self.backbone@[j] == at;
            assert(self.chain.has_node(self.backbone@[j]));
        }
        let r = self.chain.bond_new(at, m);
        proof {
            let bb = self.backbone@;
            assert(!bb.contains(r)) by {
                if bb.contains(r) {
                    let j = choose|j: int| 0 <= j < bb.len() && bb[j] == r;
                    assert(old(self).chain.has_node(bb[j]));
                }
            }
            lemma_filter_prepend(r, old(self).chain.nbrs(at), |x: usize| !bb.contains(x));
            assert forall|x: usize| x != at && old(self).backbone@.contains(x) implies #[trigger] self.bonded(x) == old(self).bonded(x) by {
                let j = choose|j: int| 0 <= j < bb.len() && bb[j] == x;
                assert(old(self).chain.has_node(bb[j]));
            }
        }
        r
    }

    /// Bonds `m` to the carbon under the cursor: one new node and one new
    /// edge. A carbon's side groups are walked newest first (the order the
    /// graph walks a node's bonds, the same order in which an amine's key,
    /// bonded last, reads first), so the new side group comes first.
    pub fn add_molecule(&mut self, m: Molecule)
        requires
            old(self).wf(),
            old(self).backbone@.len() > 0,
        ensures
            final(self).wf(),
            final(self).backbone@ == old(self).backbone@,
            final(self).current_atom == old(self).current_atom,
            final(self).bonded(old(self).current_atom).len() == old(self).bonded(old(self).current_atom).len() + 1,
            final(self).bonded(old(self).current_atom).skip(1) == old(self).bonded(old(self).current_atom),
            final(self).chain.molecule_at(final(self).bonded(old(self).current_atom)[0]) == Some(m),
            final(self).chain.nodes().dom() == old(self).chain.nodes().dom().insert(final(self).bonded(old(self).current_atom)[0]),
            final(self).chain.nodes().dom().len() == old(self).chain.nodes().dom().len() + 1,
            final(self).chain.edges().dom().len() == old(self).chain.edges().dom().len() + 1,
            bonded_once(old(self).chain.edges(), final(self).chain.edges(), old(self).current_atom, final(self).bonded(old(self).current_atom)[0]),
    {
        let at = self.current_atom;
        let r = self.attach_at(at, m);
        proof {
            assert((seq![r] + old(self).bonded(at)).skip(1) =~= old(self).bonded(at));
        }
    }

    /// Bonds the element `e` to the carbon under the cursor.
    pub fn add_element(&mut self, e: Element)
        requires
            old(self).wf(),
            old(self).backbone@.len() > 0,
        ensures
            final(self).wf(),
            final(self).backbone@ == old(self).backbone@,
            final(self).current_atom == old(self).current_atom,
            final(self).bonded(old(self).current_atom).skip(1) == old(self).bonded(old(self).current_atom),
            final(self).chain.molecule_at(final(self).bonded(old(self).current_atom)[0]) == Some(Molecule::E(e)),
            final(self).chain.nodes().dom() == old(self).chain.nodes().dom().insert(final(self).bonded(old(self).current_atom)[0]),
            final(self).chain.nodes().dom().len() == old(self).chain.nodes().dom().len() + 1,
            final(self).chain.edges().dom().len() == old(self).chain.edges().dom().len() + 1,
            bonded_once(old(self).chain.edges(), final(self).chain.edges(), old(self).current_atom, final(self).bonded(old(self).current_atom)[0]),
    {
        self.add_molecule(Molecule::E(e));
    }

    /// Bonds the functional group `f` to the carbon under the cursor.
    pub fn add_functional_group(&mut self, f: FunctionalGroup)
        requires
            old(self).wf(),
            old(self).backbone@.len() > 0,
        ensures
            final(self).wf(),
            final(self).backbone@ == old(self).backbone@,
            final(self).current_atom == old(self).current_atom,
            final(self).bonded(old(self).current_atom).skip(1) == old(self).bonded(old(self).current_atom),
            final(self).chain.molecule_at(final(self).bonded(old(self).current_atom)[0]) == Some(Molecule::F(f)),
            final(self).chain.nodes().dom() == old(self).chain.nodes().dom().insert(final(self).bonded(old(self).current_atom)[0]),
            final(self).chain.nodes().dom().len() == old(self).chain.nodes().dom().len() + 1,
            final(self).chain.edges().dom().len() == old(self).chain.edges().dom().len() + 1,
            bonded_once(old(self).chain.edges(), final(self).chain.edges(), old(self).current_atom, final(self).bonded(old(self).current_atom)[0]),
    {
        self.add_molecule(Molecule::F(f));
    }

    /// Bonds a nested alkane to the carbon under the cursor.
    pub fn add_alkane(&mut self, alk: Alkane)
        requires
            old(self).wf(),
            old(self).backbone@.len() > 0,
        ensures
            final(self).wf(),
            final(self).backbone@ == old(self).backbone@,
            final(self).current_atom == old(self).current_atom,
            final(self).bonded(old(self).current_atom).skip(1) == old(self).bonded(old(self).current_atom),
            final(self).chain.molecule_at(final(self).bonded(old(self).current_atom)[0]) == Some(Molecule::F(FunctionalGroup::Alkane(alk))),
            final(self).chain.nodes().dom() == old(self).chain.nodes().dom().insert(final(self).bonded(old(self).current_atom)[0]),
            final(self).chain.nodes().dom().len() == old(self).chain.nodes().dom().len() + 1,
            final(self).chain.edges().dom().len() == old(self).chain.edges().dom().len() + 1,
            bonded_once(old(self).chain.edges(), final(self).chain.edges(), old(self).current_atom, final(self).bonded(old(self).current_atom)[0]),
    {
        self.add_molecule(Molecule::F(FunctionalGroup::Alkane(alk)));
    }

    /// Bonds `stuff` to the carbon under the cursor.
    pub fn add(&mut self, stuff: AlkaneElement)
        requires
            old(self).wf(),
            old(self).backbone@.len() > 0,
        ensures
            final(self).wf(),
            final(self).backbone@ == old(self).backbone@,
            final(self).current_atom == old(self).current_atom,
            final(self).bonded(old(self).current_atom).skip(1) == old(self).bonded(old(self).current_atom),
            final(self).chain.molecule_at(final(self).bonded(old(self).current_atom)[0]) == Some(stuff.molecule()),
            final(self).chain.nodes().dom() == old(self).chain.nodes().dom().insert(final(self).bonded(old(self).current_atom)[0]),
            final(self).chain.nodes().dom().len() == old(self).chain.nodes().dom().len() + 1,
            final(self).chain.edges().dom().len() == old(self).chain.edges().dom().len() + 1,
            bonded_once(old(self).chain.edges(), final(self).chain.edges(), old(self).current_atom, final(self).bonded(old(self).current_atom)[0]),
    {
        self.add_molecule(stuff.into_molecule());
    }

    /// Bonds `items[i]` to the `i`-th backbone carbon, for every `i`, with one
    /// new node and one new edge each; each item comes first among its
    /// carbon's side groups (they are walked newest first). The cursor stays
    /// where it was. Refused, with nothing changed, when there are
    /// more items than carbons.
    #[verifier::loop_isolation(false)]
    pub fn fill(&mut self, items: Vec<AlkaneElement>) -> (r: Result<(), AlkaneError>)
        requires
            old(self).wf(),
        ensures
            items@.len() > old(self).backbone@.len() ==> r == Err::<(), AlkaneError>(AlkaneError::TooManyItems) && *final(self) == *old(self),
            items@.len() <= old(self).backbone@.len() ==> {
                &&& r is Ok
                &&& final(self).wf()
                &&& final(self).backbone@ == old(self).backbone@
                &&& final(self).current_atom == old(self).current_atom
                &&& forall|n: usize| old(self).chain.has_node(n) ==> #[trigger] final(self).chain.molecule_at(n) == old(self).chain.molecule_at(n)
                &&& forall|i: int| 0 <= i < items@.len() ==> {
                    &&& (#[trigger] final(self).bonded(old(self).backbone@[i])).len() == old(self).bonded(old(self).backbone@[i]).len() + 1
                    &&& final(self).bonded(old(self).backbone@[i]).skip(1) == old(self).bonded(old(self).backbone@[i])
                    &&& final(self).chain.molecule_at(final(self).bonded(old(self).backbone@[i])[0]) == Some(items@[i].molecule())
                }
                &&& forall|i: int| items@.len() <= i < old(self).backbone@.len() ==> #[trigger] final(self).bonded(old(self).backbone@[i]) == old(self).bonded(old(self).backbone@[i])
                &&& final(self).chain.nodes().dom().len() == old(self).chain.nodes().dom().len() + items@.len()
                &&& final(self).chain.edges().dom().len() == old(self).chain.edges().dom().len() + items@.len()
            },
    {
        if items.len() > self.backbone.len() {
            return Err(AlkaneError::TooManyItems);
        }
        let ghost a0 = *self;
        let ghost all = items@;
        let mut rest = items;
        let mut i: usize = 0;
        while rest.len() > 0
            invariant
                0 <= i <= all.len(),
                all.len() <= a0.backbone@.len(),
                rest@ == all.skip(i as int),
                self.wf(),
                self.backbone@ == a0.backbone@,
                self.current_atom == a0.current_atom,
                forall|n: usize| a0.chain.has_node(n) ==> #[trigger] self.chain.molecule_at(n) == a0.chain.molecule_at(n),
                forall|j: int| 0 <= j < i ==> {
                    &&& (#[trigger] self.bonded(a0.backbone@[j])).len() == a0.bonded(a0.backbone@[j]).len() + 1
                    &&& self.bonded(a0.backbone@[j]).skip(1) == a0.bonded(a0.backbone@[j])
                    &&& self.chain.molecule_at(self.bonded(a0.backbone@[j])[0]) == Some(all[j].molecule())
                },
                forall|j: int| i <= j < a0.backbone@.len() ==> #[trigger] self.bonded(a0.backbone@[j]) == a0.bonded(a0.backbone@[j]),
                self.chain.nodes().dom().len() == a0.chain.nodes().dom().len() + i,
                self.chain.edges().dom().len() == a0.chain.edges().dom().len() + i,
            decreases rest@.len(),
        {
            let item = rest.remove(0);
            proof {
                assert(item == all[i as int]);
                assert(rest@ =~= all.skip(i + 1));
            }
            let at = self.backbone[i];
            let ghost before = *self;
            let r = self.attach_at(at, item.into_molecule());
            proof {
                lemma_position(a0.backbone@, i as int);
                assert((seq![r] + before.bonded(at)).skip(1) =~= before.bonded(at));
                assert forall|j: int| 0 <= j < i + 1 implies {
                    &&& (#[trigger] self.bonded(a0.backbone@[j])).len() == a0.bonded(a0.backbone@[j]).len() + 1
                    &&& self.bonded(a0.backbone@[j]).skip(1) == a0.bonded(a0.backbone@[j])
                    &&& self.chain.molecule_at(self.bonded(a0.backbone@[j])[0]) == Some(all[j].molecule())
                } by {
                    if j < i {
                        lemma_position(a0.backbone@, j);
                        assert(a0.backbone@[j] != at);
                        let s0 = before.bonded(a0.backbone@[j])[0];
                        assert(before.chain.molecule_at(s0) is Some);
                    }
                }
                assert forall|j: int| i + 1 <= j < a0.backbone@.len() implies #[trigger] self.bonded(a0.backbone@[j]) == a0.bonded(a0.backbone@[j]) by {
                    lemma_position(a0.backbone@, j);
                    assert(a0.backbone@[j] != at);
                    assert(a0.backbone@.contains(a0.backbone@[j]));
                }
            }
            i = i + 1;
        }
        Ok(())
    }

    /// A chain of one carbon per item, each bonded to its item in order.
    pub fn new_with(stuff: Vec<AlkaneElement>) -> (r: Alkane)
        ensures
            r.wf(),
            r.backbone@.len() == stuff@.len(),
            forall|i: int| 0 <= i < stuff@.len() ==> {
                &&& (#[trigger] r.bonded(r.backbone@[i])).len() == 1
                &&& r.chain.molecule_at(r.bonded(r.backbone@[i])[0]) == Some(stuff@[i].molecule())
            },
    {
        let mut alk = Alkane::new_n_alkane(stuff.len());
        let ghost a0 = alk;
        let _ = alk.fill(stuff);
        proof {
            assert forall|i: int| 0 <= i < stuff@.len() implies (#[trigger] alk.bonded(alk.backbone@[i])).len() == 1 by {
                assert(a0.bonded(a0.backbone@[i]).len() == 0);
            }
        }
        alk
    }

    /// The backbone carbons, in order.
    pub fn backbone(&self) -> (r: &Vec<usize>)
        ensures
            r@ == self.backbone@,
    {
        &self.backbone
    }

    /// The molecules of the side groups bonded to node `idx`.
    pub fn get_bonded_molecules(&self, idx: usize) -> (r: Vec<&Molecule>)
        requires
            self.wf(),
        ensures
            r@.len() == self.bonded(idx).len(),
            forall|i: int| 0 <= i < r@.len() ==> Some(*#[trigger] r@[i]) == self.chain.molecule_at(self.bonded(idx)[i]),
    {
        let ns = self.bonded_nodes(idx);
        proof {
            let bb = self.backbone@;
            let p = |x: usize| !bb.contains(x);
            assert forall|j: int| 0 <= j < ns@.len() implies self.chain.has_node(#[trigger] ns@[j]) by {
                let nb = self.chain.nbrs(idx);
                assert(ns@.contains(ns@[j]));
                nb.lemma_filter_contains_rev(p, ns@[j]);
                let k = choose|k: int| 0 <= k < nb.len() && nb[k] == ns@[j];
                lemma_neighbors_present(self.chain.graph, idx, k);
            }
        }
        let mut r: Vec<&Molecule> = Vec::new();
        let mut i: usize = 0;
        while i < ns.len()
            invariant
                ns@ == self.bonded(idx),
                0 <= i <= ns@.len(),
                r@.len() == i,
                self.wf(),
                forall|j: int| 0 <= j < ns@.len() ==> self.chain.has_node(#[trigger] ns@[j]),
                forall|j: int| 0 <= j < i ==> Some(*#[trigger] r@[j]) == self.chain.molecule_at(ns@[j]),
            decreases ns@.len() - i,
        {
            match self.chain.node_weight(ns[i]) {
                Some(m) => r.push(m),
                None => return r,
            }
            i = i + 1;
        }
        r
    }

    /// The molecules of the side groups bonded to the carbon under the cursor.
    pub fn get_currently_bonded_molecules(&self) -> (r: Vec<&Molecule>)
        requires
            self.wf(),
        ensures
            r@.len() == self.bonded(self.current_atom).len(),
            forall|i: int| 0 <= i < r@.len() ==> Some(*#[trigger] r@[i]) == self.chain.molecule_at(self.bonded(self.current_atom)[i]),
    {
        self.get_bonded_molecules(self.current_atom)
    }

    /// Whether node `x` is on the backbone.
    pub fn in_backbone(&self, x: usize) -> (r: bool)
        ensures
            r == self.backbone@.contains(x),
    {
        let mut i: usize = 0;
        while i < self.backbone.len()
            invariant
                0 <= i <= self.backbone@.len(),
                forall|j: int| 0 <= j < i ==> self.backbone@[j] != x,
            decreases self.backbone@.len() - i,
        {
            if self.backbone[i] == x {
                return true;
            }
            i = i + 1;
        }
        false
    }

    /// The side groups bonded to node `n`, in the order the graph walks them.
    pub fn bonded_nodes(&self, n: usize) -> (r: Vec<usize>)
        ensures
            r@ == self.bonded(n),
    {
        let ns = self.chain.neighbors(n);
        let mut r: Vec<usize> = Vec::new();
        let mut i: usize = 0;
        while i < ns.len()
            invariant
                ns@ == self.chain.nbrs(n),
                0 <= i <= ns@.len(),
                r@ == ns@.take(i as int).filter(|x: usize| !self.backbone@.contains(x)),
                self.bonded(n) == ns@.filter(|x: usize| !self.backbone@.contains(x)),
            decreases ns@.len() - i,
        {
            let x = ns[i];
            proof {
                assert(ns@.take(i + 1).drop_last() =~= ns@.take(i as int));
                reveal(Seq::filter);
            }
            if !self.in_backbone(x) {
                r.push(x);
            }
            i = i + 1;
        }
        proof {
            assert(ns@.take(ns@.len() as int) =~= ns@);
        }
        r
    }
}

} // verus!
