//! Flattening: inlining every nested functional group into one graph.
use crate::atoms::Atoms;
use crate::element::Element;
use crate::functional_groups::alkane::Alkane;
use crate::functional_groups::amine::Amine;
use crate::functional_groups::borinic::BorinicAcid;
use crate::functional_groups::ether::Ether;
use crate::functional_groups::sulfide::Sulfide;
use crate::functional_groups::FunctionalGroup;
use crate::graph::{
    graph_add_edge, graph_add_node, graph_clone, graph_edge_endpoints, graph_edge_indices,
    graph_edges, graph_in, graph_neighbors, graph_node_indices, graph_node_weight, graph_nodes,
    graph_out, graph_remove_node, joins, touches,
};
use crate::molecule::Molecule;
use vstd::prelude::*;

verus! {

/// Every present node of `a` holds an element.
pub open spec fn all_elements(a: Atoms) -> bool {
    forall|n: usize| #[trigger] a.has_node(n) ==> a.molecule_at(n) matches Some(Molecule::E(_))
}

/// Whether node `n` of `a` holds an element.
pub open spec fn holds_element(a: Atoms, n: usize) -> bool {
    a.molecule_at(n) matches Some(Molecule::E(_))
}

/// Every element node of `a` is in `r` with the same molecule, and every edge
/// of `a` between element nodes is in `r` with the same ends.
pub open spec fn keeps_elements(a: Atoms, r: Atoms) -> bool {
    &&& forall|n: usize| holds_element(a, n) ==> #[trigger] r.molecule_at(n) == a.molecule_at(n)
    &&& forall|e: usize|
        #[trigger] graph_edges(a.graph).contains_key(e) && holds_element(a, graph_edges(a.graph)[e].0)
            && holds_element(a, graph_edges(a.graph)[e].1) ==> graph_edges(r.graph).contains_key(e)
            && graph_edges(r.graph)[e] == graph_edges(a.graph)[e]
}

/// A deep copy of a molecule; an element is copied as itself.
fn copy_molecule(m: &Molecule) -> (r: Molecule)
    ensures
        m is E ==> r == *m,
    decreases m, 0nat,
{
    match m {
        Molecule::E(e) => Molecule::E(*e),
        Molecule::F(fg) => Molecule::F(copy_group(fg)),
    }
}

/// A deep copy of a functional group.
fn copy_group(fg: &FunctionalGroup) -> (r: FunctionalGroup)
    decreases fg, 0nat,
{
    match fg {
        FunctionalGroup::Ether(g) => FunctionalGroup::Ether(Ether(copy_atoms(&g.0))),
        FunctionalGroup::BorinicAcid(g) => FunctionalGroup::BorinicAcid(BorinicAcid(copy_atoms(&g.0))),
        FunctionalGroup::Sulfide(g) => FunctionalGroup::Sulfide(Sulfide(copy_atoms(&g.0))),
        FunctionalGroup::Amine(g) => FunctionalGroup::Amine(Amine(copy_atoms(&g.0))),
        FunctionalGroup::Alkane(g) => {
            let mut backbone: Vec<usize> = Vec::new();
            let mut i: usize = 0;
            while i < g.backbone.len()
                invariant
                    0 <= i <= g.backbone@.len(),
                    backbone@ == g.backbone@.take(i as int),
                decreases g.backbone@.len() - i,
            {
                proof {
                    assert(g.backbone@.take(i + 1) =~= g.backbone@.take(i as int).push(g.backbone@[i as int]));
                }
                backbone.push(g.backbone[i]);
                i = i + 1;
            }
            FunctionalGroup::Alkane(
                Alkane { chain: copy_atoms(&g.chain), current_atom: g.current_atom, backbone },
            )
        },
    }
}

/// A deep copy of a group of atoms: the same graph, with every molecule
/// copied in place.
fn copy_atoms(a: &Atoms) -> (r: Atoms)
    ensures
        graph_nodes(r.graph) == graph_nodes(a.graph),
        graph_edges(r.graph) == graph_edges(a.graph),
        graph_out(r.graph) == graph_out(a.graph),
        graph_in(r.graph) == graph_in(a.graph),
        r.head == a.head,
        r.molecules@.len() == a.molecules@.len(),
        forall|i: int| 0 <= i < a.molecules@.len() && a.molecules@[i] is E ==> #[trigger] r.molecules@[i] == a.molecules@[i],
    decreases a, 1nat,
{
    let mut molecules: Vec<Molecule> = Vec::new();
    let mut i: usize = 0;
    while i < a.molecules.len()
        invariant
            0 <= i <= a.molecules@.len(),
            molecules@.len() == i,
            forall|j: int| 0 <= j < i && a.molecules@[j] is E ==> #[trigger] molecules@[j] == a.molecules@[j],
        decreases a.molecules@.len() - i,
    {
        proof {
            assert(decreases_to!(a.molecules => a.molecules@[i as int]));
        }
        let m = copy_molecule(&a.molecules[i]);
        molecules.push(m);
        i = i + 1;
    }
    Atoms { graph: graph_clone(&a.graph), molecules, head: a.head }
}

/// `new` extends `old`: same head, every node with its molecule index, every
/// stored molecule and every edge kept.
pub open spec fn grows(old: Atoms, new: Atoms) -> bool {
    &&& new.head == old.head
    &&& forall|n: usize| #[trigger] old.has_node(n) ==> new.has_node(n) && new.nodes()[n] == old.nodes()[n]
    &&& old.molecules@.len() <= new.molecules@.len()
    &&& forall|i: int| 0 <= i < old.molecules@.len() ==> #[trigger] new.molecules@[i] == old.molecules@[i]
    &&& forall|e: usize| #[trigger] graph_edges(old.graph).contains_key(e) ==> graph_edges(new.graph).contains_key(e)
        && graph_edges(new.graph)[e] == graph_edges(old.graph)[e]
}

pub proof fn lemma_grows_trans(a: Atoms, b: Atoms, c: Atoms)
    requires
        grows(a, b),
        grows(b, c),
    ensures
        grows(a, c),
{
    assert forall|n: usize| #[trigger] a.has_node(n) implies c.has_node(n) && c.nodes()[n] == a.nodes()[n] by {
        assert(b.has_node(n));
    }
    assert forall|i: int| 0 <= i < a.molecules@.len() implies #[trigger] c.molecules@[i] == a.molecules@[i] by {
        assert(b.molecules@[i] == a.molecules@[i]);
    }
    assert forall|e: usize| #[trigger] graph_edges(a.graph).contains_key(e) implies graph_edges(c.graph).contains_key(e)
        && graph_edges(c.graph)[e] == graph_edges(a.graph)[e] by {
        assert(graph_edges(b.graph).contains_key(e));
    }
}

pub proof fn lemma_grows_molecule(a: Atoms, b: Atoms, n: usize)
    requires
        grows(a, b),
        a.molecule_at(n) is Some,
    ensures
        b.molecule_at(n) == a.molecule_at(n),
{
    assert(a.has_node(n));
    assert(b.has_node(n));
}

/// A node of `a` that holds a group and has a neighbour: flattening replaces
/// it by the group's own flattened atoms.
pub open spec fn is_wrapper(a: Atoms, n: usize) -> bool {
    (a.molecule_at(n) matches Some(Molecule::F(_))) && a.nbrs(n).len() > 0
}

/// The element at the head of a group, if its head holds one.
pub open spec fn head_element(fg: FunctionalGroup) -> Option<Element> {
    match fg.atoms().molecule_at(fg.atoms().head) {
        Some(Molecule::E(e)) => Some(e),
        _ => None,
    }
}

/// `r` holds a node `p`, new to `a`, with the element `e`, bonded to `m`.
pub open spec fn bonded_copy(a: Atoms, r: Atoms, m: usize, e: Element) -> bool {
    exists|p: usize|
        #![trigger r.molecule_at(p)]
        !a.has_node(p) && r.molecule_at(p) == Some(Molecule::E(e)) && exists|x: usize| #[trigger] joins(r.graph, x, m, p)
}

/// For the `k`-th neighbour of `m` in `a`, if it holds a group whose head
/// holds an element: `r` has a copy of that head bonded to `m`.
pub open spec fn head_spliced(a: Atoms, r: Atoms, m: usize, k: int) -> bool {
    match a.molecule_at(a.nbrs(m)[k]) {
        Some(Molecule::F(g)) => match head_element(g) {
            Some(e) => bonded_copy(a, r, m, e),
            None => true,
        },
        _ => true,
    }
}

/// Every node of `a` that is not itself replaced has, for each group bonded
/// to it, a copy of that group's head bonded to it in `r`.
pub open spec fn heads_spliced(a: Atoms, r: Atoms) -> bool {
    forall|m: usize, k: int|
        a.has_node(m) && !is_wrapper(a, m) && 0 <= k < a.nbrs(m).len() ==> #[trigger] head_spliced(a, r, m, k)
}

pub proof fn lemma_bonded_copy_grows(a: Atoms, r: Atoms, s: Atoms, m: usize, e: Element)
    requires
        bonded_copy(a, r, m, e),
        grows(r, s),
    ensures
        bonded_copy(a, s, m, e),
{
    let p = choose|p: usize| !a.has_node(p) && r.molecule_at(p) == Some(Molecule::E(e)) && exists|x: usize| #[trigger] joins(r.graph, x, m, p);
    let x = choose|x: usize| #[trigger] joins(r.graph, x, m, p);
    lemma_grows_molecule(r, s, p);
    assert(joins(s.graph, x, m, p));
}

/// Every node of `a` holds a molecule, and every group held anywhere inside
/// `a`, at any depth, sits on a node with a neighbour.
pub open spec fn groups_attached(a: Atoms) -> bool
    decreases a, 1nat, 0nat,
{
    &&& forall|n: usize| #[trigger] a.has_node(n) ==> a.molecule_at(n) is Some
    &&& forall|n: usize| #[trigger] a.molecule_at(n) matches Some(Molecule::F(_)) ==> a.nbrs(n).len() > 0
    &&& molecules_attached(a, a.molecules@.len())
}

/// The groups among the first `n` stored molecules of `a` have their groups
/// attached.
pub open spec fn molecules_attached(a: Atoms, n: nat) -> bool
    decreases a, 0nat, n,
{
    if n == 0 || n > a.molecules@.len() {
        true
    } else {
        molecules_attached(a, (n - 1) as nat) && match a.molecules@[n - 1] {
            Molecule::E(_) => true,
            Molecule::F(f) => match f {
                FunctionalGroup::Ether(g) => groups_attached(g.0),
                FunctionalGroup::BorinicAcid(g) => groups_attached(g.0),
                FunctionalGroup::Sulfide(g) => groups_attached(g.0),
                FunctionalGroup::Amine(g) => groups_attached(g.0),
                FunctionalGroup::Alkane(g) => groups_attached(g.chain),
            },
        }
    }
}

pub proof fn lemma_molecules_attached(a: Atoms, n: nat, i: int)
    requires
        n <= a.molecules@.len(),
        molecules_attached(a, n),
        0 <= i < n,
        a.molecules@[i] matches Molecule::F(_),
    ensures
        groups_attached(a.molecules@[i]->F_0.atoms()),
    decreases n,
{
    if i < n - 1 {
        lemma_molecules_attached(a, (n - 1) as nat, i);
    }
}

/// The node that `c` was copied to, per `map`.
fn lookup(map: &Vec<(usize, usize)>, c: usize) -> (r: Option<usize>)
    ensures
        r matches Some(p) ==> exists|i: int| 0 <= i < map@.len() && #[trigger] map@[i] == (c, p),
        r is None ==> forall|i: int| 0 <= i < map@.len() ==> (#[trigger] map@[i]).0 != c,
{
    let mut i: usize = 0;
    while i < map.len()
        invariant
            0 <= i <= map@.len(),
            forall|j: int| 0 <= j < i ==> (#[trigger] map@[j]).0 != c,
        decreases map@.len() - i,
    {
        if map[i].0 == c {
            proof {
                assert(map@[i as int] == (c, map@[i as int].1));
            }
            return Some(map[i].1);
        }
        i = i + 1;
    }
    None
}

/// Adds an edge when both ends are present nodes.
fn add_edge_if_present(acc: &mut Atoms, a: usize, b: usize)
    ensures
        grows(*old(acc), *final(acc)),
        final(acc).nodes() == old(acc).nodes(),
        final(acc).molecules == old(acc).molecules,
        old(acc).has_node(a) && old(acc).has_node(b) ==> exists|x: usize| #[trigger] joins(final(acc).graph, x, a, b),
{
    let pa = graph_node_weight(&acc.graph, a);
    let pb = graph_node_weight(&acc.graph, b);
    if pa.is_some() && pb.is_some() {
        let x = graph_add_edge(&mut acc.graph, a, b);
        proof {
            assert(joins(acc.graph, x, a, b));
        }
    }
}

/// What the copy map of a splice promises: each entry pairs a child node with
/// a fresh node of `acc` holding a copy of the child's molecule, an element
/// copied as itself.
pub open spec fn map_ok(base: Atoms, acc: Atoms, child: Atoms, map: Seq<(usize, usize)>) -> bool {
    forall|i: int|
        0 <= i < map.len() ==> {
            let (c, p) = #[trigger] map[i];
            &&& !base.has_node(p)
            &&& acc.molecule_at(p) is Some
            &&& child.molecule_at(c) is Some
            &&& ((child.molecule_at(c) matches Some(Molecule::E(_))) ==> acc.molecule_at(p) == child.molecule_at(c))
        }
}

/// Copies every node of `child` into `acc`, returning which node went where.
#[verifier::rlimit(40)]
fn copy_child_nodes(acc: &mut Atoms, child: &Atoms) -> (map: Vec<(usize, usize)>)
    ensures
        grows(*old(acc), *final(acc)),
        map_ok(*old(acc), *final(acc), *child, map@),
        forall|c: usize| #[trigger] child.molecule_at(c) is Some ==> exists|i: int| 0 <= i < map@.len() && (#[trigger] map@[i]).0 == c,
        all_elements(*child) ==> forall|n: usize| #[trigger] final(acc).has_node(n) && !old(acc).has_node(n) ==> final(acc).molecule_at(n) matches Some(Molecule::E(_)),
{
    let ghost base = *acc;
    let cnodes = graph_node_indices(&child.graph);
    let mut map: Vec<(usize, usize)> = Vec::new();
    let mut i: usize = 0;
    while i < cnodes.len()
        invariant
            0 <= i <= cnodes@.len(),
            base == *old(acc),
            cnodes@.to_set() == child.nodes().dom(),
            grows(base, *acc),
            map_ok(base, *acc, *child, map@),
            forall|k: int| 0 <= k < i && child.molecule_at(cnodes@[k]) is Some ==> exists|j: int| 0 <= j < map@.len() && (#[trigger] map@[j]).0 == cnodes@[k],
            all_elements(*child) ==> forall|n: usize| #[trigger] acc.has_node(n) && !base.has_node(n) ==> acc.molecule_at(n) matches Some(Molecule::E(_)),
        decreases cnodes@.len() - i,
    {
        match child.node_weight(cnodes[i]) {
            Some(m) => {
                let copy = copy_molecule(m);
                let ghost before = *acc;
                let ghost mapb = map@;
                acc.molecules.push(copy);
                let p = graph_add_node(&mut acc.graph, acc.molecules.len() - 1);
                map.push((cnodes[i], p));
                proof {
                    assert(grows(before, *acc)) by {
                        assert forall|n: usize| #[trigger] before.has_node(n) implies acc.has_node(n) && acc.nodes()[n] == before.nodes()[n] by {
                            assert(n != p);
                        }
                        assert forall|k: int| 0 <= k < before.molecules@.len() implies #[trigger] acc.molecules@[k] == before.molecules@[k] by {}
                    }
                    lemma_grows_trans(base, before, *acc);
                    assert(acc.molecule_at(p) == Some(copy));
                    assert(!base.has_node(p));
                    assert forall|k: int| 0 <= k < map@.len() implies {
                        let (c, q) = #[trigger] map@[k];
                        &&& !base.has_node(q)
                        &&& acc.molecule_at(q) is Some
                        &&& child.molecule_at(c) is Some
                        &&& ((child.molecule_at(c) matches Some(Molecule::E(_))) ==> acc.molecule_at(q) == child.molecule_at(c))
                    } by {
                        if k < mapb.len() {
                            assert(map@[k] == mapb[k]);
                            lemma_grows_molecule(before, *acc, map@[k].1);
                        }
                    }
                    assert forall|k: int| 0 <= k < i + 1 && child.molecule_at(cnodes@[k]) is Some implies exists|j: int| 0 <= j < map@.len() && (#[trigger] map@[j]).0 == cnodes@[k] by {
                        if k < i {
                            let j = choose|j: int| 0 <= j < mapb.len() && (#[trigger] mapb[j]).0 == cnodes@[k];
                            assert(map@[j] == mapb[j]);
                        } else {
                            assert(map@[mapb.len() as int].0 == cnodes@[k]);
                        }
                    }
                    if all_elements(*child) {
                        assert forall|n: usize| #[trigger] acc.has_node(n) && !base.has_node(n) implies acc.molecule_at(n) matches Some(Molecule::E(_)) by {
                            if n != p {
                                assert(before.has_node(n));
                                lemma_grows_molecule(before, *acc, n);
                            } else {
                                assert(child.has_node(cnodes@[i as int]));
                            }
                        }
                    }
                }
            },
            None => {},
        }
        i = i + 1;
    }
    proof {
        assert forall|c: usize| #[trigger] child.molecule_at(c) is Some implies exists|i: int| 0 <= i < map@.len() && (#[trigger] map@[i]).0 == c by {
            assert(child.has_node(c));
            assert(cnodes@.to_set().contains(c));
            let k = choose|k: int| 0 <= k < cnodes@.len() && cnodes@[k] == c;
        }
    }
    map
}

/// Copies the edges of `child` between the copies of their ends.
fn copy_child_edges(acc: &mut Atoms, child: &Atoms, map: &Vec<(usize, usize)>)
    ensures
        grows(*old(acc), *final(acc)),
        final(acc).nodes() == old(acc).nodes(),
        final(acc).molecules == old(acc).molecules,
{
    let cedges = graph_edge_indices(&child.graph);
    let mut j: usize = 0;
    while j < cedges.len()
        invariant
            0 <= j <= cedges@.len(),
            grows(*old(acc), *acc),
            acc.nodes() == old(acc).nodes(),
            acc.molecules == old(acc).molecules,
        decreases cedges@.len() - j,
    {
        match graph_edge_endpoints(&child.graph, cedges[j]) {
            Some((l, r)) => match (lookup(map, l), lookup(map, r)) {
                (Some(pl), Some(pr)) => {
                    let ghost before = *acc;
                    add_edge_if_present(acc, pl, pr);
                    proof {
                        lemma_grows_trans(*old(acc), before, *acc);
                    }
                },
                _ => {},
            },
            None => {},
        }
        j = j + 1;
    }
}

/// Copies the nodes and edges of `child` into `acc` and bonds the copy of the
/// child's head to `node`.
fn splice(acc: &mut Atoms, child: &Atoms, node: usize)
    requires
        old(acc).has_node(node),
    ensures
        grows(*old(acc), *final(acc)),
        all_elements(*child) ==> forall|n: usize| #[trigger] final(acc).has_node(n) && !old(acc).has_node(n) ==> final(acc).molecule_at(n) matches Some(Molecule::E(_)),
        forall|e: Element| child.molecule_at(child.head) == Some(Molecule::E(e)) ==> #[trigger] bonded_copy(*old(acc), *final(acc), node, e),
{
    let ghost base = *acc;
    let map = copy_child_nodes(acc, child);
    let ghost mid = *acc;
    copy_child_edges(acc, child, &map);
    proof {
        lemma_grows_trans(base, mid, *acc);
    }
    let ghost mid2 = *acc;
    match lookup(&map, child.head) {
        Some(h) => {
            proof {
                let i = choose|i: int| 0 <= i < map@.len() && #[trigger] map@[i] == (child.head, h);
                assert(mid.molecule_at(h) is Some);
                lemma_grows_molecule(mid, mid2, h);
                assert(mid2.has_node(h));
                assert(mid2.has_node(node)) by {
                    assert(base.has_node(node));
                }
            }
            add_edge_if_present(acc, node, h);
            proof {
                lemma_grows_trans(base, mid2, *acc);
                assert forall|e: Element| child.molecule_at(child.head) == Some(Molecule::E(e)) implies #[trigger] bonded_copy(base, *acc, node, e) by {
                    let i = choose|i: int| 0 <= i < map@.len() && #[trigger] map@[i] == (child.head, h);
                    assert(map@[i] == (child.head, h));
                    lemma_grows_molecule(mid2, *acc, h);
                    assert(!base.has_node(h));
                    assert(acc.molecule_at(h) == Some(Molecule::E(e)));
                    let x = choose|x: usize| #[trigger] joins(acc.graph, x, node, h);
                    assert(joins(acc.graph, x, node, h));
                }
            }
        },
        None => {
            proof {
                assert forall|e: Element| child.molecule_at(child.head) == Some(Molecule::E(e)) implies #[trigger] bonded_copy(base, *acc, node, e) by {
                    let i = choose|i: int| 0 <= i < map@.len() && (#[trigger] map@[i]).0 == child.head;
                    assert(map@[i].0 == child.head);
                }
            }
        },
    }
    proof {
        if all_elements(*child) {
            assert forall|n: usize| #[trigger] acc.has_node(n) && !base.has_node(n) implies acc.molecule_at(n) matches Some(Molecule::E(_)) by {
                assert(mid.has_node(n));
                assert(mid.molecule_at(n) matches Some(Molecule::E(_)));
                lemma_grows_molecule(mid, *acc, n);
            }
        }
    }
}

/// Flattens a group of atoms: a copy of it in which every functional group
/// bonded to a node is replaced by its own flattened atoms, their head bonded
/// to that node (once for each node the group is bonded to), and the group's
/// own node removed. A graph of elements alone comes back unchanged.
pub fn flatten_atoms(a: &Atoms) -> (r: Atoms)
    ensures
        r.head == a.head,
        keeps_elements(*a, r),
        forall|n: usize| #[trigger] is_wrapper(*a, n) ==> !r.has_node(n),
        heads_spliced(*a, r),
        groups_attached(*a) ==> all_elements(r),
        all_elements(*a) ==> {
            &&& graph_nodes(r.graph) == graph_nodes(a.graph)
            &&& graph_edges(r.graph) == graph_edges(a.graph)
            &&& forall|n: usize| #[trigger] r.molecule_at(n) == a.molecule_at(n)
            &&& graph_nodes(r.graph).dom().len() == graph_nodes(a.graph).dom().len()
            &&& graph_edges(r.graph).dom().len() == graph_edges(a.graph).dom().len()
            &&& all_elements(r)
        },
    decreases a, 2nat, 0nat,
{
    let mut acc = copy_atoms(a);
    let ghost acc0 = acc;
    proof {
        assert forall|n: usize| #[trigger] a.has_node(n) implies (a.molecule_at(n) is Some ==> acc.molecule_at(n) is Some) && (a.molecule_at(n) matches Some(Molecule::E(_)) ==> acc.molecule_at(n) == a.molecule_at(n)) by {
            assert(acc.nodes()[n] == a.nodes()[n]);
        }
    }
    let nodes = graph_node_indices(&a.graph);
    let mut i: usize = 0;
    while i < nodes.len()
        invariant
            0 <= i <= nodes@.len(),
            nodes@.to_set() == a.nodes().dom(),
            grows(acc0, acc),
            acc0.head == a.head,
            acc0.nodes() == a.nodes(),
            graph_edges(acc0.graph) == graph_edges(a.graph),
            forall|n: usize| #[trigger] a.has_node(n) ==> (a.molecule_at(n) is Some ==> acc0.molecule_at(n) is Some) && (a.molecule_at(n) matches Some(Molecule::E(_)) ==> acc0.molecule_at(n) == a.molecule_at(n)),
            groups_attached(*a) ==> forall|n: usize| #[trigger] acc.has_node(n) && !a.has_node(n) ==> acc.molecule_at(n) matches Some(Molecule::E(_)),
            forall|ii: int, k: int| 0 <= ii < i && 0 <= k < a.nbrs(nodes@[ii]).len() ==> #[trigger] head_spliced(*a, acc, nodes@[ii], k),
            all_elements(*a) ==> acc == acc0,
        decreases nodes@.len() - i,
    {
        let node = nodes[i];
        let nbs = graph_neighbors(&a.graph, node);
        proof {
            assert(nodes@.to_set().contains(node));
            assert(a.has_node(node));
        }
        let mut j: usize = 0;
        while j < nbs.len()
            invariant
                0 <= j <= nbs@.len(),
                nbs@ == a.nbrs(node),
                a.has_node(node),
                nodes@.to_set() == a.nodes().dom(),
                node == nodes@[i as int],
                i < nodes@.len(),
                grows(acc0, acc),
                acc0.head == a.head,
                acc0.nodes() == a.nodes(),
                graph_edges(acc0.graph) == graph_edges(a.graph),
                forall|n: usize| #[trigger] a.has_node(n) ==> (a.molecule_at(n) is Some ==> acc0.molecule_at(n) is Some) && (a.molecule_at(n) matches Some(Molecule::E(_)) ==> acc0.molecule_at(n) == a.molecule_at(n)),
                groups_attached(*a) ==> forall|n: usize| #[trigger] acc.has_node(n) && !a.has_node(n) ==> acc.molecule_at(n) matches Some(Molecule::E(_)),
                forall|ii: int, k: int| 0 <= ii < i && 0 <= k < a.nbrs(nodes@[ii]).len() ==> #[trigger] head_spliced(*a, acc, nodes@[ii], k),
                forall|k: int| 0 <= k < j ==> #[trigger] head_spliced(*a, acc, node, k),
                all_elements(*a) ==> acc == acc0,
            decreases nbs@.len() - j,
        {
            let nb = nbs[j];
            match a.node_weight(nb) {
                Some(Molecule::F(fg)) => {
                    proof {
                        assert(a.has_node(nb));
                        assert(decreases_to!(a.molecules => a.molecules@[a.nodes()[nb] as int]));
                        if groups_attached(*a) {
                            lemma_molecules_attached(*a, a.molecules@.len(), a.nodes()[nb] as int);
                        }
                    }
                    let child = flatten_group(fg);
                    let ghost before = acc;
                    proof {
                        assert(acc0.has_node(node));
                    }
                    splice(&mut acc, &child, node);
                    proof {
                        lemma_grows_trans(acc0, before, acc);
                        assert forall|ii: int, k: int| 0 <= ii < i && 0 <= k < a.nbrs(nodes@[ii]).len() implies #[trigger] head_spliced(*a, acc, nodes@[ii], k) by {
                            assert(head_spliced(*a, before, nodes@[ii], k));
                            lemma_head_spliced_grows(*a, before, acc, nodes@[ii], k);
                        }
                        assert forall|k: int| 0 <= k < j + 1 implies #[trigger] head_spliced(*a, acc, node, k) by {
                            if k < j {
                                assert(head_spliced(*a, before, node, k));
                                lemma_head_spliced_grows(*a, before, acc, node, k);
                            } else {
                                assert(a.nbrs(node)[k] == nb);
                                match head_element(*fg) {
                                    Some(e) => {
                                        assert(child.molecule_at(child.head) == Some(Molecule::E(e)));
                                        assert(bonded_copy(before, acc, node, e));
                                        let p = choose|p: usize| !before.has_node(p) && acc.molecule_at(p) == Some(Molecule::E(e)) && exists|x: usize| #[trigger] joins(acc.graph, x, node, p);
                                        assert(!a.has_node(p)) by {
                                            if a.has_node(p) {
                                                assert(acc0.has_node(p));
                                            }
                                        }
                                        assert(bonded_copy(*a, acc, node, e));
                                    },
                                    None => {},
                                }
                            }
                        }
                        if groups_attached(*a) {
                            assert forall|n: usize| #[trigger] acc.has_node(n) && !a.has_node(n) implies acc.molecule_at(n) matches Some(Molecule::E(_)) by {
                                if before.has_node(n) {
                                    lemma_grows_molecule(before, acc, n);
                                }
                            }
                        }
                    }
                },
                _ => {
                    proof {
                        assert forall|k: int| 0 <= k < j + 1 implies #[trigger] head_spliced(*a, acc, node, k) by {
                            if k == j {
                                assert(a.nbrs(node)[k] == nb);
                            }
                        }
                    }
                },
            }
            j = j + 1;
        }
        i = i + 1;
    }
    let ghost spliced = acc;
    remove_wrappers(a, &mut acc, &nodes);
    proof {
        assert forall|m: usize, k: int| a.has_node(m) && !is_wrapper(*a, m) && 0 <= k < a.nbrs(m).len() implies #[trigger] head_spliced(*a, acc, m, k) by {
            assert(nodes@.to_set().contains(m));
            let ii = choose|ii: int| 0 <= ii < nodes@.len() && nodes@[ii] == m;
            assert(head_spliced(*a, spliced, nodes@[ii], k));
            match a.molecule_at(a.nbrs(m)[k]) {
                Some(Molecule::F(g)) => match head_element(g) {
                    Some(e) => {
                        let p = choose|p: usize| !a.has_node(p) && spliced.molecule_at(p) == Some(Molecule::E(e)) && exists|x: usize| #[trigger] joins(spliced.graph, x, m, p);
                        let x = choose|x: usize| #[trigger] joins(spliced.graph, x, m, p);
                        assert(acc.molecule_at(p) == spliced.molecule_at(p));
                        assert(joins(acc.graph, x, m, p));
                    },
                    None => {},
                },
                _ => {},
            }
        }
        assert forall|n: usize| holds_element(*a, n) implies #[trigger] acc.molecule_at(n) == a.molecule_at(n) by {
            assert(!is_wrapper(*a, n));
            assert(acc0.molecule_at(n) == a.molecule_at(n));
            lemma_grows_molecule(acc0, spliced, n);
        }
        assert forall|e: usize|
            #[trigger] graph_edges(a.graph).contains_key(e) && holds_element(*a, graph_edges(a.graph)[e].0)
                && holds_element(*a, graph_edges(a.graph)[e].1) implies graph_edges(acc.graph).contains_key(e)
                && graph_edges(acc.graph)[e] == graph_edges(a.graph)[e] by {
            assert(graph_edges(acc0.graph).contains_key(e));
            assert(!is_wrapper(*a, graph_edges(a.graph)[e].0));
            assert(!is_wrapper(*a, graph_edges(a.graph)[e].1));
        }
        if groups_attached(*a) {
            assert forall|n: usize| #[trigger] acc.has_node(n) implies acc.molecule_at(n) matches Some(Molecule::E(_)) by {
                assert(spliced.has_node(n));
                if a.has_node(n) {
                    assert(!is_wrapper(*a, n));
                    assert(a.molecule_at(n) is Some);
                    if a.molecule_at(n) matches Some(Molecule::F(_)) {
                        assert(a.nbrs(n).len() > 0);
                    }
                    assert(acc0.molecule_at(n) == a.molecule_at(n));
                    lemma_grows_molecule(acc0, spliced, n);
                }
            }
        }
        if all_elements(*a) {
            assert forall|n: usize| #[trigger] acc.molecule_at(n) == a.molecule_at(n) by {
                if a.has_node(n) {
                    assert(a.molecule_at(n) matches Some(Molecule::E(_)));
                }
            }
            assert forall|n: usize| #[trigger] acc.has_node(n) implies acc.molecule_at(n) matches Some(Molecule::E(_)) by {
                assert(a.has_node(n));
            }
        }
    }
    acc
}

/// A copy of a head spliced into `before` is still there in a larger `after`.
pub proof fn lemma_head_spliced_grows(a: Atoms, before: Atoms, after: Atoms, m: usize, k: int)
    requires
        head_spliced(a, before, m, k),
        grows(before, after),
    ensures
        head_spliced(a, after, m, k),
{
    match a.molecule_at(a.nbrs(m)[k]) {
        Some(Molecule::F(g)) => match head_element(g) {
            Some(e) => lemma_bonded_copy_grows(a, before, after, m, e),
            None => {},
        },
        _ => {},
    }
}

/// Removes from `acc` every node of `a` that holds a group and has a
/// neighbour.
fn remove_wrappers(a: &Atoms, acc: &mut Atoms, nodes: &Vec<usize>)
    requires
        nodes@.to_set() == a.nodes().dom(),
    ensures
        final(acc).head == old(acc).head,
        final(acc).molecules == old(acc).molecules,
        forall|n: usize| #[trigger] is_wrapper(*a, n) ==> !final(acc).has_node(n),
        forall|n: usize| #[trigger] final(acc).has_node(n) ==> old(acc).has_node(n) && final(acc).nodes()[n] == old(acc).nodes()[n],
        forall|n: usize| #[trigger] old(acc).has_node(n) && !is_wrapper(*a, n) ==> final(acc).has_node(n) && final(acc).nodes()[n] == old(acc).nodes()[n],
        forall|e: usize| #[trigger] graph_edges(old(acc).graph).contains_key(e) && !is_wrapper(*a, graph_edges(old(acc).graph)[e].0)
            && !is_wrapper(*a, graph_edges(old(acc).graph)[e].1) ==> graph_edges(final(acc).graph).contains_key(e)
            && graph_edges(final(acc).graph)[e] == graph_edges(old(acc).graph)[e],
        (forall|n: usize| !(#[trigger] is_wrapper(*a, n))) ==> *final(acc) == *old(acc),
{
    let mut i: usize = 0;
    while i < nodes.len()
        invariant
            0 <= i <= nodes@.len(),
            nodes@.to_set() == a.nodes().dom(),
            acc.head == old(acc).head,
            acc.molecules == old(acc).molecules,
            forall|k: int| 0 <= k < i && is_wrapper(*a, nodes@[k]) ==> !acc.has_node(#[trigger] nodes@[k]),
            forall|n: usize| #[trigger] acc.has_node(n) ==> old(acc).has_node(n) && acc.nodes()[n] == old(acc).nodes()[n],
            forall|n: usize| #[trigger] old(acc).has_node(n) && !is_wrapper(*a, n) ==> acc.has_node(n) && acc.nodes()[n] == old(acc).nodes()[n],
            forall|e: usize| #[trigger] graph_edges(old(acc).graph).contains_key(e) && !is_wrapper(*a, graph_edges(old(acc).graph)[e].0)
                && !is_wrapper(*a, graph_edges(old(acc).graph)[e].1) ==> graph_edges(acc.graph).contains_key(e)
                && graph_edges(acc.graph)[e] == graph_edges(old(acc).graph)[e],
            (forall|n: usize| !(#[trigger] is_wrapper(*a, n))) ==> *acc == *old(acc),
        decreases nodes@.len() - i,
    {
        let n = nodes[i];
        let wrapper = match a.node_weight(n) {
            Some(Molecule::F(_)) => graph_neighbors(&a.graph, n).len() > 0,
            _ => false,
        };
        if wrapper {
            proof {
                assert(a.has_node(n));
                assert(is_wrapper(*a, n));
            }
            let ghost before = *acc;
            graph_remove_node(&mut acc.graph, n);
            proof {
                assert forall|e: usize| #[trigger] graph_edges(old(acc).graph).contains_key(e) && !is_wrapper(*a, graph_edges(old(acc).graph)[e].0)
                    && !is_wrapper(*a, graph_edges(old(acc).graph)[e].1) implies graph_edges(acc.graph).contains_key(e)
                    && graph_edges(acc.graph)[e] == graph_edges(old(acc).graph)[e] by {
                    assert(graph_edges(before.graph).contains_key(e));
                    if graph_nodes(before.graph).contains_key(n) {
                        assert(!touches(before.graph, e, n));
                    }
                }
                assert forall|k: int| 0 <= k < i + 1 && is_wrapper(*a, nodes@[k]) implies !acc.has_node(#[trigger] nodes@[k]) by {
                    if k < i {
                        assert(!before.has_node(nodes@[k]));
                    }
                }
                assert forall|m: usize| #[trigger] old(acc).has_node(m) && !is_wrapper(*a, m) implies acc.has_node(m) && acc.nodes()[m] == old(acc).nodes()[m] by {
                    assert(before.has_node(m));
                }
                assert forall|m: usize| #[trigger] acc.has_node(m) implies old(acc).has_node(m) && acc.nodes()[m] == old(acc).nodes()[m] by {
                    assert(before.has_node(m));
                }
            }
        }
        i = i + 1;
    }
    proof {
        assert forall|n: usize| #[trigger] is_wrapper(*a, n) implies !acc.has_node(n) by {
            assert(a.has_node(n));
            assert(nodes@.to_set().contains(n));
            let k = choose|k: int| 0 <= k < nodes@.len() && nodes@[k] == n;
            assert(is_wrapper(*a, nodes@[k]));
        }
    }
}

/// Flattens the atoms of a functional group.
pub fn flatten_group(fg: &FunctionalGroup) -> (r: Atoms)
    ensures
        r.head == fg.atoms().head,
        keeps_elements(fg.atoms(), r),
        forall|n: usize| #[trigger] is_wrapper(fg.atoms(), n) ==> !r.has_node(n),
        heads_spliced(fg.atoms(), r),
        groups_attached(fg.atoms()) ==> all_elements(r),
        all_elements(fg.atoms()) ==> {
            &&& graph_nodes(r.graph) == graph_nodes(fg.atoms().graph)
            &&& graph_edges(r.graph) == graph_edges(fg.atoms().graph)
        },
    decreases fg, 0nat, 0nat,
{
    match fg {
        FunctionalGroup::Ether(g) => flatten_atoms(&g.0),
        FunctionalGroup::BorinicAcid(g) => flatten_atoms(&g.0),
        FunctionalGroup::Sulfide(g) => flatten_atoms(&g.0),
        FunctionalGroup::Amine(g) => flatten_atoms(&g.0),
        FunctionalGroup::Alkane(g) => flatten_atoms(&g.chain),
    }
}

} // verus!
