//! A group of atoms: an undirected graph of molecules with a head node.
use crate::graph::{
    graph_add_edge, graph_add_node, graph_edge_indices, graph_node_indices, graph_find_edge, graph_remove_edge, lemma_remove_edge_wf, graph_edges, graph_in, graph_neighbors, graph_new,
    graph_node_count, graph_node_weight, graph_nodes, graph_out, graph_wf, joins, lemma_add_edge_wf, lemma_neighbors_add_edge_target, lemma_neighbors_remove_edge, lemma_neighbors_add_edge, lemma_add_node_wf, neighbor_seq,
    AtomGraph,
};
use crate::molecule::Molecule;
use vstd::prelude::*;

verus! {

/// An undirected graph of molecules. Each graph node's weight is the index of
/// its molecule in `molecules`; `head` is the first node ever added.
pub struct Atoms {
    pub graph: AtomGraph,
    pub molecules: Vec<Molecule>,
    pub head: usize,
}

/// Whether edge `x` of the edge table `e` joins `a` and `b`, either way.
pub open spec fn ends_join(e: Map<usize, (usize, usize)>, x: usize, a: usize, b: usize) -> bool {
    e.contains_key(x) && (e[x] == (a, b) || e[x] == (b, a))
}

/// `e1` is `e0` less the edge joining `a` and `b`, when there is one.
pub open spec fn unbonded(e0: Map<usize, (usize, usize)>, e1: Map<usize, (usize, usize)>, a: usize, b: usize) -> bool {
    &&& (exists|x: usize| #[trigger] ends_join(e0, x, a, b)) ==> exists|x: usize|
        #[trigger] ends_join(e0, x, a, b) && e1 == e0.remove(x)
    &&& !(exists|x: usize| #[trigger] ends_join(e0, x, a, b)) ==> e1 == e0
}

/// `e1` is `e0` with one new edge `(a, b)`.
pub open spec fn bonded_once(e0: Map<usize, (usize, usize)>, e1: Map<usize, (usize, usize)>, a: usize, b: usize) -> bool {
    exists|x: usize| !e0.contains_key(x) && #[trigger] e0.insert(x, (a, b)) == e1
}

/// `e1` is `e0` with the edge between `a` and `b` (if any) replaced by the
/// two edges `(a, c)` and `(c, b)`, added in that order.
pub open spec fn rewired(e0: Map<usize, (usize, usize)>, e1: Map<usize, (usize, usize)>, a: usize, c: usize, b: usize) -> bool {
    exists|m: Map<usize, (usize, usize)>, m1: Map<usize, (usize, usize)>|
        #![trigger unbonded(e0, m, a, b), bonded_once(m1, e1, c, b)]
        unbonded(e0, m, a, b) && bonded_once(m, m1, a, c) && bonded_once(m1, e1, c, b)
}

impl Atoms {
    /// The present edges, each with its ends.
    pub open spec fn edges(&self) -> Map<usize, (usize, usize)> {
        graph_edges(self.graph)
    }

    /// The present nodes, each with the index of its molecule.
    pub open spec fn nodes(&self) -> Map<usize, usize> {
        graph_nodes(self.graph)
    }

    pub open spec fn has_node(&self, n: usize) -> bool {
        self.nodes().contains_key(n)
    }

    /// The molecule held by node `n`, if `n` is present and holds one.
    pub open spec fn molecule_at(&self, n: usize) -> Option<Molecule> {
        if self.has_node(n) && self.nodes()[n] < self.molecules@.len() {
            Some(self.molecules@[self.nodes()[n] as int])
        } else {
            None
        }
    }

    /// The neighbours of `n`, in the order the graph walks them.
    pub open spec fn nbrs(&self, n: usize) -> Seq<usize> {
        if self.has_node(n) {
            neighbor_seq(self.graph, n)
        } else {
            Seq::empty()
        }
    }

    /// The graph is consistent and every node holds a molecule.
    pub open spec fn wf(&self) -> bool {
        &&& graph_wf(self.graph)
        &&& forall|n: usize| #[trigger]
            self.has_node(n) ==> self.nodes()[n] < self.molecules@.len()
    }

    /// An empty group; its head is set by the first `add_node`.
    pub fn new() -> (r: Atoms)
        ensures
            r.wf(),
            r.nodes().dom() == Set::<usize>::empty(),
            graph_edges(r.graph).dom() == Set::<usize>::empty(),
            r.molecules@.len() == 0,
    {
        let graph = graph_new();
        proof {
            assert(graph_out(graph) =~= graph_nodes(graph).dom().mk_map(|n: usize| Seq::empty()));
        }
        Atoms { graph, molecules: Vec::new(), head: 0 }
    }

    /// Adds a node holding `m`; the first node of an empty group becomes its
    /// head.
    pub fn add_node(&mut self, m: Molecule) -> (r: usize)
        requires
            old(self).wf(),
        ensures
            final(self).wf(),
            !old(self).has_node(r),
            final(self).nodes() == old(self).nodes().insert(r, old(self).molecules.len()),
            final(self).molecules@ == old(self).molecules@.push(m),
            graph_edges(final(self).graph) == graph_edges(old(self).graph),
            graph_out(final(self).graph) == graph_out(old(self).graph).insert(r, Seq::empty()),
            graph_in(final(self).graph) == graph_in(old(self).graph).insert(r, Seq::empty()),
            final(self).head == if old(self).nodes().dom().len() == 0 {
                r
            } else {
                old(self).head
            },
            final(self).molecule_at(r) == Some(m),
            final(self).nodes().dom().len() == old(self).nodes().dom().len() + 1,
            forall|n: usize| old(self).has_node(n) ==> #[trigger] final(self).nbrs(n) == old(self).nbrs(n),
            forall|n: usize| old(self).has_node(n) ==> #[trigger] final(self).molecule_at(n) == old(self).molecule_at(n),
            final(self).nbrs(r) == Seq::<usize>::empty(),
    {
        self.molecules.push(m);
        let r = graph_add_node(&mut self.graph, self.molecules.len() - 1);
        if graph_node_count(&self.graph) == 1 {
            self.head = r;
        }
        proof {
            let g0 = old(self).graph;
            let g1 = self.graph;
            assert(graph_nodes(g1).dom() == graph_nodes(g0).dom().insert(r));
            if graph_nodes(g0).dom().len() == 0 {
                assert(graph_nodes(g1).dom() =~= set![r]);
            } else {
                assert(graph_nodes(g1).dom().len() == graph_nodes(g0).dom().len() + 1);
            }
            assert forall|n: usize| old(self).has_node(n) implies #[trigger] self.nbrs(n) == old(self).nbrs(n) by {
                assert(n != r);
            }
            assert(self.nbrs(r) =~= Seq::<usize>::empty());
            lemma_add_node_wf(g0, g1, r, (self.molecules.len() - 1) as usize);
            assert forall|n: usize| #[trigger] self.has_node(n) implies self.nodes()[n] < self.molecules@.len() by {
                if n != r {
                    assert(old(self).has_node(n));
                }
            }
        }
        r
    }

    /// Adds an edge between two present nodes.
    pub fn add_edge(&mut self, a: usize, b: usize) -> (r: usize)
        requires
            old(self).wf(),
            old(self).has_node(a),
            old(self).has_node(b),
        ensures
            final(self).wf(),
            final(self).nodes() == old(self).nodes(),
            final(self).molecules@ == old(self).molecules@,
            final(self).head == old(self).head,
            !graph_edges(old(self).graph).contains_key(r),
            graph_edges(final(self).graph) == graph_edges(old(self).graph).insert(r, (a, b)),
            graph_out(final(self).graph) == graph_out(old(self).graph).insert(
                a,
                seq![r] + graph_out(old(self).graph)[a],
            ),
            graph_in(final(self).graph) == graph_in(old(self).graph).insert(
                b,
                seq![r] + graph_in(old(self).graph)[b],
            ),
            graph_edges(final(self).graph).dom().len() == graph_edges(old(self).graph).dom().len() + 1,
            bonded_once(old(self).edges(), final(self).edges(), a, b),
            a != b ==> forall|q: spec_fn(usize) -> bool| !q(a) ==> #[trigger] final(self).nbrs(b).filter(q) == old(self).nbrs(b).filter(q),
            a != b ==> final(self).nbrs(a) == seq![b] + old(self).nbrs(a),
            a != b && graph_out(old(self).graph)[b].len() == 0 && graph_in(old(self).graph)[b].len()
                == 0 ==> final(self).nbrs(b) == seq![a],
            forall|n: usize|
                n != a && n != b && old(self).has_node(n) ==> #[trigger] final(self).nbrs(n)
                    == old(self).nbrs(n),
            forall|n: usize| #[trigger] final(self).molecule_at(n) == old(self).molecule_at(n),
    {
        let r = graph_add_edge(&mut self.graph, a, b);
        proof {
            lemma_add_edge_wf(old(self).graph, self.graph, a, b, r);
            lemma_neighbors_add_edge(old(self).graph, self.graph, a, b, r);
            assert(old(self).edges().insert(r, (a, b)) == self.edges());
            if a != b {
                assert forall|q: spec_fn(usize) -> bool| !q(a) implies #[trigger] self.nbrs(b).filter(q) == old(self).nbrs(b).filter(q) by {
                    lemma_neighbors_add_edge_target(old(self).graph, self.graph, a, b, r, q);
                }
            }
            assert forall|n: usize| #[trigger] self.has_node(n) implies self.nodes()[n] < self.molecules@.len() by {
                assert(old(self).has_node(n));
            }
        }
        r
    }

    /// Adds a node holding `m` bonded to the present node `at`.
    pub fn bond_new(&mut self, at: usize, m: Molecule) -> (r: usize)
        requires
            old(self).wf(),
            old(self).has_node(at),
        ensures
            final(self).wf(),
            !old(self).has_node(r),
            final(self).nodes().dom() == old(self).nodes().dom().insert(r),
            final(self).nodes().dom().len() == old(self).nodes().dom().len() + 1,
            exists|x: usize| !graph_edges(old(self).graph).contains_key(x) && #[trigger] graph_edges(final(self).graph)
                == graph_edges(old(self).graph).insert(x, (at, r)),
            graph_edges(final(self).graph).dom().len() == graph_edges(old(self).graph).dom().len() + 1,
            bonded_once(old(self).edges(), final(self).edges(), at, r),
            final(self).head == old(self).head,
            final(self).molecule_at(r) == Some(m),
            forall|n: usize| old(self).has_node(n) ==> #[trigger] final(self).molecule_at(n) == old(self).molecule_at(n),
            final(self).nbrs(at) == seq![r] + old(self).nbrs(at),
            final(self).nbrs(r) == seq![at],
            forall|n: usize|
                n != at && old(self).has_node(n) ==> #[trigger] final(self).nbrs(n) == old(self).nbrs(n),
    {
        let r = self.add_node(m);
        let x = self.add_edge(at, r);
        proof {
            assert(!graph_edges(old(self).graph).contains_key(x));
            assert(old(self).nodes().dom().len() != 0) by {
                assert(old(self).nodes().dom().contains(at));
            }
        }
        r
    }

    /// Removes an edge joining the present nodes `a` and `b`, if there is one.
    pub fn unbond(&mut self, a: usize, b: usize)
        requires
            old(self).wf(),
            old(self).has_node(a),
        ensures
            final(self).wf(),
            final(self).nodes() == old(self).nodes(),
            final(self).molecules@ == old(self).molecules@,
            final(self).head == old(self).head,
            (exists|e: usize| #[trigger] joins(old(self).graph, e, a, b)) ==> exists|e: usize|
                #[trigger] joins(old(self).graph, e, a, b) && graph_edges(final(self).graph)
                    == graph_edges(old(self).graph).remove(e),
            !(exists|e: usize| #[trigger] joins(old(self).graph, e, a, b)) ==> graph_edges(final(self).graph)
                == graph_edges(old(self).graph),
            unbonded(old(self).edges(), final(self).edges(), a, b),
            a != b ==> forall|q: spec_fn(usize) -> bool, n: usize|
                !q(a) && !q(b) && old(self).has_node(n) ==> #[trigger] final(self).nbrs(n).filter(q) == old(self).nbrs(n).filter(q),
    {
        match graph_find_edge(&self.graph, a, b) {
            Some(e) => {
                proof {
                    assert(joins(old(self).graph, e, a, b));
                    assert(ends_join(old(self).edges(), e, a, b));
                }
                graph_remove_edge(&mut self.graph, e);
                proof {
                    lemma_remove_edge_wf(old(self).graph, self.graph, e);
                    if a != b {
                        assert forall|q: spec_fn(usize) -> bool, n: usize|
                            !q(a) && !q(b) && old(self).has_node(n) implies #[trigger] self.nbrs(n).filter(q) == old(self).nbrs(n).filter(q) by {
                            lemma_neighbors_remove_edge(old(self).graph, self.graph, e, q, n);
                        }
                    }
                    assert forall|n: usize| #[trigger] self.has_node(n) implies self.nodes()[n] < self.molecules@.len() by {
                        assert(old(self).has_node(n));
                    }
                }
            },
            None => {
                proof {
                    assert(!(exists|e: usize| #[trigger] joins(old(self).graph, e, a, b)));
                    assert(!(exists|x: usize| #[trigger] ends_join(old(self).edges(), x, a, b))) by {
                        if exists|x: usize| #[trigger] ends_join(old(self).edges(), x, a, b) {
                            let x = choose|x: usize| #[trigger] ends_join(old(self).edges(), x, a, b);
                            assert(joins(old(self).graph, x, a, b));
                        }
                    }
                }
            },
        }
    }

    /// The present nodes, in increasing order.
    pub fn node_indices(&self) -> (r: Vec<usize>)
        ensures
            forall|i: int, j: int| 0 <= i < j < r@.len() ==> r@[i] < r@[j],
            r@.to_set() == self.nodes().dom(),
    {
        graph_node_indices(&self.graph)
    }

    /// The present edges, in increasing order.
    pub fn edge_indices(&self) -> (r: Vec<usize>)
        ensures
            forall|i: int, j: int| 0 <= i < j < r@.len() ==> r@[i] < r@[j],
            r@.to_set() == graph_edges(self.graph).dom(),
    {
        graph_edge_indices(&self.graph)
    }

    /// The graph itself.
    pub fn atoms(&self) -> (r: &AtomGraph)
        ensures
            *r == self.graph,
    {
        &self.graph
    }

    /// The neighbours of `n`, in the order the graph walks them.
    pub fn neighbors(&self, n: usize) -> (r: Vec<usize>)
        ensures
            r@ == self.nbrs(n),
    {
        graph_neighbors(&self.graph, n)
    }

    /// The molecule held by node `n`.
    pub fn node_weight(&self, n: usize) -> (r: Option<&Molecule>)
        ensures
            match r {
                Some(m) => self.molecule_at(n) == Some(*m),
                None => self.molecule_at(n) is None,
            },
    {
        match graph_node_weight(&self.graph, n) {
            Some(k) => {
                if k < self.molecules.len() {
                    Some(&self.molecules[k])
                } else {
                    None
                }
            },
            None => None,
        }
    }
}

} // verus!
