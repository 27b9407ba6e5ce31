//! The undirected atom graph, held in a `petgraph` stable graph.
//!
//! Node weights are plain indices (the caller keeps the payloads); edges carry
//! no data. The graph's contents are described by four spec functions that
//! name what petgraph holds: the present nodes with their weights, the present
//! edges with their endpoints, and, for each node, its outgoing and incoming
//! edge lists in the order petgraph walks them (newest first).
use petgraph::stable_graph::{EdgeIndex, NodeIndex, StableGraph};
use petgraph::Undirected;
use vstd::prelude::*;

verus! {

#[verifier::external_type_specification]
#[verifier::external_body]
#[verifier::reject_recursive_types(N)]
#[verifier::reject_recursive_types(E)]
#[verifier::reject_recursive_types(Ty)]
#[verifier::reject_recursive_types(Ix)]
pub struct ExStableGraph<N, E, Ty, Ix>(StableGraph<N, E, Ty, Ix>);

#[verifier::external_type_specification]
#[verifier::external_body]
pub struct ExUndirected(Undirected);

/// The graph type used for every group of atoms.
pub type AtomGraph = StableGraph<usize, (), Undirected, usize>;

/// The present nodes of a graph, each with its weight.
pub uninterp spec fn graph_nodes(g: AtomGraph) -> Map<usize, usize>;

/// The present edges of a graph, each with its (source, target) pair as given
/// to `add_edge`.
pub uninterp spec fn graph_edges(g: AtomGraph) -> Map<usize, (usize, usize)>;

/// For each present node, the edges whose source it is, newest first.
pub uninterp spec fn graph_out(g: AtomGraph) -> Map<usize, Seq<usize>>;

/// For each present node, the edges whose target it is, newest first.
pub uninterp spec fn graph_in(g: AtomGraph) -> Map<usize, Seq<usize>>;

/// Whether edge `e` of `g` touches node `n`.
pub open spec fn touches(g: AtomGraph, e: usize, n: usize) -> bool {
    graph_edges(g)[e].0 == n || graph_edges(g)[e].1 == n
}

/// Whether edge `e` of `g` is present and joins `a` and `b`, either way.
pub open spec fn joins(g: AtomGraph, e: usize, a: usize, b: usize) -> bool {
    graph_edges(g).contains_key(e) && (graph_edges(g)[e] == (a, b) || graph_edges(g)[e] == (b, a))
}

/// The target of an edge.
pub open spec fn edge_target(g: AtomGraph) -> spec_fn(usize) -> usize {
    |e: usize| graph_edges(g)[e].1
}

/// The source of an edge.
pub open spec fn edge_source(g: AtomGraph) -> spec_fn(usize) -> usize {
    |e: usize| graph_edges(g)[e].0
}

/// Whether an edge does not start at `a`.
pub open spec fn not_from(g: AtomGraph, a: usize) -> spec_fn(usize) -> bool {
    |e: usize| graph_edges(g)[e].0 != a
}

/// The neighbours of `a` in the order petgraph's `neighbors` yields them:
/// the targets of the outgoing edges, then the sources of the incoming edges
/// that are not self-loops.
pub open spec fn neighbor_seq(g: AtomGraph, a: usize) -> Seq<usize> {
    graph_out(g)[a].map_values(edge_target(g)) + graph_in(g)[a].filter(not_from(g, a)).map_values(
        edge_source(g),
    )
}

/// The consistency of the four descriptions of a graph.
pub open spec fn graph_wf(g: AtomGraph) -> bool {
    let nodes = graph_nodes(g);
    let edges = graph_edges(g);
    &&& nodes.dom().finite()
    &&& edges.dom().finite()
    &&& graph_out(g).dom() == nodes.dom()
    &&& graph_in(g).dom() == nodes.dom()
    &&& forall|e: usize| #[trigger]
        edges.contains_key(e) ==> nodes.contains_key(edges[e].0) && nodes.contains_key(
            edges[e].1,
        )
    &&& forall|n: usize| #[trigger] nodes.contains_key(n) ==> graph_out(g)[n].no_duplicates()
    &&& forall|n: usize| #[trigger] nodes.contains_key(n) ==> graph_in(g)[n].no_duplicates()
    &&& forall|n: usize, e: usize|
        nodes.contains_key(n) ==> (#[trigger] graph_out(g)[n].contains(e) <==> (
        edges.contains_key(e) && edges[e].0 == n))
    &&& forall|n: usize, e: usize|
        nodes.contains_key(n) ==> (#[trigger] graph_in(g)[n].contains(e) <==> (
        edges.contains_key(e) && edges[e].1 == n))
}

/// In a consistent graph, the neighbours of a present node are present.
pub proof fn lemma_neighbors_present(g: AtomGraph, a: usize, i: int)
    requires
        graph_wf(g),
        graph_nodes(g).contains_key(a),
        0 <= i < neighbor_seq(g, a).len(),
    ensures
        graph_nodes(g).contains_key(neighbor_seq(g, a)[i]),
{
    let outs = graph_out(g)[a];
    let ins = graph_in(g)[a];
    let f = ins.filter(not_from(g, a));
    if i < outs.len() {
        assert(outs.contains(outs[i]));
    } else {
        let k = i - outs.len();
        assert(f.contains(f[k]));
        ins.lemma_filter_contains_rev(not_from(g, a), f[k]);
    }
}

/// Adding a fresh node keeps a graph consistent.
pub proof fn lemma_add_node_wf(g0: AtomGraph, g1: AtomGraph, r: usize, w: usize)
    requires
        graph_wf(g0),
        !graph_nodes(g0).contains_key(r),
        graph_nodes(g1) == graph_nodes(g0).insert(r, w),
        graph_edges(g1) == graph_edges(g0),
        graph_out(g1) == graph_out(g0).insert(r, Seq::<usize>::empty()),
        graph_in(g1) == graph_in(g0).insert(r, Seq::<usize>::empty()),
    ensures
        graph_wf(g1),
{
    assert forall|n: usize, e: usize| graph_nodes(g1).contains_key(n) implies (
    #[trigger] graph_out(g1)[n].contains(e) <==> (graph_edges(g1).contains_key(e)
        && graph_edges(g1)[e].0 == n)) by {
        if n == r && graph_edges(g1).contains_key(e) {
            assert(graph_nodes(g0).contains_key(graph_edges(g0)[e].0));
        }
    }
    assert forall|n: usize, e: usize| graph_nodes(g1).contains_key(n) implies (
    #[trigger] graph_in(g1)[n].contains(e) <==> (graph_edges(g1).contains_key(e)
        && graph_edges(g1)[e].1 == n)) by {
        if n == r && graph_edges(g1).contains_key(e) {
            assert(graph_nodes(g0).contains_key(graph_edges(g0)[e].1));
        }
    }
}

/// `seq![r] + s` holds `e` exactly when `e` is `r` or `s` holds it.
pub proof fn lemma_prepend_contains(r: usize, s: Seq<usize>, e: usize)
    ensures
        (seq![r] + s).contains(e) <==> (e == r || s.contains(e)),
{
    let t = seq![r] + s;
    if t.contains(e) && e != r {
        let i = choose|i: int| 0 <= i < t.len() && t[i] == e;
        assert(s[i - 1] == e);
    }
    if s.contains(e) {
        let i = choose|i: int| 0 <= i < s.len() && s[i] == e;
        assert(t[i + 1] == e);
    }
    if e == r {
        assert(t[0] == e);
    }
}

/// Prepending an element that a duplicate-free sequence lacks keeps it
/// duplicate-free.
pub proof fn lemma_prepend_no_duplicates(r: usize, s: Seq<usize>)
    requires
        s.no_duplicates(),
        !s.contains(r),
    ensures
        (seq![r] + s).no_duplicates(),
{
    let t = seq![r] + s;
    assert forall|i: int, j: int| 0 <= i < t.len() && 0 <= j < t.len() && i != j implies t[i] != t[j] by {
        if i == 0 {
            assert(s[j - 1] == t[j]);
        } else if j == 0 {
            assert(s[i - 1] == t[i]);
        }
    }
}

/// Adding an edge between present nodes keeps a graph consistent.
pub proof fn lemma_add_edge_wf(g0: AtomGraph, g1: AtomGraph, a: usize, b: usize, r: usize)
    requires
        graph_wf(g0),
        graph_nodes(g0).contains_key(a),
        graph_nodes(g0).contains_key(b),
        !graph_edges(g0).contains_key(r),
        graph_nodes(g1) == graph_nodes(g0),
        graph_edges(g1) == graph_edges(g0).insert(r, (a, b)),
        graph_out(g1) == graph_out(g0).insert(a, seq![r] + graph_out(g0)[a]),
        graph_in(g1) == graph_in(g0).insert(b, seq![r] + graph_in(g0)[b]),
    ensures
        graph_wf(g1),
{
    assert(graph_out(g1).dom() =~= graph_nodes(g1).dom());
    assert(graph_in(g1).dom() =~= graph_nodes(g1).dom());
    assert forall|n: usize, e: usize| graph_nodes(g1).contains_key(n) implies (
    #[trigger] graph_out(g1)[n].contains(e) <==> (graph_edges(g1).contains_key(e)
        && graph_edges(g1)[e].0 == n)) by {
        if n == a {
            lemma_prepend_contains(r, graph_out(g0)[a], e);
        }
    }
    assert forall|n: usize, e: usize| graph_nodes(g1).contains_key(n) implies (
    #[trigger] graph_in(g1)[n].contains(e) <==> (graph_edges(g1).contains_key(e)
        && graph_edges(g1)[e].1 == n)) by {
        if n == b {
            lemma_prepend_contains(r, graph_in(g0)[b], e);
        }
    }
    assert forall|n: usize| #[trigger] graph_nodes(g1).contains_key(n) implies graph_out(
        g1,
    )[n].no_duplicates() by {
        if n == a {
            lemma_prepend_no_duplicates(r, graph_out(g0)[a]);
        }
    }
    assert forall|n: usize| #[trigger] graph_nodes(g1).contains_key(n) implies graph_in(
        g1,
    )[n].no_duplicates() by {
        if n == b {
            lemma_prepend_no_duplicates(r, graph_in(g0)[b]);
        }
    }
    assert forall|e: usize| #[trigger] graph_edges(g1).contains_key(e) implies graph_nodes(
        g1,
    ).contains_key(graph_edges(g1)[e].0) && graph_nodes(g1).contains_key(graph_edges(g1)[e].1) by {
        if e != r {
            assert(graph_edges(g0).contains_key(e));
        }
    }
}

/// Adding edge `r = (a, b)` puts `b` first among `a`'s neighbours, makes a
/// node without edges `b` have `a` as its one neighbour, and leaves every
/// other node's neighbours as they were.
pub proof fn lemma_neighbors_add_edge(g0: AtomGraph, g1: AtomGraph, a: usize, b: usize, r: usize)
    requires
        graph_wf(g0),
        graph_nodes(g0).contains_key(a),
        graph_nodes(g0).contains_key(b),
        !graph_edges(g0).contains_key(r),
        graph_nodes(g1) == graph_nodes(g0),
        graph_edges(g1) == graph_edges(g0).insert(r, (a, b)),
        graph_out(g1) == graph_out(g0).insert(a, seq![r] + graph_out(g0)[a]),
        graph_in(g1) == graph_in(g0).insert(b, seq![r] + graph_in(g0)[b]),
    ensures
        a != b ==> neighbor_seq(g1, a) == seq![b] + neighbor_seq(g0, a),
        a != b && graph_out(g0)[b].len() == 0 && graph_in(g0)[b].len() == 0 ==> neighbor_seq(g1, b)
            == seq![a],
        forall|n: usize|
            graph_nodes(g0).contains_key(n) && n != a && n != b ==> #[trigger] neighbor_seq(g1, n)
                == neighbor_seq(g0, n),
{
    assert forall|n: usize| graph_nodes(g0).contains_key(n) implies {
        &&& graph_in(g0)[n].filter(not_from(g1, n)) == graph_in(g0)[n].filter(not_from(g0, n))
        &&& graph_in(g0)[n].filter(not_from(g0, n)).map_values(edge_source(g1))
            == graph_in(g0)[n].filter(not_from(g0, n)).map_values(edge_source(g0))
        &&& graph_out(g0)[n].map_values(edge_target(g1)) == graph_out(g0)[n].map_values(
            edge_target(g0),
        )
    } by {
        let ins = graph_in(g0)[n];
        assert forall|i: int| 0 <= i < ins.len() implies ins[i] != r by {
            assert(ins.contains(ins[i]));
        }
        lemma_filter_congruent(ins, not_from(g0, n), not_from(g1, n), r);
        let f = ins.filter(not_from(g0, n));
        assert forall|i: int| 0 <= i < f.len() implies f[i] != r by {
            assert(f.contains(f[i]));
            ins.lemma_filter_contains_rev(not_from(g0, n), f[i]);
        }
        assert(f.map_values(edge_source(g1)) =~= f.map_values(edge_source(g0)));
        let outs = graph_out(g0)[n];
        assert forall|i: int| 0 <= i < outs.len() implies outs[i] != r by {
            assert(outs.contains(outs[i]));
        }
        assert(outs.map_values(edge_target(g1)) =~= outs.map_values(edge_target(g0)));
    }
    if a != b {
        let outs = graph_out(g0)[a];
        assert((seq![r] + outs).map_values(edge_target(g1)) =~= seq![b] + outs.map_values(
            edge_target(g1),
        ));
        assert(neighbor_seq(g1, a) =~= seq![b] + neighbor_seq(g0, a));
        if graph_out(g0)[b].len() == 0 && graph_in(g0)[b].len() == 0 {
            let ins1 = seq![r] + graph_in(g0)[b];
            assert(ins1 =~= seq![r]);
            reveal(Seq::filter);
            assert(seq![r].drop_last() =~= Seq::<usize>::empty());
            assert(ins1.filter(not_from(g1, b)) =~= seq![r]);
            assert(neighbor_seq(g1, b) =~= seq![a]);
        }
    }
}

/// Adding edge `r = (a, b)` with `a != b` gives `b` the neighbour `a`, which
/// a filter `q` that rejects `a` does not see.
pub proof fn lemma_neighbors_add_edge_target(g0: AtomGraph, g1: AtomGraph, a: usize, b: usize, r: usize, q: spec_fn(usize) -> bool)
    requires
        graph_wf(g0),
        a != b,
        !q(a),
        graph_nodes(g0).contains_key(a),
        graph_nodes(g0).contains_key(b),
        !graph_edges(g0).contains_key(r),
        graph_nodes(g1) == graph_nodes(g0),
        graph_edges(g1) == graph_edges(g0).insert(r, (a, b)),
        graph_out(g1) == graph_out(g0).insert(a, seq![r] + graph_out(g0)[a]),
        graph_in(g1) == graph_in(g0).insert(b, seq![r] + graph_in(g0)[b]),
    ensures
        neighbor_seq(g1, b).filter(q) == neighbor_seq(g0, b).filter(q),
{
    broadcast use vstd::seq_lib::group_filter_ensures;
    let outs = graph_out(g0)[b];
    let ins = graph_in(g0)[b];
    assert forall|i: int| 0 <= i < outs.len() implies outs[i] != r by {
        assert(outs.contains(outs[i]));
    }
    assert forall|i: int| 0 <= i < ins.len() implies ins[i] != r by {
        assert(ins.contains(ins[i]));
    }
    let out0 = outs.map_values(edge_target(g0));
    assert(outs.map_values(edge_target(g1)) =~= out0);
    lemma_filter_congruent(ins, not_from(g0, b), not_from(g1, b), r);
    let k = ins.filter(not_from(g0, b));
    assert forall|j: int| 0 <= j < k.len() implies k[j] != r by {
        assert(k.contains(k[j]));
        ins.lemma_filter_contains_rev(not_from(g0, b), k[j]);
    }
    let in0 = k.map_values(edge_source(g0));
    assert(k.map_values(edge_source(g1)) =~= in0);
    reveal(Seq::filter);
    Seq::filter_distributes_over_add(seq![r], ins, not_from(g1, b));
    assert(seq![r].drop_last() =~= Seq::<usize>::empty());
    assert(Seq::<usize>::empty().filter(not_from(g1, b)) =~= Seq::<usize>::empty());
    assert(seq![r].filter(not_from(g1, b)) =~= seq![r]);
    let kr = (seq![r] + ins).filter(not_from(g1, b));
    assert(kr == seq![r] + k);
    assert(kr.map_values(edge_source(g1)) =~= seq![a] + in0);
    assert(neighbor_seq(g1, b) =~= out0 + (seq![a] + in0));
    assert(neighbor_seq(g0, b) == out0 + in0);
    Seq::filter_distributes_over_add(out0, seq![a] + in0, q);
    Seq::filter_distributes_over_add(seq![a], in0, q);
    Seq::filter_distributes_over_add(out0, in0, q);
    assert(seq![a].drop_last() =~= Seq::<usize>::empty());
    assert(Seq::<usize>::empty().filter(q) =~= Seq::<usize>::empty());
    assert(seq![a].filter(q) =~= Seq::<usize>::empty());
    assert(Seq::<usize>::empty() + in0.filter(q) =~= in0.filter(q));
}

/// Dropping `e` before mapping by `f` does not change what a filter `q`
/// keeps, when `q` rejects `f(e)`.
pub proof fn lemma_drop_map_filter(l: Seq<usize>, e: usize, f: spec_fn(usize) -> usize, q: spec_fn(usize) -> bool)
    requires
        !q(f(e)),
    ensures
        l.filter(|x: usize| x != e).map_values(f).filter(q) == l.map_values(f).filter(q),
    decreases l.len(),
{
    reveal(Seq::filter);
    let ne = |x: usize| x != e;
    if l.len() > 0 {
        let l0 = l.drop_last();
        let z = l.last();
        lemma_drop_map_filter(l0, e, f, q);
        assert(l0.push(z) =~= l);
        assert(l.map_values(f) =~= l0.map_values(f).push(f(z)));
        assert(l.map_values(f).drop_last() =~= l0.map_values(f));
        assert(l.filter(ne).drop_last() =~= l0.filter(ne) || true);
        if z != e {
            assert(l.filter(ne) == l0.filter(ne).push(z));
            assert(l.filter(ne).map_values(f) =~= l0.filter(ne).map_values(f).push(f(z)));
            assert(l.filter(ne).map_values(f).drop_last() =~= l0.filter(ne).map_values(f));
        } else {
            assert(l.filter(ne) == l0.filter(ne));
        }
    } else {
        assert(l.filter(ne) =~= Seq::<usize>::empty());
        assert(l.map_values(f) =~= Seq::<usize>::empty());
        assert(l.filter(ne).map_values(f) =~= Seq::<usize>::empty());
    }
}

/// Removing edge `e` between two distinct nodes that a filter `q` rejects
/// leaves every node's neighbours, as `q` filters them, unchanged.
pub proof fn lemma_neighbors_remove_edge(g0: AtomGraph, g1: AtomGraph, e: usize, q: spec_fn(usize) -> bool, n: usize)
    requires
        graph_wf(g0),
        graph_edges(g0).contains_key(e),
        graph_edges(g0)[e].0 != graph_edges(g0)[e].1,
        !q(graph_edges(g0)[e].0),
        !q(graph_edges(g0)[e].1),
        graph_nodes(g0).contains_key(n),
        graph_nodes(g1) == graph_nodes(g0),
        graph_edges(g1) == graph_edges(g0).remove(e),
        graph_out(g1) == graph_out(g0).insert(
            graph_edges(g0)[e].0,
            graph_out(g0)[graph_edges(g0)[e].0].filter(|x: usize| x != e),
        ),
        graph_in(g1) == graph_in(g0).insert(
            graph_edges(g0)[e].1,
            graph_in(g0)[graph_edges(g0)[e].1].filter(|x: usize| x != e),
        ),
    ensures
        neighbor_seq(g1, n).filter(q) == neighbor_seq(g0, n).filter(q),
{
    let (s, t) = graph_edges(g0)[e];
    let ne = |x: usize| x != e;
    let outs = graph_out(g0)[n];
    let ins = graph_in(g0)[n];
    broadcast use vstd::seq_lib::group_filter_ensures;
    // the out part
    let o1 = graph_out(g1)[n];
    assert forall|i: int| 0 <= i < o1.len() implies o1[i] != e && outs.contains(o1[i]) by {
        if n == s {
            assert(o1 == outs.filter(|x: usize| x != e));
            outs.lemma_filter_pred(|x: usize| x != e, i);
            assert(o1.contains(o1[i]));
            outs.lemma_filter_contains_rev(|x: usize| x != e, o1[i]);
        } else {
            assert(outs.contains(outs[i]));
        }
    }
    assert(o1.map_values(edge_target(g1)) =~= o1.map_values(edge_target(g0)));
    let out_part0 = outs.map_values(edge_target(g0));
    let out_part1 = o1.map_values(edge_target(g0));
    if n == s {
        lemma_drop_map_filter(outs, e, edge_target(g0), q);
    } else {
        assert(!outs.contains(e));
        assert(o1 == outs);
    }
    assert(out_part1.filter(q) == out_part0.filter(q));
    // the in part
    let i1 = graph_in(g1)[n];
    let kept0 = ins.filter(not_from(g0, n));
    let in_part0 = kept0.map_values(edge_source(g0));
    let in_part1 = i1.filter(not_from(g1, n)).map_values(edge_source(g1));
    if n == t {
        assert(!q(edge_source(g0)(e)));
        lemma_drop_map_filter(kept0, e, edge_source(g0), q);
        lemma_filter_swap(ins, e, not_from(g0, n), not_from(g1, n));
        assert(i1 == ins.filter(|x: usize| x != e));
        let k1 = kept0.filter(|x: usize| x != e);
        assert(i1.filter(not_from(g1, n)) == k1);
        assert forall|j: int| 0 <= j < k1.len() implies k1[j] != e by {
            kept0.lemma_filter_pred(|x: usize| x != e, j);
        }
        assert(k1.map_values(edge_source(g1)) =~= k1.map_values(edge_source(g0)));
        assert(in_part1.filter(q) == in_part0.filter(q));
    } else {
        assert(!ins.contains(e));
        assert(i1 == ins);
        lemma_filter_congruent(ins, not_from(g0, n), not_from(g1, n), e);
        let k = ins.filter(not_from(g0, n));
        assert forall|j: int| 0 <= j < k.len() implies k[j] != e by {
            assert(k.contains(k[j]));
            ins.lemma_filter_contains_rev(not_from(g0, n), k[j]);
        }
        assert(k.map_values(edge_source(g1)) =~= k.map_values(edge_source(g0)));
        assert(in_part1 == in_part0);
    }
    Seq::filter_distributes_over_add(out_part1, in_part1, q);
    Seq::filter_distributes_over_add(out_part0, in_part0, q);
    assert(neighbor_seq(g1, n) == out_part1 + in_part1);
    assert(neighbor_seq(g0, n) == out_part0 + in_part0);
}

/// Filtering out `e` and then by `pred_b` is filtering by `pred_a` and then out `e`,
/// when `pred_a` and `pred_b` agree away from `e`; mapping then agrees away from `e`.
pub proof fn lemma_filter_swap(l: Seq<usize>, e: usize, pred_a: spec_fn(usize) -> bool, pred_b: spec_fn(usize) -> bool)
    requires
        forall|x: usize| x != e ==> #[trigger] pred_a(x) == pred_b(x),
    ensures
        l.filter(|x: usize| x != e).filter(pred_b) == l.filter(pred_a).filter(|x: usize| x != e),
    decreases l.len(),
{
    reveal(Seq::filter);
    let ne = |x: usize| x != e;
    if l.len() > 0 {
        let l0 = l.drop_last();
        let z = l.last();
        lemma_filter_swap(l0, e, pred_a, pred_b);
        let a0 = l0.filter(ne);
        let b0 = l0.filter(pred_a);
        assert(a0.push(z).drop_last() =~= a0);
        assert(b0.push(z).drop_last() =~= b0);
        assert(a0.filter(pred_b).push(z).drop_last() =~= a0.filter(pred_b));
        assert(b0.filter(ne).push(z).drop_last() =~= b0.filter(ne));
        if z != e {
            assert(pred_a(z) == pred_b(z));
        }
    }
}

/// Filtering by two predicates that agree everywhere but at `r`, on a
/// sequence without `r`, gives the same result.
pub proof fn lemma_filter_congruent(s: Seq<usize>, pred_a: spec_fn(usize) -> bool, pred_b: spec_fn(usize) -> bool, r: usize)
    requires
        forall|i: int| 0 <= i < s.len() ==> s[i] != r,
        forall|e: usize| e != r ==> #[trigger] pred_a(e) == pred_b(e),
    ensures
        s.filter(pred_b) == s.filter(pred_a),
    decreases s.len(),
{
    reveal(Seq::filter);
    if s.len() > 0 {
        lemma_filter_congruent(s.drop_last(), pred_a, pred_b, r);
    }
}

/// Filtering keeps a sequence free of duplicates.
pub proof fn lemma_filter_no_duplicates(s: Seq<usize>, p: spec_fn(usize) -> bool)
    requires
        s.no_duplicates(),
    ensures
        s.filter(p).no_duplicates(),
    decreases s.len(),
{
    reveal(Seq::filter);
    if s.len() > 0 {
        let d = s.drop_last();
        assert(d.no_duplicates()) by {
            assert forall|i: int, j: int| 0 <= i < d.len() && 0 <= j < d.len() && i != j implies d[i] != d[j] by {
                assert(d[i] == s[i] && d[j] == s[j]);
            }
        }
        lemma_filter_no_duplicates(d, p);
        let f = d.filter(p);
        if p(s.last()) {
            if f.contains(s.last()) {
                d.lemma_filter_contains_rev(p, s.last());
                let i = choose|i: int| 0 <= i < d.len() && d[i] == s.last();
                assert(s[i] == s[s.len() - 1]);
            }
            let g = f.push(s.last());
            assert forall|i: int, j: int| 0 <= i < g.len() && 0 <= j < g.len() && i != j implies g[i] != g[j] by {
                if i == g.len() - 1 {
                    assert(f.contains(f[j]));
                } else if j == g.len() - 1 {
                    assert(f.contains(f[i]));
                }
            }
        }
    }
}

/// Whether `s.filter(|x| x != e)` holds `x`.
pub proof fn lemma_filter_out_contains(s: Seq<usize>, e: usize, x: usize)
    ensures
        s.filter(|y: usize| y != e).contains(x) <==> (s.contains(x) && x != e),
{
    let p = |y: usize| y != e;
    if s.filter(p).contains(x) {
        s.lemma_filter_contains_rev(p, x);
        let i = choose|i: int| 0 <= i < s.filter(p).len() && s.filter(p)[i] == x;
        s.lemma_filter_pred(p, i);
    }
    if s.contains(x) && x != e {
        let i = choose|i: int| 0 <= i < s.len() && s[i] == x;
        s.lemma_filter_contains(p, i);
    }
}

/// Removing a present edge keeps a graph consistent.
pub proof fn lemma_remove_edge_wf(g0: AtomGraph, g1: AtomGraph, e: usize)
    requires
        graph_wf(g0),
        graph_edges(g0).contains_key(e),
        graph_nodes(g1) == graph_nodes(g0),
        graph_edges(g1) == graph_edges(g0).remove(e),
        graph_out(g1) == graph_out(g0).insert(
            graph_edges(g0)[e].0,
            graph_out(g0)[graph_edges(g0)[e].0].filter(|x: usize| x != e),
        ),
        graph_in(g1) == graph_in(g0).insert(
            graph_edges(g0)[e].1,
            graph_in(g0)[graph_edges(g0)[e].1].filter(|x: usize| x != e),
        ),
    ensures
        graph_wf(g1),
{
    let (s, t) = graph_edges(g0)[e];
    assert(graph_out(g1).dom() =~= graph_nodes(g1).dom());
    assert(graph_in(g1).dom() =~= graph_nodes(g1).dom());
    assert forall|n: usize, x: usize| graph_nodes(g1).contains_key(n) implies (
    #[trigger] graph_out(g1)[n].contains(x) <==> (graph_edges(g1).contains_key(x)
        && graph_edges(g1)[x].0 == n)) by {
        if n == s {
            lemma_filter_out_contains(graph_out(g0)[s], e, x);
        }
    }
    assert forall|n: usize, x: usize| graph_nodes(g1).contains_key(n) implies (
    #[trigger] graph_in(g1)[n].contains(x) <==> (graph_edges(g1).contains_key(x)
        && graph_edges(g1)[x].1 == n)) by {
        if n == t {
            lemma_filter_out_contains(graph_in(g0)[t], e, x);
        }
    }
    assert forall|n: usize| #[trigger] graph_nodes(g1).contains_key(n) implies graph_out(
        g1,
    )[n].no_duplicates() by {
        if n == s {
            lemma_filter_no_duplicates(graph_out(g0)[s], |x: usize| x != e);
        }
    }
    assert forall|n: usize| #[trigger] graph_nodes(g1).contains_key(n) implies graph_in(
        g1,
    )[n].no_duplicates() by {
        if n == t {
            lemma_filter_no_duplicates(graph_in(g0)[t], |x: usize| x != e);
        }
    }
}

/// Relies on `StableGraph::default`: a graph with no nodes and no edges.
#[verifier::external_body]
pub(crate) fn graph_new() -> (r: AtomGraph)
    ensures
        graph_nodes(r).dom() == Set::<usize>::empty(),
        graph_edges(r).dom() == Set::<usize>::empty(),
        graph_out(r).dom() == Set::<usize>::empty(),
        graph_in(r).dom() == Set::<usize>::empty(),
{
    StableGraph::default()
}

/// Relies on `StableGraph::add_node`: a vacant index receives the node, which
/// starts with empty edge lists; nothing else changes.
#[verifier::external_body]
pub(crate) fn graph_add_node(g: &mut AtomGraph, w: usize) -> (r: usize)
    ensures
        !graph_nodes(*old(g)).contains_key(r),
        graph_nodes(*final(g)) == graph_nodes(*old(g)).insert(r, w),
        graph_edges(*final(g)) == graph_edges(*old(g)),
        graph_out(*final(g)) == graph_out(*old(g)).insert(r, Seq::<usize>::empty()),
        graph_in(*final(g)) == graph_in(*old(g)).insert(r, Seq::<usize>::empty()),
{
    g.add_node(w).index()
}

/// Relies on `StableGraph::add_edge`: a vacant edge index receives the edge
/// `(a, b)`, which goes to the front of `a`'s outgoing list and of `b`'s
/// incoming list. It panics when `a` or `b` is not a node.
#[verifier::external_body]
pub(crate) fn graph_add_edge(g: &mut AtomGraph, a: usize, b: usize) -> (r: usize)
    requires
        graph_nodes(*old(g)).contains_key(a),
        graph_nodes(*old(g)).contains_key(b),
    ensures
        !graph_edges(*old(g)).contains_key(r),
        graph_nodes(*final(g)) == graph_nodes(*old(g)),
        graph_edges(*final(g)) == graph_edges(*old(g)).insert(r, (a, b)),
        graph_out(*final(g)) == graph_out(*old(g)).insert(a, seq![r] + graph_out(*old(g))[a]),
        graph_in(*final(g)) == graph_in(*old(g)).insert(b, seq![r] + graph_in(*old(g))[b]),
{
    g.add_edge(NodeIndex::new(a), NodeIndex::new(b), ()).index()
}

/// Relies on `StableGraph::remove_edge`: a present edge leaves the edge table
/// and both lists it was linked into; an absent one changes nothing.
#[verifier::external_body]
pub(crate) fn graph_remove_edge(g: &mut AtomGraph, e: usize)
    ensures
        graph_nodes(*final(g)) == graph_nodes(*old(g)),
        graph_edges(*old(g)).contains_key(e) ==> {
            let (s, t) = graph_edges(*old(g))[e];
            &&& graph_edges(*final(g)) == graph_edges(*old(g)).remove(e)
            &&& graph_out(*final(g)) == graph_out(*old(g)).insert(
                s,
                graph_out(*old(g))[s].filter(|x: usize| x != e),
            )
            &&& graph_in(*final(g)) == graph_in(*old(g)).insert(
                t,
                graph_in(*old(g))[t].filter(|x: usize| x != e),
            )
        },
        !graph_edges(*old(g)).contains_key(e) ==> *final(g) == *old(g),
{
    g.remove_edge(EdgeIndex::new(e));
}

/// Relies on `StableGraph::remove_node`: a present node leaves the graph
/// together with every edge touching it, and those edges leave every list;
/// an absent node changes nothing.
#[verifier::external_body]
pub(crate) fn graph_remove_node(g: &mut AtomGraph, n: usize)
    ensures
        graph_nodes(*old(g)).contains_key(n) ==> {
            &&& graph_nodes(*final(g)) == graph_nodes(*old(g)).remove(n)
            &&& graph_edges(*final(g)) == graph_edges(*old(g)).restrict(
                graph_edges(*old(g)).dom().filter(|e: usize| !touches(*old(g), e, n)),
            )
            &&& graph_out(*final(g)).dom() == graph_out(*old(g)).dom().remove(n)
            &&& graph_in(*final(g)).dom() == graph_in(*old(g)).dom().remove(n)
            &&& forall|m: usize| #[trigger]
                graph_out(*final(g)).contains_key(m) ==> graph_out(*final(g))[m] == graph_out(
                    *old(g),
                )[m].filter(|e: usize| !touches(*old(g), e, n))
            &&& forall|m: usize| #[trigger]
                graph_in(*final(g)).contains_key(m) ==> graph_in(*final(g))[m] == graph_in(
                    *old(g),
                )[m].filter(|e: usize| !touches(*old(g), e, n))
        },
        !graph_nodes(*old(g)).contains_key(n) ==> *final(g) == *old(g),
{
    g.remove_node(NodeIndex::new(n));
}

/// Relies on `StableGraph::find_edge` on an undirected graph: an edge joining
/// `a` and `b` in either direction, if there is one.
#[verifier::external_body]
pub(crate) fn graph_find_edge(g: &AtomGraph, a: usize, b: usize) -> (r: Option<usize>)
    requires
        graph_nodes(*g).contains_key(a),
    ensures
        r matches Some(e) ==> graph_edges(*g).contains_key(e) && (graph_edges(*g)[e] == (a, b)
            || graph_edges(*g)[e] == (b, a)),
        r is None ==> forall|e: usize| #[trigger]
            graph_edges(*g).contains_key(e) ==> graph_edges(*g)[e] != (a, b) && graph_edges(
                *g,
            )[e] != (b, a),
{
    g.find_edge(NodeIndex::new(a), NodeIndex::new(b)).map(|e| e.index())
}

/// Relies on `StableGraph::neighbors`, which walks the outgoing list and then
/// the incoming list, skipping self-loops in the latter; it yields nothing for
/// an absent node.
#[verifier::external_body]
pub(crate) fn graph_neighbors(g: &AtomGraph, a: usize) -> (r: Vec<usize>)
    ensures
        graph_nodes(*g).contains_key(a) ==> r@ == neighbor_seq(*g, a),
        !graph_nodes(*g).contains_key(a) ==> r@.len() == 0,
{
    g.neighbors(NodeIndex::new(a)).map(|n| n.index()).collect()
}

/// Relies on `StableGraph::node_count`: the number of present nodes.
#[verifier::external_body]
pub(crate) fn graph_node_count(g: &AtomGraph) -> (r: usize)
    ensures
        r == graph_nodes(*g).dom().len(),
{
    g.node_count()
}

/// Relies on `StableGraph::node_weight`: the weight of a present node.
#[verifier::external_body]
pub(crate) fn graph_node_weight(g: &AtomGraph, a: usize) -> (r: Option<usize>)
    ensures
        r == graph_nodes(*g).get(a),
{
    g.node_weight(NodeIndex::new(a)).copied()
}

/// Relies on `StableGraph::node_indices`: the present nodes in increasing
/// index order.
#[verifier::external_body]
pub(crate) fn graph_node_indices(g: &AtomGraph) -> (r: Vec<usize>)
    ensures
        forall|i: int, j: int| 0 <= i < j < r@.len() ==> r@[i] < r@[j],
        r@.to_set() == graph_nodes(*g).dom(),
{
    g.node_indices().map(|n| n.index()).collect()
}

/// Relies on `StableGraph::edge_indices`: the present edges in increasing
/// index order.
#[verifier::external_body]
pub(crate) fn graph_edge_indices(g: &AtomGraph) -> (r: Vec<usize>)
    ensures
        forall|i: int, j: int| 0 <= i < j < r@.len() ==> r@[i] < r@[j],
        r@.to_set() == graph_edges(*g).dom(),
{
    g.edge_indices().map(|e| e.index()).collect()
}

/// Relies on `StableGraph::edge_endpoints`: the (source, target) pair of a
/// present edge.
#[verifier::external_body]
pub(crate) fn graph_edge_endpoints(g: &AtomGraph, e: usize) -> (r: Option<(usize, usize)>)
    ensures
        r == graph_edges(*g).get(e),
{
    g.edge_endpoints(EdgeIndex::new(e)).map(|(a, b)| (a.index(), b.index()))
}

/// Relies on `Clone` for `StableGraph`, which copies nodes, edges and lists.
#[verifier::external_body]
pub(crate) fn graph_clone(g: &AtomGraph) -> (r: AtomGraph)
    ensures
        graph_nodes(r) == graph_nodes(*g),
        graph_edges(r) == graph_edges(*g),
        graph_out(r) == graph_out(*g),
        graph_in(r) == graph_in(*g),
{
    g.clone()
}

} // verus!
