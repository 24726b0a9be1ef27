//! The petgraph directed graph that holds the mechanism graph's adjacency.
//! Node weights and edge weights are the positions of the library's own node
//! and edge records.

use petgraph::graph::{DiGraph, NodeIndex};
use petgraph::visit::EdgeRef;
use vstd::prelude::*;

verus! {

#[verifier::external_type_specification]
#[verifier::external_body]
#[verifier::reject_recursive_types(N)]
#[verifier::reject_recursive_types(E)]
#[verifier::reject_recursive_types(Ty)]
#[verifier::reject_recursive_types(Ix)]
pub struct ExPetGraph<N, E, Ty, Ix>(petgraph::graph::Graph<N, E, Ty, Ix>);

#[verifier::external_type_specification]
#[verifier::external_body]
pub struct ExDirected(petgraph::Directed);

/// The node weights of a petgraph graph, in node-index order.
pub uninterp spec fn pg_nodes(g: DiGraph<usize, usize>) -> Seq<usize>;

/// The edges of a petgraph graph in edge-index order, each as
/// (source index, target index, weight).
pub uninterp spec fn pg_edges(g: DiGraph<usize, usize>) -> Seq<(usize, usize, usize)>;

/// The edges among the first `k` edges whose endpoint on the given side
/// (`target` when `incoming`, else `source`) is `n`, from the last added to the
/// first, each as (the other endpoint, edge index).
pub open spec fn adjacent_rev(es: Seq<(usize, usize, usize)>, n: usize, incoming: bool, k: int) -> Seq<(usize, usize)>
    decreases k,
{
    if k <= 0 {
        Seq::empty()
    } else {
        let e = es[k - 1];
        let rest = adjacent_rev(es, n, incoming, k - 1);
        if incoming && e.1 == n {
            seq![(e.0, (k - 1) as usize)] + rest
        } else if !incoming && e.0 == n {
            seq![(e.1, (k - 1) as usize)] + rest
        } else {
            rest
        }
    }
}

/// `DiGraph::new`: an empty graph.
#[verifier::external_body]
pub(crate) fn pg_new() -> (g: DiGraph<usize, usize>)
    ensures
        pg_nodes(g) == Seq::<usize>::empty(),
        pg_edges(g) == Seq::<(usize, usize, usize)>::empty(),
{
    DiGraph::new()
}

/// `Graph::add_node`: appends a node with weight `w` and returns its index.
/// With `u32` indices it panics when the graph already holds `u32::MAX` nodes.
#[verifier::external_body]
pub(crate) fn pg_add_node(g: &mut DiGraph<usize, usize>, w: usize) -> (i: usize)
    requires
        pg_nodes(*old(g)).len() < u32::MAX,
    ensures
        pg_nodes(*final(g)) == pg_nodes(*old(g)).push(w),
        pg_edges(*final(g)) == pg_edges(*old(g)),
        i == pg_nodes(*old(g)).len(),
{
    g.add_node(w).index()
}

/// `Graph::add_edge`: appends an edge `a -> b` with weight `w` and returns its
/// index. It panics when an endpoint does not exist, or when the graph already
/// holds `u32::MAX` edges.
#[verifier::external_body]
pub(crate) fn pg_add_edge(g: &mut DiGraph<usize, usize>, a: usize, b: usize, w: usize) -> (e: usize)
    requires
        a < pg_nodes(*old(g)).len(),
        b < pg_nodes(*old(g)).len(),
        pg_edges(*old(g)).len() < u32::MAX,
    ensures
        pg_nodes(*final(g)) == pg_nodes(*old(g)),
        pg_edges(*final(g)) == pg_edges(*old(g)).push((a, b, w)),
        e == pg_edges(*old(g)).len(),
{
    g.add_edge(NodeIndex::new(a), NodeIndex::new(b), w).index()
}

/// `Graph::node_count`.
#[verifier::external_body]
pub(crate) fn pg_node_count(g: &DiGraph<usize, usize>) -> (n: usize)
    ensures
        n == pg_nodes(*g).len(),
{
    g.node_count()
}

/// `Graph::edges_directed(n, Incoming)` for a directed graph, each edge
/// reference taken as (source, edge index). `add_edge` prepends every edge to
/// its target's incoming list, so the iterator yields the edges into `n` from
/// the most recently added to the first. That order holds for graphs built
/// by `add_node` and `add_edge` alone, the only operations this library
/// makes (`remove_edge` relinks the lists). `n` must be a node of the graph:
/// `NodeIndex::new` keeps only the low 32 bits of a larger index.
#[verifier::external_body]
pub(crate) fn pg_incoming(g: &DiGraph<usize, usize>, n: usize) -> (r: Vec<(usize, usize)>)
    requires
        n < pg_nodes(*g).len(),
    ensures
        r@ == adjacent_rev(pg_edges(*g), n, true, pg_edges(*g).len() as int),
{
    g.edges_directed(NodeIndex::new(n), petgraph::Direction::Incoming)
        .map(|er| (er.source().index(), er.id().index()))
        .collect()
}

/// `Graph::edges_directed(n, Outgoing)` for a directed graph, each edge
/// reference taken as (target, edge index). `add_edge` prepends every edge to
/// its source's outgoing list, so the iterator yields the edges out of `n`
/// from the most recently added to the first. That order holds for graphs
/// built by `add_node` and `add_edge` alone, the only operations this
/// library makes (`remove_edge` relinks the lists). `n` must be a node of
/// the graph: `NodeIndex::new` keeps only the low 32 bits of a larger index.
#[verifier::external_body]
pub(crate) fn pg_outgoing(g: &DiGraph<usize, usize>, n: usize) -> (r: Vec<(usize, usize)>)
    requires
        n < pg_nodes(*g).len(),
    ensures
        r@ == adjacent_rev(pg_edges(*g), n, false, pg_edges(*g).len() as int),
{
    g.edges_directed(NodeIndex::new(n), petgraph::Direction::Outgoing)
        .map(|er| (er.target().index(), er.id().index()))
        .collect()
}

} // verus!
