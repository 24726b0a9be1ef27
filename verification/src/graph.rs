//! The mechanism graph and its generic traversal.
//!
//! `MechanismGraph` bundles a petgraph adjacency (node and edge weights are positions
//! in the graph's own node and edge records) with the claims of the
//! extraction. The platform builds it from an extraction with [`MechanismGraph::build`].

use petgraph::graph::DiGraph;
use vstd::prelude::*;

use crate::contracts::{
    spec_has_tag,
    claim_views, edge_views, node_views, Claim, ClaimV, EdgeType, ExtractResponse, GraphEdge,
    GraphEdgeV, GraphNode, GraphNodeV,
};
use crate::pg::{adjacent_rev, pg_add_edge, pg_add_node, pg_edges, pg_incoming, pg_new, pg_nodes, pg_outgoing};
use crate::sorting::{str_order, strict_total_on, strictly_sorted};
use crate::strings::{views, lemma_seq_lt_irreflexive, lemma_seq_lt_total, lemma_seq_lt_transitive, seq_lt, str_eq};

verus! {

/// No two nodes share an id.
pub open spec fn ids_unique(ns: Seq<GraphNodeV>) -> bool {
    forall|i: int, j: int| 0 <= i < ns.len() && 0 <= j < ns.len() && i != j ==> #[trigger] ns[i].id != #[trigger] ns[j].id
}

/// Some node among the first `upto` has the id.
pub open spec fn has_id_before(ns: Seq<GraphNodeV>, id: Seq<char>, upto: int) -> bool {
    exists|i: int| 0 <= i < upto && i < ns.len() && #[trigger] ns[i].id == id
}

/// Some node has the id.
pub open spec fn has_id(ns: Seq<GraphNodeV>, id: Seq<char>) -> bool {
    has_id_before(ns, id, ns.len() as int)
}

/// Node `j` repeats the id of an earlier node.
pub open spec fn dup_at(ns: Seq<GraphNodeV>, j: int) -> bool {
    0 <= j < ns.len() && has_id_before(ns, ns[j].id, j)
}

/// Edge `k` names an endpoint that is not a node.
pub open spec fn dangling_at(ns: Seq<GraphNodeV>, es: Seq<GraphEdgeV>, k: int) -> bool {
    0 <= k < es.len() && (!has_id(ns, es[k].src) || !has_id(ns, es[k].dst))
}

/// The extraction can be built into a graph: node ids are unique and every
/// edge connects two nodes.
pub open spec fn buildable(x: ExtractResponse) -> bool {
    &&& forall|j: int| !dup_at(node_views(x.entities@), j)
    &&& forall|k: int| !dangling_at(node_views(x.entities@), edge_views(x.edges@), k)
}

pub open spec fn dup_message(id: Seq<char>) -> Seq<char> {
    "duplicate node id '"@ + id + "'"@
}

pub open spec fn src_message(edge: Seq<char>, node: Seq<char>) -> Seq<char> {
    "edge '"@ + edge + "' src references unknown node '"@ + node + "'"@
}

pub open spec fn dst_message(edge: Seq<char>, node: Seq<char>) -> Seq<char> {
    "edge '"@ + edge + "' dst references unknown node '"@ + node + "'"@
}

/// The message of the first failure met while building: the first node that
/// repeats an id, else the first edge with an unknown endpoint (its source
/// is checked before its target).
pub open spec fn build_error(x: ExtractResponse) -> Seq<char> {
    let ns = node_views(x.entities@);
    let es = edge_views(x.edges@);
    if exists|j: int| dup_at(ns, j) {
        let j = choose|j: int| dup_at(ns, j) && forall|i: int| 0 <= i < j ==> !dup_at(ns, i);
        dup_message(ns[j].id)
    } else {
        let k = choose|k: int| dangling_at(ns, es, k) && forall|i: int| 0 <= i < k ==> !dangling_at(ns, es, i);
        if !has_id(ns, es[k].src) {
            src_message(es[k].id, es[k].src)
        } else {
            dst_message(es[k].id, es[k].dst)
        }
    }
}

/// The position of the node with the given id (meaningful when it exists).
pub open spec fn index_of(ns: Seq<GraphNodeV>, id: Seq<char>) -> int {
    choose|i: int| 0 <= i < ns.len() && ns[i].id == id
}

/// The position of the last claim with the given id, if any.
pub open spec fn last_claim(cs: Seq<ClaimV>, id: Seq<char>) -> Option<int>
    decreases cs.len(),
{
    if cs.len() == 0 {
        None
    } else if cs.last().id == id {
        Some(cs.len() - 1)
    } else {
        last_claim(cs.drop_last(), id)
    }
}

/// The mechanism graph.
pub struct MechanismGraph {
    graph: DiGraph<usize, usize>,
    nodes: Vec<GraphNode>,
    edges: Vec<GraphEdge>,
    ends: Vec<(usize, usize)>,
    claims: Vec<Claim>,
}

impl MechanismGraph {
    /// The nodes, in the order of the extraction.
    pub closed spec fn spec_nodes(&self) -> Seq<GraphNodeV> {
        node_views(self.nodes@)
    }

    /// The edges, in the order of the extraction.
    pub closed spec fn spec_edges(&self) -> Seq<GraphEdgeV> {
        edge_views(self.edges@)
    }

    /// The (source, target) node positions of each edge.
    pub closed spec fn spec_ends(&self) -> Seq<(usize, usize)> {
        self.ends@
    }

    /// The claims, in the order of the extraction.
    pub closed spec fn spec_claims(&self) -> Seq<ClaimV> {
        claim_views(self.claims@)
    }

    /// The petgraph adjacency mirrors the node and edge records.
    pub closed spec fn adjacency_ok(&self) -> bool {
        &&& pg_nodes(self.graph).len() == self.nodes@.len()
        &&& forall|i: int| 0 <= i < self.nodes@.len() ==> #[trigger] pg_nodes(self.graph)[i] == i
        &&& pg_edges(self.graph).len() == self.edges@.len()
        &&& forall|k: int|
            0 <= k < self.edges@.len() ==> #[trigger] pg_edges(self.graph)[k] == (
                self.ends@[k].0,
                self.ends@[k].1,
                k as usize,
            )
    }

    /// Well-formedness: ids are unique, every edge's ends are the nodes its
    /// `src`/`dst` name, and the adjacency mirrors the records.
    pub open spec fn wf(&self) -> bool {
        let ns = self.spec_nodes();
        let es = self.spec_edges();
        let ends = self.spec_ends();
        &&& ids_unique(ns)
        &&& ns.len() < u32::MAX
        &&& es.len() < u32::MAX
        &&& ends.len() == es.len()
        &&& forall|k: int|
            0 <= k < es.len() ==> {
                &&& (#[trigger] ends[k]).0 < ns.len()
                &&& ends[k].1 < ns.len()
                &&& ns[ends[k].0 as int].id == es[k].src
                &&& ns[ends[k].1 as int].id == es[k].dst
            }
        &&& self.adjacency_ok()
    }
}

/// The first of the first `upto` nodes with the given id.
fn find_node(nodes: &Vec<GraphNode>, upto: usize, id: &str) -> (r: Option<usize>)
    requires
        upto <= nodes.len(),
    ensures
        r matches Some(i) ==> i < upto && nodes@[i as int].id@ == id@ && forall|j: int|
            0 <= j < i ==> nodes@[j].id@ != id@,
        r is None ==> !has_id_before(node_views(nodes@), id@, upto as int),
{
    let mut i: usize = 0;
    while i < upto
        invariant
            upto <= nodes.len(),
            i <= upto,
            forall|j: int| 0 <= j < i ==> nodes@[j].id@ != id@,
        decreases upto - i,
    {
        if str_eq(nodes[i].id.as_str(), id) {
            return Some(i);
        }
        i = i + 1;
    }
    None
}

proof fn lemma_unique_index(ns: Seq<GraphNodeV>, i: int, id: Seq<char>)
    requires
        ids_unique(ns),
        0 <= i < ns.len(),
        ns[i].id == id,
    ensures
        index_of(ns, id) == i,
{
    let k = index_of(ns, id);
    assert(0 <= k < ns.len() && ns[k].id == id);
}

impl MechanismGraph {
    /// Builds the graph from an extraction. Fails on a repeated node id or on
    /// an edge that names an unknown node; the platform answers such failures
    /// with a validation error.
    pub fn build(extract: &ExtractResponse) -> (r: Result<MechanismGraph, String>)
        requires
            extract.entities.len() < u32::MAX,
            extract.edges.len() < u32::MAX,
        ensures
            r is Ok <==> buildable(*extract),
            r matches Ok(g) ==> {
                &&& g.wf()
                &&& g.spec_nodes() == node_views(extract.entities@)
                &&& g.spec_edges() == edge_views(extract.edges@)
                &&& g.spec_claims() == claim_views(extract.claims@)
            },
            r matches Err(m) ==> m@ == build_error(*extract),
    {
        let ghost ns = node_views(extract.entities@);
        let ghost es = edge_views(extract.edges@);
        let mut graph = pg_new();
        let mut nodes: Vec<GraphNode> = Vec::new();
        let mut j: usize = 0;
        while j < extract.entities.len()
            invariant
                j <= extract.entities.len(),
                extract.entities.len() < u32::MAX,
                ns == node_views(extract.entities@),
                node_views(nodes@) == ns.subrange(0, j as int),
                forall|t: int| 0 <= t < j ==> !dup_at(ns, t),
                pg_nodes(graph).len() == j,
                forall|i: int| 0 <= i < j ==> #[trigger] pg_nodes(graph)[i] == i,
                pg_edges(graph).len() == 0,
            decreases extract.entities.len() - j,
        {
            let node = &extract.entities[j];
            match find_node(&extract.entities, j, node.id.as_str()) {
                Some(i0) => {
                    let m = crate::strings::concat3("duplicate node id '", node.id.as_str(), "'");
                    proof {
                        assert(ns[i0 as int].id == ns[j as int].id);
                        assert(dup_at(ns, j as int));
                        let jj = choose|jj: int| dup_at(ns, jj) && forall|i: int| 0 <= i < jj ==> !dup_at(ns, i);
                        assert(jj == j) by {
                            if jj < j {
                            } else if jj > j {
                                assert(!dup_at(ns, j as int));
                            }
                        }
                    }
                    return Err(m);
                },
                None => {},
            }
            let i = pg_add_node(&mut graph, j);
            let copy = node.clone();
            assert(node_views(nodes@).len() == nodes@.len());
            let ghost before = nodes@;
            nodes.push(copy);
            assert(nodes@[j as int]@ == ns[j as int]);
            assert forall|t: int| 0 <= t < j implies nodes@[t] == before[t] by {}
            proof {
                assert(!dup_at(ns, j as int));
            }
            j = j + 1;
            assert(node_views(nodes@) =~= ns.subrange(0, j as int));
        }
        assert(node_views(nodes@) =~= ns);
        assert(ids_unique(ns)) by {
            assert forall|a: int, b: int| 0 <= a < ns.len() && 0 <= b < ns.len() && a != b implies #[trigger] ns[a].id != #[trigger] ns[b].id by {
                if a < b {
                    if ns[a].id == ns[b].id {
                        assert(dup_at(ns, b));
                    }
                } else {
                    if ns[a].id == ns[b].id {
                        assert(dup_at(ns, a));
                    }
                }
            }
        }
        let mut edges: Vec<GraphEdge> = Vec::new();
        let mut ends: Vec<(usize, usize)> = Vec::new();
        let mut k: usize = 0;
        while k < extract.edges.len()
            invariant
                k <= extract.edges.len(),
                extract.edges.len() < u32::MAX,
                ns == node_views(extract.entities@),
                es == edge_views(extract.edges@),
                node_views(nodes@) == ns,
                ids_unique(ns),
                forall|t: int| !dup_at(ns, t),
                forall|t: int| 0 <= t < k ==> !dangling_at(ns, es, t),
                edge_views(edges@) == es.subrange(0, k as int),
                ends@.len() == k,
                forall|t: int|
                    0 <= t < k ==> {
                        &&& (#[trigger] ends@[t]).0 < ns.len()
                        &&& ends@[t].1 < ns.len()
                        &&& ns[ends@[t].0 as int].id == es[t].src
                        &&& ns[ends@[t].1 as int].id == es[t].dst
                    },
                pg_nodes(graph).len() == ns.len(),
                forall|i: int| 0 <= i < ns.len() ==> #[trigger] pg_nodes(graph)[i] == i,
                pg_edges(graph).len() == k,
                forall|t: int| 0 <= t < k ==> #[trigger] pg_edges(graph)[t] == (ends@[t].0, ends@[t].1, t as usize),
            decreases extract.edges.len() - k,
        {
            let edge = &extract.edges[k];
            let s = match find_node(&nodes, nodes.len(), edge.src.as_str()) {
                Some(s) => {
                    assert(ns[s as int].id == es[k as int].src);
                    s
                },
                None => {
                    let m = crate::strings::concat5(
                        "edge '",
                        edge.id.as_str(),
                        "' src references unknown node '",
                        edge.src.as_str(),
                        "'",
                    );
                    proof {
                        assert(dangling_at(ns, es, k as int));
                        let kk = choose|kk: int| dangling_at(ns, es, kk) && forall|i: int| 0 <= i < kk ==> !dangling_at(ns, es, i);
                        assert(kk == k) by {
                            if kk > k {
                                assert(!dangling_at(ns, es, k as int));
                            }
                        }
                        assert(m@ =~= src_message(es[k as int].id, es[k as int].src));
                    }
                    return Err(m);
                },
            };
            let d = match find_node(&nodes, nodes.len(), edge.dst.as_str()) {
                Some(d) => {
                    assert(ns[d as int].id == es[k as int].dst);
                    d
                },
                None => {
                    let m = crate::strings::concat5(
                        "edge '",
                        edge.id.as_str(),
                        "' dst references unknown node '",
                        edge.dst.as_str(),
                        "'",
                    );
                    proof {
                        assert(has_id(ns, es[k as int].src));
                        assert(dangling_at(ns, es, k as int));
                        let kk = choose|kk: int| dangling_at(ns, es, kk) && forall|i: int| 0 <= i < kk ==> !dangling_at(ns, es, i);
                        assert(kk == k) by {
                            if kk > k {
                                assert(!dangling_at(ns, es, k as int));
                            }
                        }
                        assert(m@ =~= dst_message(es[k as int].id, es[k as int].dst));
                    }
                    return Err(m);
                },
            };
            let e = pg_add_edge(&mut graph, s, d, k);
            let ecopy = edge.clone();
            assert(edge_views(edges@).len() == edges@.len());
            let ghost ebefore = edges@;
            edges.push(ecopy);
            assert forall|t: int| 0 <= t < k implies edges@[t] == ebefore[t] by {}
            assert(edges@[k as int]@ == es[k as int]);
            ends.push((s, d));
            proof {
                assert(has_id(ns, es[k as int].src));
                assert(has_id(ns, es[k as int].dst));
                assert(!dangling_at(ns, es, k as int));
            }
            k = k + 1;
            assert(edge_views(edges@) =~= es.subrange(0, k as int));
        }
        assert(edge_views(edges@) =~= es);
        let mut claims: Vec<Claim> = Vec::new();
        let mut c: usize = 0;
        while c < extract.claims.len()
            invariant
                c <= extract.claims.len(),
                claim_views(claims@) == claim_views(extract.claims@).subrange(0, c as int),
            decreases extract.claims.len() - c,
        {
            let copy = extract.claims[c].clone();
            assert(claim_views(claims@).len() == claims@.len());
            let ghost cbefore = claims@;
            claims.push(copy);
            assert forall|t: int| 0 <= t < c implies claims@[t] == cbefore[t] by {}
            c = c + 1;
            assert(claim_views(claims@) =~= claim_views(extract.claims@).subrange(0, c as int));
        }
        assert(claim_views(claims@) =~= claim_views(extract.claims@));
        let g = MechanismGraph { graph, nodes, edges, ends, claims };
        assert(g.adjacency_ok());
        Ok(g)
    }
}

} // verus!

verus! {

/// Order of node positions by node id.
pub open spec fn id_lt(ns: Seq<GraphNodeV>) -> spec_fn(usize, usize) -> bool {
    |a: usize, b: usize| seq_lt(ns[a as int].id, ns[b as int].id)
}

/// Order of edge positions by edge id, and among equal ids the later edge
/// first (the order of a stable sort by id of petgraph's newest-first lists).
pub open spec fn edge_lt(es: Seq<GraphEdgeV>) -> spec_fn(usize, usize) -> bool {
    |a: usize, b: usize|
        seq_lt(es[a as int].id, es[b as int].id) || (es[a as int].id == es[b as int].id && a > b)
}

/// `edge_lt` on the edge positions of (node, edge) pairs.
pub open spec fn pair_lt(es: Seq<GraphEdgeV>) -> spec_fn((usize, usize), (usize, usize)) -> bool {
    |p: (usize, usize), q: (usize, usize)| edge_lt(es)(p.1, q.1)
}

/// The node positions whose nodes carry `tag`, sorted by node id.
pub open spec fn is_tagged_sorted(ns: Seq<GraphNodeV>, tag: Seq<char>, r: Seq<usize>) -> bool {
    &&& forall|t: int| 0 <= t < r.len() ==> #[trigger] r[t] < ns.len()
    &&& forall|i: usize| r.contains(i) <==> (i < ns.len() && spec_has_tag(ns[i as int], tag))
    &&& strictly_sorted(r, id_lt(ns))
}

/// (source, edge) pairs of the edges into `node` whose type is in `allowed`,
/// sorted by edge id (ties: later edge first).
pub open spec fn is_incoming_sorted(
    es: Seq<GraphEdgeV>,
    ends: Seq<(usize, usize)>,
    node: usize,
    allowed: Seq<EdgeType>,
    r: Seq<(usize, usize)>,
) -> bool {
    &&& forall|p: (usize, usize)|
        r.contains(p) <==> {
            &&& p.1 < es.len()
            &&& ends[p.1 as int].1 == node
            &&& p.0 == ends[p.1 as int].0
            &&& allowed.contains(es[p.1 as int].edge_type)
        }
    &&& strictly_sorted(r, pair_lt(es))
}

/// The sorted incoming edges of `node` of the allowed types.
pub open spec fn incoming_sorted(g: MechanismGraph, node: usize, allowed: Seq<EdgeType>) -> Seq<(usize, usize)> {
    choose|r: Seq<(usize, usize)>| is_incoming_sorted(g.spec_edges(), g.spec_ends(), node, allowed, r)
}

/// Some edge at one of the given positions cites the claim.
pub open spec fn claim_on_edges(es: Seq<GraphEdgeV>, edges: Seq<usize>, c: Seq<char>) -> bool {
    exists|t: int| 0 <= t < edges.len() && (#[trigger] es[edges[t] as int]).source_claims.contains(c)
}

/// The distinct claim ids cited by the given edges, in `str` order.
pub open spec fn is_claim_set(es: Seq<GraphEdgeV>, edges: Seq<usize>, r: Seq<Seq<char>>) -> bool {
    &&& forall|c: Seq<char>| r.contains(c) <==> claim_on_edges(es, edges, c)
    &&& strictly_sorted(r, str_order())
}

/// The sorted distinct claims of the given edges.
pub open spec fn claims_of(g: MechanismGraph, edges: Seq<usize>) -> Seq<Seq<char>> {
    choose|r: Seq<Seq<char>>| is_claim_set(g.spec_edges(), edges, r)
}

/// Some edge into or out of `node` cites at least one claim.
pub open spec fn has_evidenced_edge(g: MechanismGraph, node: usize) -> bool {
    exists|e: int|
        0 <= e < g.spec_edges().len() && ((#[trigger] g.spec_ends()[e]).0 == node || g.spec_ends()[e].1
            == node) && g.spec_edges()[e].source_claims.len() > 0
}

pub proof fn lemma_id_lt_total(ns: Seq<GraphNodeV>)
    requires
        ids_unique(ns),
    ensures
        strict_total_on(id_lt(ns), |x: usize| x < ns.len()),
{
    let lt = id_lt(ns);
    let dom = |x: usize| x < ns.len();
    assert forall|x: usize| #[trigger] dom(x) implies !lt(x, x) by {
        lemma_seq_lt_irreflexive(ns[x as int].id);
    }
    assert forall|x: usize, y: usize, z: usize|
        dom(x) && dom(y) && dom(z) && #[trigger] lt(x, y) && #[trigger] lt(y, z) implies lt(x, z) by {
        lemma_seq_lt_transitive(ns[x as int].id, ns[y as int].id, ns[z as int].id);
    }
    assert forall|x: usize, y: usize| dom(x) && dom(y) && x != y implies #[trigger] lt(x, y) || #[trigger] lt(
        y,
        x,
    ) by {
        lemma_seq_lt_total(ns[x as int].id, ns[y as int].id);
    }
}

pub proof fn lemma_pair_lt_total(es: Seq<GraphEdgeV>, ends: Seq<(usize, usize)>)
    ensures
        strict_total_on(pair_lt(es), |p: (usize, usize)| p.1 < es.len() && p.0 == ends[p.1 as int].0),
{
    let lt = pair_lt(es);
    let dom = |p: (usize, usize)| p.1 < es.len() && p.0 == ends[p.1 as int].0;
    assert forall|x: (usize, usize)| #[trigger] dom(x) implies !lt(x, x) by {
        lemma_seq_lt_irreflexive(es[x.1 as int].id);
    }
    assert forall|x: (usize, usize), y: (usize, usize), z: (usize, usize)|
        dom(x) && dom(y) && dom(z) && #[trigger] lt(x, y) && #[trigger] lt(y, z) implies lt(x, z) by {
        let (a, b, c) = (es[x.1 as int].id, es[y.1 as int].id, es[z.1 as int].id);
        if seq_lt(a, b) && seq_lt(b, c) {
            lemma_seq_lt_transitive(a, b, c);
        }
    }
    assert forall|x: (usize, usize), y: (usize, usize)| dom(x) && dom(y) && x != y implies #[trigger] lt(x, y)
        || #[trigger] lt(y, x) by {
        lemma_seq_lt_total(es[x.1 as int].id, es[y.1 as int].id);
    }
}

/// Members of petgraph's adjacency lists: the edges on the given side of `n`
/// among the first `k`, newest first.
pub proof fn lemma_adjacent_rev(es: Seq<(usize, usize, usize)>, n: usize, incoming: bool, k: int)
    requires
        0 <= k <= es.len(),
        es.len() <= usize::MAX,
    ensures
        forall|t: int|
            0 <= t < adjacent_rev(es, n, incoming, k).len() ==> {
                let p = #[trigger] adjacent_rev(es, n, incoming, k)[t];
                &&& p.1 < k
                &&& incoming ==> es[p.1 as int].1 == n && p.0 == es[p.1 as int].0
                &&& !incoming ==> es[p.1 as int].0 == n && p.0 == es[p.1 as int].1
            },
        forall|e: int|
            0 <= e < k && (if incoming { es[e].1 == n } else { es[e].0 == n }) ==> adjacent_rev(
                es,
                n,
                incoming,
                k,
            ).contains((if incoming { es[e].0 } else { es[e].1 }, e as usize)),
        forall|a: int, b: int|
            0 <= a < b < adjacent_rev(es, n, incoming, k).len() ==> adjacent_rev(es, n, incoming, k)[a].1
                > adjacent_rev(es, n, incoming, k)[b].1,
    decreases k,
{
    if k > 0 {
        lemma_adjacent_rev(es, n, incoming, k - 1);
        let rest = adjacent_rev(es, n, incoming, k - 1);
        let r = adjacent_rev(es, n, incoming, k);
        let e = es[k - 1];
        if (incoming && e.1 == n) || (!incoming && e.0 == n) {
            let head = if incoming { (e.0, (k - 1) as usize) } else { (e.1, (k - 1) as usize) };
            assert(r == seq![head] + rest);
            assert forall|t: int| 0 <= t < r.len() implies {
                let p = #[trigger] r[t];
                &&& p.1 < k
                &&& incoming ==> es[p.1 as int].1 == n && p.0 == es[p.1 as int].0
                &&& !incoming ==> es[p.1 as int].0 == n && p.0 == es[p.1 as int].1
            } by {
                if t > 0 {
                    assert(r[t] == rest[t - 1]);
                } else {
                    assert(r[0] == head);
                }
            }
            assert forall|ee: int|
                0 <= ee < k && (if incoming { es[ee].1 == n } else { es[ee].0 == n }) implies r.contains(
                (if incoming { es[ee].0 } else { es[ee].1 }, ee as usize),
            ) by {
                if ee == k - 1 {
                    assert(r[0] == head);
                } else {
                    let p = (if incoming { es[ee].0 } else { es[ee].1 }, ee as usize);
                    assert(rest.contains(p));
                    let t = choose|t: int| 0 <= t < rest.len() && rest[t] == p;
                    assert(r[t + 1] == p);
                }
            }
            assert forall|a: int, b: int| 0 <= a < b < r.len() implies r[a].1 > r[b].1 by {
                assert(r[b] == rest[b - 1]);
                assert(rest[b - 1].1 < k - 1);
                if a > 0 {
                    assert(r[a] == rest[a - 1]);
                } else {
                    assert(r[0] == head);
                }
            }
        }
    }
}

} // verus!

verus! {

impl MechanismGraph {
    /// The node with the given id.
    pub fn node(&self, id: &str) -> (r: Option<&GraphNode>)
        requires
            self.wf(),
        ensures
            r is Some <==> has_id(self.spec_nodes(), id@),
            r matches Some(n) ==> n@ == self.spec_nodes()[index_of(self.spec_nodes(), id@)],
    {
        match self.index(id) {
            Some(i) => Some(&self.nodes[i]),
            None => None,
        }
    }

    /// The position of the node with the given id.
    pub fn index(&self, id: &str) -> (r: Option<usize>)
        requires
            self.wf(),
        ensures
            r is Some <==> has_id(self.spec_nodes(), id@),
            r matches Some(i) ==> i < self.spec_nodes().len() && i == index_of(self.spec_nodes(), id@)
                && self.spec_nodes()[i as int].id == id@,
    {
        let r = find_node(&self.nodes, self.nodes.len(), id);
        proof {
            if let Some(i) = r {
                assert(self.spec_nodes()[i as int].id == id@);
                lemma_unique_index(self.spec_nodes(), i as int, id@);
            }
        }
        r
    }

    /// The node at a position.
    pub fn weight(&self, i: usize) -> (r: &GraphNode)
        requires
            i < self.spec_nodes().len(),
        ensures
            r@ == self.spec_nodes()[i as int],
    {
        &self.nodes[i]
    }

    /// The edge at a position.
    pub fn edge(&self, e: usize) -> (r: &GraphEdge)
        requires
            e < self.spec_edges().len(),
        ensures
            r@ == self.spec_edges()[e as int],
    {
        &self.edges[e]
    }

    /// The positions of the ends of an edge.
    pub fn ends_of(&self, e: usize) -> (r: (usize, usize))
        requires
            self.wf(),
            e < self.spec_edges().len(),
        ensures
            r == self.spec_ends()[e as int],
    {
        self.ends[e]
    }

    /// The number of nodes, as petgraph counts them.
    pub fn node_count(&self) -> (n: usize)
        requires
            self.wf(),
        ensures
            n == self.spec_nodes().len(),
    {
        crate::pg::pg_node_count(&self.graph)
    }

    /// The claim with the given id; among claims sharing an id the last one
    /// stands, as when the claims are collected into a map.
    pub fn claim(&self, id: &str) -> (r: Option<&Claim>)
        ensures
            match last_claim(self.spec_claims(), id@) {
                Some(j) => r matches Some(c) && c@ == self.spec_claims()[j],
                None => r is None,
            },
    {
        let mut k: usize = self.claims.len();
        assert(self.spec_claims().subrange(0, k as int) =~= self.spec_claims());
        while k > 0
            invariant
                k <= self.claims.len(),
                last_claim(self.spec_claims(), id@) == last_claim(self.spec_claims().subrange(0, k as int), id@),
            decreases k,
        {
            let ghost pre = self.spec_claims().subrange(0, k as int);
            if str_eq(self.claims[k - 1].id.as_str(), id) {
                return Some(&self.claims[k - 1]);
            }
            assert(pre.drop_last() =~= self.spec_claims().subrange(0, k - 1));
            k = k - 1;
        }
        None
    }

    /// The petgraph adjacency.
    pub fn raw(&self) -> (r: &DiGraph<usize, usize>)
        ensures
            self.wf() ==> pg_nodes(*r).len() == self.spec_nodes().len() && pg_edges(*r).len()
                == self.spec_edges().len(),
    {
        &self.graph
    }
}

} // verus!

verus! {

/// The nodes carrying `tag`, sorted by node id.
pub open spec fn tagged_sorted(g: MechanismGraph, tag: Seq<char>) -> Seq<usize> {
    choose|r: Seq<usize>| is_tagged_sorted(g.spec_nodes(), tag, r)
}

/// Whether `t` is one of the allowed edge types.
pub fn type_allowed(allowed: &[EdgeType], t: EdgeType) -> (r: bool)
    ensures
        r == allowed@.contains(t),
{
    let mut i: usize = 0;
    while i < allowed.len()
        invariant
            i <= allowed@.len(),
            forall|j: int| 0 <= j < i ==> allowed@[j] != t,
        decreases allowed@.len() - i,
    {
        if allowed[i] == t {
            assert(allowed@[i as int] == t);
            return true;
        }
        i = i + 1;
    }
    false
}

impl MechanismGraph {
    fn id_before(&self, a: usize, b: usize) -> (r: bool)
        requires
            a < self.spec_nodes().len(),
            b < self.spec_nodes().len(),
        ensures
            r == id_lt(self.spec_nodes())(a, b),
    {
        crate::strings::str_lt(self.nodes[a].id.as_str(), self.nodes[b].id.as_str())
    }

    fn edge_before(&self, a: usize, b: usize) -> (r: bool)
        requires
            a < self.spec_edges().len(),
            b < self.spec_edges().len(),
        ensures
            r == edge_lt(self.spec_edges())(a, b),
    {
        let ia = self.edges[a].id.as_str();
        let ib = self.edges[b].id.as_str();
        crate::strings::str_lt(ia, ib) || (str_eq(ia, ib) && a > b)
    }

    /// Inserts node position `x` into a list sorted by node id.
    fn insert_by_id(&self, v: &mut Vec<usize>, x: usize)
        requires
            self.wf(),
            x < self.spec_nodes().len(),
            forall|t: int| 0 <= t < old(v)@.len() ==> #[trigger] old(v)@[t] < self.spec_nodes().len(),
            strictly_sorted(old(v)@, id_lt(self.spec_nodes())),
            !old(v)@.contains(x),
        ensures
            strictly_sorted(final(v)@, id_lt(self.spec_nodes())),
            forall|t: int| 0 <= t < final(v)@.len() ==> #[trigger] final(v)@[t] < self.spec_nodes().len(),
            forall|y: usize| #[trigger] final(v)@.contains(y) <==> (old(v)@.contains(y) || y == x),
    {
        let ghost ns = self.spec_nodes();
        let ghost lt = id_lt(ns);
        proof {
            lemma_id_lt_total(ns);
        }
        let mut p: usize = 0;
        loop
            invariant
                self.wf(),
                ns == self.spec_nodes(),
                lt == id_lt(ns),
                x < ns.len(),
                v@ == old(v)@,
                p <= v@.len(),
                forall|t: int| 0 <= t < v@.len() ==> #[trigger] v@[t] < ns.len(),
                forall|t: int| 0 <= t < p ==> lt(#[trigger] v@[t], x),
            ensures
                v@ == old(v)@,
                p <= v@.len(),
                forall|t: int| 0 <= t < v@.len() ==> #[trigger] v@[t] < ns.len(),
                forall|t: int| 0 <= t < p ==> lt(#[trigger] v@[t], x),
                p < v@.len() ==> !lt(v@[p as int], x),
            decreases v@.len() - p,
        {
            if p == v.len() {
                break;
            }
            if !self.id_before(v[p], x) {
                break;
            }
            p = p + 1;
        }
        proof {
            assert forall|t: int| p <= t < v@.len() implies lt(x, #[trigger] v@[t]) by {
                assert(v@[p as int] != x);
                assert(!lt(v@[p as int], x));
                assert(lt(x, v@[p as int]));
                if t > p {
                    assert(lt(v@[p as int], v@[t]));
                }
            }
            crate::sorting::lemma_insert_sorted(v@, lt, p as int, x);
        }
        let ghost before = v@;
        v.insert(p, x);
        proof {
            before.insert_ensures(p as int, x);
            assert forall|t: int| 0 <= t < v@.len() implies #[trigger] v@[t] < ns.len() by {
                if t < p {
                    assert(v@[t] == before[t]);
                } else if t > p {
                    assert(v@[t] == before[t - 1]);
                }
            }
        }
    }

    /// Node positions whose nodes carry `tag`, sorted by node id.
    pub fn nodes_with_tag(&self, tag: &str) -> (r: Vec<usize>)
        requires
            self.wf(),
        ensures
            is_tagged_sorted(self.spec_nodes(), tag@, r@),
            r@ == tagged_sorted(*self, tag@),
    {
        let ghost ns = self.spec_nodes();
        let n = self.node_count();
        let mut out: Vec<usize> = Vec::new();
        let mut i: usize = 0;
        while i < n
            invariant
                self.wf(),
                ns == self.spec_nodes(),
                n == ns.len(),
                i <= n,
                forall|t: int| 0 <= t < out@.len() ==> #[trigger] out@[t] < ns.len(),
                forall|j: usize| out@.contains(j) <==> (j < i && spec_has_tag(ns[j as int], tag@)),
                strictly_sorted(out@, id_lt(ns)),
            decreases n - i,
        {
            if self.nodes[i].has_tag(tag) {
                assert(!out@.contains(i));
                self.insert_by_id(&mut out, i);
            }
            i = i + 1;
        }
        proof {
            let c = tagged_sorted(*self, tag@);
            assert(is_tagged_sorted(ns, tag@, out@));
            assert(is_tagged_sorted(ns, tag@, c));
            lemma_id_lt_total(ns);
            assert forall|x: usize| out@.contains(x) <==> c.contains(x) by {}
            crate::sorting::lemma_sorted_unique(out@, c, id_lt(ns), |x: usize| x < ns.len());
        }
        out
    }
}

} // verus!

verus! {

/// A (source, edge) pair that names an edge together with its source.
pub open spec fn pair_ok(ends: Seq<(usize, usize)>, n_edges: int, p: (usize, usize)) -> bool {
    p.1 < n_edges && p.0 == ends[p.1 as int].0
}

impl MechanismGraph {
    /// Inserts an (source, edge) pair into a list sorted by edge order.
    fn insert_by_edge(&self, v: &mut Vec<(usize, usize)>, x: (usize, usize))
        requires
            self.wf(),
            pair_ok(self.spec_ends(), self.spec_edges().len() as int, x),
            forall|t: int|
                0 <= t < old(v)@.len() ==> pair_ok(
                    self.spec_ends(),
                    self.spec_edges().len() as int,
                    #[trigger] old(v)@[t],
                ),
            strictly_sorted(old(v)@, pair_lt(self.spec_edges())),
            !old(v)@.contains(x),
        ensures
            strictly_sorted(final(v)@, pair_lt(self.spec_edges())),
            forall|t: int|
                0 <= t < final(v)@.len() ==> pair_ok(
                    self.spec_ends(),
                    self.spec_edges().len() as int,
                    #[trigger] final(v)@[t],
                ),
            forall|y: (usize, usize)| #[trigger] final(v)@.contains(y) <==> (old(v)@.contains(y) || y == x),
    {
        let ghost es = self.spec_edges();
        let ghost ends = self.spec_ends();
        let ghost lt = pair_lt(es);
        let ghost dom = |p: (usize, usize)| p.1 < es.len() && p.0 == ends[p.1 as int].0;
        proof {
            lemma_pair_lt_total(es, ends);
        }
        let mut p: usize = 0;
        loop
            invariant
                self.wf(),
                es == self.spec_edges(),
                ends == self.spec_ends(),
                lt == pair_lt(es),
                pair_ok(ends, es.len() as int, x),
                v@ == old(v)@,
                p <= v@.len(),
                forall|t: int| 0 <= t < v@.len() ==> pair_ok(ends, es.len() as int, #[trigger] v@[t]),
                forall|t: int| 0 <= t < p ==> lt(#[trigger] v@[t], x),
            ensures
                v@ == old(v)@,
                p <= v@.len(),
                forall|t: int| 0 <= t < p ==> lt(#[trigger] v@[t], x),
                p < v@.len() ==> !lt(v@[p as int], x),
            decreases v@.len() - p,
        {
            if p == v.len() {
                break;
            }
            if !self.edge_before(v[p].1, x.1) {
                break;
            }
            p = p + 1;
        }
        proof {
            assert forall|t: int| p <= t < v@.len() implies lt(x, #[trigger] v@[t]) by {
                assert(v@[p as int] != x);
                assert(dom(v@[p as int]));
                assert(dom(x));
                assert(!lt(v@[p as int], x));
                assert(lt(x, v@[p as int]));
                if t > p {
                    assert(lt(v@[p as int], v@[t]));
                    assert(dom(v@[t]));
                }
            }
            crate::sorting::lemma_insert_sorted(v@, lt, p as int, x);
        }
        let ghost before = v@;
        v.insert(p, x);
        proof {
            before.insert_ensures(p as int, x);
            assert forall|t: int| 0 <= t < v@.len() implies pair_ok(ends, es.len() as int, #[trigger] v@[t]) by {
                if t < p {
                    assert(v@[t] == before[t]);
                } else if t > p {
                    assert(v@[t] == before[t - 1]);
                }
            }
        }
    }

    /// The edges into `node` whose type is in `allowed`, as (source, edge)
    /// pairs sorted by edge id (ties: later edge first).
    fn incoming_filtered(&self, node: usize, allowed: &[EdgeType]) -> (r: Vec<(usize, usize)>)
        requires
            self.wf(),
            node < self.spec_nodes().len(),
        ensures
            is_incoming_sorted(self.spec_edges(), self.spec_ends(), node, allowed@, r@),
            r@ == incoming_sorted(*self, node, allowed@),
    {
        let ghost es = self.spec_edges();
        let ghost ends = self.spec_ends();
        let ghost pes = pg_edges(self.graph);
        let list = pg_incoming(&self.graph, node);
        proof {
            lemma_adjacent_rev(pes, node, true, pes.len() as int);
        }
        let mut out: Vec<(usize, usize)> = Vec::new();
        let mut t: usize = 0;
        while t < list.len()
            invariant
                self.wf(),
                es == self.spec_edges(),
                ends == self.spec_ends(),
                pes == pg_edges(self.graph),
                list@ == adjacent_rev(pes, node, true, pes.len() as int),
                t <= list.len(),
                forall|a: int, b: int| 0 <= a < b < list@.len() ==> list@[a].1 > list@[b].1,
                forall|s: int|
                    0 <= s < list@.len() ==> {
                        let p = #[trigger] list@[s];
                        &&& p.1 < pes.len()
                        &&& pes[p.1 as int].1 == node
                        &&& p.0 == pes[p.1 as int].0
                    },
                forall|k: int| 0 <= k < out@.len() ==> pair_ok(ends, es.len() as int, #[trigger] out@[k]),
                forall|p: (usize, usize)|
                    out@.contains(p) <==> (exists|s: int|
                        0 <= s < t && #[trigger] list@[s] == p && allowed@.contains(es[p.1 as int].edge_type)),
                strictly_sorted(out@, pair_lt(es)),
            decreases list.len() - t,
        {
            let (s, e) = list[t];
            assert(pes[e as int] == (ends[e as int].0, ends[e as int].1, e));
            if type_allowed(allowed, self.edges[e].edge_type) {
                assert(!out@.contains((s, e))) by {
                    if out@.contains((s, e)) {
                        let s2 = choose|s2: int| 0 <= s2 < t && #[trigger] list@[s2] == (s, e) && allowed@.contains(es[e as int].edge_type);
                        assert(list@[s2].1 > list@[t as int].1);
                    }
                }
                self.insert_by_edge(&mut out, (s, e));
            }
            t = t + 1;
        }
        proof {
            assert forall|p: (usize, usize)|
                out@.contains(p) <==> {
                    &&& p.1 < es.len()
                    &&& ends[p.1 as int].1 == node
                    &&& p.0 == ends[p.1 as int].0
                    &&& allowed@.contains(es[p.1 as int].edge_type)
                } by {
                if out@.contains(p) {
                    let s = choose|s: int| 0 <= s < t && #[trigger] list@[s] == p && allowed@.contains(es[p.1 as int].edge_type);
                    assert(pes[p.1 as int] == (ends[p.1 as int].0, ends[p.1 as int].1, p.1));
                }
                if p.1 < es.len() && ends[p.1 as int].1 == node && p.0 == ends[p.1 as int].0 && allowed@.contains(es[p.1 as int].edge_type) {
                    assert(pes[p.1 as int] == (ends[p.1 as int].0, ends[p.1 as int].1, p.1));
                    assert(list@.contains((pes[p.1 as int].0, p.1)));
                    let s = choose|s: int| 0 <= s < list@.len() && list@[s] == (pes[p.1 as int].0, p.1);
                    assert(list@[s] == p);
                }
            }
            let c = incoming_sorted(*self, node, allowed@);
            assert(is_incoming_sorted(es, ends, node, allowed@, out@));
            assert(is_incoming_sorted(es, ends, node, allowed@, c));
            lemma_pair_lt_total(es, ends);
            assert forall|x: (usize, usize)| #[trigger] out@.contains(x) implies (|p: (usize, usize)| p.1 < es.len() && p.0 == ends[p.1 as int].0)(x) by {}
            crate::sorting::lemma_sorted_unique(out@, c, pair_lt(es), |p: (usize, usize)| p.1 < es.len() && p.0 == ends[p.1 as int].0);
        }
        out
    }

    /// Incoming edges of type `edge_type` as (source, edge) pairs, sorted by
    /// edge id (ties: later edge first).
    pub fn incoming_edges_of_type(&self, node: usize, edge_type: EdgeType) -> (r: Vec<(usize, usize)>)
        requires
            self.wf(),
            node < self.spec_nodes().len(),
        ensures
            is_incoming_sorted(self.spec_edges(), self.spec_ends(), node, seq![edge_type], r@),
            r@ == incoming_sorted(*self, node, seq![edge_type]),
    {
        let allowed = [edge_type];
        assert(allowed@ =~= seq![edge_type]);
        self.incoming_filtered(node, &allowed)
    }
}

} // verus!

verus! {

impl MechanismGraph {
    /// The distinct claim ids cited by the given edges, in `str` order.
    pub fn claims_on_edges(&self, edges: &[usize]) -> (r: Vec<String>)
        requires
            forall|t: int| 0 <= t < edges@.len() ==> #[trigger] edges@[t] < self.spec_edges().len(),
        ensures
            is_claim_set(self.spec_edges(), edges@, views(r@)),
            views(r@) == claims_of(*self, edges@),
    {
        let ghost es = self.spec_edges();
        let mut out: Vec<String> = Vec::new();
        let mut t: usize = 0;
        while t < edges.len()
            invariant
                es == self.spec_edges(),
                t <= edges@.len(),
                forall|k: int| 0 <= k < edges@.len() ==> #[trigger] edges@[k] < es.len(),
                forall|c: Seq<char>|
                    views(out@).contains(c) <==> claim_on_edges(es, edges@.subrange(0, t as int), c),
                strictly_sorted(views(out@), str_order()),
            decreases edges@.len() - t,
        {
            let e = edges[t];
            let claims = &self.edges[e].source_claims;
            let ghost cs = es[e as int].source_claims;
            assert(views(claims@) == cs);
            let mut j: usize = 0;
            while j < claims.len()
                invariant
                    es == self.spec_edges(),
                    t < edges@.len(),
                    e == edges@[t as int],
                    e < es.len(),
                    views(claims@) == cs,
                    j <= claims.len(),
                    forall|c: Seq<char>|
                        views(out@).contains(c) <==> (claim_on_edges(es, edges@.subrange(0, t as int), c)
                            || cs.subrange(0, j as int).contains(c)),
                    strictly_sorted(views(out@), str_order()),
                decreases claims.len() - j,
            {
                let ghost before = views(out@);
                crate::sorting::insert_sorted_unique(&mut out, claims[j].as_str());
                proof {
                    assert(cs[j as int] == claims@[j as int]@);
                    let a = cs.subrange(0, j as int);
                    let b = cs.subrange(0, j + 1);
                    assert(b =~= a.push(cs[j as int]));
                    assert forall|c: Seq<char>| b.contains(c) <==> (a.contains(c) || c == cs[j as int]) by {
                        if b.contains(c) {
                            let k = choose|k: int| 0 <= k < b.len() && b[k] == c;
                            if k < j {
                                assert(a[k] == c);
                            }
                        }
                        if a.contains(c) {
                            let k = choose|k: int| 0 <= k < a.len() && a[k] == c;
                            assert(b[k] == c);
                        }
                        if c == cs[j as int] {
                            assert(b[j as int] == c);
                        }
                    }
                }
                j = j + 1;
            }
            proof {
                let pre = edges@.subrange(0, t as int);
                let post = edges@.subrange(0, t + 1);
                assert(cs.subrange(0, cs.len() as int) =~= cs);
                assert forall|c: Seq<char>| claim_on_edges(es, post, c) <==> (claim_on_edges(es, pre, c) || cs.contains(c)) by {
                    if claim_on_edges(es, post, c) {
                        let k = choose|k: int| 0 <= k < post.len() && (#[trigger] es[post[k] as int]).source_claims.contains(c);
                        if k < t {
                            assert(pre[k] == post[k]);
                        }
                    }
                    if claim_on_edges(es, pre, c) {
                        let k = choose|k: int| 0 <= k < pre.len() && (#[trigger] es[pre[k] as int]).source_claims.contains(c);
                        assert(post[k] == pre[k]);
                    }
                    if cs.contains(c) {
                        assert(post[t as int] == e);
                    }
                }
            }
            t = t + 1;
        }
        proof {
            assert(edges@.subrange(0, edges@.len() as int) =~= edges@);
            let c = claims_of(*self, edges@);
            assert(is_claim_set(es, edges@, views(out@)));
            assert(is_claim_set(es, edges@, c));
            crate::sorting::lemma_str_order_total();
            crate::sorting::lemma_sorted_unique(views(out@), c, str_order(), |c: Seq<char>| true);
        }
        out
    }

    /// Whether some edge into or out of `node` cites at least one claim.
    pub fn node_has_evidenced_edge(&self, node: usize) -> (r: bool)
        requires
            self.wf(),
            node < self.spec_nodes().len(),
        ensures
            r == has_evidenced_edge(*self, node),
    {
        let ghost es = self.spec_edges();
        let ghost ends = self.spec_ends();
        let ghost pes = pg_edges(self.graph);
        let inc = pg_incoming(&self.graph, node);
        let out = pg_outgoing(&self.graph, node);
        proof {
            lemma_adjacent_rev(pes, node, true, pes.len() as int);
            lemma_adjacent_rev(pes, node, false, pes.len() as int);
        }
        let mut found_in = false;
        let mut i: usize = 0;
        while i < inc.len()
            invariant
                es == self.spec_edges(),
                inc@ == adjacent_rev(pes, node, true, pes.len() as int),
                i <= inc.len(),
                forall|s: int| 0 <= s < inc@.len() ==> (#[trigger] inc@[s]).1 < pes.len(),
                pes.len() == es.len(),
                found_in ==> exists|s: int| 0 <= s < inc@.len() && es[(#[trigger] inc@[s]).1 as int].source_claims.len() > 0,
                !found_in ==> forall|s: int| 0 <= s < i ==> es[(#[trigger] inc@[s]).1 as int].source_claims.len() == 0,
            ensures
                found_in ==> exists|s: int| 0 <= s < inc@.len() && es[(#[trigger] inc@[s]).1 as int].source_claims.len() > 0,
                !found_in ==> forall|s: int| 0 <= s < inc@.len() ==> es[(#[trigger] inc@[s]).1 as int].source_claims.len() == 0,
            decreases inc.len() - i,
        {
            if !self.edges[inc[i].1].source_claims.is_empty() {
                found_in = true;
                break;
            }
            i = i + 1;
        }
        let mut found_out = false;
        let mut i: usize = 0;
        while i < out.len()
            invariant
                es == self.spec_edges(),
                out@ == adjacent_rev(pes, node, false, pes.len() as int),
                i <= out.len(),
                forall|s: int| 0 <= s < out@.len() ==> (#[trigger] out@[s]).1 < pes.len(),
                pes.len() == es.len(),
                found_out ==> exists|s: int| 0 <= s < out@.len() && es[(#[trigger] out@[s]).1 as int].source_claims.len() > 0,
                !found_out ==> forall|s: int| 0 <= s < i ==> es[(#[trigger] out@[s]).1 as int].source_claims.len() == 0,
            ensures
                found_out ==> exists|s: int| 0 <= s < out@.len() && es[(#[trigger] out@[s]).1 as int].source_claims.len() > 0,
                !found_out ==> forall|s: int| 0 <= s < out@.len() ==> es[(#[trigger] out@[s]).1 as int].source_claims.len() == 0,
            decreases out.len() - i,
        {
            if !self.edges[out[i].1].source_claims.is_empty() {
                found_out = true;
                break;
            }
            i = i + 1;
        }
        let r = found_in || found_out;
        proof {
            if r {
                if found_in {
                    let s = choose|s: int| 0 <= s < inc@.len() && es[(#[trigger] inc@[s]).1 as int].source_claims.len() > 0;
                    let e = inc@[s].1 as int;
                    assert(pes[e] == (ends[e].0, ends[e].1, e as usize));
                    assert(has_evidenced_edge(*self, node));
                } else {
                    let s = choose|s: int| 0 <= s < out@.len() && es[(#[trigger] out@[s]).1 as int].source_claims.len() > 0;
                    let e = out@[s].1 as int;
                    assert(pes[e] == (ends[e].0, ends[e].1, e as usize));
                    assert(has_evidenced_edge(*self, node));
                }
            } else {
                if has_evidenced_edge(*self, node) {
                    let e = choose|e: int|
                        0 <= e < es.len() && ((#[trigger] ends[e]).0 == node || ends[e].1 == node) && es[e].source_claims.len() > 0;
                    assert(pes[e] == (ends[e].0, ends[e].1, e as usize));
                    if ends[e].1 == node {
                        assert(inc@.contains((pes[e].0, e as usize)));
                        let s = choose|s: int| 0 <= s < inc@.len() && inc@[s] == (pes[e].0, e as usize);
                        assert(es[(inc@[s]).1 as int].source_claims.len() == 0);
                    } else {
                        assert(out@.contains((pes[e].1, e as usize)));
                        let s = choose|s: int| 0 <= s < out@.len() && out@[s] == (pes[e].1, e as usize);
                        assert(es[(out@[s]).1 as int].source_claims.len() == 0);
                    }
                }
            }
        }
        r
    }
}

} // verus!

verus! {

/// A simple path through the graph: nodes (source first .. start last) and
/// the edges walked.
#[derive(Debug)]
pub struct Path {
    pub nodes: Vec<usize>,
    pub edges: Vec<usize>,
}

impl Clone for Path {
    fn clone(&self) -> (r: Self)
        ensures
            r.nodes@ == self.nodes@,
            r.edges@ == self.edges@,
    {
        Path { nodes: copy_indices(&self.nodes), edges: copy_indices(&self.edges) }
    }
}

/// The (nodes, edges) views of paths.
pub open spec fn path_views(ps: Seq<Path>) -> Seq<(Seq<usize>, Seq<usize>)> {
    ps.map_values(|p: Path| (p.nodes@, p.edges@))
}

/// The paths found by walking backwards from `cur` over incoming edges of the
/// allowed types, with `nodes`/`edges` the walk so far (start first): a walk
/// that has taken at least one edge and reached a node carrying `tag` is a
/// path and stops there; otherwise every incoming edge (in sorted order) to a
/// node not yet on the walk is followed in turn.
pub open spec fn dfs_paths(
    g: MechanismGraph,
    cur: usize,
    allowed: Seq<EdgeType>,
    tag: Seq<char>,
    nodes: Seq<usize>,
    edges: Seq<usize>,
) -> Seq<(Seq<usize>, Seq<usize>)>
    decreases g.spec_nodes().len() - nodes.len(), 1nat, 0nat,
{
    if edges.len() > 0 && cur < g.spec_nodes().len() && spec_has_tag(g.spec_nodes()[cur as int], tag) {
        seq![(nodes.reverse(), edges.reverse())]
    } else {
        dfs_children(g, allowed, tag, incoming_sorted(g, cur, allowed), 0, nodes, edges)
    }
}

/// The paths found through the incoming edges `list[i..]`.
pub open spec fn dfs_children(
    g: MechanismGraph,
    allowed: Seq<EdgeType>,
    tag: Seq<char>,
    list: Seq<(usize, usize)>,
    i: int,
    nodes: Seq<usize>,
    edges: Seq<usize>,
) -> Seq<(Seq<usize>, Seq<usize>)>
    decreases g.spec_nodes().len() - nodes.len(), 0nat, list.len() - i,
{
    if i < 0 || i >= list.len() {
        Seq::empty()
    } else {
        let src = list[i].0;
        let here = if nodes.contains(src) || nodes.len() >= g.spec_nodes().len() {
            Seq::empty()
        } else {
            dfs_paths(g, src, allowed, tag, nodes.push(src), edges.push(list[i].1))
        };
        here + dfs_children(g, allowed, tag, list, i + 1, nodes, edges)
    }
}

/// A copy of a vector of positions.
pub fn copy_indices(v: &Vec<usize>) -> (r: Vec<usize>)
    ensures
        r@ == v@,
{
    let mut r: Vec<usize> = Vec::new();
    let mut i: usize = 0;
    while i < v.len()
        invariant
            i <= v.len(),
            r@ == v@.subrange(0, i as int),
        decreases v.len() - i,
    {
        r.push(v[i]);
        i = i + 1;
        assert(r@ =~= v@.subrange(0, i as int));
    }
    assert(r@ =~= v@);
    r
}

/// The positions in reverse order.
pub fn reversed(v: &Vec<usize>) -> (r: Vec<usize>)
    ensures
        r@ == v@.reverse(),
{
    let mut r: Vec<usize> = Vec::new();
    let mut i: usize = v.len();
    while i > 0
        invariant
            i <= v.len(),
            r@ == v@.subrange(i as int, v@.len() as int).reverse(),
        decreases i,
    {
        i = i - 1;
        r.push(v[i]);
        assert(r@ =~= v@.subrange(i as int, v@.len() as int).reverse());
    }
    assert(v@.subrange(0, v@.len() as int) =~= v@);
    r
}

/// Whether the positions hold `x`.
pub fn contains_index(v: &Vec<usize>, x: usize) -> (r: bool)
    ensures
        r == v@.contains(x),
{
    let mut i: usize = 0;
    while i < v.len()
        invariant
            i <= v.len(),
            forall|j: int| 0 <= j < i ==> v@[j] != x,
        decreases v.len() - i,
    {
        if v[i] == x {
            assert(v@[i as int] == x);
            return true;
        }
        i = i + 1;
    }
    false
}

/// Distinct positions below `n` number at most `n`.
pub proof fn lemma_distinct_bounded(s: Seq<usize>, n: usize)
    requires
        s.no_duplicates(),
        forall|t: int| 0 <= t < s.len() ==> #[trigger] s[t] < n,
    ensures
        s.len() <= n,
{
    s.unique_seq_to_set();
    let full = Set::<usize>::range(0, n);
    vstd::set_lib::range_set_properties::<usize>(0, n);
    assert(s.to_set().subset_of(full));
    vstd::set_lib::lemma_len_subset(s.to_set(), full);
}

impl MechanismGraph {
    fn dfs(
        &self,
        current: usize,
        allowed: &[EdgeType],
        until_tag: &str,
        nodes: &mut Vec<usize>,
        edges: &mut Vec<usize>,
        out: &mut Vec<Path>,
    )
        requires
            self.wf(),
            current < self.spec_nodes().len(),
            old(nodes)@.len() >= 1,
            old(nodes)@.last() == current,
            old(nodes)@.no_duplicates(),
            forall|t: int| 0 <= t < old(nodes)@.len() ==> #[trigger] old(nodes)@[t] < self.spec_nodes().len(),
        ensures
            final(nodes)@ == old(nodes)@,
            final(edges)@ == old(edges)@,
            path_views(final(out)@) == path_views(old(out)@) + dfs_paths(
                *self,
                current,
                allowed@,
                until_tag@,
                old(nodes)@,
                old(edges)@,
            ),
        decreases self.spec_nodes().len() - nodes@.len(),
    {
        let ghost g = *self;
        let ghost n = self.spec_nodes().len();
        let ghost nodes0 = nodes@;
        let ghost edges0 = edges@;
        let ghost out0 = path_views(out@);
        proof {
            lemma_distinct_bounded(nodes0, n as usize);
        }
        if !edges.is_empty() && self.nodes[current].has_tag(until_tag) {
            let p = Path { nodes: reversed(nodes), edges: reversed(edges) };
            out.push(p);
            assert(path_views(out@) =~= out0 + dfs_paths(g, current, allowed@, until_tag@, nodes0, edges0));
            return;
        }
        let incoming = self.incoming_filtered(current, allowed);
        let ghost list = incoming@;
        assert(dfs_paths(g, current, allowed@, until_tag@, nodes0, edges0) == dfs_children(g, allowed@, until_tag@, list, 0, nodes0, edges0));
        let mut i: usize = 0;
        while i < incoming.len()
            invariant
                self.wf(),
                g == *self,
                n == self.spec_nodes().len(),
                list == incoming@,
                is_incoming_sorted(self.spec_edges(), self.spec_ends(), current, allowed@, list),
                nodes@ == nodes0,
                edges@ == edges0,
                nodes0 == old(nodes)@,
                nodes0.no_duplicates(),
                forall|t: int| 0 <= t < nodes0.len() ==> #[trigger] nodes0[t] < n,
                i <= incoming.len(),
                path_views(out@) + dfs_children(g, allowed@, until_tag@, list, i as int, nodes0, edges0)
                    == out0 + dfs_children(g, allowed@, until_tag@, list, 0, nodes0, edges0),
            decreases incoming.len() - i,
        {
            let (src, edge_id) = incoming[i];
            let ghost before = path_views(out@);
            assert(list.contains(list[i as int]));
            assert(src < n) by {
                assert(edge_id < self.spec_edges().len());
            }
            if !contains_index(nodes, src) {
                proof {
                    let pushed = nodes0.push(src);
                    assert(pushed.no_duplicates()) by {
                        assert forall|a: int, b: int| 0 <= a < b < pushed.len() implies pushed[a] != pushed[b] by {
                            if b == nodes0.len() {
                                assert(nodes0.contains(pushed[a]) || a >= nodes0.len());
                            }
                        }
                    }
                    assert forall|t: int| 0 <= t < pushed.len() implies #[trigger] pushed[t] < n by {
                        if t < nodes0.len() {
                            assert(pushed[t] == nodes0[t]);
                        }
                    }
                    lemma_distinct_bounded(pushed, n as usize);
                }
                nodes.push(src);
                edges.push(edge_id);
                assert(nodes@ == nodes0.push(src));
                assert(nodes@.len() <= n);
                self.dfs(src, allowed, until_tag, nodes, edges, out);
                let _ = edges.pop();
                let _ = nodes.pop();
                assert(nodes@ =~= nodes0);
                assert(edges@ =~= edges0);
            }
            proof {
                assert(dfs_children(g, allowed@, until_tag@, list, i as int, nodes0, edges0) =~= (if nodes0.contains(src) || nodes0.len() >= n {
                    Seq::empty()
                } else {
                    dfs_paths(g, src, allowed@, until_tag@, nodes0.push(src), edges0.push(edge_id))
                }) + dfs_children(g, allowed@, until_tag@, list, i + 1, nodes0, edges0));
            }
            i = i + 1;
        }
        assert(dfs_children(g, allowed@, until_tag@, list, i as int, nodes0, edges0) =~= Seq::empty());
        assert(path_views(out@) =~= out0 + dfs_paths(g, current, allowed@, until_tag@, nodes0, edges0));
    }

    /// All simple paths from `start` backwards over incoming edges of the
    /// allowed types up to the first node carrying `until_tag`; each path's
    /// nodes run source first, start last.
    pub fn enumerate_paths(&self, start: usize, allowed: &[EdgeType], until_tag: &str) -> (r: Vec<Path>)
        requires
            self.wf(),
        ensures
            path_views(r@) == dfs_paths(*self, start, allowed@, until_tag@, seq![start], Seq::empty()),
    {
        let mut out: Vec<Path> = Vec::new();
        if start >= self.node_count() {
            proof {
                let l = incoming_sorted(*self, start, allowed@);
                let w = Seq::<(usize, usize)>::empty();
                assert(is_incoming_sorted(self.spec_edges(), self.spec_ends(), start, allowed@, w));
                assert(is_incoming_sorted(self.spec_edges(), self.spec_ends(), start, allowed@, l));
                if l.len() > 0 {
                    assert(l.contains(l[0]));
                }
                assert(dfs_paths(*self, start, allowed@, until_tag@, seq![start], Seq::empty()) =~= Seq::empty());
            }
            return out;
        }
        let mut nodes: Vec<usize> = Vec::new();
        nodes.push(start);
        let mut edges: Vec<usize> = Vec::new();
        assert(nodes@ =~= seq![start]);
        assert(edges@ =~= Seq::<usize>::empty());
        self.dfs(start, allowed, until_tag, &mut nodes, &mut edges, &mut out);
        out
    }
}

} // verus!

verus! {

/// `edge_lt` or equal.
pub open spec fn edge_leq(es: Seq<GraphEdgeV>) -> spec_fn(usize, usize) -> bool {
    |a: usize, b: usize| edge_lt(es)(a, b) || a == b
}

/// The edges among the first `k` that go into `node` with an allowed type, in
/// index order.
pub open spec fn incoming_upto(
    es: Seq<GraphEdgeV>,
    ends: Seq<(usize, usize)>,
    node: usize,
    allowed: Seq<EdgeType>,
    k: int,
) -> Seq<usize>
    decreases k,
{
    if k <= 0 {
        Seq::empty()
    } else {
        let rest = incoming_upto(es, ends, node, allowed, k - 1);
        if ends[k - 1].1 == node && allowed.contains(es[k - 1].edge_type) {
            rest.push((k - 1) as usize)
        } else {
            rest
        }
    }
}

proof fn lemma_incoming_upto(
    es: Seq<GraphEdgeV>,
    ends: Seq<(usize, usize)>,
    node: usize,
    allowed: Seq<EdgeType>,
    k: int,
)
    requires
        0 <= k <= es.len(),
        es.len() <= usize::MAX,
    ensures
        incoming_upto(es, ends, node, allowed, k).no_duplicates(),
        forall|e: usize|
            incoming_upto(es, ends, node, allowed, k).contains(e) <==> (e < k && ends[e as int].1 == node
                && allowed.contains(es[e as int].edge_type)),
    decreases k,
{
    if k > 0 {
        lemma_incoming_upto(es, ends, node, allowed, k - 1);
        let rest = incoming_upto(es, ends, node, allowed, k - 1);
        let r = incoming_upto(es, ends, node, allowed, k);
        if ends[k - 1].1 == node && allowed.contains(es[k - 1].edge_type) {
            assert forall|e: usize| r.contains(e) <==> (rest.contains(e) || e == (k - 1) as usize) by {
                if r.contains(e) {
                    let t = choose|t: int| 0 <= t < r.len() && r[t] == e;
                    if t < rest.len() {
                        assert(rest[t] == e);
                    }
                }
                if rest.contains(e) {
                    let t = choose|t: int| 0 <= t < rest.len() && rest[t] == e;
                    assert(r[t] == e);
                }
                if e == (k - 1) as usize {
                    assert(r[rest.len() as int] == e);
                }
            }
            assert(!rest.contains((k - 1) as usize));
        }
    }
}

proof fn lemma_edge_leq_total(es: Seq<GraphEdgeV>)
    ensures
        vstd::relations::total_ordering(edge_leq(es)),
{
    let leq = edge_leq(es);
    assert forall|a: usize, b: usize| #[trigger] leq(a, b) && #[trigger] leq(b, a) implies a == b by {
        lemma_seq_lt_total(es[a as int].id, es[b as int].id);
    }
    assert forall|a: usize, b: usize, c: usize| #[trigger] leq(a, b) && #[trigger] leq(b, c) implies leq(a, c) by {
        let (x, y, z) = (es[a as int].id, es[b as int].id, es[c as int].id);
        if seq_lt(x, y) && seq_lt(y, z) {
            lemma_seq_lt_transitive(x, y, z);
        }
    }
    assert forall|a: usize, b: usize| #[trigger] leq(a, b) || #[trigger] leq(b, a) by {
        lemma_seq_lt_total(es[a as int].id, es[b as int].id);
    }
}

/// A sorted list of the incoming edges exists (it is unique by
/// `lemma_sorted_unique`), so `incoming_sorted` has its defining property.
pub proof fn lemma_incoming_sorted_exists(g: MechanismGraph, node: usize, allowed: Seq<EdgeType>)
    requires
        g.wf(),
    ensures
        is_incoming_sorted(g.spec_edges(), g.spec_ends(), node, allowed, incoming_sorted(g, node, allowed)),
{
    let es = g.spec_edges();
    let ends = g.spec_ends();
    let leq = edge_leq(es);
    let base = incoming_upto(es, ends, node, allowed, es.len() as int);
    lemma_incoming_upto(es, ends, node, allowed, es.len() as int);
    lemma_edge_leq_total(es);
    base.lemma_sort_by_ensures(leq);
    let sorted = base.sort_by(leq);
    broadcast use vstd::seq_lib::group_to_multiset_ensures;
    base.lemma_multiset_has_no_duplicates();
    assert forall|x: usize| sorted.to_multiset().contains(x) implies sorted.to_multiset().count(x) == 1 by {
        assert(base.to_multiset().contains(x));
    }
    sorted.lemma_multiset_has_no_duplicates_conv();
    let r = sorted.map_values(|e: usize| (ends[e as int].0, e));
    assert forall|p: (usize, usize)|
        r.contains(p) <==> {
            &&& p.1 < es.len()
            &&& ends[p.1 as int].1 == node
            &&& p.0 == ends[p.1 as int].0
            &&& allowed.contains(es[p.1 as int].edge_type)
        } by {
        if r.contains(p) {
            let t = choose|t: int| 0 <= t < r.len() && r[t] == p;
            assert(sorted.contains(sorted[t]));
            assert(base.to_multiset().count(sorted[t]) > 0);
            assert(base.contains(p.1));
        }
        if p.1 < es.len() && ends[p.1 as int].1 == node && p.0 == ends[p.1 as int].0 && allowed.contains(
            es[p.1 as int].edge_type,
        ) {
            assert(base.contains(p.1));
            assert(sorted.to_multiset().count(p.1) > 0);
            let t = choose|t: int| 0 <= t < sorted.len() && sorted[t] == p.1;
            assert(r[t] == p);
        }
    }
    assert forall|i: int, j: int| 0 <= i < j < r.len() implies #[trigger] pair_lt(es)(r[i], r[j]) && (#[trigger] r[j] == r[j]) by {
        assert(leq(sorted[i], sorted[j]));
        assert(sorted[i] != sorted[j]);
    }
    assert(is_incoming_sorted(es, ends, node, allowed, r));
}

} // verus!

verus! {

/// A walk backwards from `start`: `nodes` runs start first, edge `t` leads
/// from `nodes[t + 1]` into `nodes[t]` and has an allowed type, no node
/// repeats, and every node strictly between the start and the current end
/// does not carry `tag`.
pub open spec fn is_walk(
    g: MechanismGraph,
    allowed: Seq<EdgeType>,
    tag: Seq<char>,
    start: usize,
    nodes: Seq<usize>,
    edges: Seq<usize>,
) -> bool {
    let ns = g.spec_nodes();
    let es = g.spec_edges();
    let ends = g.spec_ends();
    &&& nodes.len() == edges.len() + 1
    &&& nodes[0] == start
    &&& nodes.no_duplicates()
    &&& forall|t: int| 0 <= t < nodes.len() ==> #[trigger] nodes[t] < ns.len()
    &&& forall|t: int|
        0 <= t < edges.len() ==> {
            &&& #[trigger] edges[t] < es.len()
            &&& ends[edges[t] as int] == (nodes[t + 1], nodes[t])
            &&& allowed.contains(es[edges[t] as int].edge_type)
        }
    &&& forall|t: int| 1 <= t < nodes.len() - 1 ==> !spec_has_tag(ns[nodes[t] as int], tag)
}

/// A path found from `start`: nodes run source first and start last, each
/// edge leads from its node to the next and has an allowed type, no node
/// repeats, the source carries `tag` and no node strictly inside does.
pub open spec fn is_tag_path(
    g: MechanismGraph,
    allowed: Seq<EdgeType>,
    tag: Seq<char>,
    start: usize,
    p: (Seq<usize>, Seq<usize>),
) -> bool {
    let ns = g.spec_nodes();
    let es = g.spec_edges();
    let ends = g.spec_ends();
    &&& p.1.len() >= 1
    &&& p.0.len() == p.1.len() + 1
    &&& p.0.last() == start
    &&& p.0.no_duplicates()
    &&& forall|t: int| 0 <= t < p.0.len() ==> #[trigger] p.0[t] < ns.len()
    &&& forall|t: int|
        0 <= t < p.1.len() ==> {
            &&& #[trigger] p.1[t] < es.len()
            &&& ends[p.1[t] as int] == (p.0[t], p.0[t + 1])
            &&& allowed.contains(es[p.1[t] as int].edge_type)
        }
    &&& spec_has_tag(ns[p.0[0] as int], tag)
    &&& forall|t: int| 1 <= t < p.0.len() - 1 ==> !spec_has_tag(ns[p.0[t] as int], tag)
}

proof fn lemma_dfs_sound(
    g: MechanismGraph,
    cur: usize,
    allowed: Seq<EdgeType>,
    tag: Seq<char>,
    start: usize,
    nodes: Seq<usize>,
    edges: Seq<usize>,
)
    requires
        g.wf(),
        is_walk(g, allowed, tag, start, nodes, edges),
        cur == nodes.last(),
    ensures
        forall|q: (Seq<usize>, Seq<usize>)|
            #[trigger] dfs_paths(g, cur, allowed, tag, nodes, edges).contains(q) ==> is_tag_path(
                g,
                allowed,
                tag,
                start,
                q,
            ),
    decreases g.spec_nodes().len() - nodes.len(), 1nat, 0nat,
{
    let ns = g.spec_nodes();
    if edges.len() > 0 && cur < ns.len() && spec_has_tag(ns[cur as int], tag) {
        let q = (nodes.reverse(), edges.reverse());
        assert(dfs_paths(g, cur, allowed, tag, nodes, edges) =~= seq![q]);
        let l = nodes.len();
        assert(q.0.no_duplicates()) by {
            assert forall|a: int, b: int| 0 <= a < b < q.0.len() implies q.0[a] != q.0[b] by {
                assert(q.0[a] == nodes[l - 1 - a]);
                assert(q.0[b] == nodes[l - 1 - b]);
            }
        }
        assert forall|t: int| 0 <= t < q.1.len() implies {
            &&& #[trigger] q.1[t] < g.spec_edges().len()
            &&& g.spec_ends()[q.1[t] as int] == (q.0[t], q.0[t + 1])
            &&& allowed.contains(g.spec_edges()[q.1[t] as int].edge_type)
        } by {
            let u = edges.len() - 1 - t;
            assert(q.1[t] == edges[u]);
            assert(q.0[t] == nodes[u + 1]);
            assert(q.0[t + 1] == nodes[u]);
        }
        assert forall|t: int| 0 <= t < q.0.len() implies #[trigger] q.0[t] < ns.len() by {
            assert(q.0[t] == nodes[l - 1 - t]);
        }
        assert forall|t: int| 1 <= t < q.0.len() - 1 implies !spec_has_tag(ns[q.0[t] as int], tag) by {
            assert(q.0[t] == nodes[l - 1 - t]);
        }
        assert(q.0[0] == nodes[l - 1]);
        assert(q.0.last() == nodes[0]);
        assert(is_tag_path(g, allowed, tag, start, q));
        assert forall|x: (Seq<usize>, Seq<usize>)| #[trigger] seq![q].contains(x) implies x == q by {
            let t = choose|t: int| 0 <= t < 1 && seq![q][t] == x;
        }
    } else {
        lemma_incoming_sorted_exists(g, cur, allowed);
        lemma_dfs_children_sound(g, allowed, tag, start, cur, incoming_sorted(g, cur, allowed), 0, nodes, edges);
        assert(dfs_paths(g, cur, allowed, tag, nodes, edges) == dfs_children(g, allowed, tag, incoming_sorted(g, cur, allowed), 0, nodes, edges));
    }
}

proof fn lemma_dfs_children_sound(
    g: MechanismGraph,
    allowed: Seq<EdgeType>,
    tag: Seq<char>,
    start: usize,
    cur: usize,
    list: Seq<(usize, usize)>,
    i: int,
    nodes: Seq<usize>,
    edges: Seq<usize>,
)
    requires
        g.wf(),
        is_walk(g, allowed, tag, start, nodes, edges),
        cur == nodes.last(),
        edges.len() == 0 || !spec_has_tag(g.spec_nodes()[cur as int], tag),
        is_incoming_sorted(g.spec_edges(), g.spec_ends(), cur, allowed, list),
    ensures
        forall|q: (Seq<usize>, Seq<usize>)|
            #[trigger] dfs_children(g, allowed, tag, list, i, nodes, edges).contains(q) ==> is_tag_path(
                g,
                allowed,
                tag,
                start,
                q,
            ),
    decreases g.spec_nodes().len() - nodes.len(), 0nat, list.len() - i,
{
    if 0 <= i < list.len() {
        let src = list[i].0;
        let e = list[i].1;
        let rest = dfs_children(g, allowed, tag, list, i + 1, nodes, edges);
        lemma_dfs_children_sound(g, allowed, tag, start, cur, list, i + 1, nodes, edges);
        let n = g.spec_nodes().len();
        if !(nodes.contains(src) || nodes.len() >= n) {
            assert(list.contains(list[i]));
            let nodes2 = nodes.push(src);
            let edges2 = edges.push(e);
            assert(is_walk(g, allowed, tag, start, nodes2, edges2)) by {
                assert(nodes2.no_duplicates()) by {
                    assert forall|a: int, b: int| 0 <= a < b < nodes2.len() implies nodes2[a] != nodes2[b] by {
                        if b == nodes.len() {
                            assert(nodes.contains(nodes2[a]) || a >= nodes.len());
                        }
                    }
                }
                assert forall|t: int| 0 <= t < edges2.len() implies {
                    &&& #[trigger] edges2[t] < g.spec_edges().len()
                    &&& g.spec_ends()[edges2[t] as int] == (nodes2[t + 1], nodes2[t])
                    &&& allowed.contains(g.spec_edges()[edges2[t] as int].edge_type)
                } by {
                    if t < edges.len() {
                        assert(edges2[t] == edges[t]);
                    }
                }
                assert forall|t: int| 0 <= t < nodes2.len() implies #[trigger] nodes2[t] < n by {
                    if t < nodes.len() {
                        assert(nodes2[t] == nodes[t]);
                    }
                }
            }
            lemma_dfs_sound(g, src, allowed, tag, start, nodes2, edges2);
        }
        let here = if nodes.contains(src) || nodes.len() >= n {
            Seq::empty()
        } else {
            dfs_paths(g, src, allowed, tag, nodes.push(src), edges.push(e))
        };
        assert(dfs_children(g, allowed, tag, list, i, nodes, edges) == here + rest);
        assert forall|q: (Seq<usize>, Seq<usize>)| #[trigger] (here + rest).contains(q) implies is_tag_path(g, allowed, tag, start, q) by {
            let t = choose|t: int| 0 <= t < (here + rest).len() && (here + rest)[t] == q;
            if t < here.len() {
                assert(here.contains(q));
            } else {
                assert(rest[t - here.len()] == q);
                assert(rest.contains(q));
            }
        }
    }
}

/// Law: every path that `enumerate_paths` yields is a simple path through
/// the graph that ends at `start`, walks only edges of the allowed types,
/// begins at a node carrying `until_tag`, and meets no such node before that.
pub proof fn lemma_enumerate_paths_sound(g: MechanismGraph, start: usize, allowed: Seq<EdgeType>, until_tag: Seq<char>)
    requires
        g.wf(),
    ensures
        forall|q: (Seq<usize>, Seq<usize>)|
            #[trigger] dfs_paths(g, start, allowed, until_tag, seq![start], Seq::empty()).contains(q)
                ==> is_tag_path(g, allowed, until_tag, start, q),
{
    if start < g.spec_nodes().len() {
        lemma_dfs_sound(g, start, allowed, until_tag, start, seq![start], Seq::empty());
    } else {
        lemma_incoming_sorted_exists(g, start, allowed);
        let l = incoming_sorted(g, start, allowed);
        if l.len() > 0 {
            assert(l.contains(l[0]));
        }
        assert(dfs_paths(g, start, allowed, until_tag, seq![start], Seq::empty()) =~= Seq::empty());
    }
}

/// The paths found through entry `i` of an incoming list.
pub open spec fn child_paths(
    g: MechanismGraph,
    allowed: Seq<EdgeType>,
    tag: Seq<char>,
    list: Seq<(usize, usize)>,
    i: int,
    nodes: Seq<usize>,
    edges: Seq<usize>,
) -> Seq<(Seq<usize>, Seq<usize>)> {
    let src = list[i].0;
    if nodes.contains(src) || nodes.len() >= g.spec_nodes().len() {
        Seq::empty()
    } else {
        dfs_paths(g, src, allowed, tag, nodes.push(src), edges.push(list[i].1))
    }
}

proof fn lemma_children_contain(
    g: MechanismGraph,
    allowed: Seq<EdgeType>,
    tag: Seq<char>,
    list: Seq<(usize, usize)>,
    j: int,
    i: int,
    nodes: Seq<usize>,
    edges: Seq<usize>,
    q: (Seq<usize>, Seq<usize>),
)
    requires
        0 <= j <= i < list.len(),
        child_paths(g, allowed, tag, list, i, nodes, edges).contains(q),
    ensures
        dfs_children(g, allowed, tag, list, j, nodes, edges).contains(q),
    decreases i - j,
{
    let here = child_paths(g, allowed, tag, list, j, nodes, edges);
    let rest = dfs_children(g, allowed, tag, list, j + 1, nodes, edges);
    assert(dfs_children(g, allowed, tag, list, j, nodes, edges) == here + rest);
    if j < i {
        lemma_children_contain(g, allowed, tag, list, j + 1, i, nodes, edges, q);
        let t = choose|t: int| 0 <= t < rest.len() && rest[t] == q;
        assert((here + rest)[here.len() + t] == q);
    } else {
        let t = choose|t: int| 0 <= t < here.len() && here[t] == q;
        assert((here + rest)[t] == q);
    }
}

/// The nodes of the search state that has walked back from the start to
/// position `m` of a path.
pub open spec fn walked_nodes(q: (Seq<usize>, Seq<usize>), m: int) -> Seq<usize> {
    q.0.subrange(m, q.0.len() as int).reverse()
}

/// The edges of that search state.
pub open spec fn walked_edges(q: (Seq<usize>, Seq<usize>), m: int) -> Seq<usize> {
    q.1.subrange(m, q.1.len() as int).reverse()
}

proof fn lemma_dfs_complete(g: MechanismGraph, allowed: Seq<EdgeType>, tag: Seq<char>, start: usize, q: (Seq<usize>, Seq<usize>), m: int)
    requires
        g.wf(),
        is_tag_path(g, allowed, tag, start, q),
        0 <= m < q.0.len(),
    ensures
        dfs_paths(g, q.0[m], allowed, tag, walked_nodes(q, m), walked_edges(q, m)).contains(q),
    decreases m,
{
    let ns = g.spec_nodes();
    let l = q.0.len() as int;
    let nodes = walked_nodes(q, m);
    let edges = walked_edges(q, m);
    let cur = q.0[m];
    assert(nodes.len() == l - m);
    assert(edges.len() == l - 1 - m);
    if m == 0 {
        assert(nodes.reverse() =~= q.0);
        assert(edges.reverse() =~= q.1);
        assert(dfs_paths(g, cur, allowed, tag, nodes, edges) == seq![(nodes.reverse(), edges.reverse())]);
        assert(seq![q][0] == q);
    } else {
        lemma_incoming_sorted_exists(g, cur, allowed);
        let list = incoming_sorted(g, cur, allowed);
        let e = q.1[m - 1];
        let src = q.0[m - 1];
        let pair = (src, e);
        assert(g.spec_ends()[e as int] == (q.0[m - 1], q.0[m]));
        assert(list.contains(pair));
        let i = choose|i: int| 0 <= i < list.len() && list[i] == pair;
        assert(!nodes.contains(src)) by {
            if nodes.contains(src) {
                let t = choose|t: int| 0 <= t < nodes.len() && nodes[t] == src;
                assert(nodes[t] == q.0[l - 1 - t]);
            }
        }
        lemma_distinct_bounded(q.0, ns.len() as usize);
        assert(nodes.push(src) =~= walked_nodes(q, m - 1));
        assert(edges.push(e) =~= walked_edges(q, m - 1));
        lemma_dfs_complete(g, allowed, tag, start, q, m - 1);
        assert(child_paths(g, allowed, tag, list, i, nodes, edges) == dfs_paths(
            g,
            src,
            allowed,
            tag,
            walked_nodes(q, m - 1),
            walked_edges(q, m - 1),
        ));
        lemma_children_contain(g, allowed, tag, list, 0, i, nodes, edges, q);
        if m < l - 1 {
            assert(!spec_has_tag(ns[q.0[m] as int], tag));
        }
        assert(dfs_paths(g, cur, allowed, tag, nodes, edges) == dfs_children(g, allowed, tag, list, 0, nodes, edges));
    }
}

/// Law: `enumerate_paths` misses no path: every simple path that ends at
/// `start`, walks only edges of the allowed types, begins at a node carrying
/// `until_tag` and meets no such node before it is among those it yields.
pub proof fn lemma_enumerate_paths_complete(
    g: MechanismGraph,
    start: usize,
    allowed: Seq<EdgeType>,
    until_tag: Seq<char>,
    q: (Seq<usize>, Seq<usize>),
)
    requires
        g.wf(),
        is_tag_path(g, allowed, until_tag, start, q),
    ensures
        dfs_paths(g, start, allowed, until_tag, seq![start], Seq::empty()).contains(q),
{
    let l = q.0.len() as int;
    lemma_dfs_complete(g, allowed, until_tag, start, q, l - 1);
    assert(walked_nodes(q, l - 1) =~= seq![start]);
    assert(walked_edges(q, l - 1) =~= Seq::<usize>::empty());
}

} // verus!

verus! {

/// The edges among the first `k` that go into `node`, newest first, each as
/// (source, edge).
pub open spec fn incoming_rev(ends: Seq<(usize, usize)>, node: usize, k: int) -> Seq<(usize, usize)>
    decreases k,
{
    if k <= 0 {
        Seq::empty()
    } else {
        let rest = incoming_rev(ends, node, k - 1);
        if ends[k - 1].1 == node {
            seq![(ends[k - 1].0, (k - 1) as usize)] + rest
        } else {
            rest
        }
    }
}

/// Every member of `incoming_rev(ends, node, k)` names an edge below `k`.
pub proof fn lemma_incoming_rev_bounds(ends: Seq<(usize, usize)>, node: usize, k: int)
    ensures
        forall|s: int|
            0 <= s < incoming_rev(ends, node, k).len() ==> (#[trigger] incoming_rev(ends, node, k)[s]).1 < k,
    decreases k,
{
    if k > 0 {
        lemma_incoming_rev_bounds(ends, node, k - 1);
        let rest = incoming_rev(ends, node, k - 1);
        if ends[k - 1].1 == node {
            let r = incoming_rev(ends, node, k);
            assert forall|s: int| 0 <= s < r.len() implies (#[trigger] r[s]).1 < k by {
                if s > 0 {
                    assert(r[s] == rest[s - 1]);
                }
            }
        }
    }
}

proof fn lemma_incoming_rev_mirror(g: MechanismGraph, node: usize, k: int)
    requires
        g.wf(),
        0 <= k <= g.spec_edges().len(),
    ensures
        adjacent_rev(pg_edges(g.graph), node, true, k) == incoming_rev(g.spec_ends(), node, k),
    decreases k,
{
    if k > 0 {
        lemma_incoming_rev_mirror(g, node, k - 1);
        assert(pg_edges(g.graph)[k - 1] == (g.ends@[k - 1].0, g.ends@[k - 1].1, (k - 1) as usize));
    }
}

impl MechanismGraph {
    /// The edges into `node` in petgraph's order (newest first), each as
    /// (source, edge).
    pub fn incoming_edges(&self, node: usize) -> (r: Vec<(usize, usize)>)
        requires
            self.wf(),
            node < self.spec_nodes().len(),
        ensures
            r@ == incoming_rev(self.spec_ends(), node, self.spec_edges().len() as int),
    {
        proof {
            lemma_incoming_rev_mirror(*self, node, self.spec_edges().len() as int);
        }
        pg_incoming(&self.graph, node)
    }
}

} // verus!
