//! Validation of the references inside an extraction: every edge must join
//! two known entities and cite only known claims. The first broken edge is
//! answered with a `VALIDATION_ERROR` naming it and what it misses.

use vstd::prelude::*;

use crate::contracts::{edge_views, ApiError, Claim, ExtractResponse, GraphEdgeV, GraphNode};
use crate::platform::rerun::{is_first_fail, lemma_prefix_len, prefix_len};
use crate::strings::views;

verus! {

/// The ids of the entities.
pub open spec fn entity_ids(ns: Seq<GraphNode>) -> Seq<Seq<char>> {
    ns.map_values(|n: GraphNode| n.id@)
}

/// The ids of the claims.
pub open spec fn claim_ids(cs: Seq<Claim>) -> Seq<Seq<char>> {
    cs.map_values(|c: Claim| c.id@)
}

/// Whether a claim id is among `ids`.
pub open spec fn known_in(ids: Seq<Seq<char>>) -> spec_fn(Seq<char>) -> bool {
    |c: Seq<char>| ids.contains(c)
}

/// What is wrong with one edge, as (message, details), checking its source,
/// then its target, then its cited claims in order; `None` when nothing is.
pub open spec fn edge_problem(e: GraphEdgeV, nodes: Seq<Seq<char>>, claims: Seq<Seq<char>>) -> Option<(Seq<char>, Seq<(Seq<char>, Seq<char>)>)> {
    if !nodes.contains(e.src) {
        Some(("edge src references unknown entity"@, seq![("edge_id"@, e.id), ("missing_node"@, e.src)]))
    } else if !nodes.contains(e.dst) {
        Some(("edge dst references unknown entity"@, seq![("edge_id"@, e.id), ("missing_node"@, e.dst)]))
    } else {
        let k = prefix_len(e.source_claims, known_in(claims)) as int;
        if k < e.source_claims.len() {
            Some(("edge source_claims references unknown claim"@, seq![("edge_id"@, e.id), ("missing_claim"@, e.source_claims[k])]))
        } else {
            None
        }
    }
}

/// Whether an edge has no problem.
pub open spec fn edge_sound(nodes: Seq<Seq<char>>, claims: Seq<Seq<char>>) -> spec_fn(GraphEdgeV) -> bool {
    |e: GraphEdgeV| edge_problem(e, nodes, claims) is None
}

/// The problem of the first broken edge of an extraction, if any.
pub open spec fn first_problem(x: ExtractResponse) -> Option<(Seq<char>, Seq<(Seq<char>, Seq<char>)>)> {
    let es = edge_views(x.edges@);
    let nodes = entity_ids(x.entities@);
    let claims = claim_ids(x.claims@);
    let p = prefix_len(es, edge_sound(nodes, claims)) as int;
    if p < es.len() {
        edge_problem(es[p], nodes, claims)
    } else {
        None
    }
}

/// Views of (key, value) string details.
pub open spec fn detail_views(d: Seq<(String, String)>) -> Seq<(Seq<char>, Seq<char>)> {
    d.map_values(|p: (String, String)| (p.0@, p.1@))
}

fn has_entity(ns: &Vec<GraphNode>, id: &str) -> (r: bool)
    ensures
        r == entity_ids(ns@).contains(id@),
{
    let mut i: usize = 0;
    while i < ns.len()
        invariant
            i <= ns.len(),
            forall|j: int| 0 <= j < i ==> ns@[j].id@ != id@,
        decreases ns.len() - i,
    {
        if crate::strings::str_eq(ns[i].id.as_str(), id) {
            assert(entity_ids(ns@)[i as int] == id@);
            return true;
        }
        i = i + 1;
    }
    proof {
        if entity_ids(ns@).contains(id@) {
            let j = choose|j: int| 0 <= j < ns@.len() && entity_ids(ns@)[j] == id@;
            assert(ns@[j].id@ == id@);
        }
    }
    false
}

fn has_claim(cs: &Vec<Claim>, id: &str) -> (r: bool)
    ensures
        r == claim_ids(cs@).contains(id@),
{
    let mut i: usize = 0;
    while i < cs.len()
        invariant
            i <= cs.len(),
            forall|j: int| 0 <= j < i ==> cs@[j].id@ != id@,
        decreases cs.len() - i,
    {
        if crate::strings::str_eq(cs[i].id.as_str(), id) {
            assert(claim_ids(cs@)[i as int] == id@);
            return true;
        }
        i = i + 1;
    }
    proof {
        if claim_ids(cs@).contains(id@) {
            let j = choose|j: int| 0 <= j < cs@.len() && claim_ids(cs@)[j] == id@;
            assert(cs@[j].id@ == id@);
        }
    }
    false
}

fn detail(k: &str, v: &String) -> (r: (String, String))
    ensures
        r.0@ == k@,
        r.1@ == v@,
{
    (crate::strings::owned(k), v.clone())
}

/// The problem of one edge, as an error answer.
fn check_edge(x: &ExtractResponse, e: usize) -> (r: Option<ApiError>)
    requires
        e < x.edges@.len(),
    ensures
        match r {
            None => edge_problem(x.edges@[e as int]@, entity_ids(x.entities@), claim_ids(x.claims@)) is None,
            Some(err) => err.error.code@ == "VALIDATION_ERROR"@ && edge_problem(
                x.edges@[e as int]@,
                entity_ids(x.entities@),
                claim_ids(x.claims@),
            ) == Some((err.error.message@, detail_views(err.error.details@))),
        },
{
    let edge = &x.edges[e];
    let ghost ev = edge@;
    proof {
        reveal_strlit("VALIDATION_ERROR");
        reveal_strlit("edge_id");
        reveal_strlit("missing_node");
        reveal_strlit("missing_claim");
        reveal_strlit("edge src references unknown entity");
        reveal_strlit("edge dst references unknown entity");
        reveal_strlit("edge source_claims references unknown claim");
    }
    if !has_entity(&x.entities, edge.src.as_str()) {
        let details = vec![detail("edge_id", &edge.id), detail("missing_node", &edge.src)];
        let err = ApiError::new("VALIDATION_ERROR", crate::strings::owned("edge src references unknown entity"), details);
        assert(detail_views(err.error.details@) =~= seq![("edge_id"@, ev.id), ("missing_node"@, ev.src)]);
        return Some(err);
    }
    if !has_entity(&x.entities, edge.dst.as_str()) {
        let details = vec![detail("edge_id", &edge.id), detail("missing_node", &edge.dst)];
        let err = ApiError::new("VALIDATION_ERROR", crate::strings::owned("edge dst references unknown entity"), details);
        assert(detail_views(err.error.details@) =~= seq![("edge_id"@, ev.id), ("missing_node"@, ev.dst)]);
        return Some(err);
    }
    let ghost claims = claim_ids(x.claims@);
    let mut k: usize = 0;
    while k < edge.source_claims.len()
        invariant
            e < x.edges@.len(),
            ev == edge@,
            ev == x.edges@[e as int]@,
            entity_ids(x.entities@).contains(ev.src),
            entity_ids(x.entities@).contains(ev.dst),
            claims == claim_ids(x.claims@),
            k <= edge.source_claims.len(),
            forall|t: int| 0 <= t < k ==> (known_in(claims))(#[trigger] ev.source_claims[t]),
        decreases edge.source_claims.len() - k,
    {
        if !has_claim(&x.claims, edge.source_claims[k].as_str()) {
            proof {
                assert(ev.source_claims[k as int] == edge.source_claims@[k as int]@);
                assert(!(known_in(claims))(ev.source_claims[k as int]));
                lemma_prefix_len(ev.source_claims, known_in(claims), k as int);
            }
            let details = vec![detail("edge_id", &edge.id), detail("missing_claim", &edge.source_claims[k])];
            let err = ApiError::new(
                "VALIDATION_ERROR",
                crate::strings::owned("edge source_claims references unknown claim"),
                details,
            );
            assert(detail_views(err.error.details@) =~= seq![("edge_id"@, ev.id), ("missing_claim"@, ev.source_claims[k as int])]);
            return Some(err);
        }
        k = k + 1;
    }
    proof {
        lemma_prefix_len(ev.source_claims, known_in(claims), k as int);
    }
    None
}

/// Checks the references of an extraction: `Ok` when every edge joins two
/// known entities and cites only known claims; else the error of the first
/// broken edge (source checked first, then target, then claims in order).
pub fn validate_references(x: &ExtractResponse) -> (r: Result<(), ApiError>)
    ensures
        match r {
            Ok(()) => first_problem(*x) is None,
            Err(err) => err.error.code@ == "VALIDATION_ERROR"@ && first_problem(*x) == Some(
                (err.error.message@, detail_views(err.error.details@)),
            ),
        },
{
    let ghost es = edge_views(x.edges@);
    let ghost keep = edge_sound(entity_ids(x.entities@), claim_ids(x.claims@));
    let mut i: usize = 0;
    while i < x.edges.len()
        invariant
            es == edge_views(x.edges@),
            keep == edge_sound(entity_ids(x.entities@), claim_ids(x.claims@)),
            i <= x.edges.len(),
            forall|t: int| 0 <= t < i ==> keep(#[trigger] es[t]),
        decreases x.edges.len() - i,
    {
        match check_edge(x, i) {
            Some(err) => {
                proof {
                    lemma_prefix_len(es, keep, i as int);
                }
                return Err(err);
            },
            None => {},
        }
        i = i + 1;
    }
    proof {
        lemma_prefix_len(es, keep, i as int);
    }
    Ok(())
}

/// Whether an edge joins two known entities and cites only known claims.
pub open spec fn edge_ok(e: GraphEdgeV, nodes: Seq<Seq<char>>, claims: Seq<Seq<char>>) -> bool {
    &&& nodes.contains(e.src)
    &&& nodes.contains(e.dst)
    &&& forall|k: int| 0 <= k < e.source_claims.len() ==> claims.contains(#[trigger] e.source_claims[k])
}

proof fn lemma_edge_problem_none(e: GraphEdgeV, nodes: Seq<Seq<char>>, claims: Seq<Seq<char>>)
    ensures
        edge_problem(e, nodes, claims) is None <==> edge_ok(e, nodes, claims),
{
    let keep = known_in(claims);
    let k = prefix_len(e.source_claims, keep) as int;
    lemma_prefix_len(e.source_claims, keep, k);
    if k < e.source_claims.len() {
        assert(!claims.contains(e.source_claims[k]));
    } else {
        assert forall|t: int| 0 <= t < e.source_claims.len() implies claims.contains(#[trigger] e.source_claims[t]) by {
            assert(keep(e.source_claims[t]));
        }
    }
}

/// An extraction passes the reference check exactly when every edge joins
/// two known entities and cites only known claims.
pub proof fn lemma_valid_iff_all_edges_ok(x: ExtractResponse)
    ensures
        first_problem(x) is None <==> forall|i: int| 0 <= i < x.edges@.len() ==> edge_ok(
            #[trigger] x.edges@[i]@,
            entity_ids(x.entities@),
            claim_ids(x.claims@),
        ),
{
    let es = edge_views(x.edges@);
    let nodes = entity_ids(x.entities@);
    let claims = claim_ids(x.claims@);
    let keep = edge_sound(nodes, claims);
    let p = prefix_len(es, keep) as int;
    lemma_prefix_len(es, keep, p);
    if p < es.len() {
        lemma_edge_problem_none(es[p], nodes, claims);
        assert(es[p] == x.edges@[p]@);
    } else {
        assert forall|i: int| 0 <= i < x.edges@.len() implies edge_ok(#[trigger] x.edges@[i]@, nodes, claims) by {
            assert(keep(es[i]));
            assert(es[i] == x.edges@[i]@);
            lemma_edge_problem_none(es[i], nodes, claims);
        }
    }
}

} // verus!
