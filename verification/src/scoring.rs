//! The discrete side of scoring: which constraint metrics lack evidence,
//! which edges are grounded, the lever's capex class, the risk notes and the
//! price elements relevant to a candidate. The numeric formulas that combine
//! these with claim confidences and money live with the floating-point code.

use vstd::prelude::*;

use crate::contracts::{spec_is_grounded, Claim, ClaimV, KpiContract};
use crate::graph::{has_evidenced_edge, has_id, index_of, is_tagged_sorted, last_claim, tagged_sorted, MechanismGraph};
use crate::operators::{Candidate, CandidateV};
use crate::sorting::{insert_sorted_unique, sorted_set, str_order, strictly_sorted};
use crate::strings::{owned, seq_contains_sub, str_contains, str_eq, views};

verus! {

/// `str::to_lowercase` of a string (Unicode lowercase mapping).
pub uninterp spec fn spec_to_lowercase(s: Seq<char>) -> Seq<char>;

/// `str::to_lowercase`: the lowercase equivalent of a string. Its result is a
/// function of the string alone; the Unicode mapping itself is not stated.
#[verifier::external_body]
fn to_lowercase(s: &str) -> (r: String)
    ensures
        r@ == spec_to_lowercase(s@),
{
    s.to_lowercase()
}

/// A character that normalisation drops.
pub open spec fn is_separator(c: char) -> bool {
    c == ' ' || c == '_' || c == '-'
}

/// Lowercase, with spaces, underscores and hyphens removed.
pub open spec fn spec_normalize(s: Seq<char>) -> Seq<char> {
    spec_to_lowercase(s).filter(|c: char| !is_separator(c))
}

/// Removes spaces, underscores and hyphens from `s`, keeping the order of
/// the other characters.
pub fn strip_separators(s: &str) -> (r: String)
    ensures
        r@ == s@.filter(|c: char| !is_separator(c)),
{
    let chars = crate::strings::chars_of(s);
    let ghost keep = |c: char| !is_separator(c);
    let mut r = String::new();
    let mut i: usize = 0;
    while i < chars.len()
        invariant
            keep == (|c: char| !is_separator(c)),
            chars@ == s@,
            i <= chars.len(),
            r@ == chars@.take(i as int).filter(keep),
        decreases chars.len() - i,
    {
        let c = chars[i];
        proof {
            assert(chars@.take(i + 1) =~= chars@.take(i as int).push(c));
            chars@.take(i as int).lemma_filter_push(c, keep);
        }
        if !(c == ' ' || c == '_' || c == '-') {
            let one = s.substring_char(i, i + 1);
            assert(one@ =~= seq![c]);
            r.append(one);
        }
        i = i + 1;
    }
    assert(chars@.take(chars.len() as int) =~= chars@);
    r
}

/// Lowercases `s` and removes spaces, underscores and hyphens.
pub fn normalize(s: &str) -> (r: String)
    ensures
        r@ == spec_normalize(s@),
{
    let lower = to_lowercase(s);
    strip_separators(lower.as_str())
}

} // verus!

verus! {

/// The constraint node at a position matches a metric: equal normalised
/// label, or normalised id containing the normalised metric.
pub open spec fn matches_metric(g: MechanismGraph, metric: Seq<char>) -> spec_fn(usize) -> bool {
    |i: usize|
        spec_normalize(g.spec_nodes()[i as int].label) == spec_normalize(metric) || seq_contains_sub(
            spec_normalize(g.spec_nodes()[i as int].id),
            spec_normalize(metric),
        )
}

/// The first element of `list` that satisfies `p`.
pub open spec fn first_match(list: Seq<usize>, p: spec_fn(usize) -> bool) -> Option<usize>
    decreases list.len(),
{
    if list.len() == 0 {
        None
    } else if p(list[0]) {
        Some(list[0])
    } else {
        first_match(list.drop_first(), p)
    }
}

/// The constraint node (in id order) matching the metric.
pub open spec fn spec_constraint_node(g: MechanismGraph, metric: Seq<char>) -> Option<usize> {
    first_match(tagged_sorted(g, "constraint"@), matches_metric(g, metric))
}

/// The constraint node whose label or id matches the metric.
pub fn constraint_node(g: &MechanismGraph, metric: &str) -> (r: Option<usize>)
    requires
        g.wf(),
    ensures
        r == spec_constraint_node(*g, metric@),
        r matches Some(i) ==> i < g.spec_nodes().len(),
{
    let list = g.nodes_with_tag("constraint");
    let m = normalize(metric);
    let ghost p = matches_metric(*g, metric@);
    let mut t: usize = 0;
    assert(list@.skip(0) =~= list@);
    while t < list.len()
        invariant
            g.wf(),
            p == matches_metric(*g, metric@),
            m@ == spec_normalize(metric@),
            is_tagged_sorted(g.spec_nodes(), "constraint"@, list@),
            list@ == tagged_sorted(*g, "constraint"@),
            t <= list.len(),
            first_match(list@, p) == first_match(list@.skip(t as int), p),
        decreases list.len() - t,
    {
        let idx = list[t];
        assert(list@.skip(t as int)[0] == idx);
        assert(list@.skip(t as int).drop_first() =~= list@.skip(t + 1));
        let node = g.weight(idx);
        let label = normalize(node.label.as_str());
        let id = normalize(node.id.as_str());
        if str_eq(label.as_str(), m.as_str()) || str_contains(id.as_str(), m.as_str()) {
            return Some(idx);
        }
        t = t + 1;
    }
    None
}

/// The message for a constraint metric that no claim covers.
pub open spec fn missing_message(metric: Seq<char>) -> Seq<char> {
    "No claim covers constraint metric '"@ + metric + "'."@
}

/// The metric has a constraint node and no claim evidences it.
pub open spec fn metric_missing(g: MechanismGraph) -> spec_fn(Seq<char>) -> bool {
    |metric: Seq<char>|
        match spec_constraint_node(g, metric) {
            Some(i) => !has_evidenced_edge(g, i),
            None => false,
        }
}

/// Messages for the contract's constraint metrics that have a constraint
/// node in the graph but no claim (numeric constraints without a node are
/// not flagged).
pub open spec fn spec_missing_evidence(g: MechanismGraph, metrics: Seq<Seq<char>>) -> Seq<Seq<char>> {
    metrics.filter(metric_missing(g)).map_values(|m: Seq<char>| missing_message(m))
}

/// The metrics of a contract's constraints.
pub open spec fn constraint_metrics<V>(c: KpiContract<V>) -> Seq<Seq<char>> {
    c.constraints@.map_values(|k: crate::contracts::Constraint<V>| k.metric@)
}

/// Constraint metrics of the contract that no claim covers.
pub fn missing_evidence<V>(g: &MechanismGraph, contract: &KpiContract<V>) -> (r: Vec<String>)
    requires
        g.wf(),
    ensures
        views(r@) == spec_missing_evidence(*g, constraint_metrics(*contract)),
{
    let ghost ms = constraint_metrics(*contract);
    let ghost keep = metric_missing(*g);
    let ghost mk = |m: Seq<char>| missing_message(m);
    let mut out: Vec<String> = Vec::new();
    let mut i: usize = 0;
    while i < contract.constraints.len()
        invariant
            g.wf(),
            ms == constraint_metrics(*contract),
            keep == metric_missing(*g),
            mk == (|m: Seq<char>| missing_message(m)),
            i <= contract.constraints.len(),
            views(out@) == ms.take(i as int).filter(keep).map_values(mk),
        decreases contract.constraints.len() - i,
    {
        let metric = contract.constraints[i].metric.as_str();
        let ghost m = ms[i as int];
        assert(m == metric@);
        proof {
            assert(ms.take(i + 1) =~= ms.take(i as int).push(m));
            ms.take(i as int).lemma_filter_push(m, keep);
        }
        let ghost before = views(out@);
        match constraint_node(g, metric) {
            Some(idx) => {
                if !g.node_has_evidenced_edge(idx) {
                    let msg = crate::strings::concat3("No claim covers constraint metric '", metric, "'.");
                    out.push(msg);
                    proof {
                        ms.take(i as int).filter(keep).lemma_push_map_commute(mk, m);
                        assert(views(out@) =~= before.push(mk(m)));
                    }
                }
            },
            None => {},
        }
        i = i + 1;
    }
    assert(ms.take(contract.constraints.len() as int) =~= ms);
    out
}

/// Some claim cited by the edge is known and grounded (the last claim with
/// an id stands for it).
pub open spec fn spec_edge_grounded(g: MechanismGraph, e: usize) -> bool {
    exists|t: int|
        0 <= t < g.spec_edges()[e as int].source_claims.len() && match last_claim(
            g.spec_claims(),
            #[trigger] g.spec_edges()[e as int].source_claims[t],
        ) {
            Some(j) => spec_is_grounded(g.spec_claims()[j].evidence_type),
            None => false,
        }
}

/// Whether the edge rests on grounded evidence.
pub fn edge_grounded(g: &MechanismGraph, e: usize) -> (r: bool)
    requires
        e < g.spec_edges().len(),
    ensures
        r == spec_edge_grounded(*g, e),
{
    let edge = g.edge(e);
    let mut t: usize = 0;
    while t < edge.source_claims.len()
        invariant
            e < g.spec_edges().len(),
            edge@ == g.spec_edges()[e as int],
            t <= edge.source_claims.len(),
            forall|k: int|
                0 <= k < t ==> match last_claim(g.spec_claims(), #[trigger] g.spec_edges()[e as int].source_claims[k]) {
                    Some(j) => !spec_is_grounded(g.spec_claims()[j].evidence_type),
                    None => true,
                },
        decreases edge.source_claims.len() - t,
    {
        assert(edge@.source_claims[t as int] == edge.source_claims@[t as int]@);
        match g.claim(edge.source_claims[t].as_str()) {
            Some(c) => {
                if c.evidence_type.is_grounded() {
                    return true;
                }
            },
            None => {},
        }
        t = t + 1;
    }
    false
}

/// How many of the candidate's edges rest on grounded evidence.
pub open spec fn spec_grounded_count(g: MechanismGraph, c: CandidateV) -> nat {
    c.edges.filter(|e: usize| spec_edge_grounded(g, e)).len()
}

/// The number of the candidate's edges that rest on grounded evidence; the
/// plausibility score is this share of all its edges.
pub fn grounded_edge_count(g: &MechanismGraph, c: &Candidate) -> (r: usize)
    requires
        forall|t: int| 0 <= t < c.edges@.len() ==> #[trigger] c.edges@[t] < g.spec_edges().len(),
    ensures
        r == spec_grounded_count(*g, c@),
        r <= c.edges@.len(),
{
    let ghost keep = |e: usize| spec_edge_grounded(*g, e);
    let mut n: usize = 0;
    let mut t: usize = 0;
    while t < c.edges.len()
        invariant
            keep == (|e: usize| spec_edge_grounded(*g, e)),
            forall|k: int| 0 <= k < c.edges@.len() ==> #[trigger] c.edges@[k] < g.spec_edges().len(),
            t <= c.edges.len(),
            n == c.edges@.take(t as int).filter(keep).len(),
            n <= t,
        decreases c.edges.len() - t,
    {
        proof {
            assert(c.edges@.take(t + 1) =~= c.edges@.take(t as int).push(c.edges@[t as int]));
            c.edges@.take(t as int).lemma_filter_push(c.edges@[t as int], keep);
        }
        if edge_grounded(g, c.edges[t]) {
            n = n + 1;
        }
        t = t + 1;
    }
    assert(c.edges@.take(c.edges.len() as int) =~= c.edges@);
    n
}

/// The capex class of the candidate's controllable node, when known.
pub open spec fn spec_capex_of(g: MechanismGraph, c: CandidateV) -> Option<u8> {
    match c.controllable {
        Some(id) => if has_id(g.spec_nodes(), id) {
            g.spec_nodes()[index_of(g.spec_nodes(), id)].capex_class
        } else {
            None
        },
        None => None,
    }
}

/// The capex class of the candidate's lever (the cost score is 1.0, 0.7 or
/// 0.35 for classes 1, 2, 3 and 0.7 when unknown).
pub fn capex_of(g: &MechanismGraph, c: &Candidate) -> (r: Option<u8>)
    requires
        g.wf(),
    ensures
        r == spec_capex_of(*g, c@),
{
    match &c.controllable {
        Some(id) => match g.node(id.as_str()) {
            Some(n) => n.capex_class,
            None => None,
        },
        None => None,
    }
}

/// The risk notes of a candidate: a capex class other than 1 raises capital
/// cost; a path with edges not all grounded rests partly on weak evidence;
/// unevidenced constraints are flagged.
pub open spec fn spec_risks(g: MechanismGraph, c: CandidateV, missing: nat) -> Seq<Seq<char>> {
    let a: Seq<Seq<char>> = if spec_capex_of(g, c) != Some(1u8) {
        seq!["Higher capex class increases capital cost."@]
    } else {
        Seq::empty()
    };
    let b: Seq<Seq<char>> = if spec_grounded_count(g, c) < c.edges.len() && c.edges.len() > 0 {
        seq!["Some causal edges rely on non-grounded evidence."@]
    } else {
        Seq::empty()
    };
    let d: Seq<Seq<char>> = if missing > 0 {
        seq!["Some constraints are not directly evidenced."@]
    } else {
        Seq::empty()
    };
    a + b + d
}

/// The risk notes of a candidate, given how many constraint metrics lack evidence.
pub fn risks(g: &MechanismGraph, c: &Candidate, missing: usize) -> (r: Vec<String>)
    requires
        g.wf(),
        forall|t: int| 0 <= t < c.edges@.len() ==> #[trigger] c.edges@[t] < g.spec_edges().len(),
    ensures
        views(r@) == spec_risks(*g, c@, missing as nat),
{
    let mut out: Vec<String> = Vec::new();
    let ghost s0 = views(out@);
    if capex_of(g, c) != Some(1u8) {
        out.push(owned("Higher capex class increases capital cost."));
    }
    let ghost s1 = views(out@);
    let grounded = grounded_edge_count(g, c);
    if grounded < c.edges.len() && !c.edges.is_empty() {
        out.push(owned("Some causal edges rely on non-grounded evidence."));
    }
    let ghost s2 = views(out@);
    if missing > 0 {
        out.push(owned("Some constraints are not directly evidenced."));
    }
    assert(views(out@) =~= spec_risks(*g, c@, missing as nat));
    out
}

} // verus!

verus! {

/// The normalised id of the candidate's KPI node, or empty when it names none.
pub open spec fn kpi_key(g: MechanismGraph, c: CandidateV) -> Seq<char> {
    if has_id(g.spec_nodes(), c.kpi) {
        spec_normalize(g.spec_nodes()[index_of(g.spec_nodes(), c.kpi)].id)
    } else {
        Seq::empty()
    }
}

/// A price element whose normalised name occurs in the KPI key.
pub open spec fn price_matches(g: MechanismGraph, c: CandidateV, prices: Seq<Seq<char>>) -> spec_fn(Seq<char>) -> bool {
    |k: Seq<char>| prices.contains(k) && seq_contains_sub(kpi_key(g, c), spec_normalize(k))
}

/// The elements relevant to the candidate's KPI: the price elements named in
/// its KPI node's id, else every element with addressable tonnage; sorted.
pub open spec fn spec_relevant_elements(
    g: MechanismGraph,
    c: CandidateV,
    prices: Seq<Seq<char>>,
    tons: Seq<Seq<char>>,
) -> Seq<Seq<char>> {
    let matched = sorted_set(price_matches(g, c, prices));
    if matched.len() > 0 {
        matched
    } else {
        sorted_set(|k: Seq<char>| tons.contains(k))
    }
}

/// The elements (price keys, then tonnage keys as fallback) relevant to the
/// candidate's KPI, in `str` order.
pub fn relevant_elements(
    g: &MechanismGraph,
    c: &Candidate,
    price_keys: &Vec<String>,
    tons_keys: &Vec<String>,
) -> (r: Vec<String>)
    requires
        g.wf(),
    ensures
        views(r@) == spec_relevant_elements(*g, c@, views(price_keys@), views(tons_keys@)),
{
    let kpi_id = match g.node(c.kpi.as_str()) {
        Some(n) => normalize(n.id.as_str()),
        None => String::new(),
    };
    assert(kpi_id@ == kpi_key(*g, c@));
    let ghost pk = views(price_keys@);
    let ghost pred = price_matches(*g, c@, pk);
    let mut els: Vec<String> = Vec::new();
    let mut i: usize = 0;
    while i < price_keys.len()
        invariant
            pk == views(price_keys@),
            pred == price_matches(*g, c@, pk),
            kpi_id@ == kpi_key(*g, c@),
            i <= price_keys.len(),
            strictly_sorted(views(els@), str_order()),
            forall|k: Seq<char>| views(els@).contains(k) <==> (pk.take(i as int).contains(k) && seq_contains_sub(kpi_key(*g, c@), spec_normalize(k))),
        decreases price_keys.len() - i,
    {
        let k = normalize(price_keys[i].as_str());
        let ghost ki = pk[i as int];
        assert(ki == price_keys@[i as int]@);
        proof {
            let a = pk.take(i as int);
            let b = pk.take(i + 1);
            assert(b =~= a.push(ki));
            assert forall|x: Seq<char>| b.contains(x) <==> (a.contains(x) || x == ki) by {
                if b.contains(x) {
                    let t = choose|t: int| 0 <= t < b.len() && b[t] == x;
                    if t < i {
                        assert(a[t] == x);
                    }
                }
                if a.contains(x) {
                    let t = choose|t: int| 0 <= t < a.len() && a[t] == x;
                    assert(b[t] == x);
                }
                if x == ki {
                    assert(b[i as int] == x);
                }
            }
        }
        if str_contains(kpi_id.as_str(), k.as_str()) {
            insert_sorted_unique(&mut els, price_keys[i].as_str());
        }
        i = i + 1;
    }
    assert(pk.take(price_keys.len() as int) =~= pk);
    proof {
        crate::sorting::lemma_sorted_set_unique(views(els@), pred);
    }
    if els.len() > 0 {
        return els;
    }
    let ghost tk = views(tons_keys@);
    let mut out: Vec<String> = Vec::new();
    let mut j: usize = 0;
    while j < tons_keys.len()
        invariant
            tk == views(tons_keys@),
            j <= tons_keys.len(),
            strictly_sorted(views(out@), str_order()),
            forall|k: Seq<char>| views(out@).contains(k) <==> tk.take(j as int).contains(k),
        decreases tons_keys.len() - j,
    {
        proof {
            let a = tk.take(j as int);
            let b = tk.take(j + 1);
            assert(b =~= a.push(tk[j as int]));
            assert forall|x: Seq<char>| b.contains(x) <==> (a.contains(x) || x == tk[j as int]) by {
                if b.contains(x) {
                    let t = choose|t: int| 0 <= t < b.len() && b[t] == x;
                    if t < j {
                        assert(a[t] == x);
                    }
                }
                if a.contains(x) {
                    let t = choose|t: int| 0 <= t < a.len() && a[t] == x;
                    assert(b[t] == x);
                }
                if x == tk[j as int] {
                    assert(b[j as int] == x);
                }
            }
        }
        insert_sorted_unique(&mut out, tons_keys[j].as_str());
        j = j + 1;
    }
    assert(tk.take(tons_keys.len() as int) =~= tk);
    proof {
        crate::sorting::lemma_sorted_set_unique(views(out@), |k: Seq<char>| tk.contains(k));
    }
    out
}

/// Whether a constraint metric is the cost metric (after normalisation).
pub open spec fn spec_is_cost_metric(metric: Seq<char>) -> bool {
    spec_normalize(metric) == "cost"@
}

/// Whether a constraint metric is the cost metric, the one the lever's
/// estimated cost delta is checked against.
pub fn is_cost_metric(metric: &str) -> (r: bool)
    ensures
        r == spec_is_cost_metric(metric@),
{
    let m = normalize(metric);
    str_eq(m.as_str(), "cost")
}

} // verus!
