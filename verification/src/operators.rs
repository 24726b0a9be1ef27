//! Generic candidate-generating operators.
//!
//! Every operator works only over edge types and node tags: the domain comes
//! from the data (labels, mechanisms) and from the pack (`enabled_operators`).

use vstd::prelude::*;

use crate::contracts::{
    spec_has_tag, spec_operator_enabled, DomainPack, EdgeType, GraphNodeV, KpiContract, Polarity,
    Status,
};
use crate::graph::{
    claims_of, dfs_paths, has_evidenced_edge, has_id, incoming_sorted, index_of, is_claim_set,
    is_incoming_sorted, tagged_sorted, MechanismGraph, Path, path_views,
};
use crate::sorting::{insert_sorted_unique, is_sorted_set, sorted_set, str_order, strictly_sorted};
use crate::strings::{views, contains_str};

verus! {

/// The generic operators.
#[derive(Clone, Copy, Debug, PartialEq, Eq, Structural)]
pub enum Operator {
    MechanismPath,
    Substitution,
    Gap,
    Contradiction,
    AnalogyTransfer,
    UncoveredConstraint,
}

pub open spec fn spec_operator_name(o: Operator) -> Seq<char> {
    match o {
        Operator::MechanismPath => "mechanism_path"@,
        Operator::Substitution => "substitution"@,
        Operator::Gap => "gap"@,
        Operator::Contradiction => "contradiction"@,
        Operator::AnalogyTransfer => "analogy_transfer"@,
        Operator::UncoveredConstraint => "uncovered_constraint"@,
    }
}

impl Operator {
    /// The operator's name as packs and boards spell it.
    pub fn name(&self) -> (r: &'static str)
        ensures
            r@ == spec_operator_name(*self),
    {
        match self {
            Operator::MechanismPath => "mechanism_path",
            Operator::Substitution => "substitution",
            Operator::Gap => "gap",
            Operator::Contradiction => "contradiction",
            Operator::AnalogyTransfer => "analogy_transfer",
            Operator::UncoveredConstraint => "uncovered_constraint",
        }
    }
}

/// A raw hypothesis candidate before scoring and status.
#[derive(Debug)]
pub struct Candidate {
    pub operator: Operator,
    /// Node ids of the path, source first .. kpi/constraint last.
    pub source_nodes: Vec<String>,
    pub edges: Vec<usize>,
    /// The controllable factor (for the cost estimate), if any.
    pub controllable: Option<String>,
    /// The target node (kpi or constraint).
    pub kpi: String,
    pub trace: Vec<String>,
    pub is_gap: bool,
    pub n_partial_matches: usize,
    pub forced_status: Option<Status>,
}

/// A candidate as plain values.
pub struct CandidateV {
    pub operator: Operator,
    pub source_nodes: Seq<Seq<char>>,
    pub edges: Seq<usize>,
    pub controllable: Option<Seq<char>>,
    pub kpi: Seq<char>,
    pub trace: Seq<Seq<char>>,
    pub is_gap: bool,
    pub n_partial_matches: usize,
    pub forced_status: Option<Status>,
}

impl View for Candidate {
    type V = CandidateV;

    open spec fn view(&self) -> CandidateV {
        CandidateV {
            operator: self.operator,
            source_nodes: views(self.source_nodes@),
            edges: self.edges@,
            controllable: crate::contracts::opt_view(self.controllable),
            kpi: self.kpi@,
            trace: views(self.trace@),
            is_gap: self.is_gap,
            n_partial_matches: self.n_partial_matches,
            forced_status: self.forced_status,
        }
    }
}

impl Clone for Candidate {
    fn clone(&self) -> (r: Self)
        ensures
            r@ == self@,
    {
        Candidate {
            operator: self.operator,
            source_nodes: crate::contracts::copy_strings(&self.source_nodes),
            edges: crate::graph::copy_indices(&self.edges),
            controllable: crate::contracts::copy_opt_string(&self.controllable),
            kpi: self.kpi.clone(),
            trace: crate::contracts::copy_strings(&self.trace),
            is_gap: self.is_gap,
            n_partial_matches: self.n_partial_matches,
            forced_status: self.forced_status,
        }
    }
}

/// The views of candidates.
pub open spec fn cand_views(s: Seq<Candidate>) -> Seq<CandidateV> {
    s.map_values(|c: Candidate| c@)
}

/// The edge types a mechanism path runs over.
pub open spec fn mechanism_edges() -> Seq<EdgeType> {
    seq![EdgeType::Mechanism, EdgeType::Proxy]
}

/// The ids of nodes at the given positions.
pub open spec fn ids_at(ns: Seq<GraphNodeV>, idx: Seq<usize>) -> Seq<Seq<char>> {
    idx.map_values(|i: usize| ns[i as int].id)
}

/// The paths from a KPI node back to a controllable factor.
pub open spec fn kpi_paths(g: MechanismGraph, kpi: usize) -> Seq<(Seq<usize>, Seq<usize>)> {
    dfs_paths(g, kpi, mechanism_edges(), "controllable"@, seq![kpi], Seq::empty())
}

/// A path is kept unless it passes through an excluded node.
pub open spec fn path_kept(ns: Seq<GraphNodeV>, excluded: Seq<Seq<char>>) -> spec_fn((Seq<usize>, Seq<usize>)) -> bool {
    |p: (Seq<usize>, Seq<usize>)| forall|t: int| 0 <= t < p.0.len() ==> !excluded.contains(#[trigger] ns[p.0[t] as int].id)
}

/// The mechanism-path candidate of a path to the KPI node `kpi`.
pub open spec fn lever_cand(g: MechanismGraph, kpi: usize) -> spec_fn((Seq<usize>, Seq<usize>)) -> CandidateV {
    |p: (Seq<usize>, Seq<usize>)|
        CandidateV {
            operator: Operator::MechanismPath,
            source_nodes: ids_at(g.spec_nodes(), p.0),
            edges: p.1,
            controllable: if p.0.len() > 0 {
                Some(g.spec_nodes()[p.0[0] as int].id)
            } else {
                None
            },
            kpi: g.spec_nodes()[kpi as int].id,
            trace: claims_of(g, p.1),
            is_gap: false,
            n_partial_matches: 0,
            forced_status: None,
        }
}

/// Mechanism-path candidates of one KPI node.
pub open spec fn lever_cands_for(g: MechanismGraph, kpi: usize, excluded: Seq<Seq<char>>) -> Seq<CandidateV> {
    kpi_paths(g, kpi).filter(path_kept(g.spec_nodes(), excluded)).map_values(lever_cand(g, kpi))
}

} // verus!

verus! {

/// The ids of the nodes at the given positions.
pub fn ids_of(g: &MechanismGraph, idx: &Vec<usize>) -> (r: Vec<String>)
    requires
        forall|t: int| 0 <= t < idx@.len() ==> #[trigger] idx@[t] < g.spec_nodes().len(),
    ensures
        views(r@) == ids_at(g.spec_nodes(), idx@),
{
    let mut r: Vec<String> = Vec::new();
    let mut i: usize = 0;
    while i < idx.len()
        invariant
            i <= idx.len(),
            forall|t: int| 0 <= t < idx@.len() ==> #[trigger] idx@[t] < g.spec_nodes().len(),
            views(r@) == ids_at(g.spec_nodes(), idx@.subrange(0, i as int)),
        decreases idx.len() - i,
    {
        let id = g.weight(idx[i]).id.clone();
        assert(id@ == g.spec_nodes()[idx@[i as int] as int].id);
        let ghost before = r@;
        r.push(id);
        assert(forall|t: int| 0 <= t < before.len() ==> r@[t] == before[t]);
        assert(views(before).len() == before.len());
        proof {
            let a = idx@.subrange(0, i as int);
            let b = idx@.subrange(0, i + 1);
            assert forall|t: int| 0 <= t < i + 1 implies views(r@)[t] == ids_at(g.spec_nodes(), b)[t] by {
                if t < i {
                    assert(views(before)[t] == ids_at(g.spec_nodes(), a)[t]);
                    assert(a[t] == b[t]);
                }
            }
        }
        i = i + 1;
        assert(views(r@) =~= ids_at(g.spec_nodes(), idx@.subrange(0, i as int)));
    }
    assert(idx@.subrange(0, idx@.len() as int) =~= idx@);
    r
}

/// Whether one of the strings is among the excluded ones.
fn any_excluded(ids: &Vec<String>, excluded: &Vec<String>) -> (r: bool)
    ensures
        r == exists|t: int| 0 <= t < ids@.len() && views(excluded@).contains(#[trigger] ids@[t]@),
{
    let mut i: usize = 0;
    while i < ids.len()
        invariant
            i <= ids.len(),
            forall|t: int| 0 <= t < i ==> !views(excluded@).contains(#[trigger] ids@[t]@),
        decreases ids.len() - i,
    {
        if contains_str(excluded, ids[i].as_str()) {
            return true;
        }
        i = i + 1;
    }
    false
}

/// Mechanism-path candidates of the KPI node `kpi`: one per path back to a
/// controllable factor that passes through no excluded node.
pub fn lever_candidates(g: &MechanismGraph, kpi: usize, excluded: &Vec<String>) -> (r: Vec<Candidate>)
    requires
        g.wf(),
        kpi < g.spec_nodes().len(),
    ensures
        cand_views(r@) == lever_cands_for(*g, kpi, views(excluded@)),
        forall|k: int, t: int|
            0 <= k < r@.len() && 0 <= t < r@[k].edges@.len() ==> #[trigger] r@[k].edges@[t] < g.spec_edges().len(),
{
    let allowed = [EdgeType::Mechanism, EdgeType::Proxy];
    assert(allowed@ =~= mechanism_edges());
    let paths = g.enumerate_paths(kpi, &allowed, "controllable");
    let ghost pv = path_views(paths@);
    let ghost keep = path_kept(g.spec_nodes(), views(excluded@));
    let ghost mk = lever_cand(*g, kpi);
    proof {
        crate::graph::lemma_enumerate_paths_sound(*g, kpi, mechanism_edges(), "controllable"@);
    }
    let kpi_id = g.weight(kpi).id.clone();
    let mut out: Vec<Candidate> = Vec::new();
    let mut j: usize = 0;
    while j < paths.len()
        invariant
            g.wf(),
            kpi < g.spec_nodes().len(),
            kpi_id@ == g.spec_nodes()[kpi as int].id,
            pv == path_views(paths@),
            pv == kpi_paths(*g, kpi),
            keep == path_kept(g.spec_nodes(), views(excluded@)),
            mk == lever_cand(*g, kpi),
            forall|q: (Seq<usize>, Seq<usize>)|
                #[trigger] pv.contains(q) ==> crate::graph::is_tag_path(
                    *g,
                    mechanism_edges(),
                    "controllable"@,
                    kpi,
                    q,
                ),
            j <= paths.len(),
            cand_views(out@) == pv.take(j as int).filter(keep).map_values(mk),
            forall|k: int, t: int|
                0 <= k < out@.len() && 0 <= t < out@[k].edges@.len() ==> #[trigger] out@[k].edges@[t] < g.spec_edges().len(),
        decreases paths.len() - j,
    {
        let path = &paths[j];
        let ghost q = pv[j as int];
        assert(pv.contains(q));
        assert(q == (path.nodes@, path.edges@));
        let source_nodes = ids_of(g, &path.nodes);
        let ctrl = g.weight(path.nodes[0]).id.clone();
        let ghost before = cand_views(out@);
        proof {
            assert(pv.take(j + 1) =~= pv.take(j as int).push(q));
            pv.take(j as int).lemma_filter_push(q, keep);
        }
        let hit = any_excluded(&source_nodes, excluded);
        proof {
            assert(views(source_nodes@) == ids_at(g.spec_nodes(), path.nodes@));
            assert(views(source_nodes@).len() == source_nodes@.len());
            assert(ids_at(g.spec_nodes(), q.0).len() == q.0.len());
            assert(source_nodes@.len() == q.0.len());
            assert forall|t: int| 0 <= t < q.0.len() implies #[trigger] source_nodes@[t]@ == g.spec_nodes()[q.0[t] as int].id by {
                assert(views(source_nodes@)[t] == source_nodes@[t]@);
                assert(ids_at(g.spec_nodes(), q.0)[t] == g.spec_nodes()[q.0[t] as int].id);
            }
            if hit {
                let t = choose|t: int| 0 <= t < source_nodes@.len() && views(excluded@).contains(#[trigger] source_nodes@[t]@);
                assert(source_nodes@[t]@ == g.spec_nodes()[q.0[t] as int].id);
                assert(!keep(q));
            } else {
                assert forall|t: int| 0 <= t < q.0.len() implies !views(excluded@).contains(#[trigger] g.spec_nodes()[q.0[t] as int].id) by {
                    assert(source_nodes@[t]@ == g.spec_nodes()[q.0[t] as int].id);
                }
                assert(keep(q));
            }
        }
        if !hit {
            let trace = g.claims_on_edges(path.edges.as_slice());
            let c = Candidate {
                operator: Operator::MechanismPath,
                source_nodes,
                edges: crate::graph::copy_indices(&path.edges),
                controllable: Some(ctrl),
                kpi: kpi_id.clone(),
                trace,
                is_gap: false,
                n_partial_matches: 0,
                forced_status: None,
            };
            out.push(c);
            proof {
                assert(keep(q));
                pv.take(j as int).filter(keep).lemma_push_map_commute(mk, q);
                assert(c@ == mk(q));
                assert(cand_views(out@) =~= before.push(c@));
            }
        } else {
            assert(!keep(q));
        }
        j = j + 1;
    }
    assert(pv.take(paths.len() as int) =~= pv);
    out
}

} // verus!

verus! {

/// Appends `src` to `dst`.
pub fn append_cands(dst: &mut Vec<Candidate>, src: Vec<Candidate>)
    ensures
        final(dst)@ == old(dst)@ + src@,
        cand_views(final(dst)@) == cand_views(old(dst)@) + cand_views(src@),
{
    let mut src = src;
    let ghost a = dst@;
    let ghost b = src@;
    dst.append(&mut src);
    assert(cand_views(dst@) =~= cand_views(a) + cand_views(b));
}

/// `f` is the controllable factor of some candidate of the group.
pub open spec fn group_factor(group: Seq<CandidateV>) -> spec_fn(Seq<char>) -> bool {
    |f: Seq<char>| exists|t: int| 0 <= t < group.len() && #[trigger] group[t].controllable == Some(f)
}

/// `c` is in the trace of some candidate of the group.
pub open spec fn group_trace(group: Seq<CandidateV>) -> spec_fn(Seq<char>) -> bool {
    |c: Seq<char>| exists|t: int| 0 <= t < group.len() && (#[trigger] group[t]).trace.contains(c)
}

/// The gap candidate of a KPI node from its mechanism-path candidates: when
/// two or more distinct factors lead to the KPI on their own, a hypothesis
/// that their combination (absent from the corpus) is worth a look.
pub open spec fn gap_of(g: MechanismGraph, kpi: usize, group: Seq<CandidateV>) -> Seq<CandidateV> {
    let factors = sorted_set(group_factor(group));
    let kpi_id = g.spec_nodes()[kpi as int].id;
    if factors.len() < 2 {
        Seq::empty()
    } else {
        seq![
            CandidateV {
                operator: Operator::Gap,
                source_nodes: factors.push(kpi_id),
                edges: Seq::empty(),
                controllable: None,
                kpi: kpi_id,
                trace: sorted_set(group_trace(group)),
                is_gap: true,
                n_partial_matches: factors.len() as usize,
                forced_status: Some(Status::NeedsExpertReview),
            },
        ]
    }
}

/// The gap candidate (if any) of the KPI node `kpi` from its mechanism-path
/// candidates `group`.
pub fn gap_candidate(g: &MechanismGraph, kpi: usize, group: &Vec<Candidate>) -> (r: Vec<Candidate>)
    requires
        kpi < g.spec_nodes().len(),
    ensures
        cand_views(r@) == gap_of(*g, kpi, cand_views(group@)),
        r@.len() <= 1,
        forall|i: int| 0 <= i < r@.len() ==> {
            &&& (#[trigger] r@[i]).operator == Operator::Gap
            &&& r@[i].forced_status == Some(Status::NeedsExpertReview)
            &&& r@[i].is_gap
            &&& r@[i].controllable is None
            &&& r@[i].source_nodes@.len() >= 3
        },
{
    let ghost gv = cand_views(group@);
    let mut factors: Vec<String> = Vec::new();
    let mut trace: Vec<String> = Vec::new();
    let mut t: usize = 0;
    while t < group.len()
        invariant
            gv == cand_views(group@),
            t <= group.len(),
            strictly_sorted(views(factors@), str_order()),
            strictly_sorted(views(trace@), str_order()),
            forall|f: Seq<char>| views(factors@).contains(f) <==> group_factor(gv.take(t as int))(f),
            forall|c: Seq<char>| views(trace@).contains(c) <==> group_trace(gv.take(t as int))(c),
        decreases group.len() - t,
    {
        let c = &group[t];
        let ghost pre = gv.take(t as int);
        let ghost post = gv.take(t + 1);
        assert(post =~= pre.push(gv[t as int]));
        match &c.controllable {
            Some(f) => {
                insert_sorted_unique(&mut factors, f.as_str());
            },
            None => {},
        }
        proof {
            assert forall|f: Seq<char>| group_factor(post)(f) <==> (group_factor(pre)(f) || gv[t as int].controllable == Some(f)) by {
                if group_factor(post)(f) {
                    let k = choose|k: int| 0 <= k < post.len() && #[trigger] post[k].controllable == Some(f);
                    if k < t {
                        assert(pre[k] == post[k]);
                    }
                }
                if group_factor(pre)(f) {
                    let k = choose|k: int| 0 <= k < pre.len() && #[trigger] pre[k].controllable == Some(f);
                    assert(post[k] == pre[k]);
                }
                if gv[t as int].controllable == Some(f) {
                    assert(post[t as int] == gv[t as int]);
                }
            }
        }
        let mut j: usize = 0;
        while j < c.trace.len()
            invariant
                gv == cand_views(group@),
                t < group.len(),
                c == &group[t as int],
                j <= c.trace.len(),
                strictly_sorted(views(trace@), str_order()),
                forall|x: Seq<char>| views(trace@).contains(x) <==> (group_trace(pre)(x)
                    || views(c.trace@).subrange(0, j as int).contains(x)),
            decreases c.trace.len() - j,
        {
            insert_sorted_unique(&mut trace, c.trace[j].as_str());
            proof {
                let a = views(c.trace@).subrange(0, j as int);
                let b = views(c.trace@).subrange(0, j + 1);
                assert(b =~= a.push(c.trace@[j as int]@));
                assert forall|x: Seq<char>| b.contains(x) <==> (a.contains(x) || x == c.trace@[j as int]@) by {
                    if b.contains(x) {
                        let k = choose|k: int| 0 <= k < b.len() && b[k] == x;
                        if k < j {
                            assert(a[k] == x);
                        }
                    }
                    if a.contains(x) {
                        let k = choose|k: int| 0 <= k < a.len() && a[k] == x;
                        assert(b[k] == x);
                    }
                    if x == c.trace@[j as int]@ {
                        assert(b[j as int] == x);
                    }
                }
            }
            j = j + 1;
        }
        proof {
            assert(views(c.trace@).subrange(0, c.trace.len() as int) =~= gv[t as int].trace);
            assert forall|x: Seq<char>| group_trace(post)(x) <==> (group_trace(pre)(x) || gv[t as int].trace.contains(x)) by {
                if group_trace(post)(x) {
                    let k = choose|k: int| 0 <= k < post.len() && (#[trigger] post[k]).trace.contains(x);
                    if k < t {
                        assert(pre[k] == post[k]);
                    }
                }
                if group_trace(pre)(x) {
                    let k = choose|k: int| 0 <= k < pre.len() && (#[trigger] pre[k]).trace.contains(x);
                    assert(post[k] == pre[k]);
                }
                if gv[t as int].trace.contains(x) {
                    assert(post[t as int] == gv[t as int]);
                }
            }
        }
        t = t + 1;
    }
    assert(gv.take(group.len() as int) =~= gv);
    proof {
        crate::sorting::lemma_sorted_set_unique(views(factors@), group_factor(gv));
        crate::sorting::lemma_sorted_set_unique(views(trace@), group_trace(gv));
    }
    let mut out: Vec<Candidate> = Vec::new();
    if factors.len() < 2 {
        assert(cand_views(out@) =~= gap_of(*g, kpi, gv));
        return out;
    }
    let kpi_id = g.weight(kpi).id.clone();
    let n_factors = factors.len();
    let ghost fv = views(factors@);
    let mut source_nodes = factors;
    source_nodes.push(kpi_id.clone());
    assert(views(source_nodes@) =~= fv.push(kpi_id@));
    let c = Candidate {
        operator: Operator::Gap,
        source_nodes,
        edges: Vec::new(),
        controllable: None,
        kpi: kpi_id,
        trace,
        is_gap: true,
        n_partial_matches: n_factors,
        forced_status: Some(Status::NeedsExpertReview),
    };
    out.push(c);
    assert(cand_views(out@) =~= gap_of(*g, kpi, gv));
    out
}

/// The substitution candidate through the substitution edge `p` into the
/// base candidate's controllable factor.
pub open spec fn sub_cand(g: MechanismGraph, base: CandidateV) -> spec_fn((usize, usize)) -> CandidateV {
    |p: (usize, usize)| {
        let sub_id = g.spec_nodes()[p.0 as int].id;
        let edges = seq![p.1] + base.edges;
        CandidateV {
            operator: Operator::Substitution,
            source_nodes: seq![sub_id] + base.source_nodes,
            edges,
            controllable: Some(sub_id),
            kpi: base.kpi,
            trace: claims_of(g, edges),
            is_gap: false,
            n_partial_matches: 0,
            forced_status: None,
        }
    }
}

/// A substitution edge is kept unless its source factor is excluded.
pub open spec fn sub_kept(ns: Seq<GraphNodeV>, excluded: Seq<Seq<char>>) -> spec_fn((usize, usize)) -> bool {
    |p: (usize, usize)| !excluded.contains(ns[p.0 as int].id)
}

/// Substitution candidates of a base candidate: for each substitution edge
/// into its controllable factor (sorted by edge id), the same path reached
/// through the alternative factor.
pub open spec fn subs_of(g: MechanismGraph, base: CandidateV, excluded: Seq<Seq<char>>) -> Seq<CandidateV> {
    let ns = g.spec_nodes();
    match base.controllable {
        None => Seq::empty(),
        Some(c) => if !has_id(ns, c) {
            Seq::empty()
        } else {
            incoming_sorted(g, index_of(ns, c) as usize, seq![EdgeType::Substitution]).filter(
                sub_kept(ns, excluded),
            ).map_values(sub_cand(g, base))
        },
    }
}

/// Substitution candidates of the base candidate `base`.
pub fn substitution_candidates(g: &MechanismGraph, base: &Candidate, excluded: &Vec<String>) -> (r: Vec<Candidate>)
    requires
        g.wf(),
        forall|t: int| 0 <= t < base.edges@.len() ==> #[trigger] base.edges@[t] < g.spec_edges().len(),
    ensures
        cand_views(r@) == subs_of(*g, base@, views(excluded@)),
        forall|k: int, t: int|
            0 <= k < r@.len() && 0 <= t < r@[k].edges@.len() ==> #[trigger] r@[k].edges@[t] < g.spec_edges().len(),
{
    let ghost ns = g.spec_nodes();
    let mut out: Vec<Candidate> = Vec::new();
    let ctrl_id = match &base.controllable {
        Some(c) => c,
        None => {
            assert(cand_views(out@) =~= subs_of(*g, base@, views(excluded@)));
            return out;
        },
    };
    let ctrl_idx = match g.index(ctrl_id.as_str()) {
        Some(i) => i,
        None => {
            assert(cand_views(out@) =~= subs_of(*g, base@, views(excluded@)));
            return out;
        },
    };
    let list = g.incoming_edges_of_type(ctrl_idx, EdgeType::Substitution);
    let ghost keep = sub_kept(ns, views(excluded@));
    let ghost mk = sub_cand(*g, base@);
    let mut j: usize = 0;
    while j < list.len()
        invariant
            g.wf(),
            ns == g.spec_nodes(),
            keep == sub_kept(ns, views(excluded@)),
            mk == sub_cand(*g, base@),
            crate::graph::is_incoming_sorted(g.spec_edges(), g.spec_ends(), ctrl_idx, seq![EdgeType::Substitution], list@),
            forall|t: int| 0 <= t < base.edges@.len() ==> #[trigger] base.edges@[t] < g.spec_edges().len(),
            j <= list.len(),
            cand_views(out@) == list@.take(j as int).filter(keep).map_values(mk),
            forall|k: int, t: int|
                0 <= k < out@.len() && 0 <= t < out@[k].edges@.len() ==> #[trigger] out@[k].edges@[t] < g.spec_edges().len(),
        decreases list.len() - j,
    {
        let (sub_idx, sub_edge) = list[j];
        let ghost p = list@[j as int];
        assert(list@.contains(p));
        assert(sub_idx < ns.len()) by {
            assert(sub_edge < g.spec_edges().len());
        }
        let sub_id = g.weight(sub_idx).id.clone();
        let ghost before = cand_views(out@);
        proof {
            assert(list@.take(j + 1) =~= list@.take(j as int).push(p));
            list@.take(j as int).lemma_filter_push(p, keep);
        }
        if !contains_str(excluded, sub_id.as_str()) {
            let mut source_nodes: Vec<String> = Vec::new();
            source_nodes.push(sub_id.clone());
            let mut rest = crate::contracts::copy_strings(&base.source_nodes);
            source_nodes.append(&mut rest);
            let mut edges: Vec<usize> = Vec::new();
            edges.push(sub_edge);
            let mut erest = crate::graph::copy_indices(&base.edges);
            edges.append(&mut erest);
            assert(edges@ =~= seq![sub_edge] + base.edges@);
            assert(views(source_nodes@) =~= seq![sub_id@] + views(base.source_nodes@));
            assert forall|t: int| 0 <= t < edges@.len() implies #[trigger] edges@[t] < g.spec_edges().len() by {
                if t > 0 {
                    assert(edges@[t] == base.edges@[t - 1]);
                }
            }
            let trace = g.claims_on_edges(edges.as_slice());
            let c = Candidate {
                operator: Operator::Substitution,
                source_nodes,
                edges,
                controllable: Some(sub_id),
                kpi: base.kpi.clone(),
                trace,
                is_gap: false,
                n_partial_matches: 0,
                forced_status: None,
            };
            let ghost cv = c@;
            out.push(c);
            proof {
                assert(keep(p));
                list@.take(j as int).filter(keep).lemma_push_map_commute(mk, p);
                assert(cv == mk(p));
                assert(cand_views(out@) =~= before.push(cv));
            }
        } else {
            assert(!keep(p));
        }
        j = j + 1;
    }
    assert(list@.take(list.len() as int) =~= list@);
    out
}

/// The uncovered-constraint candidate of a constraint node.
pub open spec fn uncovered_cand(g: MechanismGraph) -> spec_fn(usize) -> CandidateV {
    |i: usize|
        CandidateV {
            operator: Operator::UncoveredConstraint,
            source_nodes: seq![g.spec_nodes()[i as int].id],
            edges: Seq::empty(),
            controllable: None,
            kpi: g.spec_nodes()[i as int].id,
            trace: Seq::empty(),
            is_gap: false,
            n_partial_matches: 0,
            forced_status: Some(Status::NeedsExpertReview),
        }
}

/// Skeptic rule: every constraint node (by id) without an evidenced edge.
pub open spec fn uncovered_spec(g: MechanismGraph) -> Seq<CandidateV> {
    tagged_sorted(g, "constraint"@).filter(|i: usize| !has_evidenced_edge(g, i)).map_values(uncovered_cand(g))
}

/// Candidates for constraint nodes that no claim covers; they need an expert.
pub fn uncovered_constraints(g: &MechanismGraph) -> (r: Vec<Candidate>)
    requires
        g.wf(),
    ensures
        cand_views(r@) == uncovered_spec(*g),
{
    let list = g.nodes_with_tag("constraint");
    let ghost keep = |i: usize| !has_evidenced_edge(*g, i);
    let ghost mk = uncovered_cand(*g);
    let mut out: Vec<Candidate> = Vec::new();
    let mut j: usize = 0;
    while j < list.len()
        invariant
            g.wf(),
            keep == (|i: usize| !has_evidenced_edge(*g, i)),
            mk == uncovered_cand(*g),
            crate::graph::is_tagged_sorted(g.spec_nodes(), "constraint"@, list@),
            list@ == tagged_sorted(*g, "constraint"@),
            j <= list.len(),
            cand_views(out@) == list@.take(j as int).filter(keep).map_values(mk),
        decreases list.len() - j,
    {
        let i = list[j];
        let ghost before = cand_views(out@);
        proof {
            assert(list@.take(j + 1) =~= list@.take(j as int).push(i));
            list@.take(j as int).lemma_filter_push(i, keep);
        }
        if !g.node_has_evidenced_edge(i) {
            let id = g.weight(i).id.clone();
            let mut source_nodes: Vec<String> = Vec::new();
            source_nodes.push(id.clone());
            assert(views(source_nodes@) =~= seq![id@]);
            let c = Candidate {
                operator: Operator::UncoveredConstraint,
                source_nodes,
                edges: Vec::new(),
                controllable: None,
                kpi: id,
                trace: Vec::new(),
                is_gap: false,
                n_partial_matches: 0,
                forced_status: Some(Status::NeedsExpertReview),
            };
            let ghost cv = c@;
            out.push(c);
            proof {
                list@.take(j as int).filter(keep).lemma_push_map_commute(mk, i);
                assert(views(Seq::<String>::empty()) =~= Seq::<Seq<char>>::empty());
                assert(cv.trace =~= mk(i).trace);
                assert(cv.edges =~= mk(i).edges);
                assert(cv == mk(i));
                assert(cand_views(out@) =~= before.push(cv));
            }
        }
        j = j + 1;
    }
    assert(list@.take(list.len() as int) =~= list@);
    out
}

} // verus!

verus! {

/// The newest edge among the first `k` into `node` with the given polarity.
pub open spec fn last_with_polarity(g: MechanismGraph, node: usize, pol: Polarity, k: int) -> Option<usize>
    decreases k,
{
    if k <= 0 {
        None
    } else if g.spec_ends()[k - 1].1 == node && g.spec_edges()[k - 1].polarity == Some(pol) {
        Some((k - 1) as usize)
    } else {
        last_with_polarity(g, node, pol, k - 1)
    }
}

/// The first edge of a newest-first list with the given polarity.
pub open spec fn first_with_polarity(g: MechanismGraph, list: Seq<(usize, usize)>, pol: Polarity) -> Option<usize>
    decreases list.len(),
{
    if list.len() == 0 {
        None
    } else if g.spec_edges()[list[0].1 as int].polarity == Some(pol) {
        Some(list[0].1)
    } else {
        first_with_polarity(g, list.drop_first(), pol)
    }
}

proof fn lemma_first_is_last(g: MechanismGraph, node: usize, pol: Polarity, k: int)
    requires
        g.wf(),
        0 <= k <= g.spec_edges().len(),
    ensures
        first_with_polarity(g, crate::graph::incoming_rev(g.spec_ends(), node, k), pol) == last_with_polarity(g, node, pol, k),
    decreases k,
{
    if k > 0 {
        lemma_first_is_last(g, node, pol, k - 1);
        let rest = crate::graph::incoming_rev(g.spec_ends(), node, k - 1);
        if g.spec_ends()[k - 1].1 == node {
            let l = seq![(g.spec_ends()[k - 1].0, (k - 1) as usize)] + rest;
            assert(l.drop_first() =~= rest);
        }
    }
}

/// The contradiction candidate of a node: its newest positive and newest
/// negative incoming edges, when both exist.
pub open spec fn contra_of(g: MechanismGraph, node: usize) -> Seq<CandidateV> {
    let k = g.spec_edges().len() as int;
    match (last_with_polarity(g, node, Polarity::Positive, k), last_with_polarity(g, node, Polarity::Negative, k)) {
        (Some(p), Some(q)) => seq![
            CandidateV {
                operator: Operator::Contradiction,
                source_nodes: seq![g.spec_nodes()[node as int].id],
                edges: seq![p, q],
                controllable: None,
                kpi: g.spec_nodes()[node as int].id,
                trace: claims_of(g, seq![p, q]),
                is_gap: false,
                n_partial_matches: 0,
                forced_status: None,
            },
        ],
        _ => Seq::empty(),
    }
}

/// Contradiction candidates of all nodes, in node order.
pub open spec fn contradiction_spec(g: MechanismGraph) -> Seq<CandidateV> {
    Seq::new(g.spec_nodes().len(), |i: int| contra_of(g, i as usize)).flatten()
}

/// Two edges into one node with opposite polarity: a hypothesis about the
/// boundary condition under which the effect changes sign.
pub fn contradiction(g: &MechanismGraph) -> (r: Vec<Candidate>)
    requires
        g.wf(),
    ensures
        cand_views(r@) == contradiction_spec(*g),
{
    let ghost all = Seq::new(g.spec_nodes().len(), |i: int| contra_of(*g, i as usize));
    let n = g.node_count();
    let mut out: Vec<Candidate> = Vec::new();
    let mut node: usize = 0;
    while node < n
        invariant
            g.wf(),
            n == g.spec_nodes().len(),
            all == Seq::new(g.spec_nodes().len(), |i: int| contra_of(*g, i as usize)),
            node <= n,
            cand_views(out@) == all.take(node as int).flatten(),
        decreases n - node,
    {
        let list = g.incoming_edges(node);
        let ghost k = g.spec_edges().len() as int;
        let mut pos: Option<usize> = None;
        let mut neg: Option<usize> = None;
        proof {
            crate::graph::lemma_incoming_rev_bounds(g.spec_ends(), node, k);
            assert(list@.skip(0) =~= list@);
        }
        let mut t: usize = 0;
        while t < list.len()
            invariant
                g.wf(),
                list@ == crate::graph::incoming_rev(g.spec_ends(), node, k),
                k == g.spec_edges().len(),
                t <= list.len(),
                forall|s: int| 0 <= s < list@.len() ==> (#[trigger] list@[s]).1 < k,
                pos matches Some(p) ==> p < k,
                neg matches Some(p) ==> p < k,
                first_with_polarity(*g, list@, Polarity::Positive) == (match pos {
                    Some(p) => Some(p),
                    None => first_with_polarity(*g, list@.skip(t as int), Polarity::Positive),
                }),
                first_with_polarity(*g, list@, Polarity::Negative) == (match neg {
                    Some(p) => Some(p),
                    None => first_with_polarity(*g, list@.skip(t as int), Polarity::Negative),
                }),
            decreases list.len() - t,
        {
            let (_, e) = list[t];
            let ghost rest = list@.skip(t as int);
            assert(rest[0] == list@[t as int]);
            assert(rest.drop_first() =~= list@.skip(t + 1));
            let p = g.edge(e).polarity;
            match p {
                Some(Polarity::Positive) => {
                    if pos.is_none() {
                        pos = Some(e);
                    }
                },
                Some(Polarity::Negative) => {
                    if neg.is_none() {
                        neg = Some(e);
                    }
                },
                _ => {},
            }
            t = t + 1;
        }
        proof {
            lemma_first_is_last(*g, node, Polarity::Positive, k);
            lemma_first_is_last(*g, node, Polarity::Negative, k);
            assert(list@.skip(list@.len() as int) =~= Seq::<(usize, usize)>::empty());
            assert(all.take(node + 1) =~= all.take(node as int).push(all[node as int]));
            all.take(node as int).lemma_flatten_push(all[node as int]);
        }
        let ghost before = cand_views(out@);
        match (pos, neg) {
            (Some(p), Some(q)) => {
                let mut edges: Vec<usize> = Vec::new();
                edges.push(p);
                edges.push(q);
                assert(edges@ =~= seq![p, q]);
                let trace = g.claims_on_edges(edges.as_slice());
                let id = g.weight(node).id.clone();
                let mut source_nodes: Vec<String> = Vec::new();
                source_nodes.push(id.clone());
                assert(views(source_nodes@) =~= seq![id@]);
                let c = Candidate {
                    operator: Operator::Contradiction,
                    source_nodes,
                    edges,
                    controllable: None,
                    kpi: id,
                    trace,
                    is_gap: false,
                    n_partial_matches: 0,
                    forced_status: None,
                };
                let ghost cv = c@;
                out.push(c);
                assert(cand_views(out@) =~= before + seq![cv]);
                assert(seq![cv] =~= contra_of(*g, node));
            },
            _ => {
                assert(contra_of(*g, node) =~= Seq::<CandidateV>::empty());
                assert(before + contra_of(*g, node) =~= before);
            },
        }
        node = node + 1;
    }
    assert(all.take(n as int) =~= all);
    out
}

/// Analogy transfer: a node whose tags mirror another's but lacks a confirmed
/// path takes over its mechanism. It needs analogy tags in the data, which
/// no pack provides yet, so it yields nothing.
pub fn analogy_transfer(g: &MechanismGraph) -> (r: Vec<Candidate>)
    ensures
        r@.len() == 0,
{
    Vec::new()
}

} // verus!

verus! {

/// The mechanism-path candidates of all KPI nodes, by KPI id.
pub open spec fn levers_spec(g: MechanismGraph, excluded: Seq<Seq<char>>, pack: DomainPack) -> Seq<CandidateV> {
    if spec_operator_enabled(pack, "mechanism_path"@) {
        tagged_sorted(g, "kpi"@).map_values(|k: usize| lever_cands_for(g, k, excluded)).flatten()
    } else {
        Seq::empty()
    }
}

/// Substitution candidates of every mechanism-path candidate, in order.
pub open spec fn substitution_spec(g: MechanismGraph, excluded: Seq<Seq<char>>, pack: DomainPack) -> Seq<CandidateV> {
    if spec_operator_enabled(pack, "substitution"@) {
        levers_spec(g, excluded, pack).map_values(|b: CandidateV| subs_of(g, b, excluded)).flatten()
    } else {
        Seq::empty()
    }
}

/// Gap candidates of the KPI nodes, by KPI id.
pub open spec fn gap_spec(g: MechanismGraph, excluded: Seq<Seq<char>>, pack: DomainPack) -> Seq<CandidateV> {
    if spec_operator_enabled(pack, "gap"@) && spec_operator_enabled(pack, "mechanism_path"@) {
        tagged_sorted(g, "kpi"@).map_values(|k: usize| gap_of(g, k, lever_cands_for(g, k, excluded))).flatten()
    } else {
        Seq::empty()
    }
}

/// All candidates: substitutions, gaps, contradictions (when the pack
/// enables each), uncovered constraints (always), then mechanism paths.
pub open spec fn generate_spec(g: MechanismGraph, excluded: Seq<Seq<char>>, pack: DomainPack) -> Seq<CandidateV> {
    let contra = if spec_operator_enabled(pack, "contradiction"@) {
        contradiction_spec(g)
    } else {
        Seq::empty()
    };
    substitution_spec(g, excluded, pack) + gap_spec(g, excluded, pack) + contra + uncovered_spec(g)
        + levers_spec(g, excluded, pack)
}

/// Runs the generic operators over the graph and returns the raw candidates.
pub fn generate<V>(graph: &MechanismGraph, contract: &KpiContract<V>, pack: &DomainPack) -> (r: Vec<Candidate>)
    requires
        graph.wf(),
    ensures
        cand_views(r@) == generate_spec(*graph, views(contract.excluded_factors@), *pack),
{
    let excluded = &contract.excluded_factors;
    let ghost x = views(excluded@);
    let mech = pack.operator_enabled("mechanism_path");
    let gap_on = pack.operator_enabled("gap");
    let mut levers: Vec<Candidate> = Vec::new();
    let mut gaps: Vec<Candidate> = Vec::new();
    if mech {
        let kpis = graph.nodes_with_tag("kpi");
        let ghost lf = |k: usize| lever_cands_for(*graph, k, x);
        let ghost gf = |k: usize| gap_of(*graph, k, lever_cands_for(*graph, k, x));
        let mut ki: usize = 0;
        while ki < kpis.len()
            invariant
                graph.wf(),
                x == views(excluded@),
                excluded == &contract.excluded_factors,
                lf == (|k: usize| lever_cands_for(*graph, k, x)),
                gf == (|k: usize| gap_of(*graph, k, lever_cands_for(*graph, k, x))),
                crate::graph::is_tagged_sorted(graph.spec_nodes(), "kpi"@, kpis@),
                kpis@ == tagged_sorted(*graph, "kpi"@),
                ki <= kpis.len(),
                cand_views(levers@) == kpis@.take(ki as int).map_values(lf).flatten(),
                gap_on ==> cand_views(gaps@) == kpis@.take(ki as int).map_values(gf).flatten(),
                !gap_on ==> gaps@.len() == 0,
                forall|k: int, t: int|
                    0 <= k < levers@.len() && 0 <= t < levers@[k].edges@.len() ==> #[trigger] levers@[k].edges@[t]
                        < graph.spec_edges().len(),
            decreases kpis.len() - ki,
        {
            let kpi = kpis[ki];
            assert(kpis@.contains(kpi));
            let local = lever_candidates(graph, kpi, excluded);
            proof {
                let pre = kpis@.take(ki as int);
                assert(kpis@.take(ki + 1) =~= pre.push(kpi));
                pre.lemma_push_map_commute(lf, kpi);
                pre.lemma_push_map_commute(gf, kpi);
                pre.map_values(lf).lemma_flatten_push(lf(kpi));
                pre.map_values(gf).lemma_flatten_push(gf(kpi));
            }
            if gap_on {
                let gc = gap_candidate(graph, kpi, &local);
                append_cands(&mut gaps, gc);
            }
            let ghost lv = levers@;
            let ghost loc = local@;
            append_cands(&mut levers, local);
            assert(levers@ =~= lv + loc);
            assert forall|k: int, t: int|
                0 <= k < levers@.len() && 0 <= t < levers@[k].edges@.len() implies #[trigger] levers@[k].edges@[t]
                    < graph.spec_edges().len() by {
                if k >= lv.len() {
                    assert(levers@[k] == loc[k - lv.len()]);
                }
            }
            ki = ki + 1;
        }
        assert(kpis@.take(kpis.len() as int) =~= kpis@);
    }
    proof {
        if !mech {
            assert(cand_views(levers@) =~= levers_spec(*graph, x, *pack));
            assert(cand_views(gaps@) =~= gap_spec(*graph, x, *pack));
        } else if !gap_on {
            assert(cand_views(gaps@) =~= gap_spec(*graph, x, *pack));
        }
    }
    let mut cands: Vec<Candidate> = Vec::new();
    if pack.operator_enabled("substitution") {
        let ghost sf = |b: CandidateV| subs_of(*graph, b, x);
        let ghost lvs = cand_views(levers@);
        let mut j: usize = 0;
        while j < levers.len()
            invariant
                graph.wf(),
                x == views(excluded@),
                excluded == &contract.excluded_factors,
                sf == (|b: CandidateV| subs_of(*graph, b, x)),
                lvs == cand_views(levers@),
                j <= levers.len(),
                cand_views(cands@) == lvs.take(j as int).map_values(sf).flatten(),
                forall|k: int, t: int|
                    0 <= k < levers@.len() && 0 <= t < levers@[k].edges@.len() ==> #[trigger] levers@[k].edges@[t]
                        < graph.spec_edges().len(),
            decreases levers.len() - j,
        {
            assert(forall|t: int| 0 <= t < levers@[j as int].edges@.len() ==> #[trigger] levers@[j as int].edges@[t] < graph.spec_edges().len());
            let subs = substitution_candidates(graph, &levers[j], excluded);
            proof {
                let pre = lvs.take(j as int);
                assert(lvs.take(j + 1) =~= pre.push(lvs[j as int]));
                pre.lemma_push_map_commute(sf, lvs[j as int]);
                pre.map_values(sf).lemma_flatten_push(sf(lvs[j as int]));
            }
            append_cands(&mut cands, subs);
            j = j + 1;
        }
        assert(lvs.take(levers.len() as int) =~= lvs);
    }
    let ghost after_subs = cand_views(cands@);
    assert(after_subs == substitution_spec(*graph, x, *pack));
    append_cands(&mut cands, gaps);
    if pack.operator_enabled("contradiction") {
        append_cands(&mut cands, contradiction(graph));
    }
    let ghost after_contra = cand_views(cands@);
    if pack.operator_enabled("analogy_transfer") {
        let a = analogy_transfer(graph);
        append_cands(&mut cands, a);
        assert(cand_views(cands@) =~= after_contra);
    }
    append_cands(&mut cands, uncovered_constraints(graph));
    append_cands(&mut cands, levers);
    assert(cand_views(cands@) =~= generate_spec(*graph, x, *pack));
    cands
}

/// A candidate does not rest on an excluded node: its lever is not excluded,
/// and a mechanism-path, substitution or gap candidate names no excluded node.
pub open spec fn clean(c: CandidateV, excluded: Seq<Seq<char>>) -> bool {
    &&& (c.controllable matches Some(f) ==> !excluded.contains(f))
    &&& (c.operator == Operator::MechanismPath || c.operator == Operator::Substitution || c.operator
        == Operator::Gap) ==> forall|t: int| 0 <= t < c.source_nodes.len() ==> !excluded.contains(
        #[trigger] c.source_nodes[t],
    )
}

/// No candidate rests on an excluded node.
pub open spec fn all_clean(cs: Seq<CandidateV>, excluded: Seq<Seq<char>>) -> bool {
    forall|i: int| 0 <= i < cs.len() ==> clean(#[trigger] cs[i], excluded)
}

/// A mechanism-path candidate that names no excluded node and ends at its KPI.
pub open spec fn clean_lever(c: CandidateV, excluded: Seq<Seq<char>>) -> bool {
    &&& c.operator == Operator::MechanismPath
    &&& clean(c, excluded)
    &&& c.source_nodes.len() > 0
    &&& c.source_nodes.last() == c.kpi
    &&& c.controllable matches Some(f) && c.source_nodes[0] == f
}

proof fn lemma_flatten_clean(ss: Seq<Seq<CandidateV>>, excluded: Seq<Seq<char>>)
    requires
        forall|j: int| 0 <= j < ss.len() ==> all_clean(#[trigger] ss[j], excluded),
    ensures
        all_clean(ss.flatten(), excluded),
    decreases ss.len(),
{
    if ss.len() > 0 {
        let rest = ss.drop_first();
        assert forall|j: int| 0 <= j < rest.len() implies all_clean(#[trigger] rest[j], excluded) by {
            assert(rest[j] == ss[j + 1]);
        }
        lemma_flatten_clean(rest, excluded);
        let a = ss.first();
        let b = rest.flatten();
        assert(all_clean(a, excluded)) by {
            assert(a == ss[0]);
        }
        assert forall|i: int| 0 <= i < (a + b).len() implies clean(#[trigger] (a + b)[i], excluded) by {
            if i < a.len() {
                assert((a + b)[i] == a[i]);
            } else {
                assert((a + b)[i] == b[i - a.len()]);
            }
        }
    }
}

proof fn lemma_lever_cands_clean(g: MechanismGraph, k: usize, excluded: Seq<Seq<char>>)
    requires
        g.wf(),
    ensures
        forall|i: int| 0 <= i < lever_cands_for(g, k, excluded).len() ==> {
            &&& clean_lever(#[trigger] lever_cands_for(g, k, excluded)[i], excluded)
            &&& lever_cands_for(g, k, excluded)[i].kpi == g.spec_nodes()[k as int].id
        },
{
    let ns = g.spec_nodes();
    let keep = path_kept(ns, excluded);
    let paths = kpi_paths(g, k);
    let kept = paths.filter(keep);
    let cs = lever_cands_for(g, k, excluded);
    crate::graph::lemma_enumerate_paths_sound(g, k, mechanism_edges(), "controllable"@);
    assert forall|i: int| 0 <= i < cs.len() implies {
        &&& clean_lever(#[trigger] cs[i], excluded)
        &&& cs[i].kpi == ns[k as int].id
    } by {
        let p = kept[i];
        paths.lemma_filter_pred(keep, i);
        assert(kept.contains(p));
        paths.lemma_filter_contains_rev(keep, p);
        assert(crate::graph::is_tag_path(g, mechanism_edges(), "controllable"@, k, p));
        let c = cs[i];
        assert(c == (lever_cand(g, k))(p));
        let ids = ids_at(ns, p.0);
        assert(c.source_nodes == ids);
        assert forall|t: int| 0 <= t < c.source_nodes.len() implies !excluded.contains(#[trigger] c.source_nodes[t]) by {
            assert(ids[t] == ns[p.0[t] as int].id);
        }
        assert(ids[0] == ns[p.0[0] as int].id);
        assert(ids[ids.len() - 1] == ns[p.0[p.0.len() - 1] as int].id);
    }
}

proof fn lemma_levers_clean(g: MechanismGraph, excluded: Seq<Seq<char>>, pack: DomainPack)
    requires
        g.wf(),
    ensures
        forall|i: int| 0 <= i < levers_spec(g, excluded, pack).len() ==> clean_lever(
            #[trigger] levers_spec(g, excluded, pack)[i],
            excluded,
        ),
{
    if spec_operator_enabled(pack, "mechanism_path"@) {
        let ks = tagged_sorted(g, "kpi"@);
        let ss = ks.map_values(|k: usize| lever_cands_for(g, k, excluded));
        let pred = |c: CandidateV| clean_lever(c, excluded);
        assert forall|j: int, i: int| 0 <= j < ss.len() && 0 <= i < ss[j].len() implies pred(#[trigger] ss[j][i]) by {
            lemma_lever_cands_clean(g, ks[j], excluded);
            assert(ss[j] == lever_cands_for(g, ks[j], excluded));
        }
        lemma_flatten_pred(ss, pred);
    }
}

proof fn lemma_flatten_pred(ss: Seq<Seq<CandidateV>>, pred: spec_fn(CandidateV) -> bool)
    requires
        forall|j: int, i: int| 0 <= j < ss.len() && 0 <= i < ss[j].len() ==> pred(#[trigger] ss[j][i]),
    ensures
        forall|i: int| 0 <= i < ss.flatten().len() ==> pred(#[trigger] ss.flatten()[i]),
    decreases ss.len(),
{
    if ss.len() > 0 {
        let rest = ss.drop_first();
        assert forall|j: int, i: int| 0 <= j < rest.len() && 0 <= i < rest[j].len() implies pred(#[trigger] rest[j][i]) by {
            assert(rest[j] == ss[j + 1]);
        }
        lemma_flatten_pred(rest, pred);
        let a = ss.first();
        let b = rest.flatten();
        assert forall|i: int| 0 <= i < (a + b).len() implies pred(#[trigger] (a + b)[i]) by {
            if i < a.len() {
                assert((a + b)[i] == a[i]);
                assert(a == ss[0]);
            } else {
                assert((a + b)[i] == b[i - a.len()]);
            }
        }
    }
}

proof fn lemma_subs_clean(g: MechanismGraph, excluded: Seq<Seq<char>>, pack: DomainPack)
    requires
        g.wf(),
    ensures
        all_clean(substitution_spec(g, excluded, pack), excluded),
{
    lemma_levers_clean(g, excluded, pack);
    let ns = g.spec_nodes();
    let lv = levers_spec(g, excluded, pack);
    // substitutions: the new factor is kept, the rest is a clean lever path
    if spec_operator_enabled(pack, "substitution"@) {
        let ss = lv.map_values(|b: CandidateV| subs_of(g, b, excluded));
        assert forall|j: int| 0 <= j < ss.len() implies all_clean(#[trigger] ss[j], excluded) by {
            let b = lv[j];
            assert(clean_lever(b, excluded));
            assert(ss[j] == subs_of(g, b, excluded));
            if let Some(c) = b.controllable {
                if has_id(ns, c) {
                    let l = incoming_sorted(g, index_of(ns, c) as usize, seq![EdgeType::Substitution]);
                    let kept = l.filter(sub_kept(ns, excluded));
                    assert forall|i: int| 0 <= i < ss[j].len() implies clean(#[trigger] ss[j][i], excluded) by {
                        l.lemma_filter_pred(sub_kept(ns, excluded), i);
                        let e = kept[i];
                        let c2 = ss[j][i];
                        assert(c2 == (sub_cand(g, b))(e));
                        assert forall|t: int| 0 <= t < c2.source_nodes.len() implies !excluded.contains(#[trigger] c2.source_nodes[t]) by {
                            if t > 0 {
                                assert(c2.source_nodes[t] == b.source_nodes[t - 1]);
                            }
                        }
                    }
                }
            }
        }
        lemma_flatten_clean(ss, excluded);
    }
}

proof fn lemma_gaps_clean(g: MechanismGraph, excluded: Seq<Seq<char>>, pack: DomainPack)
    requires
        g.wf(),
    ensures
        all_clean(gap_spec(g, excluded, pack), excluded),
{
    let ns = g.spec_nodes();
    // gaps: their factors are levers of kept paths, their KPI ends such a path
    if spec_operator_enabled(pack, "gap"@) && spec_operator_enabled(pack, "mechanism_path"@) {
        let ks = tagged_sorted(g, "kpi"@);
        let ss = ks.map_values(|k: usize| gap_of(g, k, lever_cands_for(g, k, excluded)));
        assert forall|j: int| 0 <= j < ss.len() implies all_clean(#[trigger] ss[j], excluded) by {
            let k = ks[j];
            let group = lever_cands_for(g, k, excluded);
            assert(ss[j] == gap_of(g, k, group));
            lemma_lever_cands_clean(g, k, excluded);
            let gf = group_factor(group);
            let factors = sorted_set(gf);
            if factors.len() >= 2 {
                let cover = Seq::new(group.len(), |t: int| group[t].source_nodes[0]);
                assert forall|f: Seq<char>| #[trigger] gf(f) implies cover.contains(f) by {
                    let t = choose|t: int| 0 <= t < group.len() && #[trigger] group[t].controllable == Some(f);
                    assert(clean_lever(group[t], excluded));
                    assert(cover[t] == f);
                }
                crate::sorting::lemma_sorted_set_exists(gf, cover);
                assert(factors.contains(factors[0]));
                assert(gf(factors[0]));
                let t0 = choose|t: int| 0 <= t < group.len() && #[trigger] group[t].controllable == Some(factors[0]);
                let g0 = group[t0];
                assert(clean_lever(g0, excluded));
                let c = ss[j][0];
                assert forall|t: int| 0 <= t < c.source_nodes.len() implies !excluded.contains(#[trigger] c.source_nodes[t]) by {
                    if t < factors.len() {
                        assert(c.source_nodes[t] == factors[t]);
                        assert(factors.contains(factors[t]));
                        assert(gf(factors[t]));
                        let u = choose|u: int| 0 <= u < group.len() && #[trigger] group[u].controllable == Some(factors[t]);
                        assert(clean_lever(group[u], excluded));
                    } else {
                        assert(c.source_nodes[t] == ns[k as int].id);
                        assert(g0.source_nodes[g0.source_nodes.len() - 1] == g0.kpi);
                    }
                }
            }
        }
        lemma_flatten_clean(ss, excluded);
    }
}

/// Excluded factors drop every path through them: no generated candidate
/// has an excluded factor as its lever, and no mechanism-path, substitution
/// or gap candidate names an excluded node (contradiction and
/// uncovered-constraint candidates are not filtered).
pub proof fn lemma_excluded_never_used(g: MechanismGraph, excluded: Seq<Seq<char>>, pack: DomainPack)
    requires
        g.wf(),
    ensures
        all_clean(generate_spec(g, excluded, pack), excluded),
{
    lemma_levers_clean(g, excluded, pack);
    let lv = levers_spec(g, excluded, pack);
    let sub = substitution_spec(g, excluded, pack);
    let gap = gap_spec(g, excluded, pack);
    let contra = if spec_operator_enabled(pack, "contradiction"@) {
        contradiction_spec(g)
    } else {
        Seq::empty()
    };
    let unc = uncovered_spec(g);
    assert(all_clean(lv, excluded));
    lemma_subs_clean(g, excluded, pack);
    lemma_gaps_clean(g, excluded, pack);
    if spec_operator_enabled(pack, "contradiction"@) {
        let ss = Seq::new(g.spec_nodes().len(), |i: int| contra_of(g, i as usize));
        assert forall|j: int| 0 <= j < ss.len() implies all_clean(#[trigger] ss[j], excluded) by {
            assert(ss[j] == contra_of(g, j as usize));
        }
        lemma_flatten_clean(ss, excluded);
    }
    assert(all_clean(unc, excluded));
    let all = sub + gap + contra + unc + lv;
    assert(generate_spec(g, excluded, pack) == all);
    assert forall|i: int| 0 <= i < all.len() implies clean(#[trigger] all[i], excluded) by {
        let n1 = sub.len() as int;
        let n2 = n1 + gap.len();
        let n3 = n2 + contra.len();
        let n4 = n3 + unc.len();
        if i < n1 {
            assert(all[i] == sub[i]);
        } else if i < n2 {
            assert(all[i] == gap[i - n1]);
        } else if i < n3 {
            assert(all[i] == contra[i - n2]);
        } else if i < n4 {
            assert(all[i] == unc[i - n3]);
        } else {
            assert(all[i] == lv[i - n4]);
        }
    }
}

/// The status an operator forces: gap and uncovered-constraint hypotheses
/// always go to an expert; the others force nothing.
pub open spec fn forced_by(c: CandidateV) -> bool {
    c.forced_status == (if c.operator == Operator::Gap || c.operator == Operator::UncoveredConstraint {
        Some(Status::NeedsExpertReview)
    } else {
        None
    })
}

/// A gap candidate exists only when two or more distinct factors reach the
/// KPI; it then stands alone, names those factors and the KPI, names no
/// lever, and always goes to an expert.
pub proof fn lemma_gap_goes_to_expert(g: MechanismGraph, kpi: usize, group: Seq<CandidateV>)
    ensures
        gap_of(g, kpi, group).len() <= 1,
        gap_of(g, kpi, group).len() == 1 <==> sorted_set(group_factor(group)).len() >= 2,
        forall|i: int| 0 <= i < gap_of(g, kpi, group).len() ==> {
            &&& (#[trigger] gap_of(g, kpi, group)[i]).operator == Operator::Gap
            &&& gap_of(g, kpi, group)[i].forced_status == Some(Status::NeedsExpertReview)
            &&& gap_of(g, kpi, group)[i].controllable is None
            &&& gap_of(g, kpi, group)[i].source_nodes.len() == sorted_set(group_factor(group)).len() + 1
            &&& gap_of(g, kpi, group)[i].source_nodes.last() == g.spec_nodes()[kpi as int].id
        },
{
}

proof fn lemma_levers_forced(g: MechanismGraph, excluded: Seq<Seq<char>>, pack: DomainPack)
    ensures
        forall|i: int| 0 <= i < levers_spec(g, excluded, pack).len() ==> {
            &&& forced_by(#[trigger] levers_spec(g, excluded, pack)[i])
            &&& levers_spec(g, excluded, pack)[i].operator == Operator::MechanismPath
        },
{
    let pred = |c: CandidateV| forced_by(c) && c.operator == Operator::MechanismPath;
    if spec_operator_enabled(pack, "mechanism_path"@) {
        let ks = tagged_sorted(g, "kpi"@);
        let ss = ks.map_values(|k: usize| lever_cands_for(g, k, excluded));
        assert forall|j: int, i: int| 0 <= j < ss.len() && 0 <= i < ss[j].len() implies pred(#[trigger] ss[j][i]) by {
            let k = ks[j];
            assert(ss[j] == lever_cands_for(g, k, excluded));
            let kept = kpi_paths(g, k).filter(path_kept(g.spec_nodes(), excluded));
            assert(ss[j][i] == (lever_cand(g, k))(kept[i]));
        }
        lemma_flatten_pred(ss, pred);
        assert forall|i: int| 0 <= i < levers_spec(g, excluded, pack).len() implies pred(#[trigger] levers_spec(g, excluded, pack)[i]) by {
            assert(levers_spec(g, excluded, pack) == ss.flatten());
        }
    }
}

/// Every generated candidate carries the status its operator forces: gap
/// and uncovered-constraint hypotheses go to an expert, mechanism paths,
/// substitutions and contradictions force no status.
pub proof fn lemma_forced_status_by_operator(g: MechanismGraph, excluded: Seq<Seq<char>>, pack: DomainPack)
    ensures
        forall|i: int| 0 <= i < generate_spec(g, excluded, pack).len() ==> forced_by(
            #[trigger] generate_spec(g, excluded, pack)[i],
        ),
{
    let pred = |c: CandidateV| forced_by(c);
    lemma_levers_forced(g, excluded, pack);
    let lv = levers_spec(g, excluded, pack);
    let sub = substitution_spec(g, excluded, pack);
    let gap = gap_spec(g, excluded, pack);
    let contra = if spec_operator_enabled(pack, "contradiction"@) {
        contradiction_spec(g)
    } else {
        Seq::empty()
    };
    let unc = uncovered_spec(g);
    let ns = g.spec_nodes();
    if spec_operator_enabled(pack, "substitution"@) {
        let ss = lv.map_values(|b: CandidateV| subs_of(g, b, excluded));
        assert forall|j: int, i: int| 0 <= j < ss.len() && 0 <= i < ss[j].len() implies pred(#[trigger] ss[j][i]) by {
            let b = lv[j];
            assert(ss[j] == subs_of(g, b, excluded));
            if let Some(c) = b.controllable {
                if has_id(ns, c) {
                    let l = incoming_sorted(g, index_of(ns, c) as usize, seq![EdgeType::Substitution]);
                    let kept = l.filter(sub_kept(ns, excluded));
                    assert(ss[j][i] == (sub_cand(g, b))(kept[i]));
                }
            }
        }
        lemma_flatten_pred(ss, pred);
        assert(sub == ss.flatten());
    }
    if spec_operator_enabled(pack, "gap"@) && spec_operator_enabled(pack, "mechanism_path"@) {
        let ks = tagged_sorted(g, "kpi"@);
        let ss = ks.map_values(|k: usize| gap_of(g, k, lever_cands_for(g, k, excluded)));
        assert forall|j: int, i: int| 0 <= j < ss.len() && 0 <= i < ss[j].len() implies pred(#[trigger] ss[j][i]) by {
            assert(ss[j] == gap_of(g, ks[j], lever_cands_for(g, ks[j], excluded)));
        }
        lemma_flatten_pred(ss, pred);
        assert(gap == ss.flatten());
    }
    if spec_operator_enabled(pack, "contradiction"@) {
        let ss = Seq::new(g.spec_nodes().len(), |i: int| contra_of(g, i as usize));
        assert forall|j: int, i: int| 0 <= j < ss.len() && 0 <= i < ss[j].len() implies pred(#[trigger] ss[j][i]) by {
            assert(ss[j] == contra_of(g, j as usize));
        }
        lemma_flatten_pred(ss, pred);
        assert(contra == ss.flatten());
    }
    assert forall|i: int| 0 <= i < unc.len() implies pred(#[trigger] unc[i]) by {
        let cs = tagged_sorted(g, "constraint"@).filter(|i: usize| !has_evidenced_edge(g, i));
        assert(unc[i] == (uncovered_cand(g))(cs[i]));
    }
    let all = sub + gap + contra + unc + lv;
    assert(generate_spec(g, excluded, pack) == all);
    assert forall|i: int| 0 <= i < all.len() implies pred(#[trigger] all[i]) by {
        let n1 = sub.len() as int;
        let n2 = n1 + gap.len();
        let n3 = n2 + contra.len();
        let n4 = n3 + unc.len();
        if i < n1 {
            assert(all[i] == sub[i]);
        } else if i < n2 {
            assert(all[i] == gap[i - n1]);
        } else if i < n3 {
            assert(all[i] == contra[i - n2]);
        } else if i < n4 {
            assert(all[i] == unc[i - n3]);
        } else {
            assert(all[i] == lv[i - n4]);
        }
    }
}

} // verus!
