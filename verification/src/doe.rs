//! A generic design-of-experiments plan built from the labels of a
//! candidate's path nodes; no domain words, everything comes from labels.

use vstd::prelude::*;

use crate::contracts::{DoePlan, DoePlanV};
use crate::discover::{controllable_labels, id_tagged, label_of, node_label, spec_node_label};
use crate::graph::MechanismGraph;
use crate::operators::{Candidate, CandidateV};
use crate::strings::{owned, views};

verus! {

/// `s` with runs of equal neighbours reduced to one (`Vec::dedup`).
pub open spec fn dedup_runs(s: Seq<Seq<char>>) -> Seq<Seq<char>>
    decreases s.len(),
{
    if s.len() <= 1 {
        s
    } else {
        let r = dedup_runs(s.drop_last());
        if s.last() == s[s.len() - 2] {
            r
        } else {
            r.push(s.last())
        }
    }
}

proof fn lemma_dedup_last(s: Seq<Seq<char>>)
    requires
        s.len() > 0,
    ensures
        dedup_runs(s).len() > 0,
        dedup_runs(s).last() == s.last(),
    decreases s.len(),
{
    if s.len() > 1 {
        lemma_dedup_last(s.drop_last());
    }
}

/// Labels of the candidate's source nodes that stand for KPI proxies.
pub open spec fn proxy_labels(g: MechanismGraph, c: CandidateV) -> Seq<Seq<char>> {
    c.source_nodes.filter(id_tagged(g, "kpi_proxy"@)).map_values(label_of(g))
}

/// The plan: the objective names the KPI; the factors are the controllable
/// labels (or the KPI itself when there are none); the measurements are the
/// KPI, its proxies on the path and the cost delta, without repeated
/// neighbours; at least three runs per factor.
pub open spec fn spec_plan(g: MechanismGraph, c: CandidateV) -> DoePlanV {
    let kpi_label = spec_node_label(g, c.kpi);
    let factors = controllable_labels(g, c);
    let n_factors: nat = if factors.len() > 1 { factors.len() } else { 1 };
    DoePlanV {
        objective: "Validate the effect on "@ + kpi_label + " for the proposed change."@,
        factors: if factors.len() == 0 {
            seq![kpi_label]
        } else {
            factors
        },
        measurements: dedup_runs(seq![kpi_label] + proxy_labels(g, c) + seq!["cost delta"@]),
        minimum_runs: (3 * n_factors) as u32,
    }
}

/// Appends `x` unless it equals the last element.
fn push_dedup(v: &mut Vec<String>, x: String)
    ensures
        views(final(v)@) == (if views(old(v)@).len() > 0 && views(old(v)@).last() == x@ {
            views(old(v)@)
        } else {
            views(old(v)@).push(x@)
        }),
{
    let n = v.len();
    if n > 0 && crate::strings::str_eq(v[n - 1].as_str(), x.as_str()) {
        return;
    }
    let ghost before = views(v@);
    v.push(x);
    assert(views(v@) =~= before.push(x@));
}

/// The experiment plan of a candidate.
pub fn plan(g: &MechanismGraph, c: &Candidate) -> (r: DoePlan)
    requires
        g.wf(),
        c.source_nodes@.len() < usize::MAX / 3,
    ensures
        r@ == spec_plan(*g, c@),
        r.factors@.len() >= 1,
        r.minimum_runs == (3 * r.factors@.len()) as u32,
        controllable_labels(*g, c@).len() > 0 ==> r@.factors == controllable_labels(*g, c@),
        controllable_labels(*g, c@).len() == 0 ==> r.factors@.len() == 1,
{
    let kpi_label = node_label(g, c.kpi.as_str());
    let factors = crate::discover::controllable_label_list(g, c);
    // measurements: kpi label, proxies, "cost delta", then runs collapsed
    let ghost keep = id_tagged(*g, "kpi_proxy"@);
    let ghost lab = label_of(*g);
    let ghost sn = views(c.source_nodes@);
    let ghost all = seq![kpi_label@] + proxy_labels(*g, c@) + seq!["cost delta"@];
    let mut measurements: Vec<String> = Vec::new();
    measurements.push(kpi_label.clone());
    let ghost mut raw: Seq<Seq<char>> = seq![kpi_label@];
    assert(views(measurements@) =~= dedup_runs(raw));
    let mut i: usize = 0;
    while i < c.source_nodes.len()
        invariant
            g.wf(),
            keep == id_tagged(*g, "kpi_proxy"@),
            lab == label_of(*g),
            sn == views(c.source_nodes@),
            i <= c.source_nodes.len(),
            raw == seq![kpi_label@] + sn.take(i as int).filter(keep).map_values(lab),
            views(measurements@) == dedup_runs(raw),
        decreases c.source_nodes.len() - i,
    {
        let ghost id = sn[i as int];
        proof {
            assert(sn.take(i + 1) =~= sn.take(i as int).push(id));
            sn.take(i as int).lemma_filter_push(id, keep);
        }
        match g.node(c.source_nodes[i].as_str()) {
            Some(n) => {
                if n.has_tag("kpi_proxy") {
                    let ghost raw0 = raw;
                    proof {
                        sn.take(i as int).filter(keep).lemma_push_map_commute(lab, id);
                        raw = raw.push(lab(id));
                        assert(raw =~= seq![kpi_label@] + sn.take(i + 1).filter(keep).map_values(lab));
                        assert(raw.drop_last() =~= raw0);
                        lemma_dedup_last(raw0);
                    }
                    push_dedup(&mut measurements, n.label.clone());
                }
            },
            None => {},
        }
        i = i + 1;
    }
    assert(sn.take(c.source_nodes.len() as int) =~= sn);
    let ghost raw0 = raw;
    proof {
        raw = raw.push("cost delta"@);
        assert(raw =~= all);
        assert(raw.drop_last() =~= raw0);
        lemma_dedup_last(raw0);
    }
    push_dedup(&mut measurements, owned("cost delta"));
    assert(factors@.len() <= c.source_nodes@.len()) by {
        sn.lemma_filter_len(id_tagged(*g, "controllable"@));
        assert(views(factors@).len() == factors@.len());
    }
    let n_factors: usize = if factors.len() > 1 { factors.len() } else { 1 };
    let objective = crate::strings::concat3("Validate the effect on ", kpi_label.as_str(), " for the proposed change.");
    let factors_out = if factors.len() == 0 {
        let mut v: Vec<String> = Vec::new();
        v.push(kpi_label);
        assert(views(v@) =~= seq![spec_node_label(*g, c@.kpi)]);
        v
    } else {
        factors
    };
    DoePlan { objective, factors: factors_out, measurements, minimum_runs: (3 * n_factors) as u32 }
}

/// Every plan asks for three runs per factor it lists, and lists the
/// candidate's controllable factors, or the KPI alone when it has none: so
/// at least three runs, and three times the number of controllable factors
/// when there are any.
pub proof fn lemma_three_runs_per_factor(g: MechanismGraph, c: CandidateV)
    ensures
        spec_plan(g, c).minimum_runs == (3 * spec_plan(g, c).factors.len()) as u32,
        spec_plan(g, c).factors.len() == (if controllable_labels(g, c).len() > 0 {
            controllable_labels(g, c).len()
        } else {
            1
        }),
        controllable_labels(g, c).len() > 0 ==> spec_plan(g, c).factors == controllable_labels(g, c),
{
}

} // verus!
