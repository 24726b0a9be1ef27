//! The benchmark against the experts' reference hypotheses. A hypothesis
//! matches an expert hypothesis of the same factory when the lever type and
//! the diagnosis agree. Greedily, in board order, each hypothesis takes the
//! first fitting expert not yet taken (else the first fitting one), so that
//! the coverage of the experts is measured honestly.

use vstd::prelude::*;

use crate::contracts::{node_views, GraphNode, GraphNodeV};
use crate::platform::lookup::{diagnosis_of, hyp_diagnosis, hyp_lever, lever_type_of};
use crate::platform::rerun::{is_first_fail, lemma_prefix_len, prefix_len};
use crate::strings::views;

verus! {

/// A reference hypothesis of an expert.
#[derive(Debug)]
pub struct ExpertHypothesis {
    pub id: String,
    pub factory_id: String,
    pub lever_type: String,
    pub diagnosis_hint: String,
    pub text: String,
}

/// An expert hypothesis as plain values.
pub struct ExpertV {
    pub id: Seq<char>,
    pub factory_id: Seq<char>,
    pub lever_type: Seq<char>,
    pub diagnosis_hint: Seq<char>,
    pub text: Seq<char>,
}

impl View for ExpertHypothesis {
    type V = ExpertV;

    open spec fn view(&self) -> ExpertV {
        ExpertV {
            id: self.id@,
            factory_id: self.factory_id@,
            lever_type: self.lever_type@,
            diagnosis_hint: self.diagnosis_hint@,
            text: self.text@,
        }
    }
}

/// What the benchmark reads of a hypothesis: its id, title and source nodes.
#[derive(Debug)]
pub struct HypothesisKeys {
    pub id: String,
    pub title: String,
    pub source_nodes: Vec<String>,
}

/// The keys of a hypothesis as plain values.
pub struct HypothesisKeysV {
    pub id: Seq<char>,
    pub title: Seq<char>,
    pub source_nodes: Seq<Seq<char>>,
}

impl View for HypothesisKeys {
    type V = HypothesisKeysV;

    open spec fn view(&self) -> HypothesisKeysV {
        HypothesisKeysV { id: self.id@, title: self.title@, source_nodes: views(self.source_nodes@) }
    }
}

/// The expert hypothesis a hypothesis was matched with.
#[derive(Debug)]
pub struct ExpertMatch {
    pub matched: bool,
    pub expert_hypothesis_id: String,
}

/// A match in the report: the expert hypothesis first taken and who took it.
#[derive(Debug)]
pub struct BenchmarkMatch {
    pub expert_hypothesis_id: String,
    pub expert_text: String,
    pub hypothesis_id: String,
    pub hypothesis_title: String,
    pub lever_type: String,
    pub diagnosis: String,
}

/// A match as plain values.
pub struct MatchV {
    pub expert_hypothesis_id: Seq<char>,
    pub expert_text: Seq<char>,
    pub hypothesis_id: Seq<char>,
    pub hypothesis_title: Seq<char>,
    pub lever_type: Seq<char>,
    pub diagnosis: Seq<char>,
}

impl View for BenchmarkMatch {
    type V = MatchV;

    open spec fn view(&self) -> MatchV {
        MatchV {
            expert_hypothesis_id: self.expert_hypothesis_id@,
            expert_text: self.expert_text@,
            hypothesis_id: self.hypothesis_id@,
            hypothesis_title: self.hypothesis_title@,
            lever_type: self.lever_type@,
            diagnosis: self.diagnosis@,
        }
    }
}

/// The benchmark report of a factory: how many of its expert hypotheses were
/// matched, the coverage in tenths of a percent, the matches and the ids of
/// the expert hypotheses left unmatched.
#[derive(Debug)]
pub struct BenchmarkReport {
    pub factory_id: String,
    pub expert_total: usize,
    pub matched: usize,
    pub coverage_tenths: u64,
    pub matches: Vec<BenchmarkMatch>,
    pub unmatched_expert_ids: Vec<String>,
}

/// Whether an expert hypothesis fits a factory, lever type and diagnosis.
pub open spec fn fits(e: ExpertV, fid: Seq<char>, lt: Seq<char>, dg: Seq<char>) -> bool {
    e.factory_id == fid && e.lever_type == lt && e.diagnosis_hint == dg
}

/// Whether an expert hypothesis is not a fitting, untaken one.
pub open spec fn not_free_fit(fid: Seq<char>, lt: Seq<char>, dg: Seq<char>, claimed: Seq<Seq<char>>) -> spec_fn(ExpertV) -> bool {
    |e: ExpertV| !(fits(e, fid, lt, dg) && !claimed.contains(e.id))
}

/// Whether an expert hypothesis does not fit.
pub open spec fn not_fit(fid: Seq<char>, lt: Seq<char>, dg: Seq<char>) -> spec_fn(ExpertV) -> bool {
    |e: ExpertV| !fits(e, fid, lt, dg)
}

/// The expert hypothesis a hypothesis takes: the first fitting one whose id
/// is not taken yet, else the first fitting one.
pub open spec fn choose_expert(es: Seq<ExpertV>, fid: Seq<char>, lt: Seq<char>, dg: Seq<char>, claimed: Seq<Seq<char>>) -> Option<ExpertV> {
    let p = prefix_len(es, not_free_fit(fid, lt, dg, claimed)) as int;
    let q = prefix_len(es, not_fit(fid, lt, dg)) as int;
    if p < es.len() {
        Some(es[p])
    } else if q < es.len() {
        Some(es[q])
    } else {
        None
    }
}

/// The state of the greedy pass: the expert ids taken (in the order taken),
/// the report's matches, and the expert id each hypothesis got so far.
pub struct BenchStateV {
    pub claimed: Seq<Seq<char>>,
    pub matches: Seq<MatchV>,
    pub picks: Seq<Option<Seq<char>>>,
}

/// One step of the greedy pass, for hypothesis `h`.
pub open spec fn bench_step(st: BenchStateV, h: HypothesisKeysV, ns: Seq<GraphNodeV>, es: Seq<ExpertV>, fid: Seq<char>) -> BenchStateV {
    match (hyp_lever(ns, h.source_nodes), hyp_diagnosis(ns, h.source_nodes)) {
        (Some(lt), Some(dg)) => match choose_expert(es, fid, lt, dg, st.claimed) {
            Some(e) => if st.claimed.contains(e.id) {
                BenchStateV { picks: st.picks.push(Some(e.id)), ..st }
            } else {
                BenchStateV {
                    claimed: st.claimed.push(e.id),
                    matches: st.matches.push(
                        MatchV {
                            expert_hypothesis_id: e.id,
                            expert_text: e.text,
                            hypothesis_id: h.id,
                            hypothesis_title: h.title,
                            lever_type: lt,
                            diagnosis: dg,
                        },
                    ),
                    picks: st.picks.push(Some(e.id)),
                }
            },
            None => BenchStateV { picks: st.picks.push(None), ..st },
        },
        _ => BenchStateV { picks: st.picks.push(None), ..st },
    }
}

/// The greedy pass over hypotheses in board order.
pub open spec fn bench_run(hs: Seq<HypothesisKeysV>, ns: Seq<GraphNodeV>, es: Seq<ExpertV>, fid: Seq<char>) -> BenchStateV
    decreases hs.len(),
{
    if hs.len() == 0 {
        BenchStateV { claimed: Seq::empty(), matches: Seq::empty(), picks: Seq::empty() }
    } else {
        bench_step(bench_run(hs.drop_last(), ns, es, fid), hs.last(), ns, es, fid)
    }
}

/// Whether an expert hypothesis belongs to the factory.
pub open spec fn of_factory(fid: Seq<char>) -> spec_fn(ExpertV) -> bool {
    |e: ExpertV| e.factory_id == fid
}

/// Whether an expert hypothesis of the factory was left untaken.
pub open spec fn untaken(fid: Seq<char>, claimed: Seq<Seq<char>>) -> spec_fn(ExpertV) -> bool {
    |e: ExpertV| e.factory_id == fid && !claimed.contains(e.id)
}

/// The coverage in tenths of a percent, rounded half up; 0 without experts.
pub open spec fn coverage_tenths(matched: nat, total: nat) -> nat {
    if total == 0 {
        0
    } else {
        (2000 * matched + total) / (2 * total)
    }
}

/// Views of hypothesis keys.
pub open spec fn keys_views(s: Seq<HypothesisKeys>) -> Seq<HypothesisKeysV> {
    s.map_values(|h: HypothesisKeys| h@)
}

/// Views of expert hypotheses.
pub open spec fn expert_views(s: Seq<ExpertHypothesis>) -> Seq<ExpertV> {
    s.map_values(|e: ExpertHypothesis| e@)
}

/// The expert id of each match.
pub open spec fn pick_views(s: Seq<Option<ExpertMatch>>) -> Seq<Option<Seq<char>>> {
    s.map_values(|m: Option<ExpertMatch>| match m {
        Some(x) => Some(x.expert_hypothesis_id@),
        None => None,
    })
}

fn choose_expert_exec(es: &Vec<ExpertHypothesis>, fid: &str, lt: &str, dg: &str, claimed: &Vec<String>) -> (r: Option<usize>)
    ensures
        match r {
            Some(i) => i < es@.len() && choose_expert(expert_views(es@), fid@, lt@, dg@, views(claimed@)) == Some(es@[i as int]@),
            None => choose_expert(expert_views(es@), fid@, lt@, dg@, views(claimed@)) is None,
        },
{
    let ghost vs = expert_views(es@);
    let ghost cl = views(claimed@);
    let ghost k1 = not_free_fit(fid@, lt@, dg@, cl);
    let ghost k2 = not_fit(fid@, lt@, dg@);
    let mut first_fit: Option<usize> = None;
    let mut i: usize = 0;
    while i < es.len()
        invariant
            vs == expert_views(es@),
            cl == views(claimed@),
            k1 == not_free_fit(fid@, lt@, dg@, cl),
            k2 == not_fit(fid@, lt@, dg@),
            i <= es.len(),
            forall|t: int| 0 <= t < i ==> k1(#[trigger] vs[t]),
            match first_fit {
                Some(q) => q < i && is_first_fail(vs, k2, q as int),
                None => forall|t: int| 0 <= t < i ==> k2(#[trigger] vs[t]),
            },
        decreases es.len() - i,
    {
        let e = &es[i];
        let fit = crate::strings::str_eq(e.factory_id.as_str(), fid) && crate::strings::str_eq(
            e.lever_type.as_str(),
            lt,
        ) && crate::strings::str_eq(e.diagnosis_hint.as_str(), dg);
        assert(fit == fits(vs[i as int], fid@, lt@, dg@));
        if fit {
            if !crate::strings::contains_str(claimed, e.id.as_str()) {
                proof {
                    lemma_prefix_len(vs, k1, i as int);
                }
                return Some(i);
            }
            if first_fit.is_none() {
                first_fit = Some(i);
            }
        }
        i = i + 1;
    }
    proof {
        lemma_prefix_len(vs, k1, i as int);
        match first_fit {
            Some(q) => {
                lemma_prefix_len(vs, k2, q as int);
            },
            None => {
                lemma_prefix_len(vs, k2, i as int);
            },
        }
    }
    first_fit
}

/// Views of matches.
pub open spec fn match_views(s: Seq<BenchmarkMatch>) -> Seq<MatchV> {
    s.map_values(|m: BenchmarkMatch| m@)
}

/// The ids of expert hypotheses.
pub open spec fn expert_ids(s: Seq<ExpertV>) -> Seq<Seq<char>> {
    s.map_values(|e: ExpertV| e.id)
}

/// The greedy pass takes each expert id at most once, only ids of the
/// factory's expert hypotheses, records one match per id taken and one pick
/// per hypothesis; every pick names a fitting expert hypothesis of the factory.
pub proof fn lemma_bench_run(hs: Seq<HypothesisKeysV>, ns: Seq<GraphNodeV>, es: Seq<ExpertV>, fid: Seq<char>)
    ensures
        bench_run(hs, ns, es, fid).claimed.no_duplicates(),
        forall|c: Seq<char>| #[trigger] bench_run(hs, ns, es, fid).claimed.contains(c) ==> exists|j: int|
            0 <= j < es.len() && es[j].factory_id == fid && #[trigger] es[j].id == c,
        bench_run(hs, ns, es, fid).matches.len() == bench_run(hs, ns, es, fid).claimed.len(),
        bench_run(hs, ns, es, fid).picks.len() == hs.len(),
        forall|i: int| 0 <= i < hs.len() && #[trigger] bench_run(hs, ns, es, fid).picks[i] is Some ==> exists|j: int|
            0 <= j < es.len() && fits(
                es[j],
                fid,
                hyp_lever(ns, hs[i].source_nodes)->0,
                hyp_diagnosis(ns, hs[i].source_nodes)->0,
            ) && hyp_lever(ns, hs[i].source_nodes) is Some && hyp_diagnosis(ns, hs[i].source_nodes) is Some
                && Some(#[trigger] es[j].id) == bench_run(hs, ns, es, fid).picks[i],
    decreases hs.len(),
{
    if hs.len() > 0 {
        let d = hs.drop_last();
        lemma_bench_run(d, ns, es, fid);
        let st = bench_run(d, ns, es, fid);
        let h = hs.last();
        let st2 = bench_run(hs, ns, es, fid);
        assert forall|i: int| 0 <= i < d.len() implies #[trigger] hs[i] == d[i] by {}
        if let (Some(lt), Some(dg)) = (hyp_lever(ns, h.source_nodes), hyp_diagnosis(ns, h.source_nodes)) {
            let k1 = not_free_fit(fid, lt, dg, st.claimed);
            let k2 = not_fit(fid, lt, dg);
            let p = prefix_len(es, k1) as int;
            let q = prefix_len(es, k2) as int;
            lemma_prefix_len(es, k1, p);
            lemma_prefix_len(es, k2, q);
            if let Some(e) = choose_expert(es, fid, lt, dg, st.claimed) {
                let j = if p < es.len() { p } else { q };
                assert(es[j] == e);
                assert(fits(e, fid, lt, dg));
                if !st.claimed.contains(e.id) {
                    assert forall|c: Seq<char>| #[trigger] st2.claimed.contains(c) implies exists|j: int|
                        0 <= j < es.len() && es[j].factory_id == fid && #[trigger] es[j].id == c by {
                        if c != e.id {
                            assert(st.claimed.contains(c));
                        }
                    }
                }
                assert forall|i: int| 0 <= i < hs.len() && #[trigger] st2.picks[i] is Some implies exists|j: int|
                    0 <= j < es.len() && fits(
                        es[j],
                        fid,
                        hyp_lever(ns, hs[i].source_nodes)->0,
                        hyp_diagnosis(ns, hs[i].source_nodes)->0,
                    ) && hyp_lever(ns, hs[i].source_nodes) is Some && hyp_diagnosis(ns, hs[i].source_nodes) is Some
                        && Some(#[trigger] es[j].id) == st2.picks[i] by {
                    if i < d.len() {
                        assert(st2.picks[i] == st.picks[i]);
                    } else {
                        assert(st2.picks[i] == Some(es[j].id));
                    }
                }
            } else {
                assert forall|i: int| 0 <= i < hs.len() && #[trigger] st2.picks[i] is Some implies exists|j: int|
                    0 <= j < es.len() && fits(
                        es[j],
                        fid,
                        hyp_lever(ns, hs[i].source_nodes)->0,
                        hyp_diagnosis(ns, hs[i].source_nodes)->0,
                    ) && hyp_lever(ns, hs[i].source_nodes) is Some && hyp_diagnosis(ns, hs[i].source_nodes) is Some
                        && Some(#[trigger] es[j].id) == st2.picks[i] by {
                    assert(i < d.len());
                    assert(st2.picks[i] == st.picks[i]);
                }
            }
        } else {
            assert forall|i: int| 0 <= i < hs.len() && #[trigger] st2.picks[i] is Some implies exists|j: int|
                0 <= j < es.len() && fits(
                    es[j],
                    fid,
                    hyp_lever(ns, hs[i].source_nodes)->0,
                    hyp_diagnosis(ns, hs[i].source_nodes)->0,
                ) && hyp_lever(ns, hs[i].source_nodes) is Some && hyp_diagnosis(ns, hs[i].source_nodes) is Some
                    && Some(#[trigger] es[j].id) == st2.picks[i] by {
                assert(i < d.len());
                assert(st2.picks[i] == st.picks[i]);
            }
        }
    }
}

/// No more expert hypotheses are matched than the factory has.
pub proof fn lemma_matched_at_most_total(hs: Seq<HypothesisKeysV>, ns: Seq<GraphNodeV>, es: Seq<ExpertV>, fid: Seq<char>)
    ensures
        bench_run(hs, ns, es, fid).claimed.len() <= es.filter(of_factory(fid)).len(),
{
    lemma_bench_run(hs, ns, es, fid);
    let cl = bench_run(hs, ns, es, fid).claimed;
    let f = es.filter(of_factory(fid));
    let ids = expert_ids(f);
    assert forall|c: Seq<char>| cl.to_set().contains(c) implies ids.to_set().contains(c) by {
        assert(cl.contains(c));
        let j = choose|j: int| 0 <= j < es.len() && es[j].factory_id == fid && #[trigger] es[j].id == c;
        es.lemma_filter_contains(of_factory(fid), j);
        let k = choose|k: int| 0 <= k < f.len() && f[k] == es[j];
        assert(ids[k] == c);
    }
    cl.unique_seq_to_set();
    ids.lemma_cardinality_of_set();
    vstd::set_lib::lemma_len_subset(cl.to_set(), ids.to_set());
}

/// Matches the hypotheses, in board order, with the factory's expert
/// hypotheses and builds the report. Each hypothesis with a lever type and a
/// diagnosis takes the first fitting expert hypothesis not yet taken, else
/// the first fitting one; an expert hypothesis enters the report's matches
/// when it is first taken. The first result holds each hypothesis's match.
pub fn match_experts(
    hyps: &Vec<HypothesisKeys>,
    nodes: &Vec<GraphNode>,
    experts: &Vec<ExpertHypothesis>,
    factory_id: &str,
) -> (r: (Vec<Option<ExpertMatch>>, BenchmarkReport))
    ensures
        pick_views(r.0@) == bench_run(keys_views(hyps@), node_views(nodes@), expert_views(experts@), factory_id@).picks,
        forall|i: int| 0 <= i < r.0@.len() && (#[trigger] r.0@[i]) is Some ==> r.0@[i]->0.matched,
        r.1.factory_id@ == factory_id@,
        r.1.expert_total == expert_views(experts@).filter(of_factory(factory_id@)).len(),
        r.1.matched == bench_run(keys_views(hyps@), node_views(nodes@), expert_views(experts@), factory_id@).claimed.len(),
        r.1.coverage_tenths == coverage_tenths(r.1.matched as nat, r.1.expert_total as nat),
        match_views(r.1.matches@) == bench_run(keys_views(hyps@), node_views(nodes@), expert_views(experts@), factory_id@).matches,
        views(r.1.unmatched_expert_ids@) == expert_ids(
            expert_views(experts@).filter(
                untaken(
                    factory_id@,
                    bench_run(keys_views(hyps@), node_views(nodes@), expert_views(experts@), factory_id@).claimed,
                ),
            ),
        ),
{
    let ghost hv = keys_views(hyps@);
    let ghost nv = node_views(nodes@);
    let ghost ev = expert_views(experts@);
    let ghost fid = factory_id@;
    let mut picks: Vec<Option<ExpertMatch>> = Vec::new();
    let mut claimed: Vec<String> = Vec::new();
    let mut matches: Vec<BenchmarkMatch> = Vec::new();
    let mut i: usize = 0;
    while i < hyps.len()
        invariant
            hv == keys_views(hyps@),
            nv == node_views(nodes@),
            ev == expert_views(experts@),
            fid == factory_id@,
            i <= hyps.len(),
            pick_views(picks@) == bench_run(hv.take(i as int), nv, ev, fid).picks,
            views(claimed@) == bench_run(hv.take(i as int), nv, ev, fid).claimed,
            match_views(matches@) == bench_run(hv.take(i as int), nv, ev, fid).matches,
            forall|k: int| 0 <= k < picks@.len() && (#[trigger] picks@[k]) is Some ==> picks@[k]->0.matched,
        decreases hyps.len() - i,
    {
        let ghost st = bench_run(hv.take(i as int), nv, ev, fid);
        assert(hv.take(i + 1).drop_last() =~= hv.take(i as int));
        assert(hv.take(i + 1).last() == hyps@[i as int]@);
        let h = &hyps[i];
        let lt = lever_type_of(nodes, &h.source_nodes);
        let dg = diagnosis_of(nodes, &h.source_nodes);
        let ghost before_p = picks@;
        let ghost before_c = claimed@;
        let ghost before_m = matches@;
        match (lt, dg) {
            (Some(l), Some(d)) => {
                match choose_expert_exec(experts, factory_id, l.as_str(), d.as_str(), &claimed) {
                    Some(j) => {
                        let e = &experts[j];
                        picks.push(Some(ExpertMatch { matched: true, expert_hypothesis_id: e.id.clone() }));
                        assert(pick_views(picks@) =~= pick_views(before_p).push(Some(e.id@)));
                        if !crate::strings::contains_str(&claimed, e.id.as_str()) {
                            claimed.push(e.id.clone());
                            assert(views(claimed@) =~= views(before_c).push(e.id@));
                            matches.push(
                                BenchmarkMatch {
                                    expert_hypothesis_id: e.id.clone(),
                                    expert_text: e.text.clone(),
                                    hypothesis_id: h.id.clone(),
                                    hypothesis_title: h.title.clone(),
                                    lever_type: l,
                                    diagnosis: d,
                                },
                            );
                            assert(match_views(matches@) =~= match_views(before_m).push(matches@.last()@));
                        }
                    },
                    None => {
                        picks.push(None);
                        assert(pick_views(picks@) =~= pick_views(before_p).push(None));
                    },
                }
            },
            _ => {
                picks.push(None);
                assert(pick_views(picks@) =~= pick_views(before_p).push(None));
            },
        }
        i = i + 1;
    }
    assert(hv.take(hyps.len() as int) =~= hv);
    let ghost st = bench_run(hv, nv, ev, fid);
    // the factory's expert hypotheses, and those left untaken
    let mut total: usize = 0;
    let mut unmatched: Vec<String> = Vec::new();
    let mut k: usize = 0;
    while k < experts.len()
        invariant
            ev == expert_views(experts@),
            fid == factory_id@,
            views(claimed@) == st.claimed,
            k <= experts.len(),
            total == ev.take(k as int).filter(of_factory(fid)).len(),
            views(unmatched@) == expert_ids(ev.take(k as int).filter(untaken(fid, st.claimed))),
        decreases experts.len() - k,
    {
        assert(ev.take(k + 1) =~= ev.take(k as int).push(ev[k as int]));
        proof {
            ev.take(k as int).lemma_filter_push(ev[k as int], of_factory(fid));
            ev.take(k as int).lemma_filter_push(ev[k as int], untaken(fid, st.claimed));
            ev.take(k as int).lemma_filter_len(of_factory(fid));
        }
        let e = &experts[k];
        if crate::strings::str_eq(e.factory_id.as_str(), factory_id) {
            total = total + 1;
            if !crate::strings::contains_str(&claimed, e.id.as_str()) {
                let ghost before = unmatched@;
                unmatched.push(e.id.clone());
                assert(views(unmatched@) =~= views(before).push(e.id@));
                assert(expert_ids(ev.take(k + 1).filter(untaken(fid, st.claimed))) =~= expert_ids(
                    ev.take(k as int).filter(untaken(fid, st.claimed)),
                ).push(e.id@));
            }
        }
        k = k + 1;
    }
    assert(ev.take(experts.len() as int) =~= ev);
    proof {
        lemma_matched_at_most_total(hv, nv, ev, fid);
    }
    let matched = claimed.len();
    let tenths: u64 = if total == 0 {
        0
    } else {
        let num: u128 = 2000 * (matched as u128) + total as u128;
        let d2: u128 = 2 * (total as u128);
        let q = num / d2;
        assert(q <= 1000) by (nonlinear_arith)
            requires
                num == 2000 * (matched as u128) + total as u128,
                d2 == 2 * (total as u128),
                q == num / d2,
                matched <= total,
                total > 0,
        ;
        q as u64
    };
    let report = BenchmarkReport {
        factory_id: crate::strings::owned(factory_id),
        expert_total: total,
        matched,
        coverage_tenths: tenths,
        matches,
        unmatched_expert_ids: unmatched,
    };
    (picks, report)
}

/// The coverage of the experts is a share: never above a thousand tenths (100 %).
pub proof fn lemma_coverage_at_most_full(hs: Seq<HypothesisKeysV>, ns: Seq<GraphNodeV>, es: Seq<ExpertV>, fid: Seq<char>)
    ensures
        coverage_tenths(bench_run(hs, ns, es, fid).claimed.len(), es.filter(of_factory(fid)).len()) <= 1000,
{
    lemma_matched_at_most_total(hs, ns, es, fid);
    let m = bench_run(hs, ns, es, fid).claimed.len();
    let t = es.filter(of_factory(fid)).len();
    if t > 0 {
        assert((2000 * m + t) / (2 * t) <= 1000) by (nonlinear_arith)
            requires
                m <= t,
                t > 0,
        ;
    }
}

/// Every expert hypothesis of the factory is either taken by some
/// hypothesis or listed among the unmatched ones, never both.
pub proof fn lemma_taken_or_unmatched(hs: Seq<HypothesisKeysV>, ns: Seq<GraphNodeV>, es: Seq<ExpertV>, fid: Seq<char>, j: int)
    requires
        0 <= j < es.len(),
        es[j].factory_id == fid,
    ensures
        expert_ids(es.filter(untaken(fid, bench_run(hs, ns, es, fid).claimed))).contains(es[j].id)
            <==> !bench_run(hs, ns, es, fid).claimed.contains(es[j].id),
{
    let cl = bench_run(hs, ns, es, fid).claimed;
    let keep = untaken(fid, cl);
    let f = es.filter(keep);
    let ids = expert_ids(f);
    if !cl.contains(es[j].id) {
        es.lemma_filter_contains(keep, j);
        let k = choose|k: int| 0 <= k < f.len() && f[k] == es[j];
        assert(ids[k] == es[j].id);
    }
    if ids.contains(es[j].id) {
        let k = choose|k: int| 0 <= k < ids.len() && ids[k] == es[j].id;
        es.lemma_filter_pred(keep, k);
        assert(keep(f[k]));
    }
}

} // verus!
