//! The discrete part of the recommended roadmap: hypotheses grouped by the
//! diagnosis they address (their money shares one addressable tonnage, so
//! it is never added up within a group), the actions within the capex
//! budget, the diagnoses no affordable action covers, and the phase labels.

use vstd::prelude::*;

use crate::contracts::{node_views, GraphNode, GraphNodeV};
use crate::platform::benchmark::{keys_views, HypothesisKeys, HypothesisKeysV};
use crate::platform::lookup::{capex_class_of, diagnosis_of, hyp_capex, hyp_diagnosis};
use crate::sorting::{is_sorted_set, lemma_sorted_set_unique, sorted_set};
use crate::strings::views;

verus! {

/// The label of a capex phase.
pub open spec fn spec_phase_label(capex_class: u8) -> Seq<char> {
    if capex_class == 1 {
        "Фаза 1 — быстрые настройки режима (capex 1)"@
    } else if capex_class == 2 {
        "Фаза 2 — замена узлов/деталей (capex 2)"@
    } else if capex_class == 3 {
        "Фаза 3 — новое оборудование (capex 3)"@
    } else {
        "Прочие действия"@
    }
}

/// The label of the phase of a capex class: quick settings, part
/// replacements, new equipment, or other actions.
pub fn phase_label(capex_class: u8) -> (r: &'static str)
    ensures
        r@ == spec_phase_label(capex_class),
{
    match capex_class {
        1 => "Фаза 1 — быстрые настройки режима (capex 1)",
        2 => "Фаза 2 — замена узлов/деталей (capex 2)",
        3 => "Фаза 3 — новое оборудование (capex 3)",
        _ => "Прочие действия",
    }
}

/// A capex budget held within 1..=3.
pub open spec fn clamp_spec(max_capex: u8) -> u8 {
    if max_capex < 1 {
        1
    } else if max_capex > 3 {
        3
    } else {
        max_capex
    }
}

/// The capex budget of a roadmap request, held within 1..=3.
pub fn clamp_capex(max_capex: u8) -> (r: u8)
    ensures
        r == clamp_spec(max_capex),
{
    if max_capex < 1 {
        1
    } else if max_capex > 3 {
        3
    } else {
        max_capex
    }
}

/// Whether hypothesis `i` enters the roadmap: its value is positive and it
/// has a diagnosis and a lever capex class.
pub open spec fn enters(hs: Seq<HypothesisKeysV>, ns: Seq<GraphNodeV>, positive: Seq<bool>, i: int) -> bool {
    &&& positive[i]
    &&& hyp_diagnosis(ns, hs[i].source_nodes) is Some
    &&& hyp_capex(ns, hs[i].source_nodes) is Some
}

/// Whether some entering hypothesis addresses diagnosis `d`.
pub open spec fn addressed(hs: Seq<HypothesisKeysV>, ns: Seq<GraphNodeV>, positive: Seq<bool>) -> spec_fn(Seq<char>) -> bool {
    |d: Seq<char>| exists|i: int| 0 <= i < hs.len() && enters(hs, ns, positive, i) && hyp_diagnosis(ns, hs[i].source_nodes) == Some(d)
}

/// The entering hypotheses of diagnosis `d`, by position in board order.
pub open spec fn members(hs: Seq<HypothesisKeysV>, ns: Seq<GraphNodeV>, positive: Seq<bool>, d: Seq<char>) -> Seq<usize> {
    Seq::new(hs.len(), |i: int| i as usize).filter(
        |i: usize| enters(hs, ns, positive, i as int) && hyp_diagnosis(ns, hs[i as int].source_nodes) == Some(d),
    )
}

/// Those of them within the capex budget.
pub open spec fn affordable(hs: Seq<HypothesisKeysV>, ns: Seq<GraphNodeV>, positive: Seq<bool>, d: Seq<char>, max_capex: u8) -> Seq<usize> {
    members(hs, ns, positive, d).filter(
        |i: usize| hyp_capex(ns, hs[i as int].source_nodes)->0 <= max_capex,
    )
}

/// The hypotheses addressing one diagnosis: all of them and those within the
/// budget, by position in board order.
#[derive(Debug)]
pub struct RoadmapGroup {
    pub diagnosis: String,
    pub members: Vec<usize>,
    pub affordable: Vec<usize>,
}

/// The positions of a sequence of length `n`.
pub open spec fn positions(n: nat) -> Seq<usize> {
    Seq::new(n, |i: int| i as usize)
}

/// Whether position `i` addresses diagnosis `d`.
pub open spec fn of_diagnosis(hs: Seq<HypothesisKeysV>, ns: Seq<GraphNodeV>, positive: Seq<bool>, d: Seq<char>) -> spec_fn(usize) -> bool {
    |i: usize| enters(hs, ns, positive, i as int) && hyp_diagnosis(ns, hs[i as int].source_nodes) == Some(d)
}

/// Whether position `i` is within the budget.
pub open spec fn within(hs: Seq<HypothesisKeysV>, ns: Seq<GraphNodeV>, max_capex: u8) -> spec_fn(usize) -> bool {
    |i: usize| hyp_capex(ns, hs[i as int].source_nodes)->0 <= max_capex
}

/// Whether no affordable action addresses diagnosis `d`.
pub open spec fn uncovered(hs: Seq<HypothesisKeysV>, ns: Seq<GraphNodeV>, positive: Seq<bool>, max_capex: u8) -> spec_fn(Seq<char>) -> bool {
    |d: Seq<char>| affordable(hs, ns, positive, d, max_capex).len() == 0
}

fn collect_group(
    diag: &Vec<Option<String>>,
    capex: &Vec<Option<u8>>,
    positive: &Vec<bool>,
    key: &String,
    max_capex: u8,
    Ghost(hs): Ghost<Seq<HypothesisKeysV>>,
    Ghost(ns): Ghost<Seq<GraphNodeV>>,
) -> (r: RoadmapGroup)
    requires
        diag@.len() == hs.len(),
        capex@.len() == hs.len(),
        positive@.len() == hs.len(),
        forall|i: int| 0 <= i < hs.len() ==> crate::contracts::opt_view(#[trigger] diag@[i]) == hyp_diagnosis(ns, hs[i].source_nodes),
        forall|i: int| 0 <= i < hs.len() ==> #[trigger] capex@[i] == hyp_capex(ns, hs[i].source_nodes),
    ensures
        r.diagnosis@ == key@,
        r.members@ == members(hs, ns, positive@, key@),
        r.affordable@ == affordable(hs, ns, positive@, key@, max_capex),
{
    let ghost pd = of_diagnosis(hs, ns, positive@, key@);
    let ghost pw = within(hs, ns, max_capex);
    let mut ms: Vec<usize> = Vec::new();
    let mut af: Vec<usize> = Vec::new();
    let mut i: usize = 0;
    while i < diag.len()
        invariant
            diag@.len() == hs.len(),
            capex@.len() == hs.len(),
            positive@.len() == hs.len(),
            forall|i: int| 0 <= i < hs.len() ==> crate::contracts::opt_view(#[trigger] diag@[i]) == hyp_diagnosis(ns, hs[i].source_nodes),
            forall|i: int| 0 <= i < hs.len() ==> #[trigger] capex@[i] == hyp_capex(ns, hs[i].source_nodes),
            pd == of_diagnosis(hs, ns, positive@, key@),
            pw == within(hs, ns, max_capex),
            i <= diag.len(),
            ms@ == positions(i as nat).filter(pd),
            af@ == ms@.filter(pw),
        decreases diag.len() - i,
    {
        assert(positions((i + 1) as nat) =~= positions(i as nat).push(i));
        proof {
            positions(i as nat).lemma_filter_push(i, pd);
        }
        let hit = positive[i] && capex[i].is_some() && match &diag[i] {
            Some(d) => crate::strings::str_eq(d.as_str(), key.as_str()),
            None => false,
        };
        assert(hit == pd(i));
        if hit {
            let ghost before = ms@;
            ms.push(i);
            proof {
                before.lemma_filter_push(i, pw);
            }
            let c = match capex[i] {
                Some(c) => c,
                None => 0,
            };
            if c <= max_capex {
                af.push(i);
            }
        }
        i = i + 1;
    }
    assert(positions(hs.len()) =~= Seq::new(hs.len(), |i: int| i as usize));
    assert(pd == (|i: usize| enters(hs, ns, positive@, i as int) && hyp_diagnosis(ns, hs[i as int].source_nodes) == Some(key@)));
    RoadmapGroup { diagnosis: key.clone(), members: ms, affordable: af }
}

/// Groups the hypotheses that enter the roadmap (positive value, a diagnosis
/// and a lever capex class) by diagnosis, in diagnosis order; within each
/// group, all of them and those within the budget, in board order. The
/// second result lists, in order, the diagnoses with no affordable action.
pub fn roadmap_groups(
    hyps: &Vec<HypothesisKeys>,
    nodes: &Vec<GraphNode>,
    positive: &Vec<bool>,
    max_capex: u8,
) -> (r: (Vec<RoadmapGroup>, Vec<String>))
    requires
        positive@.len() == hyps@.len(),
    ensures
        r.0@.len() == sorted_set(addressed(keys_views(hyps@), node_views(nodes@), positive@)).len(),
        forall|g: int| 0 <= g < r.0@.len() ==> {
            let d = sorted_set(addressed(keys_views(hyps@), node_views(nodes@), positive@))[g];
            &&& (#[trigger] r.0@[g]).diagnosis@ == d
            &&& r.0@[g].members@ == members(keys_views(hyps@), node_views(nodes@), positive@, d)
            &&& r.0@[g].affordable@ == affordable(keys_views(hyps@), node_views(nodes@), positive@, d, max_capex)
        },
        views(r.1@) == sorted_set(addressed(keys_views(hyps@), node_views(nodes@), positive@)).filter(
            uncovered(keys_views(hyps@), node_views(nodes@), positive@, max_capex),
        ),
{
    let ghost hs = keys_views(hyps@);
    let ghost ns = node_views(nodes@);
    let ghost add = addressed(hs, ns, positive@);
    // the diagnosis and capex class of every hypothesis
    let mut diag: Vec<Option<String>> = Vec::new();
    let mut capex: Vec<Option<u8>> = Vec::new();
    let mut keys: Vec<String> = Vec::new();
    let mut i: usize = 0;
    while i < hyps.len()
        invariant
            hs == keys_views(hyps@),
            ns == node_views(nodes@),
            positive@.len() == hyps@.len(),
            i <= hyps.len(),
            diag@.len() == i,
            capex@.len() == i,
            forall|j: int| 0 <= j < i ==> crate::contracts::opt_view(#[trigger] diag@[j]) == hyp_diagnosis(ns, hs[j].source_nodes),
            forall|j: int| 0 <= j < i ==> #[trigger] capex@[j] == hyp_capex(ns, hs[j].source_nodes),
            crate::sorting::strictly_sorted(views(keys@), crate::sorting::str_order()),
            forall|c: Seq<char>| #[trigger] views(keys@).contains(c) <==> exists|j: int|
                0 <= j < i && enters(hs, ns, positive@, j) && hyp_diagnosis(ns, hs[j].source_nodes) == Some(c),
        decreases hyps.len() - i,
    {
        let d = diagnosis_of(nodes, &hyps[i].source_nodes);
        let c = capex_class_of(nodes, &hyps[i].source_nodes);
        let ghost before = views(keys@);
        if positive[i] && c.is_some() {
            match &d {
                Some(dv) => {
                    crate::sorting::insert_sorted_unique(&mut keys, dv.as_str());
                },
                None => {},
            }
        }
        proof {
            assert forall|cc: Seq<char>| #[trigger] views(keys@).contains(cc) <==> exists|j: int|
                0 <= j < i + 1 && enters(hs, ns, positive@, j) && hyp_diagnosis(ns, hs[j].source_nodes) == Some(cc) by {
                if views(keys@).contains(cc) && !before.contains(cc) {
                    assert(enters(hs, ns, positive@, i as int) && hyp_diagnosis(ns, hs[i as int].source_nodes) == Some(cc));
                }
                if exists|j: int| 0 <= j < i + 1 && enters(hs, ns, positive@, j) && hyp_diagnosis(ns, hs[j].source_nodes) == Some(cc) {
                    let j = choose|j: int| 0 <= j < i + 1 && enters(hs, ns, positive@, j) && hyp_diagnosis(ns, hs[j].source_nodes) == Some(cc);
                    if j < i {
                        assert(before.contains(cc));
                    }
                }
            }
        }
        diag.push(d);
        capex.push(c);
        i = i + 1;
    }
    proof {
        assert(is_sorted_set(views(keys@), add));
        lemma_sorted_set_unique(views(keys@), add);
    }
    let ghost ks = views(keys@);
    let ghost unc = uncovered(hs, ns, positive@, max_capex);
    let mut groups: Vec<RoadmapGroup> = Vec::new();
    let mut missing: Vec<String> = Vec::new();
    let mut g: usize = 0;
    while g < keys.len()
        invariant
            hs == keys_views(hyps@),
            ns == node_views(nodes@),
            ks == views(keys@),
            ks == sorted_set(add),
            add == addressed(hs, ns, positive@),
            unc == uncovered(hs, ns, positive@, max_capex),
            diag@.len() == hs.len(),
            capex@.len() == hs.len(),
            positive@.len() == hs.len(),
            forall|j: int| 0 <= j < hs.len() ==> crate::contracts::opt_view(#[trigger] diag@[j]) == hyp_diagnosis(ns, hs[j].source_nodes),
            forall|j: int| 0 <= j < hs.len() ==> #[trigger] capex@[j] == hyp_capex(ns, hs[j].source_nodes),
            g <= keys.len(),
            groups@.len() == g,
            forall|t: int| 0 <= t < g ==> {
                &&& (#[trigger] groups@[t]).diagnosis@ == ks[t]
                &&& groups@[t].members@ == members(hs, ns, positive@, ks[t])
                &&& groups@[t].affordable@ == affordable(hs, ns, positive@, ks[t], max_capex)
            },
            views(missing@) == ks.take(g as int).filter(unc),
        decreases keys.len() - g,
    {
        let grp = collect_group(&diag, &capex, positive, &keys[g], max_capex, Ghost(hs), Ghost(ns));
        assert(ks.take(g + 1) =~= ks.take(g as int).push(ks[g as int]));
        proof {
            ks.take(g as int).lemma_filter_push(ks[g as int], unc);
        }
        if grp.affordable.len() == 0 {
            let ghost before = missing@;
            missing.push(keys[g].clone());
            assert(views(missing@) =~= views(before).push(ks[g as int]));
        }
        groups.push(grp);
        g = g + 1;
    }
    assert(ks.take(keys.len() as int) =~= ks);
    (groups, missing)
}

/// No hypothesis counts for two diagnoses: the groups of two different
/// diagnoses share no hypothesis, so their money is never counted twice.
pub proof fn lemma_groups_disjoint(
    hs: Seq<HypothesisKeysV>,
    ns: Seq<GraphNodeV>,
    positive: Seq<bool>,
    d1: Seq<char>,
    d2: Seq<char>,
    i: usize,
)
    requires
        d1 != d2,
    ensures
        !(members(hs, ns, positive, d1).contains(i) && members(hs, ns, positive, d2).contains(i)),
{
    let all = positions(hs.len());
    assert(Seq::new(hs.len(), |i: int| i as usize) == all);
    let p1 = of_diagnosis(hs, ns, positive, d1);
    let p2 = of_diagnosis(hs, ns, positive, d2);
    assert(members(hs, ns, positive, d1) == all.filter(p1));
    assert(members(hs, ns, positive, d2) == all.filter(p2));
    if all.filter(p1).contains(i) && all.filter(p2).contains(i) {
        let a = choose|k: int| 0 <= k < all.filter(p1).len() && all.filter(p1)[k] == i;
        let b = choose|k: int| 0 <= k < all.filter(p2).len() && all.filter(p2)[k] == i;
        all.lemma_filter_pred(p1, a);
        all.lemma_filter_pred(p2, b);
    }
}

} // verus!

verus! {

/// `s`, sorted by rank, with `x` placed after every element whose rank is at
/// most its own (so equal ranks keep their order).
pub open spec fn insert_by_rank(s: Seq<usize>, x: usize, ranks: Seq<u32>) -> Seq<usize>
    decreases s.len(),
{
    if s.len() == 0 {
        seq![x]
    } else if ranks[s.last() as int] <= ranks[x as int] {
        s.push(x)
    } else {
        insert_by_rank(s.drop_last(), x, ranks).push(s.last())
    }
}

/// The positions `ms` in rank order; equal ranks keep their order in `ms`
/// (a stable sort by rank).
pub open spec fn sort_by_rank(ms: Seq<usize>, ranks: Seq<u32>) -> Seq<usize>
    decreases ms.len(),
{
    if ms.len() == 0 {
        Seq::empty()
    } else {
        insert_by_rank(sort_by_rank(ms.drop_last(), ranks), ms.last(), ranks)
    }
}

proof fn lemma_insert_at(s: Seq<usize>, x: usize, ranks: Seq<u32>, p: int)
    requires
        0 <= p <= s.len(),
        p > 0 ==> ranks[s[p - 1] as int] <= ranks[x as int],
        forall|k: int| p <= k < s.len() ==> ranks[#[trigger] s[k] as int] > ranks[x as int],
    ensures
        insert_by_rank(s, x, ranks) == s.insert(p, x),
    decreases s.len(),
{
    if s.len() == 0 {
        assert(s.insert(p, x) =~= seq![x]);
    } else if p == s.len() {
        assert(s.insert(p, x) =~= s.push(x));
    } else {
        lemma_insert_at(s.drop_last(), x, ranks, p);
        assert(s.drop_last().insert(p, x).push(s.last()) =~= s.insert(p, x));
    }
}

fn insert_ranked(s: &mut Vec<usize>, x: usize, ranks: &Vec<u32>)
    requires
        x < ranks@.len(),
        forall|k: int| 0 <= k < old(s)@.len() ==> #[trigger] old(s)@[k] < ranks@.len(),
    ensures
        final(s)@ == insert_by_rank(old(s)@, x, ranks@),
        forall|k: int| 0 <= k < final(s)@.len() ==> #[trigger] final(s)@[k] < ranks@.len(),
{
    let mut p: usize = s.len();
    while p > 0 && ranks[s[p - 1]] > ranks[x]
        invariant
            p <= s@.len(),
            x < ranks@.len(),
            forall|k: int| 0 <= k < s@.len() ==> #[trigger] s@[k] < ranks@.len(),
            forall|k: int| p <= k < s@.len() ==> ranks@[#[trigger] s@[k] as int] > ranks@[x as int],
        decreases p,
    {
        p = p - 1;
    }
    proof {
        lemma_insert_at(s@, x, ranks@, p as int);
    }
    let ghost before = s@;
    s.insert(p, x);
    assert forall|k: int| 0 <= k < s@.len() implies #[trigger] s@[k] < ranks@.len() by {
        if k < p {
            assert(s@[k] == before[k]);
        } else if k > p {
            assert(s@[k] == before[k - 1]);
        }
    }
}

/// The positions `members` in rank order, equal ranks in their order in
/// `members` (`ranks` is indexed by position).
pub fn order_by_rank(members: &Vec<usize>, ranks: &Vec<u32>) -> (r: Vec<usize>)
    requires
        forall|k: int| 0 <= k < members@.len() ==> #[trigger] members@[k] < ranks@.len(),
    ensures
        r@ == sort_by_rank(members@, ranks@),
{
    let mut r: Vec<usize> = Vec::new();
    let mut i: usize = 0;
    while i < members.len()
        invariant
            i <= members@.len(),
            forall|k: int| 0 <= k < members@.len() ==> #[trigger] members@[k] < ranks@.len(),
            forall|k: int| 0 <= k < r@.len() ==> #[trigger] r@[k] < ranks@.len(),
            r@ == sort_by_rank(members@.take(i as int), ranks@),
        decreases members@.len() - i,
    {
        assert(members@.take(i + 1).drop_last() =~= members@.take(i as int));
        insert_ranked(&mut r, members[i], ranks);
        i = i + 1;
    }
    assert(members@.take(i as int) =~= members@);
    r
}

/// The other actions of a group, by rank: its members in rank order, without
/// those with the id of the chosen action, as ids.
pub open spec fn alternatives_spec(members: Seq<usize>, ranks: Seq<u32>, ids: Seq<Seq<char>>, primary: usize) -> Seq<Seq<char>> {
    sort_by_rank(members, ranks).filter(|i: usize| ids[i as int] != ids[primary as int]).map_values(|i: usize| ids[i as int])
}

/// The alternatives listed beside a group's chosen action `primary`: the
/// group's members by rank (ties in group order), leaving out every member
/// with the chosen action's id.
pub fn alternatives_by_rank(members: &Vec<usize>, ranks: &Vec<u32>, ids: &Vec<String>, primary: usize) -> (r: Vec<String>)
    requires
        ranks@.len() == ids@.len(),
        primary < ids@.len(),
        forall|k: int| 0 <= k < members@.len() ==> #[trigger] members@[k] < ranks@.len(),
    ensures
        views(r@) == alternatives_spec(members@, ranks@, views(ids@), primary),
{
    let sorted = order_by_rank(members, ranks);
    proof {
        lemma_sorted_in_range(members@, ranks@);
    }
    let ghost keep = |i: usize| views(ids@)[i as int] != views(ids@)[primary as int];
    let ghost name = |i: usize| views(ids@)[i as int];
    let mut r: Vec<String> = Vec::new();
    let mut k: usize = 0;
    while k < sorted.len()
        invariant
            k <= sorted@.len(),
            ranks@.len() == ids@.len(),
            primary < ids@.len(),
            forall|t: int| 0 <= t < sorted@.len() ==> #[trigger] sorted@[t] < ranks@.len(),
            keep == (|i: usize| views(ids@)[i as int] != views(ids@)[primary as int]),
            name == (|i: usize| views(ids@)[i as int]),
            views(r@) == sorted@.take(k as int).filter(keep).map_values(name),
        decreases sorted@.len() - k,
    {
        let i = sorted[k];
        proof {
            assert(sorted@.take(k + 1) =~= sorted@.take(k as int).push(i));
            sorted@.take(k as int).lemma_filter_push(i, keep);
        }
        if !crate::strings::str_eq(ids[i].as_str(), ids[primary].as_str()) {
            let ghost before = r@;
            r.push(ids[i].clone());
            assert(views(r@) =~= views(before).push(ids@[i as int]@));
            assert(sorted@.take(k as int).filter(keep).push(i).map_values(name) =~= sorted@.take(k as int).filter(keep).map_values(name).push(name(i)));
        }
        k = k + 1;
    }
    assert(sorted@.take(k as int) =~= sorted@);
    r
}

proof fn lemma_insert_in_range(s: Seq<usize>, x: usize, ranks: Seq<u32>)
    requires
        x < ranks.len(),
        forall|k: int| 0 <= k < s.len() ==> #[trigger] s[k] < ranks.len(),
    ensures
        forall|k: int| 0 <= k < insert_by_rank(s, x, ranks).len() ==> #[trigger] insert_by_rank(s, x, ranks)[k] < ranks.len(),
    decreases s.len(),
{
    let r = insert_by_rank(s, x, ranks);
    if s.len() == 0 {
        assert(r =~= seq![x]);
    } else if ranks[s.last() as int] <= ranks[x as int] {
        assert forall|k: int| 0 <= k < r.len() implies #[trigger] r[k] < ranks.len() by {
            if k < s.len() {
                assert(r[k] == s[k]);
            }
        }
    } else {
        let t = insert_by_rank(s.drop_last(), x, ranks);
        lemma_insert_in_range(s.drop_last(), x, ranks);
        assert forall|k: int| 0 <= k < r.len() implies #[trigger] r[k] < ranks.len() by {
            if k < t.len() {
                assert(r[k] == t[k]);
            } else {
                assert(r[k] == s[s.len() - 1]);
            }
        }
    }
}

proof fn lemma_sorted_in_range(ms: Seq<usize>, ranks: Seq<u32>)
    requires
        forall|k: int| 0 <= k < ms.len() ==> #[trigger] ms[k] < ranks.len(),
    ensures
        forall|k: int| 0 <= k < sort_by_rank(ms, ranks).len() ==> #[trigger] sort_by_rank(ms, ranks)[k] < ranks.len(),
    decreases ms.len(),
{
    if ms.len() > 0 {
        lemma_sorted_in_range(ms.drop_last(), ranks);
        lemma_insert_in_range(sort_by_rank(ms.drop_last(), ranks), ms.last(), ranks);
    }
}

/// The positions of the items of capex class `c`, in order.
pub open spec fn class_positions(classes: Seq<u8>, c: u8) -> Seq<usize> {
    positions(classes.len()).filter(of_class(classes, c))
}

/// Whether the item at a position has capex class `c`.
pub open spec fn of_class(classes: Seq<u8>, c: u8) -> spec_fn(usize) -> bool {
    |i: usize| classes[i as int] == c
}

/// Whether `r` lists the phases of items with these capex classes: one
/// phase per class that occurs, classes in increasing order, each with the
/// positions of its items in order.
pub open spec fn is_phases(r: Seq<(u8, Seq<usize>)>, classes: Seq<u8>) -> bool {
    &&& forall|k: int, l: int| 0 <= k < l < r.len() ==> r[k].0 < r[l].0
    &&& forall|k: int| 0 <= k < r.len() ==> classes.contains(#[trigger] r[k].0)
    &&& forall|c: u8| classes.contains(c) ==> exists|k: int| 0 <= k < r.len() && #[trigger] r[k].0 == c
    &&& forall|k: int| 0 <= k < r.len() ==> #[trigger] r[k].1 == class_positions(classes, r[k].0)
}

fn positions_of_class(classes: &Vec<u8>, c: u8) -> (r: Vec<usize>)
    ensures
        r@ == class_positions(classes@, c),
        r@.len() > 0 <==> classes@.contains(c),
{
    let ghost pred = of_class(classes@, c);
    let mut r: Vec<usize> = Vec::new();
    let mut i: usize = 0;
    while i < classes.len()
        invariant
            i <= classes@.len(),
            pred == of_class(classes@, c),
            r@ == positions(i as nat).filter(pred),
            r@.len() > 0 <==> exists|j: int| 0 <= j < i && classes@[j] == c,
        decreases classes@.len() - i,
    {
        assert(positions((i + 1) as nat) =~= positions(i as nat).push(i));
        proof {
            positions(i as nat).lemma_filter_push(i, pred);
        }
        if classes[i] == c {
            r.push(i);
        }
        i = i + 1;
    }
    assert(positions(classes@.len()) =~= positions(i as nat));
    proof {
        if r@.len() > 0 {
            let j = choose|j: int| 0 <= j < i && classes@[j] == c;
            assert(classes@[j] == c);
        }
    }
    r
}

/// The roadmap's phases: the capex classes of the chosen actions in
/// increasing order, each with the positions of its actions in order.
pub fn phases_by_capex(classes: &Vec<u8>) -> (r: Vec<(u8, Vec<usize>)>)
    ensures
        is_phases(r@.map_values(|p: (u8, Vec<usize>)| (p.0, p.1@)), classes@),
{
    let ghost view = |p: (u8, Vec<usize>)| (p.0, p.1@);
    let mut r: Vec<(u8, Vec<usize>)> = Vec::new();
    let mut c: u16 = 0;
    while c < 256
        invariant
            c <= 256,
            view == (|p: (u8, Vec<usize>)| (p.0, p.1@)),
            forall|k: int, l: int| 0 <= k < l < r@.len() ==> r@[k].0 < r@[l].0,
            forall|k: int| 0 <= k < r@.len() ==> r@[k].0 < c,
            forall|k: int| 0 <= k < r@.len() ==> classes@.contains(#[trigger] r@[k].0),
            forall|d: u8| d < c && classes@.contains(d) ==> exists|k: int| 0 <= k < r@.len() && #[trigger] r@[k].0 == d,
            forall|k: int| 0 <= k < r@.len() ==> #[trigger] r@[k].1@ == class_positions(classes@, r@[k].0),
        decreases 256 - c,
    {
        let cc: u8 = c as u8;
        let ps = positions_of_class(classes, cc);
        if ps.len() > 0 {
            let ghost before = r@;
            r.push((cc, ps));
            assert forall|d: u8| d < c + 1 && classes@.contains(d) implies exists|k: int| 0 <= k < r@.len() && #[trigger] r@[k].0 == d by {
                if d < c {
                    let k = choose|k: int| 0 <= k < before.len() && #[trigger] before[k].0 == d;
                    assert(r@[k] == before[k]);
                } else {
                    assert(r@[before.len() as int].0 == d);
                }
            }
        }
        c = c + 1;
    }
    let ghost rv = r@.map_values(view);
    assert forall|d: u8| classes@.contains(d) implies exists|k: int| 0 <= k < rv.len() && #[trigger] rv[k].0 == d by {
        let k = choose|k: int| 0 <= k < r@.len() && #[trigger] r@[k].0 == d;
        assert(rv[k].0 == d);
    }
    r
}

/// How many diagnoses the roadmap covers: the groups with at least one
/// affordable action.
pub fn covered_count(groups: &Vec<RoadmapGroup>) -> (r: usize)
    ensures
        r == groups@.filter(|g: RoadmapGroup| g.affordable@.len() > 0).len(),
{
    let ghost pred = |g: RoadmapGroup| g.affordable@.len() > 0;
    let mut n: usize = 0;
    let mut i: usize = 0;
    while i < groups.len()
        invariant
            i <= groups@.len(),
            pred == (|g: RoadmapGroup| g.affordable@.len() > 0),
            n == groups@.take(i as int).filter(pred).len(),
            n <= i,
        decreases groups@.len() - i,
    {
        proof {
            assert(groups@.take(i + 1) =~= groups@.take(i as int).push(groups@[i as int]));
            groups@.take(i as int).lemma_filter_push(groups@[i as int], pred);
        }
        if groups[i].affordable.len() > 0 {
            n = n + 1;
        }
        i = i + 1;
    }
    assert(groups@.take(i as int) =~= groups@);
    n
}

} // verus!
