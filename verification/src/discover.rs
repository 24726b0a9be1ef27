//! Presentation of candidates: titles, summaries, labels, stable keys, the
//! experiment plan, hypothesis ids; and the deduplication of candidates.

use vstd::prelude::*;

use crate::contracts::{spec_has_tag, DoePlan, GraphNodeV};
use crate::graph::{has_id, index_of, MechanismGraph};
use crate::operators::{cand_views, spec_operator_name, Candidate, CandidateV, Operator};
use crate::strings::{concat3, concat5, owned, seq_join, views};

verus! {

/// The label of the node with the given id, or the id itself when no node has it.
pub open spec fn spec_node_label(g: MechanismGraph, id: Seq<char>) -> Seq<char> {
    if has_id(g.spec_nodes(), id) {
        g.spec_nodes()[index_of(g.spec_nodes(), id)].label
    } else {
        id
    }
}

/// The id names a node that carries `tag`.
pub open spec fn id_tagged(g: MechanismGraph, tag: Seq<char>) -> spec_fn(Seq<char>) -> bool {
    |id: Seq<char>| has_id(g.spec_nodes(), id) && spec_has_tag(g.spec_nodes()[index_of(g.spec_nodes(), id)], tag)
}

/// The label of the node with an id (that names a node).
pub open spec fn label_of(g: MechanismGraph) -> spec_fn(Seq<char>) -> Seq<char> {
    |id: Seq<char>| g.spec_nodes()[index_of(g.spec_nodes(), id)].label
}

/// Labels of the candidate's source nodes that are controllable factors.
pub open spec fn controllable_labels(g: MechanismGraph, c: CandidateV) -> Seq<Seq<char>> {
    c.source_nodes.filter(id_tagged(g, "controllable"@)).map_values(label_of(g))
}

/// The candidate's controllable factors joined with " + ", or "фактор".
pub open spec fn spec_factor_labels(g: MechanismGraph, c: CandidateV) -> Seq<char> {
    let labels = controllable_labels(g, c);
    if labels.len() == 0 {
        "фактор"@
    } else {
        seq_join(labels, " + "@)
    }
}

/// The label of the candidate's lever: its controllable node when it names
/// one, else all its controllable factors.
pub open spec fn spec_lever_label(g: MechanismGraph, c: CandidateV) -> Seq<char> {
    match c.controllable {
        Some(id) => spec_node_label(g, id),
        None => spec_factor_labels(g, c),
    }
}

/// The title of a candidate.
pub open spec fn spec_title(g: MechanismGraph, c: CandidateV) -> Seq<char> {
    let kpi = spec_node_label(g, c.kpi);
    let lever = spec_lever_label(g, c);
    match c.operator {
        Operator::MechanismPath => "Настроить «"@ + lever + "» для снижения «"@ + kpi + "»"@,
        Operator::Substitution => "Заменить «"@ + lever + "» на пути к «"@ + kpi + "»"@,
        Operator::Gap => "Внедрить «"@ + lever + "» (новая возможность) для «"@ + kpi + "»"@,
        Operator::Contradiction => "Найти граничное условие, влияющее на «"@ + kpi + "»"@,
        Operator::AnalogyTransfer => "Перенести проверенный механизм на путь к «"@ + kpi + "»"@,
        Operator::UncoveredConstraint => "Добавить измерение «"@ + kpi + "» как обязательный фильтр"@,
    }
}

/// The summary of a candidate.
pub open spec fn spec_summary(g: MechanismGraph, c: CandidateV) -> Seq<char> {
    let kpi = spec_node_label(g, c.kpi);
    let lever = spec_lever_label(g, c);
    match c.operator {
        Operator::MechanismPath => "Изменить «"@ + lever + "», чтобы повлиять на «"@ + kpi
            + "» по прослеженной причинной цепочке."@,
        Operator::Substitution => "Использовать «"@ + lever + "» как альтернативный путь к «"@ + kpi
            + "» с тем же эффектом."@,
        Operator::Gap => "«"@ + lever + "» пока недоступен на этой линии; его внедрение открывает путь к «"@
            + kpi + "»."@,
        Operator::Contradiction => "Два источника противоречат друг другу по «"@ + kpi
            + "»; нужно определить граничное условие, при котором эффект меняет знак."@,
        Operator::AnalogyTransfer => "Перенести механизм, доказанный в другом месте, на путь к «"@ + kpi
            + "»."@,
        Operator::UncoveredConstraint => "В корпусе нет доказательств по «"@ + kpi
            + "»; кандидаты нужно фильтровать через прямое измерение."@,
    }
}

/// The label of the node with the given id, or the id itself.
pub fn node_label(g: &MechanismGraph, id: &str) -> (r: String)
    requires
        g.wf(),
    ensures
        r@ == spec_node_label(*g, id@),
{
    match g.node(id) {
        Some(n) => n.label.clone(),
        None => owned(id),
    }
}

/// Labels of the candidate's source nodes that are controllable factors.
pub fn controllable_label_list(g: &MechanismGraph, c: &Candidate) -> (r: Vec<String>)
    requires
        g.wf(),
    ensures
        views(r@) == controllable_labels(*g, c@),
{
    let ghost keep = id_tagged(*g, "controllable"@);
    let ghost lab = label_of(*g);
    let ghost sn = views(c.source_nodes@);
    let mut out: Vec<String> = Vec::new();
    let mut i: usize = 0;
    while i < c.source_nodes.len()
        invariant
            g.wf(),
            keep == id_tagged(*g, "controllable"@),
            lab == label_of(*g),
            sn == views(c.source_nodes@),
            i <= c.source_nodes.len(),
            views(out@) == sn.take(i as int).filter(keep).map_values(lab),
        decreases c.source_nodes.len() - i,
    {
        let ghost id = sn[i as int];
        proof {
            assert(sn.take(i + 1) =~= sn.take(i as int).push(id));
            sn.take(i as int).lemma_filter_push(id, keep);
        }
        let ghost before = views(out@);
        match g.node(c.source_nodes[i].as_str()) {
            Some(n) => {
                if n.has_tag("controllable") {
                    out.push(n.label.clone());
                    proof {
                        sn.take(i as int).filter(keep).lemma_push_map_commute(lab, id);
                        assert(views(out@) =~= before.push(lab(id)));
                    }
                }
            },
            None => {},
        }
        i = i + 1;
    }
    assert(sn.take(c.source_nodes.len() as int) =~= sn);
    out
}

/// The candidate's controllable factors joined with " + ", or "фактор".
pub fn factor_labels(g: &MechanismGraph, c: &Candidate) -> (r: String)
    requires
        g.wf(),
    ensures
        r@ == spec_factor_labels(*g, c@),
{
    let labels = controllable_label_list(g, c);
    if labels.len() == 0 {
        owned("фактор")
    } else {
        crate::strings::join(&labels, " + ")
    }
}

/// The label of the candidate's lever.
pub fn lever_label(g: &MechanismGraph, c: &Candidate) -> (r: String)
    requires
        g.wf(),
    ensures
        r@ == spec_lever_label(*g, c@),
{
    match &c.controllable {
        Some(id) => node_label(g, id.as_str()),
        None => factor_labels(g, c),
    }
}

/// The title of a candidate.
pub fn title(g: &MechanismGraph, c: &Candidate) -> (r: String)
    requires
        g.wf(),
    ensures
        r@ == spec_title(*g, c@),
{
    let kpi = node_label(g, c.kpi.as_str());
    let lever = lever_label(g, c);
    match c.operator {
        Operator::MechanismPath => concat5("Настроить «", lever.as_str(), "» для снижения «", kpi.as_str(), "»"),
        Operator::Substitution => concat5("Заменить «", lever.as_str(), "» на пути к «", kpi.as_str(), "»"),
        Operator::Gap => concat5(
            "Внедрить «",
            lever.as_str(),
            "» (новая возможность) для «",
            kpi.as_str(),
            "»",
        ),
        Operator::Contradiction => concat3("Найти граничное условие, влияющее на «", kpi.as_str(), "»"),
        Operator::AnalogyTransfer => concat3("Перенести проверенный механизм на путь к «", kpi.as_str(), "»"),
        Operator::UncoveredConstraint => concat3(
            "Добавить измерение «",
            kpi.as_str(),
            "» как обязательный фильтр",
        ),
    }
}

/// The summary of a candidate.
pub fn summary(g: &MechanismGraph, c: &Candidate) -> (r: String)
    requires
        g.wf(),
    ensures
        r@ == spec_summary(*g, c@),
{
    let kpi = node_label(g, c.kpi.as_str());
    let lever = lever_label(g, c);
    match c.operator {
        Operator::MechanismPath => concat5(
            "Изменить «",
            lever.as_str(),
            "», чтобы повлиять на «",
            kpi.as_str(),
            "» по прослеженной причинной цепочке.",
        ),
        Operator::Substitution => concat5(
            "Использовать «",
            lever.as_str(),
            "» как альтернативный путь к «",
            kpi.as_str(),
            "» с тем же эффектом.",
        ),
        Operator::Gap => concat5(
            "«",
            lever.as_str(),
            "» пока недоступен на этой линии; его внедрение открывает путь к «",
            kpi.as_str(),
            "».",
        ),
        Operator::Contradiction => concat3(
            "Два источника противоречат друг другу по «",
            kpi.as_str(),
            "»; нужно определить граничное условие, при котором эффект меняет знак.",
        ),
        Operator::AnalogyTransfer => concat3(
            "Перенести механизм, доказанный в другом месте, на путь к «",
            kpi.as_str(),
            "».",
        ),
        Operator::UncoveredConstraint => concat3(
            "В корпусе нет доказательств по «",
            kpi.as_str(),
            "»; кандидаты нужно фильтровать через прямое измерение.",
        ),
    }
}

} // verus!

verus! {

/// The stable key of a candidate: operator name, `|`, source node ids joined
/// with commas.
pub open spec fn spec_candidate_key(c: CandidateV) -> Seq<char> {
    spec_operator_name(c.operator) + "|"@ + seq_join(c.source_nodes, ","@)
}

/// The stable key of a candidate.
pub fn candidate_key(c: &Candidate) -> (r: String)
    ensures
        r@ == spec_candidate_key(c@),
        r@ == spec_operator_name(c@.operator) + "|"@ + seq_join(c@.source_nodes, ","@),
{
    let nodes = crate::strings::join(&c.source_nodes, ",");
    concat3(c.operator.name(), "|", nodes.as_str())
}

/// A node id that can stand in a key unambiguously: not empty, no comma.
pub open spec fn plain_id(x: Seq<char>) -> bool {
    x.len() > 0 && !x.contains(',')
}

proof fn lemma_split_last(a1: Seq<char>, l1: Seq<char>, a2: Seq<char>, l2: Seq<char>)
    requires
        a1 + seq![','] + l1 == a2 + seq![','] + l2,
        !l1.contains(','),
        !l2.contains(','),
    ensures
        a1 == a2,
        l1 == l2,
{
    let s = a1 + seq![','] + l1;
    let t = a2 + seq![','] + l2;
    assert(s.len() == t.len());
    if l1.len() < l2.len() {
        let idx = a1.len() as int;
        assert(s[idx] == ',');
        assert(t[idx] == l2[idx - a2.len() - 1]);
        assert(l2.contains(','));
    } else if l2.len() < l1.len() {
        let idx = a2.len() as int;
        assert(t[idx] == ',');
        assert(s[idx] == l1[idx - a1.len() - 1]);
        assert(l1.contains(','));
    } else {
        assert(l1 =~= s.subrange(a1.len() as int + 1, s.len() as int));
        assert(l2 =~= t.subrange(a2.len() as int + 1, t.len() as int));
        assert(a1 =~= s.subrange(0, a1.len() as int));
        assert(a2 =~= t.subrange(0, a2.len() as int));
    }
}

proof fn lemma_join_shape(p: Seq<Seq<char>>)
    requires
        forall|i: int| 0 <= i < p.len() ==> plain_id(#[trigger] p[i]),
    ensures
        p.len() == 0 <==> seq_join(p, ","@).len() == 0,
        p.len() >= 2 <==> seq_join(p, ","@).contains(','),
        p.len() >= 2 ==> seq_join(p, ","@) == seq_join(p.drop_last(), ","@) + seq![','] + p.last(),
        p.len() == 1 ==> seq_join(p, ","@) == p[0],
{
    reveal_strlit(",");
    assert(","@ =~= seq![',']);
    if p.len() == 1 {
        assert(plain_id(p[0]));
    } else if p.len() >= 2 {
        let a = seq_join(p.drop_last(), ","@);
        let j = seq_join(p, ","@);
        assert(j == a + ","@ + p.last());
        assert(j[a.len() as int] == ',');
        assert(j.len() > 0);
    }
}

proof fn lemma_join_injective(p1: Seq<Seq<char>>, p2: Seq<Seq<char>>)
    requires
        forall|i: int| 0 <= i < p1.len() ==> plain_id(#[trigger] p1[i]),
        forall|i: int| 0 <= i < p2.len() ==> plain_id(#[trigger] p2[i]),
        seq_join(p1, ","@) == seq_join(p2, ","@),
    ensures
        p1 == p2,
    decreases p1.len(),
{
    lemma_join_shape(p1);
    lemma_join_shape(p2);
    if p1.len() >= 2 {
        assert(plain_id(p1[p1.len() - 1]));
        assert(plain_id(p2[p2.len() - 1]));
        lemma_split_last(seq_join(p1.drop_last(), ","@), p1.last(), seq_join(p2.drop_last(), ","@), p2.last());
        assert forall|i: int| 0 <= i < p1.drop_last().len() implies plain_id(#[trigger] p1.drop_last()[i]) by {
            assert(p1.drop_last()[i] == p1[i]);
        }
        assert forall|i: int| 0 <= i < p2.drop_last().len() implies plain_id(#[trigger] p2.drop_last()[i]) by {
            assert(p2.drop_last()[i] == p2[i]);
        }
        lemma_join_injective(p1.drop_last(), p2.drop_last());
        assert(p1 =~= p1.drop_last().push(p1.last()));
        assert(p2 =~= p2.drop_last().push(p2.last()));
    } else if p1.len() == 1 {
        assert(p1 =~= seq![p1[0]]);
        assert(p2 =~= seq![p2[0]]);
    } else {
        assert(p1 =~= p2);
    }
}

/// A key names its candidate: two candidates whose source node ids are
/// non-empty and free of commas have the same key exactly when they have
/// the same operator and the same source nodes in the same order. So two
/// different paths of one operator are never merged by de-duplication.
pub proof fn lemma_key_identifies(c1: CandidateV, c2: CandidateV)
    requires
        forall|i: int| 0 <= i < c1.source_nodes.len() ==> plain_id(#[trigger] c1.source_nodes[i]),
        forall|i: int| 0 <= i < c2.source_nodes.len() ==> plain_id(#[trigger] c2.source_nodes[i]),
    ensures
        spec_candidate_key(c1) == spec_candidate_key(c2) <==> (c1.operator == c2.operator && c1.source_nodes
            == c2.source_nodes),
{
    reveal_strlit("mechanism_path");
    reveal_strlit("substitution");
    reveal_strlit("gap");
    reveal_strlit("contradiction");
    reveal_strlit("analogy_transfer");
    reveal_strlit("uncovered_constraint");
    reveal_strlit("|");
    let n1 = spec_operator_name(c1.operator);
    let n2 = spec_operator_name(c2.operator);
    let k1 = spec_candidate_key(c1);
    let k2 = spec_candidate_key(c2);
    if k1 == k2 {
        assert(n1.len() > 0 && n2.len() > 0);
        assert(k1[0] == n1[0]);
        assert(k2[0] == n2[0]);
        assert(c1.operator == c2.operator);
        let j1 = seq_join(c1.source_nodes, ","@);
        let j2 = seq_join(c2.source_nodes, ","@);
        assert(j1 =~= k1.subrange(n1.len() as int + 1, k1.len() as int));
        assert(j2 =~= k2.subrange(n2.len() as int + 1, k2.len() as int));
        lemma_join_injective(c1.source_nodes, c2.source_nodes);
    }
}

/// No earlier candidate has the same key.
pub open spec fn first_of_key(cs: Seq<CandidateV>, i: int) -> bool {
    forall|j: int| 0 <= j < i ==> spec_candidate_key(#[trigger] cs[j]) != spec_candidate_key(cs[i])
}

/// The candidates whose key has not occurred before, each with its key.
pub open spec fn dedupe_spec(cs: Seq<CandidateV>) -> Seq<(Seq<char>, CandidateV)> {
    Seq::new(cs.len(), |i: int| i).filter(|i: int| first_of_key(cs, i)).map_values(
        |i: int| (spec_candidate_key(cs[i]), cs[i]),
    )
}

/// The views of keyed candidates.
pub open spec fn keyed_views(s: Seq<(String, Candidate)>) -> Seq<(Seq<char>, CandidateV)> {
    s.map_values(|p: (String, Candidate)| (p.0@, p.1@))
}

/// Drops every candidate whose key occurred earlier and pairs the rest with
/// their keys.
pub fn dedupe(cands: Vec<Candidate>) -> (r: Vec<(String, Candidate)>)
    ensures
        keyed_views(r@) == dedupe_spec(cand_views(cands@)),
{
    let ghost cs = cand_views(cands@);
    let ghost idx = Seq::new(cs.len(), |i: int| i);
    let ghost keep = |i: int| first_of_key(cs, i);
    let ghost mk = |i: int| (spec_candidate_key(cs[i]), cs[i]);
    let mut seen: Vec<String> = Vec::new();
    let mut out: Vec<(String, Candidate)> = Vec::new();
    let mut i: usize = 0;
    while i < cands.len()
        invariant
            cs == cand_views(cands@),
            idx == Seq::new(cs.len(), |i: int| i),
            keep == (|i: int| first_of_key(cs, i)),
            mk == (|i: int| (spec_candidate_key(cs[i]), cs[i])),
            i <= cands.len(),
            forall|k: Seq<char>| views(seen@).contains(k) <==> exists|j: int| 0 <= j < i && spec_candidate_key(#[trigger] cs[j]) == k,
            keyed_views(out@) == idx.take(i as int).filter(keep).map_values(mk),
        decreases cands.len() - i,
    {
        let key = candidate_key(&cands[i]);
        proof {
            assert(idx.take(i + 1) =~= idx.take(i as int).push(i as int));
            idx.take(i as int).lemma_filter_push(i as int, keep);
        }
        let ghost before = keyed_views(out@);
        let ghost seen0 = views(seen@);
        if !crate::strings::contains_str(&seen, key.as_str()) {
            assert(keep(i as int));
            let c = cands[i].clone();
            let ghost pv = (key@, c@);
            out.push((key.clone(), c));
            proof {
                idx.take(i as int).filter(keep).lemma_push_map_commute(mk, i as int);
                assert(keyed_views(out@) =~= before.push(pv));
            }
            seen.push(key);
            assert(views(seen@) =~= seen0.push(key@));
        } else {
            assert(!keep(i as int)) by {
                let j = choose|j: int| 0 <= j < i && spec_candidate_key(#[trigger] cs[j]) == key@;
            }
        }
        proof {
            assert forall|k: Seq<char>| views(seen@).contains(k) <==> exists|j: int| 0 <= j < i + 1 && spec_candidate_key(#[trigger] cs[j]) == k by {
                if exists|j: int| 0 <= j < i + 1 && spec_candidate_key(#[trigger] cs[j]) == k {
                    let j = choose|j: int| 0 <= j < i + 1 && spec_candidate_key(#[trigger] cs[j]) == k;
                    if j == i {
                        if views(seen@) == seen0.push(key@) {
                            assert(views(seen@)[seen0.len() as int] == k);
                        }
                    } else {
                        assert(seen0.contains(k));
                        let t = choose|t: int| 0 <= t < seen0.len() && seen0[t] == k;
                        assert(views(seen@)[t] == k);
                    }
                }
                if views(seen@).contains(k) {
                    let t = choose|t: int| 0 <= t < views(seen@).len() && views(seen@)[t] == k;
                    if t < seen0.len() {
                        assert(seen0[t] == k);
                        assert(seen0.contains(k));
                    } else {
                        assert(k == key@);
                        assert(spec_candidate_key(cs[i as int]) == k);
                    }
                }
            }
        }
        i = i + 1;
    }
    assert(idx.take(cands.len() as int) =~= idx);
    out
}

} // verus!

verus! {

/// The id of the hypothesis at a 1-based rank: `hyp_` and the rank padded to
/// three digits.
pub open spec fn spec_hypothesis_id(rank: nat) -> Seq<char> {
    "hyp_"@ + crate::strings::zero_pad(crate::strings::decimal(rank), 3)
}

/// The id of the hypothesis at a 1-based rank (`hyp_001`, ...).
pub fn hypothesis_id(rank: u64) -> (r: String)
    ensures
        r@ == spec_hypothesis_id(rank as nat),
{
    let digits = crate::strings::padded_decimal(rank, 3);
    crate::strings::concat2("hyp_", digits.as_str())
}

proof fn lemma_filter_increasing(s: Seq<int>, pred: spec_fn(int) -> bool)
    requires
        forall|i: int, j: int| 0 <= i < j < s.len() ==> s[i] < s[j],
    ensures
        forall|i: int, j: int| 0 <= i < j < s.filter(pred).len() ==> s.filter(pred)[i] < s.filter(pred)[j],
        forall|i: int| 0 <= i < s.filter(pred).len() ==> s.contains(#[trigger] s.filter(pred)[i]),
    decreases s.len(),
{
    reveal(Seq::filter);
    if s.len() > 0 {
        let d = s.drop_last();
        lemma_filter_increasing(d, pred);
        let f = d.filter(pred);
        assert forall|i: int| 0 <= i < f.len() implies f[i] < s.last() by {
            let k = choose|k: int| 0 <= k < d.len() && d[k] == f[i];
            assert(d[k] == s[k]);
        }
        assert forall|i: int| 0 <= i < s.filter(pred).len() implies s.contains(#[trigger] s.filter(pred)[i]) by {
            if i < f.len() {
                let k = choose|k: int| 0 <= k < d.len() && d[k] == f[i];
                assert(s[k] == f[i]);
            } else {
                assert(s.filter(pred)[i] == s.last());
                assert(s[s.len() - 1] == s.last());
            }
        }
    }
}

/// After de-duplication every key occurs once.
pub proof fn lemma_dedupe_keys_distinct(cs: Seq<CandidateV>)
    ensures
        forall|i: int, j: int| 0 <= i < j < dedupe_spec(cs).len() ==> dedupe_spec(cs)[i].0 != dedupe_spec(cs)[j].0,
{
    let idx = Seq::new(cs.len(), |i: int| i);
    let keep = |i: int| first_of_key(cs, i);
    let f = idx.filter(keep);
    lemma_filter_increasing(idx, keep);
    assert forall|i: int, j: int| 0 <= i < j < dedupe_spec(cs).len() implies dedupe_spec(cs)[i].0 != dedupe_spec(cs)[j].0 by {
        assert(f.len() == dedupe_spec(cs).len());
        assert(f[i] < f[j]);
        idx.lemma_filter_pred(keep, j);
        assert(idx.contains(f[i]));
        let k = choose|k: int| 0 <= k < idx.len() && idx[k] == f[i];
        assert(0 <= f[i]);
        assert(spec_candidate_key(cs[f[i]]) != spec_candidate_key(cs[f[j]]));
    }
}

} // verus!
