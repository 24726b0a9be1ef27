//! Diagnostics of a factory's source workbook and the data-readiness report
//! derived from them.

use vstd::prelude::*;

use crate::sorting::{str_order, strictly_sorted};
use crate::strings::{concat5, decimal, views};

verus! {

/// A data-quality issue met while parsing the workbook; `V` is the type of
/// its optional percentage delta.
#[derive(Debug)]
pub struct DataQualityIssue<V> {
    pub issue: String,
    pub location: String,
    pub handling: String,
    pub delta_pct: Option<V>,
}

/// A cell of losses in the workbook; `V` is the type of its tonnage.
#[derive(Debug)]
pub struct LossCell<V> {
    pub cell_ref: String,
    pub section: String,
    pub size_class: String,
    pub mineral_form: String,
    pub element: String,
    pub diagnosis: String,
    pub recoverable: bool,
    pub tons: V,
}

/// Tonnage of an element attributed to a diagnosis.
#[derive(Debug)]
pub struct DiagnosisItem<V> {
    pub diagnosis: String,
    pub element: String,
    pub tons: V,
}

/// Quantitative diagnostics of a factory.
#[derive(Debug)]
pub struct DiagnosticsReport<V> {
    pub factory_id: String,
    pub pack_id: String,
    pub source_file: String,
    pub sections: Vec<String>,
    pub data_quality: Vec<DataQualityIssue<V>>,
    pub loss_cells: Vec<LossCell<V>>,
    pub diagnosis_summary: Vec<DiagnosisItem<V>>,
}

/// The quality of a factory's source data: the readiness percentage in
/// tenths of a percent, counts, issues per type (sorted by type) and a note.
#[derive(Debug)]
pub struct DataReadiness {
    pub factory_id: String,
    pub readiness_tenths: u64,
    pub loss_cells: usize,
    pub issues_total: usize,
    pub issues_by_type: Vec<(String, usize)>,
    pub note: String,
}

/// Equality with `x`, as a predicate.
pub open spec fn eq_to(x: Seq<char>) -> spec_fn(Seq<char>) -> bool {
    |y: Seq<char>| y == x
}

/// How many times `x` occurs in `s`.
pub open spec fn occurrences(s: Seq<Seq<char>>, x: Seq<char>) -> nat {
    s.filter(eq_to(x)).len()
}

/// The issue types of a report, in order.
pub open spec fn issue_types<V>(d: DiagnosticsReport<V>) -> Seq<Seq<char>> {
    d.data_quality@.map_values(|i: DataQualityIssue<V>| i.issue@)
}

/// Share of healthy data units (parsed loss cells against loss cells plus
/// issues) in tenths of a percent, rounded half up; 1000 when there is nothing.
pub open spec fn spec_readiness_tenths(loss: nat, issues: nat) -> nat {
    let denom = loss + issues;
    if denom == 0 {
        1000
    } else {
        (2000 * loss + denom) / (2 * denom)
    }
}

/// The note of a readiness report.
pub open spec fn readiness_note(loss: nat, issues: nat) -> Seq<char> {
    decimal(loss) + " loss cells parsed; "@ + decimal(issues) + " data-quality issues handled deterministically"@
}

/// The (type, count) pairs of issues: each type once, in `str` order, with
/// how often it occurs.
pub open spec fn is_issue_histogram(types: Seq<Seq<char>>, r: Seq<(Seq<char>, usize)>) -> bool {
    &&& crate::sorting::is_sorted_set(r.map_values(|p: (Seq<char>, usize)| p.0), |t: Seq<char>| types.contains(t))
    &&& forall|k: int| 0 <= k < r.len() ==> (#[trigger] r[k]).1 == occurrences(types, r[k].0)
}

/// Views of (string, count) pairs.
pub open spec fn count_views(s: Seq<(String, usize)>) -> Seq<(Seq<char>, usize)> {
    s.map_values(|p: (String, usize)| (p.0@, p.1))
}

proof fn lemma_occurrences_push(s: Seq<Seq<char>>, y: Seq<char>, x: Seq<char>)
    ensures
        occurrences(s.push(y), x) == occurrences(s, x) + (if y == x { 1nat } else { 0nat }),
{
    s.lemma_filter_push(y, eq_to(x));
}

/// Adds one occurrence of `x` to a histogram sorted by key.
fn count_one(v: &mut Vec<(String, usize)>, x: &str, Ghost(seen): Ghost<Seq<Seq<char>>>)
    requires
        strictly_sorted(count_views(old(v)@).map_values(|p: (Seq<char>, usize)| p.0), str_order()),
        forall|t: Seq<char>| count_views(old(v)@).map_values(|p: (Seq<char>, usize)| p.0).contains(t) <==> seen.contains(t),
        forall|k: int| 0 <= k < old(v)@.len() ==> (#[trigger] old(v)@[k]).1 == occurrences(seen, old(v)@[k].0@),
        seen.len() < usize::MAX,
    ensures
        strictly_sorted(count_views(final(v)@).map_values(|p: (Seq<char>, usize)| p.0), str_order()),
        forall|t: Seq<char>| count_views(final(v)@).map_values(|p: (Seq<char>, usize)| p.0).contains(t) <==> seen.push(x@).contains(t),
        forall|k: int| 0 <= k < final(v)@.len() ==> (#[trigger] final(v)@[k]).1 == occurrences(seen.push(x@), final(v)@[k].0@),
{
    let ghost keys = count_views(v@).map_values(|p: (Seq<char>, usize)| p.0);
    let ghost lt = str_order();
    proof {
        crate::sorting::lemma_str_order_total();
    }
    let mut p: usize = 0;
    loop
        invariant
            lt == str_order(),
            v@ == old(v)@,
            keys == count_views(v@).map_values(|p: (Seq<char>, usize)| p.0),
            p <= v@.len(),
            forall|t: int| 0 <= t < p ==> lt(#[trigger] keys[t], x@),
        ensures
            v@ == old(v)@,
            p <= v@.len(),
            forall|t: int| 0 <= t < p ==> lt(#[trigger] keys[t], x@),
            p < v@.len() ==> !lt(keys[p as int], x@),
        decreases v@.len() - p,
    {
        if p == v.len() {
            break;
        }
        assert(keys[p as int] == v@[p as int].0@);
        if !crate::strings::str_lt(v[p].0.as_str(), x) {
            break;
        }
        p = p + 1;
    }
    proof {
        assert forall|k: int| 0 <= k < v@.len() implies keys[k] == v@[k].0@ by {}
        assert forall|t: Seq<char>| seen.push(x@).contains(t) <==> (seen.contains(t) || t == x@) by {
            if seen.push(x@).contains(t) {
                let i = choose|i: int| 0 <= i < seen.push(x@).len() && seen.push(x@)[i] == t;
                if i < seen.len() {
                    assert(seen.contains(t));
                }
            }
            if seen.contains(t) {
                let i = choose|i: int| 0 <= i < seen.len() && seen[i] == t;
                assert(seen.push(x@)[i] == t);
            }
            if t == x@ {
                assert(seen.push(x@)[seen.len() as int] == t);
            }
        }
        assert forall|y: Seq<char>| occurrences(seen.push(x@), y) == occurrences(seen, y) + (if x@ == y { 1nat } else { 0nat }) by {
            lemma_occurrences_push(seen, x@, y);
        }
    }
    if p < v.len() && crate::strings::str_eq(v[p].0.as_str(), x) {
        let ghost before = v@;
        proof {
            assert(keys.contains(x@));
            assert(seen.contains(x@));
            assert(occurrences(seen, x@) <= seen.len()) by {
                seen.lemma_filter_len(eq_to(x@));
            }
        }
        let c = v[p].1;
        let k = v[p].0.clone();
        v.set(p, (k, c + 1));
        proof {
            assert(count_views(v@).map_values(|p: (Seq<char>, usize)| p.0) =~= keys);
            assert forall|k: int| 0 <= k < v@.len() implies (#[trigger] v@[k]).1 == occurrences(seen.push(x@), v@[k].0@) by {
                if k != p {
                    assert(v@[k] == before[k]);
                    assert(keys[k] != keys[p as int]);
                }
            }
            assert forall|t: Seq<char>| count_views(v@).map_values(|p: (Seq<char>, usize)| p.0).contains(t) <==> seen.push(x@).contains(t) by {
                assert(keys.contains(t) <==> seen.contains(t));
            }
        }
        return;
    }
    proof {
        assert forall|t: int| p <= t < keys.len() implies lt(x@, #[trigger] keys[t]) by {
            assert(keys[p as int] != x@);
            assert(lt(x@, keys[p as int]));
            if t > p {
                assert(lt(keys[p as int], keys[t]));
            }
        }
        crate::sorting::lemma_insert_sorted(keys, lt, p as int, x@);
        assert(!keys.contains(x@)) by {
            if keys.contains(x@) {
                let k = choose|k: int| 0 <= k < keys.len() && keys[k] == x@;
                crate::strings::lemma_seq_lt_irreflexive(x@);
                if k < p {
                    assert(lt(keys[k], x@));
                } else {
                    assert(lt(x@, keys[k]));
                }
            }
        }
        assert(!seen.contains(x@));
        assert(occurrences(seen, x@) == 0) by {
            if occurrences(seen, x@) > 0 {
                let f = seen.filter(eq_to(x@));
                seen.filter_lemma(eq_to(x@));
                assert(f.contains(f[0]));
                assert(eq_to(x@)(f[0]));
                seen.lemma_filter_contains_rev(eq_to(x@), f[0]);
            }
        }
    }
    let ghost before = v@;
    v.insert(p, (crate::strings::owned(x), 1));
    proof {
        before.insert_ensures(p as int, v@[p as int]);
        assert(count_views(v@).map_values(|p: (Seq<char>, usize)| p.0) =~= keys.insert(p as int, x@));
        assert forall|t: Seq<char>| count_views(v@).map_values(|p: (Seq<char>, usize)| p.0).contains(t) <==> seen.push(x@).contains(t) by {
            assert(keys.insert(p as int, x@).contains(t) <==> (keys.contains(t) || t == x@));
            assert(keys.contains(t) <==> seen.contains(t));
        }
        assert forall|k: int| 0 <= k < v@.len() implies (#[trigger] v@[k]).1 == occurrences(seen.push(x@), v@[k].0@) by {
            if k < p {
                assert(v@[k] == before[k]);
                assert(keys[k] != x@);
            } else if k > p {
                assert(v@[k] == before[k - 1]);
                assert(keys[k - 1] != x@);
            }
        }
    }
}

} // verus!

verus! {

/// Data readiness of a diagnostics report: issues counted per type, the
/// share of parsed loss cells among loss cells and issues, and a note.
pub fn readiness<V>(d: &DiagnosticsReport<V>) -> (r: DataReadiness)
    ensures
        r.factory_id@ == d.factory_id@,
        r.loss_cells == d.loss_cells@.len(),
        r.issues_total == d.data_quality@.len(),
        is_issue_histogram(issue_types(*d), count_views(r.issues_by_type@)),
        r.readiness_tenths == spec_readiness_tenths(d.loss_cells@.len(), d.data_quality@.len()),
        r.note@ == readiness_note(d.loss_cells@.len(), d.data_quality@.len()),
{
    let ghost types = issue_types(*d);
    let mut by_type: Vec<(String, usize)> = Vec::new();
    let mut i: usize = 0;
    while i < d.data_quality.len()
        invariant
            types == issue_types(*d),
            i <= d.data_quality.len(),
            strictly_sorted(count_views(by_type@).map_values(|p: (Seq<char>, usize)| p.0), str_order()),
            forall|t: Seq<char>| count_views(by_type@).map_values(|p: (Seq<char>, usize)| p.0).contains(t) <==> types.take(i as int).contains(t),
            forall|k: int| 0 <= k < by_type@.len() ==> (#[trigger] by_type@[k]).1 == occurrences(types.take(i as int), by_type@[k].0@),
        decreases d.data_quality.len() - i,
    {
        assert(types.take(i + 1) =~= types.take(i as int).push(d.data_quality@[i as int].issue@));
        count_one(&mut by_type, d.data_quality[i].issue.as_str(), Ghost(types.take(i as int)));
        i = i + 1;
    }
    assert(types.take(d.data_quality.len() as int) =~= types);
    proof {
        assert forall|k: int| 0 <= k < by_type@.len() implies (#[trigger] count_views(by_type@)[k]).1 == occurrences(types, count_views(by_type@)[k].0) by {
            assert(by_type@[k].1 == occurrences(types, by_type@[k].0@));
        }
    }
    let loss = d.loss_cells.len();
    let issues = d.data_quality.len();
    let denom: u128 = loss as u128 + issues as u128;
    let tenths: u64 = if denom == 0 {
        1000
    } else {
        let num: u128 = 2000 * (loss as u128) + denom;
        let d2: u128 = 2 * denom;
        let q = num / d2;
        assert(q <= 1000) by (nonlinear_arith)
            requires
                num == 2000 * (loss as u128) + denom,
                d2 == 2 * denom,
                q == num / d2,
                denom >= loss,
                denom > 0,
        ;
        q as u64
    };
    let a = crate::strings::padded_decimal(loss as u64, 0);
    let b = crate::strings::padded_decimal(issues as u64, 0);
    let note = concat5(a.as_str(), " loss cells parsed; ", b.as_str(), " data-quality issues handled deterministically", "");
    proof {
        reveal_strlit("");
        assert(crate::strings::zero_pad(decimal(loss as nat), 0) == decimal(loss as nat));
        assert(crate::strings::zero_pad(decimal(issues as nat), 0) == decimal(issues as nat));
        assert(note@ =~= readiness_note(loss as nat, issues as nat));
    }
    DataReadiness {
        factory_id: d.factory_id.clone(),
        readiness_tenths: tenths,
        loss_cells: loss,
        issues_total: issues,
        issues_by_type: by_type,
        note,
    }
}

/// The readiness is a share: never above a thousand tenths (100 %).
pub proof fn lemma_readiness_at_most_full(loss: nat, issues: nat)
    ensures
        spec_readiness_tenths(loss, issues) <= 1000,
{
    let denom = loss + issues;
    if denom > 0 {
        assert((2000 * loss + denom) / (2 * denom) <= 1000) by (nonlinear_arith)
            requires
                denom == loss + issues,
                denom > 0,
        ;
    }
}

/// The sum of the counts of a histogram.
pub open spec fn count_sum(r: Seq<(Seq<char>, usize)>) -> nat
    decreases r.len(),
{
    if r.len() == 0 {
        0
    } else {
        count_sum(r.drop_last()) + (r.last().1 as nat)
    }
}

/// Whether a type differs from `x`.
pub open spec fn ne_to(x: Seq<char>) -> spec_fn(Seq<char>) -> bool {
    |y: Seq<char>| y != x
}

/// The occurrences of each key in `s`, added up.
pub open spec fn occurrence_sum(s: Seq<Seq<char>>, keys: Seq<Seq<char>>) -> nat
    decreases keys.len(),
{
    if keys.len() == 0 {
        0
    } else {
        occurrence_sum(s, keys.drop_last()) + occurrences(s, keys.last())
    }
}

proof fn lemma_split_len(s: Seq<Seq<char>>, x: Seq<char>)
    ensures
        occurrences(s, x) + s.filter(ne_to(x)).len() == s.len(),
    decreases s.len(),
{
    if s.len() > 0 {
        let d = s.drop_last();
        lemma_split_len(d, x);
        assert(s == d.push(s.last()));
        d.lemma_filter_push(s.last(), eq_to(x));
        d.lemma_filter_push(s.last(), ne_to(x));
    }
}

proof fn lemma_occurrences_without(s: Seq<Seq<char>>, x: Seq<char>, y: Seq<char>)
    requires
        y != x,
    ensures
        occurrences(s.filter(ne_to(x)), y) == occurrences(s, y),
    decreases s.len(),
{
    if s.len() > 0 {
        let d = s.drop_last();
        let z = s.last();
        lemma_occurrences_without(d, x, y);
        assert(s == d.push(z));
        d.lemma_filter_push(z, ne_to(x));
        d.lemma_filter_push(z, eq_to(y));
        if z != x {
            d.filter(ne_to(x)).lemma_filter_push(z, eq_to(y));
        }
    }
}

proof fn lemma_occurrence_sum_without(s: Seq<Seq<char>>, x: Seq<char>, keys: Seq<Seq<char>>)
    requires
        !keys.contains(x),
    ensures
        occurrence_sum(s.filter(ne_to(x)), keys) == occurrence_sum(s, keys),
    decreases keys.len(),
{
    if keys.len() > 0 {
        let d = keys.drop_last();
        assert(!d.contains(x)) by {
            if d.contains(x) {
                let k = choose|k: int| 0 <= k < d.len() && d[k] == x;
                assert(keys[k] == x);
            }
        }
        assert(keys[keys.len() - 1] == keys.last());
        lemma_occurrence_sum_without(s, x, d);
        lemma_occurrences_without(s, x, keys.last());
    }
}

proof fn lemma_occurrence_sum_total(s: Seq<Seq<char>>, keys: Seq<Seq<char>>)
    requires
        keys.no_duplicates(),
        forall|t: Seq<char>| keys.contains(t) <==> s.contains(t),
    ensures
        occurrence_sum(s, keys) == s.len(),
    decreases keys.len(),
{
    if keys.len() == 0 {
        if s.len() > 0 {
            assert(s.contains(s[0]));
        }
    } else {
        let x = keys.last();
        let d = keys.drop_last();
        let s2 = s.filter(ne_to(x));
        assert(!d.contains(x)) by {
            if d.contains(x) {
                let k = choose|k: int| 0 <= k < d.len() && d[k] == x;
                assert(keys[k] == x && keys[keys.len() - 1] == x);
            }
        }
        assert forall|t: Seq<char>| d.contains(t) <==> s2.contains(t) by {
            if d.contains(t) {
                let k = choose|k: int| 0 <= k < d.len() && d[k] == t;
                assert(keys[k] == t);
                assert(keys.contains(t));
                assert(t != x);
                let j = choose|j: int| 0 <= j < s.len() && s[j] == t;
                s.lemma_filter_contains(ne_to(x), j);
            }
            if s2.contains(t) {
                s.lemma_filter_contains_rev(ne_to(x), t);
                let j = choose|j: int| 0 <= j < s2.len() && s2[j] == t;
                s.lemma_filter_pred(ne_to(x), j);
                assert(keys.contains(t));
                let k = choose|k: int| 0 <= k < keys.len() && keys[k] == t;
                assert(k != keys.len() - 1);
                assert(d[k] == t);
            }
        }
        assert(d.no_duplicates());
        lemma_occurrence_sum_total(s2, d);
        lemma_occurrence_sum_without(s, x, d);
        lemma_split_len(s, x);
    }
}

/// The counts of the issue histogram add up to the number of issues.
pub proof fn lemma_issue_counts_add_up(types: Seq<Seq<char>>, r: Seq<(Seq<char>, usize)>)
    requires
        is_issue_histogram(types, r),
    ensures
        count_sum(r) == types.len(),
{
    let keys = r.map_values(|p: (Seq<char>, usize)| p.0);
    let pred = |t: Seq<char>| types.contains(t);
    assert(keys.no_duplicates()) by {
        assert forall|i: int, j: int| 0 <= i < keys.len() && 0 <= j < keys.len() && i != j implies keys[i] != keys[j] by {
            if i < j {
                assert(crate::sorting::str_order()(keys[i], keys[j]));
                crate::strings::lemma_seq_lt_irreflexive(keys[i]);
            } else {
                assert(crate::sorting::str_order()(keys[j], keys[i]));
                crate::strings::lemma_seq_lt_irreflexive(keys[j]);
            }
        }
    }
    lemma_occurrence_sum_total(types, keys);
    lemma_sums_agree(types, r);
}

proof fn lemma_sums_agree(types: Seq<Seq<char>>, r: Seq<(Seq<char>, usize)>)
    requires
        forall|k: int| 0 <= k < r.len() ==> (#[trigger] r[k]).1 == occurrences(types, r[k].0),
    ensures
        count_sum(r) == occurrence_sum(types, r.map_values(|p: (Seq<char>, usize)| p.0)),
    decreases r.len(),
{
    if r.len() > 0 {
        let d = r.drop_last();
        assert forall|k: int| 0 <= k < d.len() implies (#[trigger] d[k]).1 == occurrences(types, d[k].0) by {
            assert(d[k] == r[k]);
        }
        lemma_sums_agree(types, d);
        assert(r.map_values(|p: (Seq<char>, usize)| p.0).drop_last() =~= d.map_values(|p: (Seq<char>, usize)| p.0));
        assert(r[r.len() - 1] == r.last());
    }
}

} // verus!
