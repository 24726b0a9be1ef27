//! Rerun actions: each one changes only the KPI contract of a stored run
//! (excluded factors, weight overrides, constraints, prices), so the graph
//! and its snapshot stay as they were.

use vstd::prelude::*;

use crate::contracts::{opt_view, Constraint, ConstraintV, KpiContract, Op, RerunAction, RerunKind};
use crate::strings::{seq_lt, views};

verus! {

/// Length of the longest prefix of `s` whose elements all satisfy `keep`.
pub open spec fn prefix_len<A>(s: Seq<A>, keep: spec_fn(A) -> bool) -> nat
    decreases s.len(),
{
    if s.len() == 0 {
        0
    } else {
        let p = prefix_len(s.drop_last(), keep);
        if p == s.len() - 1 && keep(s.last()) {
            s.len()
        } else {
            p
        }
    }
}

/// `p` is where the first element of `s` that fails `keep` stands (or the length).
pub open spec fn is_first_fail<A>(s: Seq<A>, keep: spec_fn(A) -> bool, p: int) -> bool {
    &&& 0 <= p <= s.len()
    &&& forall|t: int| 0 <= t < p ==> keep(#[trigger] s[t])
    &&& p < s.len() ==> !keep(s[p])
}

/// `prefix_len` is the one position that `is_first_fail` describes.
pub proof fn lemma_prefix_len<A>(s: Seq<A>, keep: spec_fn(A) -> bool, p: int)
    ensures
        is_first_fail(s, keep, prefix_len(s, keep) as int),
        is_first_fail(s, keep, p) ==> p == prefix_len(s, keep),
    decreases s.len(),
{
    if s.len() > 0 {
        let d = s.drop_last();
        lemma_prefix_len(d, keep, p);
        lemma_prefix_len(d, keep, s.len() - 1);
        let q = prefix_len(d, keep) as int;
        assert forall|t: int| 0 <= t < d.len() implies #[trigger] d[t] == s[t] by {}
        let r = prefix_len(s, keep) as int;
        assert forall|t: int| 0 <= t < r implies keep(#[trigger] s[t]) by {
            if t < d.len() {
                assert(d[t] == s[t]);
            }
        }
        if r < s.len() && q < d.len() {
            assert(d[q] == s[q]);
        }
        if is_first_fail(s, keep, p) && p < s.len() {
            if p < s.len() - 1 {
                assert(is_first_fail(d, keep, p));
            } else {
                assert(is_first_fail(d, keep, s.len() - 1));
            }
        }
        if is_first_fail(s, keep, p) && p == s.len() {
            assert(is_first_fail(d, keep, s.len() - 1));
        }
    }
}

/// A key-ordered association list (a `BTreeMap` in order): `(key, value)`
/// pairs by key view.
pub open spec fn pair_views<V>(m: Seq<(String, V)>) -> Seq<(Seq<char>, V)> {
    m.map_values(|p: (String, V)| (p.0@, p.1))
}

/// Whether the pair's key comes before `k`.
pub open spec fn key_below<V>(k: Seq<char>) -> spec_fn((Seq<char>, V)) -> bool {
    |p: (Seq<char>, V)| seq_lt(p.0, k)
}

/// `BTreeMap::insert` on a key-ordered list: the value of key `k` becomes
/// `v`, and a new key goes where the order puts it.
pub open spec fn assoc_put<V>(m: Seq<(Seq<char>, V)>, k: Seq<char>, v: V) -> Seq<(Seq<char>, V)> {
    let p = prefix_len(m, key_below(k)) as int;
    if p < m.len() && m[p].0 == k {
        m.update(p, (k, v))
    } else {
        m.insert(p, (k, v))
    }
}

/// Sets the value of key `k` in a key-ordered list of pairs.
pub fn assoc_set<V>(m: &mut Vec<(String, V)>, k: &str, v: V)
    ensures
        pair_views(final(m)@) == assoc_put(pair_views(old(m)@), k@, v),
{
    let ghost s = pair_views(m@);
    let mut p: usize = 0;
    while p < m.len() && crate::strings::str_lt(m[p].0.as_str(), k)
        invariant
            s == pair_views(m@),
            p <= m.len(),
            forall|t: int| 0 <= t < p ==> (key_below::<V>(k@))(#[trigger] s[t]),
        decreases m.len() - p,
    {
        p = p + 1;
    }
    proof {
        lemma_prefix_len(s, key_below(k@), p as int);
    }
    if p < m.len() && crate::strings::str_eq(m[p].0.as_str(), k) {
        m.set(p, (crate::strings::owned(k), v));
        assert(pair_views(m@) =~= s.update(p as int, (k@, v)));
    } else {
        m.insert(p, (crate::strings::owned(k), v));
        assert(pair_views(m@) =~= s.insert(p as int, (k@, v)));
    }
}

/// Views of constraints.
pub open spec fn constraint_views<V>(s: Seq<Constraint<V>>) -> Seq<ConstraintV<V>> {
    s.map_values(|c: Constraint<V>| c@)
}

/// Whether a constraint is on another metric than `m`.
pub open spec fn metric_differs<V>(m: Seq<char>) -> spec_fn(ConstraintV<V>) -> bool {
    |c: ConstraintV<V>| c.metric != m
}

/// The first constraint on `metric` takes the new operator and bound (its
/// unit stays); without one, a constraint without unit is appended.
pub open spec fn upsert<V>(cs: Seq<ConstraintV<V>>, metric: Seq<char>, op: Op, value: V) -> Seq<ConstraintV<V>> {
    let p = prefix_len(cs, metric_differs(metric)) as int;
    if p < cs.len() {
        cs.update(p, ConstraintV { metric: cs[p].metric, op, value, unit: cs[p].unit })
    } else {
        cs.push(ConstraintV { metric, op, value, unit: None })
    }
}

fn upsert_constraint<V: Copy>(cs: &mut Vec<Constraint<V>>, metric: &str, op: Op, value: V)
    ensures
        constraint_views(final(cs)@) == upsert(constraint_views(old(cs)@), metric@, op, value),
{
    let ghost s = constraint_views(cs@);
    let mut p: usize = 0;
    while p < cs.len() && !crate::strings::str_eq(cs[p].metric.as_str(), metric)
        invariant
            s == constraint_views(cs@),
            p <= cs.len(),
            forall|t: int| 0 <= t < p ==> (metric_differs::<V>(metric@))(#[trigger] s[t]),
        decreases cs.len() - p,
    {
        p = p + 1;
    }
    proof {
        lemma_prefix_len(s, metric_differs(metric@), p as int);
    }
    if p < cs.len() {
        let c = Constraint {
            metric: cs[p].metric.clone(),
            op,
            value,
            unit: crate::contracts::copy_opt_string(&cs[p].unit),
        };
        cs.set(p, c);
        assert(constraint_views(cs@) =~= upsert(s, metric@, op, value));
    } else {
        cs.push(Constraint { metric: crate::strings::owned(metric), op, value, unit: None });
        assert(constraint_views(cs@) =~= upsert(s, metric@, op, value));
    }
}

/// The parts of a KPI contract that rerun actions change.
pub struct ContractTermsV<V> {
    pub constraints: Seq<ConstraintV<V>>,
    pub prices: Seq<(Seq<char>, V)>,
    pub weights: Seq<(Seq<char>, V)>,
    pub excluded: Seq<Seq<char>>,
}

/// The adjustable terms of a contract.
pub open spec fn terms<V>(c: KpiContract<V>) -> ContractTermsV<V> {
    ContractTermsV {
        constraints: constraint_views(c.constraints@),
        prices: pair_views(c.prices_usd_per_t@),
        weights: pair_views(c.weights_override@),
        excluded: views(c.excluded_factors@),
    }
}

/// The operator of an added or relaxed constraint: the payload's, else `<=`.
pub open spec fn op_or_default(op: Option<Op>) -> Op {
    match op {
        Some(o) => o,
        None => Op::LessEqual,
    }
}

/// What a rerun action does to the terms of a contract. An action whose
/// payload lacks a field its kind needs changes nothing.
pub open spec fn spec_apply<V>(t: ContractTermsV<V>, a: RerunAction<V>) -> ContractTermsV<V> {
    let p = a.payload;
    match a.kind {
        RerunKind::ExcludeFactor => match opt_view(p.factor_id) {
            Some(f) => if t.excluded.contains(f) {
                t
            } else {
                ContractTermsV { excluded: t.excluded.push(f), ..t }
            },
            None => t,
        },
        RerunKind::ChangeWeight => match (opt_view(p.dimension), p.value) {
            (Some(d), Some(v)) => ContractTermsV { weights: assoc_put(t.weights, d, v), ..t },
            _ => t,
        },
        RerunKind::AddConstraint | RerunKind::RelaxConstraint => match (opt_view(p.metric), p.value) {
            (Some(m), Some(v)) => ContractTermsV {
                constraints: upsert(t.constraints, m, op_or_default(p.op), v),
                ..t
            },
            _ => t,
        },
        RerunKind::ChangePrice => match (opt_view(p.element), p.usd_per_t) {
            (Some(e), Some(v)) => ContractTermsV { prices: assoc_put(t.prices, e, v), ..t },
            _ => t,
        },
    }
}

/// Applies a rerun action to a contract: excludes a factor (once), sets a
/// weight override or a price, or adds / relaxes a constraint on a metric.
/// Nothing else in the contract changes.
pub fn apply<V: Copy>(contract: &mut KpiContract<V>, action: &RerunAction<V>)
    ensures
        terms(*final(contract)) == spec_apply(terms(*old(contract)), *action),
        final(contract).factory_id == old(contract).factory_id,
        final(contract).target == old(contract).target,
{
    let p = &action.payload;
    match action.kind {
        RerunKind::ExcludeFactor => {
            if let Some(f) = &p.factor_id {
                if !crate::strings::contains_str(&contract.excluded_factors, f.as_str()) {
                    let ghost before = contract.excluded_factors@;
                    contract.excluded_factors.push(f.clone());
                    assert(views(contract.excluded_factors@) =~= views(before).push(f@));
                }
            }
        },
        RerunKind::ChangeWeight => {
            if let Some(dim) = &p.dimension {
                if let Some(v) = p.value {
                    assoc_set(&mut contract.weights_override, dim.as_str(), v);
                }
            }
        },
        RerunKind::AddConstraint | RerunKind::RelaxConstraint => {
            if let Some(metric) = &p.metric {
                if let Some(value) = p.value {
                    let op = match p.op {
                        Some(o) => o,
                        None => Op::LessEqual,
                    };
                    upsert_constraint(&mut contract.constraints, metric.as_str(), op, value);
                }
            }
        },
        RerunKind::ChangePrice => {
            if let Some(element) = &p.element {
                if let Some(usd) = p.usd_per_t {
                    assoc_set(&mut contract.prices_usd_per_t, element.as_str(), usd);
                }
            }
        },
    }
    assert(terms(*contract) =~= spec_apply(terms(*old(contract)), *action));
}

/// Putting the same key and value twice leaves the list as putting it once.
pub proof fn lemma_assoc_put_twice<V>(m: Seq<(Seq<char>, V)>, k: Seq<char>, v: V)
    ensures
        assoc_put(assoc_put(m, k, v), k, v) == assoc_put(m, k, v),
{
    let keep = key_below::<V>(k);
    let p = prefix_len(m, keep) as int;
    lemma_prefix_len(m, keep, p);
    let m1 = assoc_put(m, k, v);
    assert(m1[p] == (k, v));
    crate::strings::lemma_seq_lt_irreflexive(k);
    assert(is_first_fail(m1, keep, p));
    lemma_prefix_len(m1, keep, p);
    assert(m1.update(p, (k, v)) =~= m1);
}

/// In a list whose keys are strictly increasing, putting `k` keeps the keys
/// strictly increasing, gives `k` the value `v`, keeps every pair of another
/// key, and adds no key but `k`.
pub proof fn lemma_assoc_put_sorted<V>(m: Seq<(Seq<char>, V)>, k: Seq<char>, v: V)
    requires
        crate::sorting::strictly_sorted(m.map_values(|p: (Seq<char>, V)| p.0), crate::sorting::str_order()),
    ensures
        crate::sorting::strictly_sorted(
            assoc_put(m, k, v).map_values(|p: (Seq<char>, V)| p.0),
            crate::sorting::str_order(),
        ),
        assoc_put(m, k, v).contains((k, v)),
        forall|j: int| 0 <= j < m.len() && m[j].0 != k ==> assoc_put(m, k, v).contains(#[trigger] m[j]),
        forall|q: (Seq<char>, V)| #[trigger] assoc_put(m, k, v).contains(q) ==> q == (k, v) || m.contains(q),
{
    let keep = key_below::<V>(k);
    let p = prefix_len(m, keep) as int;
    lemma_prefix_len(m, keep, p);
    crate::sorting::lemma_str_order_total();
    let ks = m.map_values(|q: (Seq<char>, V)| q.0);
    let r = assoc_put(m, k, v);
    if p < m.len() && m[p].0 == k {
        assert(r.map_values(|q: (Seq<char>, V)| q.0) =~= ks);
        assert(r[p] == (k, v));
        assert forall|j: int| 0 <= j < m.len() && m[j].0 != k implies r.contains(#[trigger] m[j]) by {
            assert(r[j] == m[j]);
        }
        assert forall|q: (Seq<char>, V)| #[trigger] r.contains(q) implies q == (k, v) || m.contains(q) by {
            let j = choose|j: int| 0 <= j < r.len() && r[j] == q;
            if j != p {
                assert(m[j] == q);
            }
        }
    } else {
        assert(r.map_values(|q: (Seq<char>, V)| q.0) =~= ks.insert(p, k));
        assert forall|t: int| 0 <= t < p implies crate::sorting::str_order()(#[trigger] ks[t], k) by {
            assert(keep(m[t]));
        }
        assert forall|t: int| p <= t < ks.len() implies crate::sorting::str_order()(k, #[trigger] ks[t]) by {
            assert(!keep(m[p]));
            assert(ks[p] != k);
            crate::strings::lemma_seq_lt_total(k, ks[p]);
            if t > p {
                assert(crate::sorting::str_order()(ks[p], ks[t]));
                crate::strings::lemma_seq_lt_transitive(k, ks[p], ks[t]);
            }
        }
        crate::sorting::lemma_insert_sorted(ks, crate::sorting::str_order(), p, k);
        assert(r[p] == (k, v));
        assert forall|j: int| 0 <= j < m.len() && m[j].0 != k implies r.contains(#[trigger] m[j]) by {
            if j < p {
                assert(r[j] == m[j]);
            } else {
                assert(r[j + 1] == m[j]);
            }
        }
        assert forall|q: (Seq<char>, V)| #[trigger] r.contains(q) implies q == (k, v) || m.contains(q) by {
            let j = choose|j: int| 0 <= j < r.len() && r[j] == q;
            if j < p {
                assert(m[j] == q);
            } else if j > p {
                assert(m[j - 1] == q);
            }
        }
    }
}

/// Upserting the same constraint twice leaves the list as upserting it once.
pub proof fn lemma_upsert_twice<V>(cs: Seq<ConstraintV<V>>, metric: Seq<char>, op: Op, value: V)
    ensures
        upsert(upsert(cs, metric, op, value), metric, op, value) == upsert(cs, metric, op, value),
{
    let keep = metric_differs::<V>(metric);
    let p = prefix_len(cs, keep) as int;
    lemma_prefix_len(cs, keep, p);
    let c1 = upsert(cs, metric, op, value);
    assert(c1[p].metric == metric);
    assert(is_first_fail(c1, keep, p));
    lemma_prefix_len(c1, keep, p);
    assert(c1.update(p, ConstraintV { metric: c1[p].metric, op, value, unit: c1[p].unit }) =~= c1);
}

/// A rerun action applied twice changes the contract as applying it once.
pub proof fn lemma_apply_twice<V>(t: ContractTermsV<V>, a: RerunAction<V>)
    ensures
        spec_apply(spec_apply(t, a), a) == spec_apply(t, a),
{
    let p = a.payload;
    match a.kind {
        RerunKind::ExcludeFactor => {
            if let Some(f) = opt_view(p.factor_id) {
                if !t.excluded.contains(f) {
                    assert(t.excluded.push(f).contains(f)) by {
                        assert(t.excluded.push(f)[t.excluded.len() as int] == f);
                    }
                }
            }
        },
        RerunKind::ChangeWeight => {
            if let (Some(d), Some(v)) = (opt_view(p.dimension), p.value) {
                lemma_assoc_put_twice(t.weights, d, v);
            }
        },
        RerunKind::AddConstraint | RerunKind::RelaxConstraint => {
            if let (Some(m), Some(v)) = (opt_view(p.metric), p.value) {
                lemma_upsert_twice(t.constraints, m, op_or_default(p.op), v);
            }
        },
        RerunKind::ChangePrice => {
            if let (Some(e), Some(v)) = (opt_view(p.element), p.usd_per_t) {
                lemma_assoc_put_twice(t.prices, e, v);
            }
        },
    }
}

} // verus!
