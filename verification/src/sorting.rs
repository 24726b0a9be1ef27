//! Strictly sorted sequences: insertion keeps them sorted, and two strictly
//! sorted sequences with the same elements are equal.

use vstd::prelude::*;

verus! {

/// `s` is strictly increasing under `lt`.
pub open spec fn strictly_sorted<A>(s: Seq<A>, lt: spec_fn(A, A) -> bool) -> bool {
    forall|i: int, j: int| 0 <= i < j < s.len() ==> #[trigger] lt(s[i], s[j]) && (#[trigger] s[j] == s[j])
}

/// `lt` is a strict total order on the values that satisfy `dom`.
pub open spec fn strict_total_on<A>(lt: spec_fn(A, A) -> bool, dom: spec_fn(A) -> bool) -> bool {
    &&& forall|x: A| #[trigger] dom(x) ==> !lt(x, x)
    &&& forall|x: A, y: A, z: A|
        dom(x) && dom(y) && dom(z) && #[trigger] lt(x, y) && #[trigger] lt(y, z) ==> lt(x, z)
    &&& forall|x: A, y: A| dom(x) && dom(y) && x != y ==> #[trigger] lt(x, y) || #[trigger] lt(y, x)
}

/// Inserting `x` where everything before it is smaller and everything after
/// it is larger keeps the sequence strictly sorted.
pub proof fn lemma_insert_sorted<A>(s: Seq<A>, lt: spec_fn(A, A) -> bool, p: int, x: A)
    requires
        strictly_sorted(s, lt),
        0 <= p <= s.len(),
        forall|t: int| 0 <= t < p ==> lt(#[trigger] s[t], x),
        forall|t: int| p <= t < s.len() ==> lt(x, #[trigger] s[t]),
    ensures
        strictly_sorted(s.insert(p, x), lt),
        s.insert(p, x).len() == s.len() + 1,
        forall|y: A| #[trigger] s.insert(p, x).contains(y) <==> (s.contains(y) || y == x),
{
    let r = s.insert(p, x);
    s.insert_ensures(p, x);
    assert forall|i: int, j: int| 0 <= i < j < r.len() implies #[trigger] lt(r[i], r[j]) && (#[trigger] r[j] == r[j]) by {
        if j < p {
            assert(lt(s[i], s[j]));
        } else if j == p {
            assert(lt(s[i], x));
        } else if i < p {
            assert(lt(s[i], s[j - 1]));
        } else if i == p {
            assert(lt(x, s[j - 1]));
        } else {
            assert(lt(s[i - 1], s[j - 1]));
        }
    }
    assert forall|y: A| #[trigger] r.contains(y) <==> (s.contains(y) || y == x) by {
        if r.contains(y) {
            let k = choose|k: int| 0 <= k < r.len() && r[k] == y;
            if k < p {
                assert(s[k] == y);
            } else if k > p {
                assert(s[k - 1] == y);
            }
        }
        if s.contains(y) {
            let k = choose|k: int| 0 <= k < s.len() && s[k] == y;
            if k < p {
                assert(r[k] == y);
            } else {
                assert(r[k + 1] == y);
            }
        }
        if y == x {
            assert(r[p] == y);
        }
    }
}

/// Two strictly sorted sequences over a strict total order with the same
/// elements are equal.
pub proof fn lemma_sorted_unique<A>(a: Seq<A>, b: Seq<A>, lt: spec_fn(A, A) -> bool, dom: spec_fn(A) -> bool)
    requires
        strictly_sorted(a, lt),
        strictly_sorted(b, lt),
        strict_total_on(lt, dom),
        forall|x: A| #[trigger] a.contains(x) ==> dom(x),
        forall|x: A| a.contains(x) <==> b.contains(x),
    ensures
        a == b,
    decreases a.len(),
{
    if a.len() == 0 {
        if b.len() > 0 {
            assert(b.contains(b[0]));
        }
        assert(a =~= b);
    } else {
        assert(a.contains(a[0]));
        assert(b.contains(a[0]));
        let k = choose|k: int| 0 <= k < b.len() && b[k] == a[0];
        assert(b.contains(b[0]));
        let m = choose|m: int| 0 <= m < a.len() && a[m] == b[0];
        assert(dom(a[0]) && dom(b[0]));
        if k > 0 {
            assert(lt(b[0], b[k]));
            if m == 0 {
                assert(lt(a[0], a[0]));
            } else {
                assert(lt(a[0], a[m]));
                assert(lt(a[0], a[0]));
            }
        }
        assert(a[0] == b[0]);
        let a1 = a.drop_first();
        let b1 = b.drop_first();
        assert forall|x: A| a1.contains(x) <==> b1.contains(x) by {
            if a1.contains(x) {
                let i = choose|i: int| 0 <= i < a1.len() && a1[i] == x;
                assert(lt(a[0], a[i + 1]));
                assert(a.contains(x));
                assert(b.contains(x));
                let j = choose|j: int| 0 <= j < b.len() && b[j] == x;
                if j == 0 {
                    assert(dom(x));
                    assert(lt(x, x));
                }
                assert(b1[j - 1] == x);
            }
            if b1.contains(x) {
                let i = choose|i: int| 0 <= i < b1.len() && b1[i] == x;
                assert(lt(b[0], b[i + 1]));
                assert(b.contains(x));
                assert(a.contains(x));
                let j = choose|j: int| 0 <= j < a.len() && a[j] == x;
                if j == 0 {
                    assert(dom(x));
                    assert(lt(x, x));
                }
                assert(a1[j - 1] == x);
            }
        }
        assert forall|i: int, j: int| 0 <= i < j < a1.len() implies #[trigger] lt(a1[i], a1[j]) && (#[trigger] a1[j] == a1[j]) by {
            assert(lt(a[i + 1], a[j + 1]));
        }
        assert forall|i: int, j: int| 0 <= i < j < b1.len() implies #[trigger] lt(b1[i], b1[j]) && (#[trigger] b1[j] == b1[j]) by {
            assert(lt(b[i + 1], b[j + 1]));
        }
        assert forall|x: A| #[trigger] a1.contains(x) implies dom(x) by {
            let i = choose|i: int| 0 <= i < a1.len() && a1[i] == x;
            assert(a.contains(a[i + 1]));
        }
        lemma_sorted_unique(a1, b1, lt, dom);
        assert(a =~= seq![a[0]] + a1);
        assert(b =~= seq![b[0]] + b1);
    }
}

} // verus!

verus! {

/// Lexicographic order of character sequences, as a function value.
pub open spec fn str_order() -> spec_fn(Seq<char>, Seq<char>) -> bool {
    |a: Seq<char>, b: Seq<char>| crate::strings::seq_lt(a, b)
}

pub proof fn lemma_str_order_total()
    ensures
        strict_total_on(str_order(), |c: Seq<char>| true),
{
    let lt = str_order();
    let dom = |c: Seq<char>| true;
    assert forall|x: Seq<char>| #[trigger] dom(x) implies !lt(x, x) by {
        crate::strings::lemma_seq_lt_irreflexive(x);
    }
    assert forall|x: Seq<char>, y: Seq<char>, z: Seq<char>|
        dom(x) && dom(y) && dom(z) && #[trigger] lt(x, y) && #[trigger] lt(y, z) implies lt(x, z) by {
        crate::strings::lemma_seq_lt_transitive(x, y, z);
    }
    assert forall|x: Seq<char>, y: Seq<char>| dom(x) && dom(y) && x != y implies #[trigger] lt(x, y)
        || #[trigger] lt(y, x) by {
        crate::strings::lemma_seq_lt_total(x, y);
    }
}

/// A set of strings kept as a vector sorted in `str` order: adds `x` unless
/// it is already there (the insertion of a `BTreeSet<String>`).
pub fn insert_sorted_unique(v: &mut Vec<String>, x: &str)
    requires
        strictly_sorted(crate::strings::views(old(v)@), str_order()),
    ensures
        strictly_sorted(crate::strings::views(final(v)@), str_order()),
        forall|c: Seq<char>|
            #[trigger] crate::strings::views(final(v)@).contains(c) <==> (crate::strings::views(
                old(v)@,
            ).contains(c) || c == x@),
{
    let ghost lt = str_order();
    proof {
        lemma_str_order_total();
    }
    let mut p: usize = 0;
    loop
        invariant
            lt == str_order(),
            v@ == old(v)@,
            p <= v@.len(),
            forall|t: int| 0 <= t < p ==> lt(#[trigger] crate::strings::views(v@)[t], x@),
        ensures
            v@ == old(v)@,
            p <= v@.len(),
            forall|t: int| 0 <= t < p ==> lt(#[trigger] crate::strings::views(v@)[t], x@),
            p < v@.len() ==> !lt(crate::strings::views(v@)[p as int], x@),
        decreases v@.len() - p,
    {
        if p == v.len() {
            break;
        }
        if !crate::strings::str_lt(v[p].as_str(), x) {
            break;
        }
        p = p + 1;
    }
    let ghost s = crate::strings::views(v@);
    if p < v.len() && crate::strings::str_eq(v[p].as_str(), x) {
        assert(s[p as int] == x@);
        return;
    }
    proof {
        assert forall|t: int| p <= t < s.len() implies lt(x@, #[trigger] s[t]) by {
            assert(s[p as int] != x@);
            assert(lt(x@, s[p as int]));
            if t > p {
                assert(lt(s[p as int], s[t]));
            }
        }
        lemma_insert_sorted(s, lt, p as int, x@);
    }
    v.insert(p, crate::strings::owned(x));
    assert(crate::strings::views(v@) =~= s.insert(p as int, x@));
}

} // verus!

verus! {

/// The strings satisfying `pred`, without repeats, in `str` order (what a
/// `BTreeSet<String>` yields).
pub open spec fn is_sorted_set(r: Seq<Seq<char>>, pred: spec_fn(Seq<char>) -> bool) -> bool {
    &&& strictly_sorted(r, str_order())
    &&& forall|c: Seq<char>| r.contains(c) <==> pred(c)
}

/// The sorted, repeat-free sequence of the strings satisfying `pred`.
pub open spec fn sorted_set(pred: spec_fn(Seq<char>) -> bool) -> Seq<Seq<char>> {
    choose|r: Seq<Seq<char>>| is_sorted_set(r, pred)
}

/// A sequence meeting `is_sorted_set` is `sorted_set`.
pub proof fn lemma_sorted_set_unique(r: Seq<Seq<char>>, pred: spec_fn(Seq<char>) -> bool)
    requires
        is_sorted_set(r, pred),
    ensures
        r == sorted_set(pred),
{
    let c = sorted_set(pred);
    assert(is_sorted_set(c, pred));
    lemma_str_order_total();
    lemma_sorted_unique(r, c, str_order(), |c: Seq<char>| true);
}

/// Whether a string comes before `x`.
pub open spec fn before_str(x: Seq<char>) -> spec_fn(Seq<char>) -> bool {
    |y: Seq<char>| crate::strings::seq_lt(y, x)
}

proof fn lemma_sorted_set_of_seq(s: Seq<Seq<char>>)
    ensures
        is_sorted_set(sorted_set(|c: Seq<char>| s.contains(c)), |c: Seq<char>| s.contains(c)),
    decreases s.len(),
{
    let pred = |c: Seq<char>| s.contains(c);
    lemma_str_order_total();
    let lt = str_order();
    if s.len() == 0 {
        let r = Seq::<Seq<char>>::empty();
        assert(is_sorted_set(r, pred));
    } else {
        let d = s.drop_last();
        let x = s.last();
        lemma_sorted_set_of_seq(d);
        let pd = |c: Seq<char>| d.contains(c);
        let r0 = sorted_set(pd);
        assert forall|c: Seq<char>| #[trigger] pred(c) <==> (pd(c) || c == x) by {
            if pred(c) {
                let k = choose|k: int| 0 <= k < s.len() && s[k] == c;
                if k < d.len() {
                    assert(d[k] == c);
                }
            }
            if pd(c) {
                let k = choose|k: int| 0 <= k < d.len() && d[k] == c;
                assert(s[k] == c);
            }
            if c == x {
                assert(s[s.len() - 1] == c);
            }
        }
        if r0.contains(x) {
            assert(is_sorted_set(r0, pred));
        } else {
            let keep = before_str(x);
            let p = crate::platform::rerun::prefix_len(r0, keep) as int;
            crate::platform::rerun::lemma_prefix_len(r0, keep, p);
            assert forall|t: int| 0 <= t < p implies lt(#[trigger] r0[t], x) by {
                assert(keep(r0[t]));
            }
            assert forall|t: int| p <= t < r0.len() implies lt(x, #[trigger] r0[t]) by {
                assert(r0[p] != x);
                crate::strings::lemma_seq_lt_total(x, r0[p]);
                if t > p {
                    assert(lt(r0[p], r0[t]));
                    crate::strings::lemma_seq_lt_transitive(x, r0[p], r0[t]);
                }
            }
            lemma_insert_sorted(r0, lt, p, x);
            let r = r0.insert(p, x);
            assert(is_sorted_set(r, pred));
        }
    }
}

/// Whenever every string satisfying `pred` is among `s`, `sorted_set(pred)`
/// is the sorted, repeat-free sequence of those strings.
pub proof fn lemma_sorted_set_exists(pred: spec_fn(Seq<char>) -> bool, s: Seq<Seq<char>>)
    requires
        forall|c: Seq<char>| #[trigger] pred(c) ==> s.contains(c),
    ensures
        is_sorted_set(sorted_set(pred), pred),
{
    let f = s.filter(pred);
    lemma_sorted_set_of_seq(f);
    let pf = |c: Seq<char>| f.contains(c);
    assert forall|c: Seq<char>| #[trigger] pf(c) <==> pred(c) by {
        if pred(c) {
            let k = choose|k: int| 0 <= k < s.len() && s[k] == c;
            s.lemma_filter_contains(pred, k);
        }
        if pf(c) {
            let k = choose|k: int| 0 <= k < f.len() && f[k] == c;
            s.lemma_filter_pred(pred, k);
        }
    }
    let r = sorted_set(pf);
    assert(is_sorted_set(r, pred));
}

} // verus!
