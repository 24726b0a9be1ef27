//! The snapshot of an extraction: std's default hasher over its canonical
//! form (one line per node, edge and claim, each group sorted, so that the
//! order of the input does not change the hash), and the snapshot's id and
//! hash text.

use std::collections::hash_map::DefaultHasher;
use std::hash::Hasher;

use vstd::prelude::*;
use vstd::std_specs::hash::DefaultHasherAdditionalSpecFns;

use crate::contracts::{edge_views, node_views, ClaimV, EdgeType, EvidenceType, ExtractResponse, GraphEdgeV, GraphNodeV, NodeKind, Snapshot};
use crate::platform::rerun::{is_first_fail, lemma_prefix_len, prefix_len};
use crate::strings::{seq_join, seq_lt, views};

verus! {

/// The name of a node kind, as `Debug` writes it.
pub open spec fn kind_name(k: NodeKind) -> Seq<char> {
    match k {
        NodeKind::Factor => "Factor"@,
        NodeKind::Mechanism => "Mechanism"@,
        NodeKind::Property => "Property"@,
        NodeKind::Kpi => "Kpi"@,
    }
}

/// The name of an edge type, as `Debug` writes it.
pub open spec fn edge_type_name(t: EdgeType) -> Seq<char> {
    match t {
        EdgeType::Mechanism => "Mechanism"@,
        EdgeType::Proxy => "Proxy"@,
        EdgeType::Tradeoff => "Tradeoff"@,
        EdgeType::Substitution => "Substitution"@,
    }
}

fn kind_text(k: NodeKind) -> (r: &'static str)
    ensures
        r@ == kind_name(k),
{
    match k {
        NodeKind::Factor => "Factor",
        NodeKind::Mechanism => "Mechanism",
        NodeKind::Property => "Property",
        NodeKind::Kpi => "Kpi",
    }
}

fn edge_type_text(t: EdgeType) -> (r: &'static str)
    ensures
        r@ == edge_type_name(t),
{
    match t {
        EdgeType::Mechanism => "Mechanism",
        EdgeType::Proxy => "Proxy",
        EdgeType::Tradeoff => "Tradeoff",
        EdgeType::Substitution => "Substitution",
    }
}

/// The name of an evidence type, as `Debug` writes it.
pub open spec fn evidence_name(e: EvidenceType) -> Seq<char> {
    match e {
        EvidenceType::Literature => "Literature"@,
        EvidenceType::Experiment => "Experiment"@,
        EvidenceType::ExpertNote => "ExpertNote"@,
        EvidenceType::DataGap => "DataGap"@,
        EvidenceType::Inferred => "Inferred"@,
    }
}

fn evidence_text(e: EvidenceType) -> (r: &'static str)
    ensures
        r@ == evidence_name(e),
{
    match e {
        EvidenceType::Literature => "Literature",
        EvidenceType::Experiment => "Experiment",
        EvidenceType::ExpertNote => "ExpertNote",
        EvidenceType::DataGap => "DataGap",
        EvidenceType::Inferred => "Inferred",
    }
}

/// The canonical line of a claim: id, its confidence as printed, and its
/// evidence type.
pub open spec fn claim_line(c: ClaimV, confidence: Seq<char>) -> Seq<char> {
    c.id + "|"@ + confidence + "|"@ + evidence_name(c.evidence_type)
}

/// The claims of an extraction, each with its printed confidence, in input
/// order.
pub open spec fn claim_entries(x: ExtractResponse, confidences: Seq<Seq<char>>) -> Seq<(ClaimV, Seq<char>)> {
    Seq::new(x.claims@.len(), |i: int| (x.claims@[i]@, confidences[i]))
}

/// The claim lines of an extraction, in input order.
pub open spec fn claim_lines(x: ExtractResponse, confidences: Seq<Seq<char>>) -> Seq<Seq<char>> {
    claim_entries(x, confidences).map_values(|p: (ClaimV, Seq<char>)| claim_line(p.0, p.1))
}

/// The canonical line of a node: id, kind and comma-joined tags.
pub open spec fn node_line(n: GraphNodeV) -> Seq<char> {
    n.id + "|"@ + kind_name(n.kind) + "|"@ + seq_join(n.tags, ","@)
}

/// The canonical line of an edge: id, its two ends and its type.
pub open spec fn edge_line(e: GraphEdgeV) -> Seq<char> {
    e.id + "|"@ + e.src + "->"@ + e.dst + "|"@ + edge_type_name(e.edge_type)
}

/// `s` is in non-decreasing `str` order.
pub open spec fn sorted_le(s: Seq<Seq<char>>) -> bool {
    forall|i: int, j: int| 0 <= i < j < s.len() ==> !seq_lt(#[trigger] s[j], #[trigger] s[i])
}

/// Whether `y` does not come after `x`.
pub open spec fn not_after(x: Seq<char>) -> spec_fn(Seq<char>) -> bool {
    |y: Seq<char>| !seq_lt(x, y)
}

proof fn lemma_insert_le(s: Seq<Seq<char>>, p: int, x: Seq<char>)
    requires
        sorted_le(s),
        is_first_fail(s, not_after(x), p),
    ensures
        sorted_le(s.insert(p, x)),
{
    let r = s.insert(p, x);
    assert forall|i: int, j: int| 0 <= i < j < r.len() implies !seq_lt(#[trigger] r[j], #[trigger] r[i]) by {
        if j < p {
            assert(r[i] == s[i] && r[j] == s[j]);
        } else if j == p {
            // r[i] = s[i] does not come after x
            assert(!seq_lt(x, s[i]));
            crate::strings::lemma_seq_lt_total(x, s[i]);
        } else if i == p {
            // x comes before s[p], which comes no later than s[j - 1]
            let y = s[j - 1];
            crate::strings::lemma_seq_lt_total(s[p], y);
            if s[p] != y {
                crate::strings::lemma_seq_lt_transitive(x, s[p], y);
            }
            crate::strings::lemma_seq_lt_total(x, y);
        } else if i < p {
            assert(r[i] == s[i] && r[j] == s[j - 1]);
        } else {
            assert(r[i] == s[i - 1] && r[j] == s[j - 1]);
        }
    }
}

/// The strings in non-decreasing `str` order (`slice::sort` on strings).
pub fn sort_strings(v: Vec<String>) -> (r: Vec<String>)
    ensures
        sorted_le(views(r@)),
        views(r@).to_multiset() == views(v@).to_multiset(),
{
    let mut out: Vec<String> = Vec::new();
    let mut i: usize = 0;
    assert(views(out@) =~= views(v@).take(0));
    while i < v.len()
        invariant
            i <= v.len(),
            sorted_le(views(out@)),
            views(out@).to_multiset() == views(v@).take(i as int).to_multiset(),
        decreases v.len() - i,
    {
        let x = &v[i];
        let ghost s = views(out@);
        let mut p: usize = 0;
        while p < out.len() && !crate::strings::str_lt(x.as_str(), out[p].as_str())
            invariant
                s == views(out@),
                p <= out.len(),
                forall|t: int| 0 <= t < p ==> (not_after(x@))(#[trigger] s[t]),
            decreases out.len() - p,
        {
            p = p + 1;
        }
        proof {
            assert(is_first_fail(s, not_after(x@), p as int));
            lemma_insert_le(s, p as int, x@);
            vstd::seq_lib::to_multiset_insert(s, p as int, x@);
            assert(views(v@).take(i + 1) =~= views(v@).take(i as int).push(x@));
            vstd::seq_lib::to_multiset_build(views(v@).take(i as int), x@);
        }
        out.insert(p, x.clone());
        assert(views(out@) =~= s.insert(p as int, x@));
        i = i + 1;
    }
    assert(views(v@).take(v.len() as int) =~= views(v@));
    out
}

/// "Comes no later than" in `str` order.
pub open spec fn line_le() -> spec_fn(Seq<char>, Seq<char>) -> bool {
    |a: Seq<char>, b: Seq<char>| !seq_lt(b, a)
}

/// The lines of a multiset in non-decreasing `str` order.
pub open spec fn sorted_of(m: vstd::multiset::Multiset<Seq<char>>) -> Seq<Seq<char>> {
    choose|t: Seq<Seq<char>>| sorted_le(t) && t.to_multiset() == m
}

/// The node lines of an extraction, in input order.
pub open spec fn node_lines(x: ExtractResponse) -> Seq<Seq<char>> {
    node_views(x.entities@).map_values(|n: GraphNodeV| node_line(n))
}

/// The edge lines of an extraction, in input order.
pub open spec fn edge_lines(x: ExtractResponse) -> Seq<Seq<char>> {
    edge_views(x.edges@).map_values(|e: GraphEdgeV| edge_line(e))
}

/// What the snapshot hash is taken over: node lines, edge lines and claim
/// lines, each group sorted.
pub open spec fn canonical_lines(x: ExtractResponse, claims: Seq<Seq<char>>) -> Seq<Seq<char>> {
    sorted_of(node_lines(x).to_multiset()) + sorted_of(edge_lines(x).to_multiset()) + sorted_of(claims.to_multiset())
}

proof fn lemma_line_le_total()
    ensures
        vstd::relations::total_ordering(line_le()),
{
    let le = line_le();
    assert forall|a: Seq<char>| #[trigger] le(a, a) by {
        crate::strings::lemma_seq_lt_irreflexive(a);
    }
    assert forall|a: Seq<char>, b: Seq<char>| #[trigger] le(a, b) && #[trigger] le(b, a) implies a == b by {
        crate::strings::lemma_seq_lt_total(a, b);
    }
    assert forall|a: Seq<char>, b: Seq<char>, c: Seq<char>| #[trigger] le(a, b) && #[trigger] le(b, c) implies le(a, c) by {
        crate::strings::lemma_seq_lt_total(a, b);
        crate::strings::lemma_seq_lt_total(b, c);
        crate::strings::lemma_seq_lt_total(a, c);
        if seq_lt(c, a) {
            if a != b && b != c {
                crate::strings::lemma_seq_lt_transitive(a, b, c);
            }
            if a == b {
                crate::strings::lemma_seq_lt_total(b, c);
            }
        }
    }
    assert forall|a: Seq<char>, b: Seq<char>| #[trigger] le(a, b) || #[trigger] le(b, a) by {
        crate::strings::lemma_seq_lt_total(a, b);
    }
}

/// A sorted sequence with the lines of `s` is `sorted_of` them.
proof fn lemma_sorted_of(t: Seq<Seq<char>>, s: Seq<Seq<char>>)
    requires
        sorted_le(t),
        t.to_multiset() == s.to_multiset(),
    ensures
        sorted_of(s.to_multiset()) == t,
{
    let c = sorted_of(s.to_multiset());
    assert(sorted_le(c) && c.to_multiset() == s.to_multiset());
    lemma_line_le_total();
    assert(vstd::relations::sorted_by(c, line_le()));
    assert(vstd::relations::sorted_by(t, line_le()));
    vstd::seq_lib::lemma_sorted_unique(c, t, line_le());
}

/// The order of the input does not change what the snapshot hash is taken
/// over: two extractions whose node, edge and claim lines are the same
/// multisets have the same canonical lines.
pub proof fn lemma_canonical_order_free(x1: ExtractResponse, c1: Seq<Seq<char>>, x2: ExtractResponse, c2: Seq<Seq<char>>)
    requires
        node_lines(x1).to_multiset() == node_lines(x2).to_multiset(),
        edge_lines(x1).to_multiset() == edge_lines(x2).to_multiset(),
        c1.to_multiset() == c2.to_multiset(),
    ensures
        canonical_lines(x1, c1) == canonical_lines(x2, c2),
{
}

fn node_text(n: &crate::contracts::GraphNode) -> (r: String)
    ensures
        r@ == node_line(n@),
{
    let mut r = n.id.clone();
    r.append("|");
    r.append(kind_text(n.kind));
    r.append("|");
    let tags = crate::strings::join(&n.tags, ",");
    r.append(tags.as_str());
    r
}

fn edge_text(e: &crate::contracts::GraphEdge) -> (r: String)
    ensures
        r@ == edge_line(e@),
{
    let mut r = e.id.clone();
    r.append("|");
    r.append(e.src.as_str());
    r.append("->");
    r.append(e.dst.as_str());
    r.append("|");
    r.append(edge_type_text(e.edge_type));
    r
}

/// The claim lines of an extraction, given each claim's confidence as
/// printed (`confidences` follows the claims).
pub fn claim_texts(x: &ExtractResponse, confidences: &Vec<String>) -> (r: Vec<String>)
    requires
        confidences@.len() == x.claims@.len(),
    ensures
        views(r@) == claim_lines(*x, views(confidences@)),
{
    let ghost target = claim_lines(*x, views(confidences@));
    let mut r: Vec<String> = Vec::new();
    let mut i: usize = 0;
    while i < x.claims.len()
        invariant
            i <= x.claims@.len(),
            confidences@.len() == x.claims@.len(),
            target == claim_lines(*x, views(confidences@)),
            target.len() == x.claims@.len(),
            views(r@) == target.take(i as int),
        decreases x.claims@.len() - i,
    {
        let c = &x.claims[i];
        let mut t = c.id.clone();
        t.append("|");
        t.append(confidences[i].as_str());
        t.append("|");
        t.append(evidence_text(c.evidence_type));
        assert(t@ == claim_line(x.claims@[i as int]@, confidences@[i as int]@));
        let ghost before = r@;
        r.push(t);
        assert(views(confidences@)[i as int] == confidences@[i as int]@);
        assert(claim_entries(*x, views(confidences@))[i as int] == (x.claims@[i as int]@, confidences@[i as int]@));
        assert(target[i as int] == claim_line(x.claims@[i as int]@, confidences@[i as int]@));
        assert(views(r@) =~= views(before).push(t@));
        assert(target.take(i + 1) =~= target.take(i as int).push(target[i as int]));
        assert(views(r@) =~= target.take(i + 1));
        i = i + 1;
    }
    assert(target.take(i as int) =~= target);
    r
}

/// The lines a snapshot hash is taken over: the node lines sorted, then the
/// edge lines sorted, then the claim lines (formatted by the caller) sorted.
pub fn snapshot_lines(x: &ExtractResponse, claim_lines: Vec<String>) -> (r: Vec<String>)
    ensures
        views(r@) == canonical_lines(*x, views(claim_lines@)),
{
    let mut nl: Vec<String> = Vec::new();
    let mut i: usize = 0;
    while i < x.entities.len()
        invariant
            i <= x.entities.len(),
            views(nl@) == node_views(x.entities@).take(i as int).map_values(|n: GraphNodeV| node_line(n)),
        decreases x.entities.len() - i,
    {
        let t = node_text(&x.entities[i]);
        let ghost before = nl@;
        nl.push(t);
        assert(views(nl@) =~= views(before).push(node_line(x.entities@[i as int]@)));
        assert(node_views(x.entities@).take(i + 1) =~= node_views(x.entities@).take(i as int).push(x.entities@[i as int]@));
        assert(views(nl@) =~= node_views(x.entities@).take(i + 1).map_values(|n: GraphNodeV| node_line(n)));
        i = i + 1;
    }
    assert(node_views(x.entities@).take(x.entities.len() as int) =~= node_views(x.entities@));
    let mut el: Vec<String> = Vec::new();
    let mut j: usize = 0;
    while j < x.edges.len()
        invariant
            j <= x.edges.len(),
            views(el@) == edge_views(x.edges@).take(j as int).map_values(|e: GraphEdgeV| edge_line(e)),
        decreases x.edges.len() - j,
    {
        let t = edge_text(&x.edges[j]);
        let ghost before = el@;
        el.push(t);
        assert(views(el@) =~= views(before).push(edge_line(x.edges@[j as int]@)));
        assert(edge_views(x.edges@).take(j + 1) =~= edge_views(x.edges@).take(j as int).push(x.edges@[j as int]@));
        assert(views(el@) =~= edge_views(x.edges@).take(j + 1).map_values(|e: GraphEdgeV| edge_line(e)));
        j = j + 1;
    }
    assert(edge_views(x.edges@).take(x.edges.len() as int) =~= edge_views(x.edges@));
    let a = sort_strings(nl);
    let b = sort_strings(el);
    let c = sort_strings(claim_lines);
    let mut r: Vec<String> = Vec::new();
    let mut k: usize = 0;
    let ghost parts = seq![a@, b@, c@];
    while k < a.len()
        invariant
            k <= a.len(),
            views(r@) == views(a@).take(k as int),
        decreases a.len() - k,
    {
        let ghost before = r@;
        r.push(a[k].clone());
        assert(views(r@) =~= views(before).push(a@[k as int]@));
        assert(views(a@).take(k + 1) =~= views(a@).take(k as int).push(a@[k as int]@));
        assert(views(r@) =~= views(a@).take(k + 1));
        k = k + 1;
    }
    k = 0;
    while k < b.len()
        invariant
            k <= b.len(),
            a.len() <= r.len(),
            views(r@) == views(a@) + views(b@).take(k as int),
        decreases b.len() - k,
    {
        let ghost before = r@;
        r.push(b[k].clone());
        assert(views(r@) =~= views(before).push(b@[k as int]@));
        assert(views(b@).take(k + 1) =~= views(b@).take(k as int).push(b@[k as int]@));
        assert(views(r@) =~= views(a@) + views(b@).take(k + 1));
        k = k + 1;
    }
    k = 0;
    assert(views(a@).take(a.len() as int) =~= views(a@));
    while k < c.len()
        invariant
            k <= c.len(),
            views(r@) == views(a@) + views(b@) + views(c@).take(k as int),
        decreases c.len() - k,
    {
        let ghost before = r@;
        r.push(c[k].clone());
        assert(views(r@) =~= views(before).push(c@[k as int]@));
        assert(views(c@).take(k + 1) =~= views(c@).take(k as int).push(c@[k as int]@));
        assert(views(r@) =~= views(a@) + views(b@) + views(c@).take(k + 1));
        k = k + 1;
    }
    assert(views(b@).take(b.len() as int) =~= views(b@));
    assert(views(c@).take(c.len() as int) =~= views(c@));
    proof {
        lemma_sorted_of(views(a@), node_lines(*x));
        lemma_sorted_of(views(b@), edge_lines(*x));
        lemma_sorted_of(views(c@), views(claim_lines@));
    }
    r
}

/// The lowercase hexadecimal digit character of `d` (below sixteen).
pub open spec fn hex_char(d: nat) -> char {
    if d < 10 {
        crate::strings::digit_char(d)
    } else if d == 10 {
        'a'
    } else if d == 11 {
        'b'
    } else if d == 12 {
        'c'
    } else if d == 13 {
        'd'
    } else if d == 14 {
        'e'
    } else {
        'f'
    }
}

/// The lowercase hexadecimal representation of `n`, without leading zeros.
pub open spec fn hex(n: nat) -> Seq<char>
    decreases n,
{
    if n < 16 {
        seq![hex_char(n)]
    } else {
        hex(n / 16).push(hex_char(n % 16))
    }
}

fn hex_digit(d: u64) -> (r: &'static str)
    requires
        d < 16,
    ensures
        r@ == seq![hex_char(d as nat)],
{
    proof {
        reveal_strlit("0");
        reveal_strlit("1");
        reveal_strlit("2");
        reveal_strlit("3");
        reveal_strlit("4");
        reveal_strlit("5");
        reveal_strlit("6");
        reveal_strlit("7");
        reveal_strlit("8");
        reveal_strlit("9");
        reveal_strlit("a");
        reveal_strlit("b");
        reveal_strlit("c");
        reveal_strlit("d");
        reveal_strlit("e");
        reveal_strlit("f");
    }
    if d == 0 {
        "0"
    } else if d == 1 {
        "1"
    } else if d == 2 {
        "2"
    } else if d == 3 {
        "3"
    } else if d == 4 {
        "4"
    } else if d == 5 {
        "5"
    } else if d == 6 {
        "6"
    } else if d == 7 {
        "7"
    } else if d == 8 {
        "8"
    } else if d == 9 {
        "9"
    } else if d == 10 {
        "a"
    } else if d == 11 {
        "b"
    } else if d == 12 {
        "c"
    } else if d == 13 {
        "d"
    } else if d == 14 {
        "e"
    } else {
        "f"
    }
}

/// `format!("{:016x}", n)`: `n` in lowercase hexadecimal, left-padded with
/// zeros to sixteen digits.
pub fn hex16(n: u64) -> (r: String)
    ensures
        r@ == crate::strings::zero_pad(hex(n as nat), 16),
{
    let mut digits: Vec<u64> = Vec::new();
    let mut m: u64 = n;
    let ghost mut low: Seq<char> = Seq::empty();
    loop
        invariant_except_break
            hex(n as nat) == hex(m as nat) + low,
        invariant
            digits@.len() == low.len(),
            forall|i: int| 0 <= i < digits@.len() ==> #[trigger] digits@[i] < 16 && low[low.len() - 1 - i] == hex_char(digits@[i] as nat),
        ensures
            hex(n as nat) == low,
            digits@.len() == low.len(),
            forall|i: int| 0 <= i < digits@.len() ==> #[trigger] digits@[i] < 16 && low[low.len() - 1 - i] == hex_char(digits@[i] as nat),
        decreases m,
    {
        let d = m % 16;
        let ghost old_low = low;
        proof {
            low = seq![hex_char(d as nat)] + low;
            if m >= 16 {
                assert(hex(m as nat) == hex((m / 16) as nat).push(hex_char(d as nat)));
                assert(hex(n as nat) =~= hex((m / 16) as nat) + low);
            } else {
                assert(hex(n as nat) =~= low);
            }
        }
        digits.push(d);
        proof {
            assert forall|i: int| 0 <= i < digits@.len() implies #[trigger] digits@[i] < 16 && low[low.len() - 1 - i] == hex_char(digits@[i] as nat) by {
                if i < digits@.len() - 1 {
                    assert(low[low.len() - 1 - i] == old_low[old_low.len() - 1 - i]);
                }
            }
        }
        if m < 16 {
            break;
        }
        m = m / 16;
    }
    let mut r = String::new();
    let mut k: usize = digits.len();
    let ghost dl = low;
    let mut pad: usize = 0;
    let need: usize = if 16 > digits.len() { 16 - digits.len() } else { 0 };
    while pad < need
        invariant
            pad <= need,
            r@ == Seq::new(pad as nat, |i: int| '0'),
        decreases need - pad,
    {
        r.append("0");
        proof {
            reveal_strlit("0");
        }
        pad = pad + 1;
        assert(r@ =~= Seq::new(pad as nat, |i: int| '0'));
    }
    let ghost prefix = r@;
    while k > 0
        invariant
            k <= digits@.len(),
            digits@.len() == dl.len(),
            forall|i: int| 0 <= i < digits@.len() ==> #[trigger] digits@[i] < 16 && dl[dl.len() - 1 - i] == hex_char(digits@[i] as nat),
            r@ == prefix + dl.subrange(0, (dl.len() - k) as int),
        decreases k,
    {
        k = k - 1;
        let s = hex_digit(digits[k]);
        r.append(s);
        assert(r@ =~= prefix + dl.subrange(0, (dl.len() - k) as int));
    }
    assert(dl.subrange(0, dl.len() as int) =~= dl);
    assert(r@ =~= crate::strings::zero_pad(hex(n as nat), 16));
    r
}

/// The snapshot of a hashed extraction: id `snapshot_` and the hash in
/// sixteen hexadecimal digits, the hash text, and the pack.
pub fn snapshot_from_hash(h: u64, pack_id: &str) -> (r: Snapshot)
    ensures
        r.hash@ == crate::strings::zero_pad(hex(h as nat), 16),
        r.id@ == "snapshot_"@ + r.hash@,
        r.pack_id@ == pack_id@,
{
    let hash = hex16(h);
    let id = crate::strings::concat2("snapshot_", hash.as_str());
    Snapshot { id, hash, pack_id: crate::strings::owned(pack_id) }
}

/// The byte chunks hashing a string adds: its UTF-8 bytes, then the byte
/// 0xff (what `str::hash` writes, so the hash is prefix-free).
pub open spec fn str_chunks(s: Seq<char>) -> Seq<Seq<u8>> {
    seq![vstd::utf8::encode_utf8(s), seq![0xffu8]]
}

/// The byte chunks of hashing several strings in order.
pub open spec fn chunks_of(ss: Seq<Seq<char>>) -> Seq<Seq<u8>>
    decreases ss.len(),
{
    if ss.len() == 0 {
        Seq::empty()
    } else {
        chunks_of(ss.drop_last()) + str_chunks(ss.last())
    }
}

/// The snapshot hash of an extraction: std's default hasher over the
/// factory id, the pack id and the canonical lines.
pub open spec fn snapshot_hash(x: ExtractResponse, factory_id: Seq<char>, claims: Seq<Seq<char>>) -> u64 {
    DefaultHasher::spec_finish(chunks_of(seq![factory_id, x.pack_id@] + canonical_lines(x, claims)))
}

fn hash_str(h: &mut DefaultHasher, s: &str)
    ensures
        final(h)@ == old(h)@ + str_chunks(s@),
{
    let bytes = s.as_bytes();
    assert(bytes@ == vstd::utf8::encode_utf8(s@));
    h.write(bytes);
    let end: Vec<u8> = vec![0xffu8];
    assert(end@ =~= seq![0xffu8]);
    h.write(end.as_slice());
    assert(h@ =~= old(h)@ + str_chunks(s@));
}

/// The snapshot of an extraction for a factory: the default hasher over
/// the factory id, the pack id and the canonical lines (each claim's
/// confidence comes printed from the caller, one per claim), named
/// `snapshot_` and the hash in sixteen hexadecimal digits.
pub fn snapshot_of(x: &ExtractResponse, factory_id: &str, confidences: &Vec<String>) -> (r: Snapshot)
    requires
        confidences@.len() == x.claims@.len(),
    ensures
        r.hash@ == crate::strings::zero_pad(hex(snapshot_hash(*x, factory_id@, claim_lines(*x, views(confidences@))) as nat), 16),
        r.id@ == "snapshot_"@ + r.hash@,
        r.pack_id@ == x.pack_id@,
{
    let claim_lines = claim_texts(x, confidences);
    let lines = snapshot_lines(x, claim_lines);
    let ghost all = seq![factory_id@, x.pack_id@] + views(lines@);
    let mut h = DefaultHasher::new();
    hash_str(&mut h, factory_id);
    hash_str(&mut h, x.pack_id.as_str());
    assert(all.take(2) =~= seq![factory_id@, x.pack_id@]);
    assert(seq![factory_id@, x.pack_id@].drop_last() =~= seq![factory_id@]);
    assert(seq![factory_id@].drop_last() =~= Seq::<Seq<char>>::empty());
    assert(seq![factory_id@].last() == factory_id@);
    assert(chunks_of(Seq::<Seq<char>>::empty()) == Seq::<Seq<u8>>::empty());
    assert(chunks_of(seq![factory_id@]) == chunks_of(Seq::<Seq<char>>::empty()) + str_chunks(factory_id@));
    assert(chunks_of(seq![factory_id@]) =~= str_chunks(factory_id@));
    assert(chunks_of(seq![factory_id@, x.pack_id@]) =~= str_chunks(factory_id@) + str_chunks(x.pack_id@));
    assert(h@ =~= chunks_of(all.take(2)));
    let mut i: usize = 0;
    while i < lines.len()
        invariant
            all == seq![factory_id@, x.pack_id@] + views(lines@),
            i <= lines.len(),
            h@ == chunks_of(all.take(i + 2)),
        decreases lines.len() - i,
    {
        hash_str(&mut h, lines[i].as_str());
        assert(all.take(i + 3).drop_last() =~= all.take(i + 2));
        assert(all.take(i + 3).last() == lines@[i as int]@);
        i = i + 1;
    }
    assert(all.take(lines.len() + 2) =~= all);
    let hv = h.finish();
    snapshot_from_hash(hv, x.pack_id.as_str())
}

/// The snapshot hash does not depend on the order of the input: two
/// extractions of the same pack whose node, edge and claim lines are the
/// same multisets hash alike, for the same factory.
pub proof fn lemma_snapshot_order_free(
    x1: ExtractResponse,
    c1: Seq<Seq<char>>,
    x2: ExtractResponse,
    c2: Seq<Seq<char>>,
    factory_id: Seq<char>,
)
    requires
        x1.pack_id@ == x2.pack_id@,
        node_lines(x1).to_multiset() == node_lines(x2).to_multiset(),
        edge_lines(x1).to_multiset() == edge_lines(x2).to_multiset(),
        c1.to_multiset() == c2.to_multiset(),
    ensures
        snapshot_hash(x1, factory_id, c1) == snapshot_hash(x2, factory_id, c2),
{
    lemma_canonical_order_free(x1, c1, x2, c2);
}

/// Mapping two sequences with the same elements gives sequences with the
/// same elements.
proof fn lemma_map_multiset<A, B>(s1: Seq<A>, s2: Seq<A>, f: spec_fn(A) -> B)
    requires
        s1.to_multiset() == s2.to_multiset(),
    ensures
        s1.map_values(f).to_multiset() == s2.map_values(f).to_multiset(),
    decreases s1.len(),
{
    broadcast use vstd::seq_lib::group_to_multiset_ensures;
    broadcast use vstd::multiset::group_multiset_axioms;
    vstd::seq_lib::to_multiset_len(s1);
    vstd::seq_lib::to_multiset_len(s2);
    if s1.len() == 0 {
        assert(s2.len() == 0);
        assert(s1.map_values(f) =~= Seq::<B>::empty());
        assert(s2.map_values(f) =~= Seq::<B>::empty());
    } else {
        let a = s1.last();
        let t1 = s1.drop_last();
        assert(s1 =~= t1.push(a));
        assert(s2.to_multiset().count(a) > 0);
        assert(s2.contains(a));
        let j = choose|j: int| 0 <= j < s2.len() && s2[j] == a;
        let t2 = s2.remove(j);
        assert(t2.to_multiset() =~= t1.to_multiset());
        lemma_map_multiset(t1, t2, f);
        assert(s1.map_values(f) =~= t1.map_values(f).push(f(a)));
        assert(s2.map_values(f) =~= t2.map_values(f).insert(j, f(a)));
    }
}

/// The snapshot does not depend on the order of the input: two extractions
/// of the same pack whose nodes, edges and claims (each claim with its
/// printed confidence) are the same up to order hash alike, for the same
/// factory.
pub proof fn lemma_snapshot_permutation_free(
    x1: ExtractResponse,
    k1: Seq<Seq<char>>,
    x2: ExtractResponse,
    k2: Seq<Seq<char>>,
    factory_id: Seq<char>,
)
    requires
        x1.pack_id@ == x2.pack_id@,
        k1.len() == x1.claims@.len(),
        k2.len() == x2.claims@.len(),
        node_views(x1.entities@).to_multiset() == node_views(x2.entities@).to_multiset(),
        edge_views(x1.edges@).to_multiset() == edge_views(x2.edges@).to_multiset(),
        claim_entries(x1, k1).to_multiset() == claim_entries(x2, k2).to_multiset(),
    ensures
        snapshot_hash(x1, factory_id, claim_lines(x1, k1)) == snapshot_hash(x2, factory_id, claim_lines(x2, k2)),
{
    lemma_map_multiset(node_views(x1.entities@), node_views(x2.entities@), |n: GraphNodeV| node_line(n));
    lemma_map_multiset(edge_views(x1.edges@), edge_views(x2.edges@), |e: GraphEdgeV| edge_line(e));
    lemma_map_multiset(claim_entries(x1, k1), claim_entries(x2, k2), |p: (ClaimV, Seq<char>)| claim_line(p.0, p.1));
    lemma_snapshot_order_free(x1, claim_lines(x1, k1), x2, claim_lines(x2, k2), factory_id);
}

} // verus!
