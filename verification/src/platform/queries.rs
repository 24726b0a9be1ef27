//! The query parameters of the read-only endpoints, and the claims a
//! hypothesis's trace names.

use vstd::prelude::*;

use crate::contracts::Claim;

verus! {

/// Query of `GET /board`: an optional run id.
#[derive(Debug)]
pub struct BoardQuery {
    pub run_id: Option<String>,
}

/// Query of `GET /roadmap`: an optional run id and an optional capex budget.
#[derive(Debug)]
pub struct RoadmapQuery {
    pub run_id: Option<String>,
    pub max_capex: Option<u8>,
}

impl RoadmapQuery {
    /// The capex budget: the one asked for (3 without one), held within 1..=3.
    pub fn budget(&self) -> (r: u8)
        ensures
            r == crate::platform::roadmap::clamp_spec(
                match self.max_capex {
                    Some(m) => m,
                    None => 3,
                },
            ),
    {
        let m = match self.max_capex {
            Some(m) => m,
            None => 3,
        };
        crate::platform::roadmap::clamp_capex(m)
    }
}

/// The position of the last claim with id `id` (a map keyed by id keeps the
/// last one).
pub open spec fn claim_pos(cs: Seq<Claim>, id: Seq<char>) -> Option<int>
    decreases cs.len(),
{
    if cs.len() == 0 {
        None
    } else if cs.last().id@ == id {
        Some(cs.len() - 1)
    } else {
        claim_pos(cs.drop_last(), id)
    }
}

proof fn lemma_claim_pos_prefix(cs: Seq<Claim>, id: Seq<char>, i: int)
    requires
        0 <= i <= cs.len(),
        forall|j: int| i <= j < cs.len() ==> (#[trigger] cs[j]).id@ != id,
    ensures
        claim_pos(cs, id) == claim_pos(cs.take(i), id),
    decreases cs.len() - i,
{
    if i < cs.len() {
        assert(cs.drop_last().take(i) =~= cs.take(i));
        lemma_claim_pos_prefix(cs.drop_last(), id, i);
    } else {
        assert(cs.take(i) =~= cs);
    }
}

proof fn lemma_claim_pos_bounds(cs: Seq<Claim>, id: Seq<char>)
    ensures
        claim_pos(cs, id) matches Some(p) ==> 0 <= p < cs.len() && cs[p].id@ == id,
    decreases cs.len(),
{
    if cs.len() > 0 {
        lemma_claim_pos_bounds(cs.drop_last(), id);
    }
}

fn find_claim(cs: &Vec<Claim>, id: &str) -> (r: Option<usize>)
    ensures
        match r {
            Some(i) => claim_pos(cs@, id@) == Some(i as int),
            None => claim_pos(cs@, id@) is None,
        },
{
    let mut i: usize = cs.len();
    while i > 0
        invariant
            i <= cs.len(),
            forall|j: int| i <= j < cs@.len() ==> (#[trigger] cs@[j]).id@ != id@,
        decreases i,
    {
        if crate::strings::str_eq(cs[i - 1].id.as_str(), id) {
            proof {
                lemma_claim_pos_prefix(cs@, id@, i as int);
                assert(cs@.take(i as int).last() == cs@[i - 1]);
            }
            return Some(i - 1);
        }
        i = i - 1;
    }
    proof {
        lemma_claim_pos_prefix(cs@, id@, 0);
    }
    None
}

/// Whether a trace id names a claim.
pub open spec fn names_claim(cs: Seq<Claim>) -> spec_fn(Seq<char>) -> bool {
    |id: Seq<char>| claim_pos(cs, id) is Some
}

/// The claims a trace names, in trace order: for each id that names a
/// claim, the position of that claim; ids naming none are skipped.
pub open spec fn spec_trace_claims(cs: Seq<Claim>, trace: Seq<Seq<char>>) -> Seq<int> {
    trace.filter(names_claim(cs)).map_values(|id: Seq<char>| claim_pos(cs, id)->0)
}

/// The positions of the claims a hypothesis's trace names, in trace order.
pub fn trace_claims(trace: &Vec<String>, claims: &Vec<Claim>) -> (r: Vec<usize>)
    ensures
        r@.map_values(|i: usize| i as int) == spec_trace_claims(claims@, crate::strings::views(trace@)),
        forall|k: int| 0 <= k < r@.len() ==> (#[trigger] r@[k]) < claims@.len(),
{
    let ghost ts = crate::strings::views(trace@);
    let ghost keep = names_claim(claims@);
    let mut out: Vec<usize> = Vec::new();
    let mut i: usize = 0;
    while i < trace.len()
        invariant
            ts == crate::strings::views(trace@),
            keep == names_claim(claims@),
            i <= trace.len(),
            out@.map_values(|i: usize| i as int) == spec_trace_claims(claims@, ts.take(i as int)),
            forall|k: int| 0 <= k < out@.len() ==> (#[trigger] out@[k]) < claims@.len(),
        decreases trace.len() - i,
    {
        assert(ts.take(i + 1) =~= ts.take(i as int).push(ts[i as int]));
        proof {
            ts.take(i as int).lemma_filter_push(ts[i as int], keep);
            lemma_claim_pos_bounds(claims@, ts[i as int]);
        }
        match find_claim(claims, trace[i].as_str()) {
            Some(p) => {
                let ghost before = out@;
                out.push(p);
                assert(out@.map_values(|i: usize| i as int) =~= before.map_values(|i: usize| i as int).push(p as int));
                assert(spec_trace_claims(claims@, ts.take(i + 1)) =~= spec_trace_claims(claims@, ts.take(i as int)).push(p as int));
            },
            None => {},
        }
        i = i + 1;
    }
    assert(ts.take(trace.len() as int) =~= ts);
    out
}

} // verus!
