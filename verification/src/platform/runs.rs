//! The store of runs: records kept by run id, the last stored run, and a
//! counter that hands out ids `run_0001`, `run_0002`, ... Read-only use cases
//! pick a run by id or the last one; their errors map to HTTP answers.

use vstd::prelude::*;

use crate::contracts::ApiError;
use crate::platform::rerun::{is_first_fail, lemma_prefix_len, prefix_len};
use crate::strings::{decimal, zero_pad};

verus! {

/// Why a use case failed; the web layer alone turns it into a status and body.
#[derive(Debug)]
pub enum UseCaseError {
    /// Invalid input or graph: a ready error body (answered with 422).
    Validation(ApiError),
    /// A missing resource (answered with 404).
    NotFound(String),
    /// An internal failure such as I/O or a broken fixture (answered with 500).
    Internal(String),
}

/// A store of runs as plain values: (id, record) pairs in the order they were
/// first stored, the id of the last stored run, and the id counter.
pub struct RunsV<R> {
    pub runs: Seq<(Seq<char>, R)>,
    pub last: Option<Seq<char>>,
    pub counter: nat,
}

/// Whether a pair has another id than `id`.
pub open spec fn other_id<R>(id: Seq<char>) -> spec_fn((Seq<char>, R)) -> bool {
    |p: (Seq<char>, R)| p.0 != id
}

/// The record stored under `id`.
pub open spec fn spec_get<R>(s: RunsV<R>, id: Seq<char>) -> Option<R> {
    let p = prefix_len(s.runs, other_id(id)) as int;
    if p < s.runs.len() {
        Some(s.runs[p].1)
    } else {
        None
    }
}

/// The last stored record.
pub open spec fn spec_last<R>(s: RunsV<R>) -> Option<R> {
    match s.last {
        Some(id) => spec_get(s, id),
        None => None,
    }
}

/// Storing `r` under `id`: it replaces the record of that id or is added,
/// and becomes the last run.
pub open spec fn spec_store<R>(s: RunsV<R>, id: Seq<char>, r: R) -> RunsV<R> {
    let p = prefix_len(s.runs, other_id(id)) as int;
    RunsV {
        runs: if p < s.runs.len() {
            s.runs.update(p, (id, r))
        } else {
            s.runs.push((id, r))
        },
        last: Some(id),
        counter: s.counter,
    }
}

/// The id of the `n`-th run: `run_` and `n` in at least four digits.
pub open spec fn run_id_text(n: nat) -> Seq<char> {
    "run_"@ + zero_pad(decimal(n), 4)
}

/// The runs of the platform's process, by id.
pub struct MemoryRunRepository<R> {
    runs: Vec<(String, R)>,
    last: Option<String>,
    counter: u64,
}

impl<R> View for MemoryRunRepository<R> {
    type V = RunsV<R>;

    closed spec fn view(&self) -> RunsV<R> {
        RunsV {
            runs: self.runs@.map_values(|p: (String, R)| (p.0@, p.1)),
            last: crate::contracts::opt_view(self.last),
            counter: self.counter as nat,
        }
    }
}

impl<R> MemoryRunRepository<R> {
    /// An empty store whose first id will be `run_0001`.
    pub fn new() -> (s: Self)
        ensures
            s@.runs.len() == 0,
            s@.last is None,
            s@.counter == 0,
    {
        MemoryRunRepository { runs: Vec::new(), last: None, counter: 0 }
    }

    fn position(&self, id: &str) -> (p: usize)
        ensures
            p == prefix_len(self@.runs, other_id(id@)),
    {
        let ghost s = self@.runs;
        let mut p: usize = 0;
        while p < self.runs.len() && !crate::strings::str_eq(self.runs[p].0.as_str(), id)
            invariant
                s == self@.runs,
                s.len() == self.runs@.len(),
                p <= self.runs.len(),
                forall|t: int| 0 <= t < p ==> (other_id::<R>(id@))(#[trigger] s[t]),
            decreases self.runs.len() - p,
        {
            p = p + 1;
        }
        proof {
            lemma_prefix_len(s, other_id(id@), p as int);
        }
        p
    }

    /// How many run ids were handed out.
    pub fn counter(&self) -> (c: u64)
        ensures
            c == self@.counter,
    {
        self.counter
    }

    /// Hands out the next run id: the counter goes up by one and the id is
    /// `run_` followed by the counter in at least four digits.
    pub fn next_run_id(&mut self) -> (r: String)
        requires
            old(self)@.counter < u64::MAX,
        ensures
            final(self)@.counter == old(self)@.counter + 1,
            final(self)@.runs == old(self)@.runs,
            final(self)@.last == old(self)@.last,
            r@ == run_id_text(final(self)@.counter),
    {
        self.counter = self.counter + 1;
        let digits = crate::strings::padded_decimal(self.counter, 4);
        proof {
            reveal_strlit("run_");
        }
        crate::strings::concat2("run_", digits.as_str())
    }

    /// Stores a run under its id, replacing an earlier record of that id; it
    /// becomes the last run.
    pub fn store(&mut self, run_id: String, run: R)
        ensures
            final(self)@ == spec_store(old(self)@, run_id@, run),
    {
        let p = self.position(run_id.as_str());
        let ghost s = self@.runs;
        let last = run_id.clone();
        if p < self.runs.len() {
            self.runs.set(p, (run_id, run));
            assert(self@.runs =~= s.update(p as int, (last@, run)));
        } else {
            self.runs.push((run_id, run));
            assert(self@.runs =~= s.push((last@, run)));
        }
        self.last = Some(last);
    }

    /// The run stored under `run_id`.
    pub fn get(&self, run_id: &str) -> (r: Option<&R>)
        ensures
            match r {
                Some(x) => spec_get(self@, run_id@) == Some(*x),
                None => spec_get(self@, run_id@) is None,
            },
    {
        let p = self.position(run_id);
        if p < self.runs.len() {
            Some(&self.runs[p].1)
        } else {
            None
        }
    }

    /// The last stored run.
    pub fn last(&self) -> (r: Option<&R>)
        ensures
            match r {
                Some(x) => spec_last(self@) == Some(*x),
                None => spec_last(self@) is None,
            },
    {
        match &self.last {
            Some(id) => self.get(id.as_str()),
            None => None,
        }
    }
}

/// After a run is stored under `id`, reading `id` gives it back, it is the
/// last run, and every other id reads as before.
pub proof fn lemma_store_then_read<R>(s: RunsV<R>, id: Seq<char>, r: R, other: Seq<char>)
    ensures
        spec_get(spec_store(s, id, r), id) == Some(r),
        spec_last(spec_store(s, id, r)) == Some(r),
        other != id ==> spec_get(spec_store(s, id, r), other) == spec_get(s, other),
{
    let keep = other_id::<R>(id);
    let p = prefix_len(s.runs, keep) as int;
    lemma_prefix_len(s.runs, keep, p);
    let t = spec_store(s, id, r).runs;
    assert(is_first_fail(t, keep, p));
    lemma_prefix_len(t, keep, p);
    if other != id {
        let keep2 = other_id::<R>(other);
        let q = prefix_len(s.runs, keep2) as int;
        lemma_prefix_len(s.runs, keep2, q);
        if p < s.runs.len() {
            assert(is_first_fail(t, keep2, q));
        } else if q < s.runs.len() {
            assert(is_first_fail(t, keep2, q));
        } else {
            assert(is_first_fail(t, keep2, t.len() as int));
        }
        lemma_prefix_len(t, keep2, q);
        lemma_prefix_len(t, keep2, t.len() as int);
    }
}

/// The run a read-only use case reads: the one named, else the last one.
pub open spec fn spec_pick<R>(s: RunsV<R>, run_id: Option<Seq<char>>) -> Option<R> {
    match run_id {
        Some(id) => spec_get(s, id),
        None => spec_last(s),
    }
}

/// The message when no run has been stored yet.
pub open spec fn no_run_message() -> Seq<char> {
    "no run yet; call POST /run first"@
}

/// The message when the named run is missing.
pub open spec fn missing_run_message(id: Seq<char>) -> Seq<char> {
    "run '"@ + id + "' not found"@
}

/// Picks the run named by `run_id`, or the last run without one; a missing
/// run is `NotFound` with the message that says which.
pub fn pick_run<'a, R>(runs: &'a MemoryRunRepository<R>, run_id: &Option<String>) -> (r: Result<&'a R, UseCaseError>)
    ensures
        match r {
            Ok(x) => spec_pick(runs@, crate::contracts::opt_view(*run_id)) == Some(*x),
            Err(e) => {
                &&& spec_pick(runs@, crate::contracts::opt_view(*run_id)) is None
                &&& match run_id {
                    Some(id) => (e matches UseCaseError::NotFound(m) && m@ == missing_run_message(id@)),
                    None => (e matches UseCaseError::NotFound(m) && m@ == no_run_message()),
                }
            },
        },
{
    proof {
        reveal_strlit("run '");
        reveal_strlit("' not found");
        reveal_strlit("no run yet; call POST /run first");
    }
    match run_id {
        Some(id) => match runs.get(id.as_str()) {
            Some(x) => Ok(x),
            None => Err(UseCaseError::NotFound(crate::strings::concat3("run '", id.as_str(), "' not found"))),
        },
        None => match runs.last() {
            Some(x) => Ok(x),
            None => Err(UseCaseError::NotFound(crate::strings::owned("no run yet; call POST /run first"))),
        },
    }
}

/// The run whose board `GET /board` answers with: the named run when it
/// exists, the last run when none is named. `Ok(None)` means that no run has
/// been stored yet, the one case answered with the fallback board; a named
/// run that is missing from a store that holds runs is `NotFound`.
pub fn board_run<'a, R>(runs: &'a MemoryRunRepository<R>, run_id: &Option<String>) -> (r: Result<Option<&'a R>, UseCaseError>)
    ensures
        match r {
            Ok(Some(x)) => spec_pick(runs@, crate::contracts::opt_view(*run_id)) == Some(*x),
            Ok(None) => {
                &&& spec_last(runs@) is None
                &&& spec_pick(runs@, crate::contracts::opt_view(*run_id)) is None
            },
            Err(e) => {
                &&& spec_last(runs@) is Some
                &&& spec_pick(runs@, crate::contracts::opt_view(*run_id)) is None
                &&& match run_id {
                    Some(id) => (e matches UseCaseError::NotFound(m) && m@ == missing_run_message(id@)),
                    None => false,
                }
            },
        },
{
    proof {
        reveal_strlit("run '");
        reveal_strlit("' not found");
    }
    match run_id {
        Some(id) => match runs.get(id.as_str()) {
            Some(x) => Ok(Some(x)),
            None => if runs.last().is_some() {
                Err(UseCaseError::NotFound(crate::strings::concat3("run '", id.as_str(), "' not found")))
            } else {
                Ok(None)
            },
        },
        None => Ok(runs.last()),
    }
}

/// The message when a hypothesis is missing.
pub open spec fn missing_hypothesis_message(id: Seq<char>) -> Seq<char> {
    "hypothesis '"@ + id + "' not found"@
}

/// The position of the first hypothesis id equal to `id`, or `NotFound`.
pub fn find_hypothesis(ids: &Vec<String>, id: &str) -> (r: Result<usize, UseCaseError>)
    ensures
        match r {
            Ok(i) => i < ids@.len() && ids@[i as int]@ == id@ && forall|j: int| 0 <= j < i ==> ids@[j]@ != id@,
            Err(e) => {
                &&& !crate::strings::views(ids@).contains(id@)
                &&& (e matches UseCaseError::NotFound(m) && m@ == missing_hypothesis_message(id@))
            },
        },
{
    let mut i: usize = 0;
    while i < ids.len()
        invariant
            i <= ids.len(),
            forall|j: int| 0 <= j < i ==> ids@[j]@ != id@,
        decreases ids.len() - i,
    {
        if crate::strings::str_eq(ids[i].as_str(), id) {
            return Ok(i);
        }
        i = i + 1;
    }
    proof {
        reveal_strlit("hypothesis '");
        reveal_strlit("' not found");
        if crate::strings::views(ids@).contains(id@) {
            let j = choose|j: int| 0 <= j < ids@.len() && crate::strings::views(ids@)[j] == id@;
            assert(ids@[j]@ == id@);
        }
    }
    Err(UseCaseError::NotFound(crate::strings::concat3("hypothesis '", id, "' not found")))
}

/// The HTTP status of a use-case error: 422, 404 or 500.
pub fn http_status(e: &UseCaseError) -> (r: u16)
    ensures
        r == match e {
            UseCaseError::Validation(_) => 422u16,
            UseCaseError::NotFound(_) => 404u16,
            UseCaseError::Internal(_) => 500u16,
        },
{
    match e {
        UseCaseError::Validation(_) => 422,
        UseCaseError::NotFound(_) => 404,
        UseCaseError::Internal(_) => 500,
    }
}

/// The body of the answer to a use-case error: the validation body as it is,
/// else a `NOT_FOUND` or `INTERNAL_ERROR` body with the message and no details.
pub fn error_body(e: UseCaseError) -> (r: ApiError)
    ensures
        match e {
            UseCaseError::Validation(api) => r == api,
            UseCaseError::NotFound(m) => r.error.code@ == "NOT_FOUND"@ && r.error.message == m
                && r.error.details@.len() == 0,
            UseCaseError::Internal(m) => r.error.code@ == "INTERNAL_ERROR"@ && r.error.message == m
                && r.error.details@.len() == 0,
        },
{
    match e {
        UseCaseError::Validation(api) => api,
        UseCaseError::NotFound(m) => ApiError::new("NOT_FOUND", m, Vec::new()),
        UseCaseError::Internal(m) => ApiError::new("INTERNAL_ERROR", m, Vec::new()),
    }
}

proof fn lemma_decimal_shape(n: nat)
    ensures
        decimal(n).len() >= 1,
        (decimal(n).len() == 1) == (n < 10),
        n >= 1 ==> decimal(n)[0] != '0',
    decreases n,
{
    if n >= 10 {
        lemma_decimal_shape(n / 10);
        assert(decimal(n)[0] == decimal(n / 10)[0]);
    }
}

proof fn lemma_decimal_injective(a: nat, b: nat)
    requires
        decimal(a) == decimal(b),
    ensures
        a == b,
    decreases a,
{
    lemma_decimal_shape(a);
    lemma_decimal_shape(b);
    if a >= 10 {
        let da = decimal(a);
        assert(da.last() == crate::strings::digit_char(a % 10));
        assert(da.last() == crate::strings::digit_char(b % 10));
        assert(a % 10 == b % 10);
        assert(decimal(a / 10) =~= da.drop_last());
        assert(decimal(b / 10) =~= da.drop_last());
        lemma_decimal_injective(a / 10, b / 10);
    } else {
        assert(decimal(a)[0] == decimal(b)[0]);
    }
}

proof fn lemma_pad4_injective(a: nat, b: nat)
    requires
        zero_pad(decimal(a), 4) == zero_pad(decimal(b), 4),
    ensures
        a == b,
{
    let s = decimal(a);
    let t = decimal(b);
    lemma_decimal_shape(a);
    lemma_decimal_shape(b);
    let ps = zero_pad(s, 4);
    if s.len() == t.len() {
        if s.len() < 4 {
            assert(s =~= ps.subrange(4 - s.len(), 4));
            assert(t =~= ps.subrange(4 - t.len(), 4));
        }
        lemma_decimal_injective(a, b);
    } else if s.len() > t.len() {
        // the first digit of the longer one stands where the shorter one has a padding zero
        let k: int = if s.len() >= 4 { 0 } else { 4 - s.len() };
        assert(ps[k] == s[0]);
        assert(ps[k] == '0');
    } else {
        let k: int = if t.len() >= 4 { 0 } else { 4 - t.len() };
        assert(ps[k] == t[0]);
        assert(ps[k] == '0');
    }
}

/// Run ids never repeat: the ids of two different counter values differ.
pub proof fn lemma_run_ids_distinct(a: nat, b: nat)
    requires
        a != b,
    ensures
        run_id_text(a) != run_id_text(b),
{
    reveal_strlit("run_");
    if run_id_text(a) == run_id_text(b) {
        assert(zero_pad(decimal(a), 4) =~= run_id_text(a).subrange(4, run_id_text(a).len() as int));
        assert(zero_pad(decimal(b), 4) =~= run_id_text(b).subrange(4, run_id_text(b).len() as int));
        lemma_pad4_injective(a, b);
    }
}

} // verus!
