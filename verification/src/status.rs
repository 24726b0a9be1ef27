//! Status assignment; the rules apply strictly in order.

use vstd::prelude::*;

use crate::contracts::Status;

verus! {

/// Status rules in order: a violated hard constraint rejects; a status the
/// operator forces stands; a score total of at least 0.75 recommends;
/// anything else is watched.
pub open spec fn spec_assign(violates: bool, forced: Option<Status>, meets_threshold: bool) -> Status {
    if violates {
        Status::RejectedByConstraints
    } else if forced is Some {
        forced->0
    } else if meets_threshold {
        Status::Recommended
    } else {
        Status::Watch
    }
}

/// The status of a candidate, from whether its lever violates a hard cost
/// constraint, the status its operator forces, and whether its score total
/// reaches the recommendation threshold.
pub fn assign(violates: bool, forced: Option<Status>, meets_threshold: bool) -> (r: Status)
    ensures
        r == spec_assign(violates, forced, meets_threshold),
        violates ==> r == Status::RejectedByConstraints,
        !violates ==> r != Status::RejectedByConstraints || forced == Some(Status::RejectedByConstraints),
        !violates && forced is Some ==> r == forced->0,
        !violates && forced is None ==> (r == Status::Recommended <==> meets_threshold),
        !violates && forced is None ==> (r == Status::Watch <==> !meets_threshold),
{
    if violates {
        return Status::RejectedByConstraints;
    }
    if let Some(s) = forced {
        return s;
    }
    if meets_threshold {
        Status::Recommended
    } else {
        Status::Watch
    }
}

/// The snake_case name of a status, as boards spell it.
pub open spec fn spec_status_str(s: Status) -> Seq<char> {
    match s {
        Status::Recommended => "recommended"@,
        Status::Watch => "watch"@,
        Status::RejectedByConstraints => "rejected_by_constraints"@,
        Status::NeedsExpertReview => "needs_expert_review"@,
    }
}

/// The snake_case name of a status.
pub fn status_str(s: Status) -> (r: &'static str)
    ensures
        r@ == spec_status_str(s),
{
    match s {
        Status::Recommended => "recommended",
        Status::Watch => "watch",
        Status::RejectedByConstraints => "rejected_by_constraints",
        Status::NeedsExpertReview => "needs_expert_review",
    }
}

/// A violated hard constraint rejects the hypothesis, whatever status its
/// operator forces and whatever its score.
pub proof fn lemma_violation_rejects(forced: Option<Status>, meets_threshold: bool)
    ensures
        spec_assign(true, forced, meets_threshold) == Status::RejectedByConstraints,
        forall|f: Option<Status>, m: bool| #[trigger] spec_assign(true, f, m) == spec_assign(true, forced, meets_threshold),
{
}

/// Without a violation, a forced status stands whatever the score; with
/// nothing forced, the threshold alone decides between recommended and
/// watch, and the hypothesis is never rejected.
pub proof fn lemma_status_without_violation(forced: Option<Status>, meets_threshold: bool)
    ensures
        forced matches Some(s) ==> spec_assign(false, forced, meets_threshold) == s
            && spec_assign(false, forced, !meets_threshold) == s,
        forced is None ==> spec_assign(false, forced, true) == Status::Recommended,
        forced is None ==> spec_assign(false, forced, false) == Status::Watch,
        forced is None ==> spec_assign(false, forced, meets_threshold) != Status::RejectedByConstraints,
{
}

} // verus!
