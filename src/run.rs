//! The stages of a reconciliation run, and the per-claim work that the caller
//! performs between them.
use vstd::prelude::*;
use crate::identifier::valid_identifier;
use crate::metadata::Claim;
use crate::verification::{
    lookup_request, lookup_url, verification, verify, LookupOutcome, LookupRequest,
    VerificationResult,
};

verus! {

/// The stage a run is in.
#[derive(Clone, Copy, Debug, PartialEq, Eq, Structural)]
pub enum Phase {
    Idle,
    Merging,
    Resolving,
    Verifying,
    Partitioning,
    Done,
    Failed,
}

/// What the caller reports after performing a stage's outside work.
#[derive(Clone, Copy, Debug, PartialEq, Eq, Structural)]
pub enum StageEvent {
    /// The owner's identity was loaded; the run starts.
    Started,
    /// The owner's identity is unusable, or no relay could be reached for
    /// the owner's follow list.
    OwnerUnavailable,
    FollowListFetched,
    MetadataFetched,
    /// Metadata could not be fetched: the run goes on with no claims.
    MetadataUnavailable,
    LookupsFinished,
    Partitioned,
}

pub open spec fn next_phase(p: Phase, e: StageEvent) -> Phase {
    match (p, e) {
        (Phase::Idle, StageEvent::Started) => Phase::Merging,
        (Phase::Idle, StageEvent::OwnerUnavailable) => Phase::Failed,
        (Phase::Merging, StageEvent::FollowListFetched) => Phase::Resolving,
        (Phase::Merging, StageEvent::OwnerUnavailable) => Phase::Failed,
        (Phase::Resolving, StageEvent::MetadataFetched) => Phase::Verifying,
        (Phase::Resolving, StageEvent::MetadataUnavailable) => Phase::Verifying,
        (Phase::Verifying, StageEvent::LookupsFinished) => Phase::Partitioning,
        (Phase::Partitioning, StageEvent::Partitioned) => Phase::Done,
        _ => p,
    }
}

/// Moves a run to its next stage; an event that does not belong to the
/// current stage leaves it where it is.
pub fn advance(p: Phase, e: StageEvent) -> (r: Phase)
    ensures
        r == next_phase(p, e),
        r == Phase::Failed ==> p == Phase::Failed || p == Phase::Idle || p == Phase::Merging,
{
    match (p, e) {
        (Phase::Idle, StageEvent::Started) => Phase::Merging,
        (Phase::Idle, StageEvent::OwnerUnavailable) => Phase::Failed,
        (Phase::Merging, StageEvent::FollowListFetched) => Phase::Resolving,
        (Phase::Merging, StageEvent::OwnerUnavailable) => Phase::Failed,
        (Phase::Resolving, StageEvent::MetadataFetched) => Phase::Verifying,
        (Phase::Resolving, StageEvent::MetadataUnavailable) => Phase::Verifying,
        (Phase::Verifying, StageEvent::LookupsFinished) => Phase::Partitioning,
        (Phase::Partitioning, StageEvent::Partitioned) => Phase::Done,
        _ => p,
    }
}

/// The lookup to make for each claim; malformed claims get none.
pub fn lookup_requests(claims: &Vec<Claim>) -> (r: Vec<Option<LookupRequest>>)
    ensures
        r@.len() == claims@.len(),
        forall|i: int|
            0 <= i < r@.len() ==> ((#[trigger] r@[i]) is Some <==> valid_identifier(
                claims@[i].identifier@,
            )),
        forall|i: int|
            0 <= i < r@.len() ==> (#[trigger] r@[i] matches Some(q) ==> q.identifier.text_view()
                == claims@[i].identifier@ && q.url@ == lookup_url(q.identifier)),
{
    let mut r: Vec<Option<LookupRequest>> = Vec::new();
    let mut i: usize = 0;
    while i < claims.len()
        invariant
            0 <= i <= claims@.len(),
            r@.len() == i,
            forall|j: int|
                0 <= j < i ==> ((#[trigger] r@[j]) is Some <==> valid_identifier(
                    claims@[j].identifier@,
                )),
            forall|j: int|
                0 <= j < i ==> (#[trigger] r@[j] matches Some(q) ==> q.identifier.text_view()
                    == claims@[j].identifier@ && q.url@ == lookup_url(q.identifier)),
        decreases claims@.len() - i,
    {
        r.push(lookup_request(&claims[i].identifier));
        i = i + 1;
    }
    r
}

/// Checks every claim against the outcome of its lookup (`outcomes[i]` for
/// `claims[i]`); one claim's failure does not touch the others.
pub fn verify_claims(claims: &Vec<Claim>, outcomes: &Vec<LookupOutcome>) -> (r: Vec<
    VerificationResult,
>)
    requires
        outcomes@.len() == claims@.len(),
    ensures
        r@.len() == claims@.len(),
        forall|i: int|
            0 <= i < r@.len() ==> (#[trigger] r@[i])@ == verification(
                claims@[i].identity@,
                claims@[i].identifier@,
                outcomes@[i],
            ),
{
    let mut r: Vec<VerificationResult> = Vec::new();
    let mut i: usize = 0;
    while i < claims.len()
        invariant
            0 <= i <= claims@.len(),
            outcomes@.len() == claims@.len(),
            r@.len() == i,
            forall|j: int|
                0 <= j < i ==> (#[trigger] r@[j])@ == verification(
                    claims@[j].identity@,
                    claims@[j].identifier@,
                    outcomes@[j],
                ),
        decreases claims@.len() - i,
    {
        r.push(verify(&claims[i].identity, &claims[i].identifier, &outcomes[i]));
        i = i + 1;
    }
    r
}

} // verus!
