use smart_follow::metadata::Claim;
use smart_follow::run::{advance, lookup_requests, verify_claims, Phase, StageEvent};
use smart_follow::verification::{
    answer_from, decide, lookup_request, verify, LookupAnswer, LookupOutcome, UnresolvableReason,
    VerificationResult,
};

fn s(x: &str) -> String {
    x.to_string()
}

fn doc(local: &str, key: &str) -> LookupOutcome {
    LookupOutcome::Document(format!(r#"{{"names":{{"{}":"{}"}}}}"#, local, key))
}

#[test]
fn matching_key_confirms() {
    let r = verify(&s("abc"), &s("x@y.com"), &doc("x", "abc"));
    assert!(matches!(r, VerificationResult::Confirmed { ref identity, ref identifier }
        if identity == "abc" && identifier == "x@y.com"));
}

#[test]
fn other_key_is_drift() {
    let r = verify(&s("abc"), &s("x@y.com"), &doc("x", "def"));
    assert!(matches!(r, VerificationResult::Drifted { ref identifier, ref claimed, ref current }
        if identifier == "x@y.com" && claimed == "abc" && current == "def"));
}

#[test]
fn malformed_identifier_is_never_looked_up() {
    assert!(lookup_request(&s("not-an-identifier")).is_none());
    let r = verify(&s("abc"), &s("not-an-identifier"), &doc("not-an-identifier", "abc"));
    assert!(matches!(r, VerificationResult::Unresolvable { ref identifier, reason: UnresolvableReason::ParseError }
        if identifier == "not-an-identifier"));
}

#[test]
fn lookup_failure_and_absence() {
    let r = verify(&s("abc"), &s("x@y.com"), &LookupOutcome::Failed);
    assert!(matches!(r, VerificationResult::Unresolvable { reason: UnresolvableReason::LookupFailed, .. }));
    let r = verify(&s("abc"), &s("x@y.com"), &LookupOutcome::Cancelled);
    assert!(matches!(r, VerificationResult::Unresolvable { reason: UnresolvableReason::Cancelled, .. }));
    let r = verify(&s("abc"), &s("x@y.com"), &doc("other", "abc"));
    assert!(matches!(r, VerificationResult::Unresolvable { reason: UnresolvableReason::NotFound, .. }));
    let r = verify(&s("abc"), &s("x@y.com"), &LookupOutcome::Document(s("<html>")));
    assert!(matches!(r, VerificationResult::Unresolvable { reason: UnresolvableReason::NotFound, .. }));
    let r = verify(&s("abc"), &s("x@y.com"), &LookupOutcome::Document(s(r#"{"names":{"x":7}}"#)));
    assert!(matches!(r, VerificationResult::Unresolvable { reason: UnresolvableReason::NotFound, .. }));
}

#[test]
fn answer_reads_the_names_entry() {
    let a = answer_from(&doc("x", "def"), &s("x"));
    assert!(matches!(a, LookupAnswer::Key(ref k) if k == "def"));
    assert!(matches!(answer_from(&doc("x", "def"), &s("y")), LookupAnswer::NotFound));
    let d = decide(&s("abc"), &s("x@y.com"), &LookupAnswer::Key(s("abc")));
    assert!(matches!(d, VerificationResult::Confirmed { .. }));
    let d = decide(&s("abc"), &s("x@y.com"), &LookupAnswer::NotFound);
    assert!(matches!(d, VerificationResult::Unresolvable { reason: UnresolvableReason::NotFound, .. }));
}

#[test]
fn lookup_url_names_domain_and_local_part() {
    let q = lookup_request(&s("x@y.com")).unwrap();
    assert_eq!(q.url, "https://y.com/.well-known/nostr.json?name=x");
    assert_eq!(q.identifier.local_part, "x");
}

#[test]
fn requests_and_results_per_claim() {
    let claims = vec![
        Claim { identity: s("abc"), identifier: s("x@y.com"), created_at: 1 },
        Claim { identity: s("def"), identifier: s("broken"), created_at: 1 },
        Claim { identity: s("ghi"), identifier: s("g@z.org"), created_at: 1 },
    ];
    let reqs = lookup_requests(&claims);
    assert!(reqs[0].is_some() && reqs[1].is_none() && reqs[2].is_some());
    let outcomes = vec![LookupOutcome::Failed, LookupOutcome::Failed, doc("g", "ghi")];
    let r = verify_claims(&claims, &outcomes);
    assert!(matches!(r[0], VerificationResult::Unresolvable { reason: UnresolvableReason::LookupFailed, .. }));
    assert!(matches!(r[1], VerificationResult::Unresolvable { reason: UnresolvableReason::ParseError, .. }));
    assert!(matches!(r[2], VerificationResult::Confirmed { .. }));
}

#[test]
fn phases_of_a_run() {
    let mut p = Phase::Idle;
    for e in [
        StageEvent::Started,
        StageEvent::FollowListFetched,
        StageEvent::MetadataUnavailable,
        StageEvent::LookupsFinished,
        StageEvent::Partitioned,
    ] {
        p = advance(p, e);
    }
    assert_eq!(p, Phase::Done);
    assert_eq!(advance(Phase::Merging, StageEvent::OwnerUnavailable), Phase::Failed);
    assert_eq!(advance(Phase::Idle, StageEvent::OwnerUnavailable), Phase::Failed);
    assert_eq!(advance(Phase::Verifying, StageEvent::OwnerUnavailable), Phase::Verifying);
    assert_eq!(advance(Phase::Resolving, StageEvent::MetadataFetched), Phase::Verifying);
}
