use smart_follow::config::{has_distinct_identities, Config};
use smart_follow::reconcile::{publish_keys, reconcile, tally, ContactRecord, Tally};
use smart_follow::run::{advance, verify_claims, Phase, StageEvent};
use smart_follow::metadata::Claim;
use smart_follow::verification::{LookupOutcome, UnresolvableReason, VerificationResult};

fn s(x: &str) -> String {
    x.to_string()
}

fn rec(id: &str, ident: Option<&str>) -> ContactRecord {
    ContactRecord { identity: s(id), identifier: ident.map(s) }
}

fn view(mut v: Vec<ContactRecord>) -> Vec<(String, Option<String>)> {
    v.sort_by(|a, b| a.identity.cmp(&b.identity));
    v.into_iter().map(|r| (r.identity, r.identifier)).collect()
}

fn confirmed(id: &str, ident: &str) -> VerificationResult {
    VerificationResult::Confirmed { identity: s(id), identifier: s(ident) }
}

#[test]
fn drift_follows_the_new_identity_and_enters_the_delta() {
    let prior = vec![rec("abc", Some("x@y.com"))];
    let verdicts = vec![VerificationResult::Drifted {
        identifier: s("x@y.com"),
        claimed: s("abc"),
        current: s("def"),
    }];
    let r = reconcile(&prior, &vec![s("abc")], &verdicts);
    assert_eq!(view(r.state), vec![(s("def"), Some(s("x@y.com")))]);
    assert_eq!(view(r.delta), vec![(s("def"), Some(s("x@y.com")))]);
    assert_eq!(r.dropped, vec![s("abc")]);
}

#[test]
fn failed_lookup_isolated_to_its_candidate() {
    let claims = vec![
        Claim { identity: s("abc"), identifier: s("x@y.com"), created_at: 1 },
        Claim { identity: s("def"), identifier: s("d@z.org"), created_at: 1 },
    ];
    let outcomes = vec![
        LookupOutcome::Failed,
        LookupOutcome::Document(s(r#"{"names":{"d":"def"}}"#)),
    ];
    let verdicts = verify_claims(&claims, &outcomes);
    assert!(matches!(verdicts[0], VerificationResult::Unresolvable { reason: UnresolvableReason::LookupFailed, .. }));
    let r = reconcile(&vec![], &vec![s("abc"), s("def"), s("ghi")], &verdicts);
    assert_eq!(
        view(r.state),
        vec![(s("abc"), None), (s("def"), Some(s("d@z.org"))), (s("ghi"), None)]
    );
    let mut p = Phase::Idle;
    for e in [
        StageEvent::Started,
        StageEvent::FollowListFetched,
        StageEvent::MetadataFetched,
        StageEvent::LookupsFinished,
        StageEvent::Partitioned,
    ] {
        p = advance(p, e);
    }
    assert_eq!(p, Phase::Done);
    assert_eq!(tally(&verdicts), Tally { confirmed: 1, drifted: 0, unresolvable: 1 });
}

#[test]
fn up_to_date_state_has_empty_delta() {
    let prior = vec![rec("abc", Some("x@y.com")), rec("def", None)];
    let r = reconcile(&prior, &vec![s("abc"), s("def")], &vec![confirmed("abc", "x@y.com")]);
    assert!(r.delta.is_empty());
    assert!(r.dropped.is_empty());
    assert_eq!(view(r.state), view(prior));
}

#[test]
fn confirmed_binding_enters_delta_only_when_changed() {
    let prior = vec![rec("abc", None), rec("def", Some("d@z.org"))];
    let verdicts = vec![confirmed("abc", "x@y.com"), confirmed("def", "d@z.org")];
    let r = reconcile(&prior, &vec![s("abc"), s("def")], &verdicts);
    assert_eq!(view(r.delta), vec![(s("abc"), Some(s("x@y.com")))]);
}

#[test]
fn unfollowed_identities_are_dropped() {
    let prior = vec![rec("abc", Some("x@y.com")), rec("old", None)];
    let r = reconcile(&prior, &vec![s("abc"), s("new")], &vec![]);
    assert_eq!(view(r.state), vec![(s("abc"), None), (s("new"), None)]);
    assert_eq!(view(r.delta), vec![(s("abc"), None), (s("new"), None)]);
    assert_eq!(r.dropped, vec![s("old")]);
}

#[test]
fn publish_keys_lists_every_record() {
    let state = vec![rec("abc", Some("x@y.com")), rec("def", None)];
    assert_eq!(publish_keys(&state), vec![s("abc"), s("def")]);
}

#[test]
fn tally_counts_each_bucket() {
    let verdicts = vec![
        confirmed("a", "a@b.c"),
        VerificationResult::Drifted { identifier: s("b@b.c"), claimed: s("b"), current: s("c") },
        VerificationResult::Unresolvable { identifier: s("bad"), reason: UnresolvableReason::ParseError },
        VerificationResult::Unresolvable { identifier: s("d@b.c"), reason: UnresolvableReason::NotFound },
    ];
    assert_eq!(tally(&verdicts), Tally { confirmed: 1, drifted: 1, unresolvable: 2 });
}

#[test]
fn distinct_identity_check() {
    assert!(has_distinct_identities(&vec![rec("a", None), rec("b", None)]));
    assert!(!has_distinct_identities(&vec![rec("a", None), rec("b", None), rec("a", Some("a@b.c"))]));
    assert!(has_distinct_identities(&vec![]));
}

#[test]
fn default_config() {
    let c = Config::default();
    assert_eq!(c.privkey, "YOUR_HEX_ENCODED_PRIVKEY");
    assert_eq!(c.relays, vec![s("wss://relay.damus.io")]);
    assert!(c.contact_list.is_empty());
}
