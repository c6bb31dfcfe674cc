use smart_follow::metadata::{resolve, resolve_claims, Claim, MetadataEvent, RawClaim};

fn meta(pk: &str, ts: u64, content: &str) -> MetadataEvent {
    MetadataEvent { pub_key: pk.to_string(), created_at: ts, content: content.to_string() }
}

fn cands(v: &[&str]) -> Vec<String> {
    v.iter().map(|s| s.to_string()).collect()
}

fn summary(mut v: Vec<Claim>) -> Vec<(String, String, u64)> {
    v.sort_by(|a, b| a.identity.cmp(&b.identity));
    v.into_iter().map(|c| (c.identity, c.identifier, c.created_at)).collect()
}

#[test]
fn greatest_timestamp_wins_in_reverse_order() {
    let events = vec![
        meta("abc", 200, r#"{"nip05":"z@y.com"}"#),
        meta("abc", 100, r#"{"nip05":"x@y.com"}"#),
    ];
    let r = resolve(&events, &cands(&["abc"]));
    assert_eq!(summary(r), vec![("abc".to_string(), "z@y.com".to_string(), 200)]);
}

#[test]
fn greatest_timestamp_wins_in_forward_order() {
    let events = vec![
        meta("abc", 100, r#"{"nip05":"x@y.com"}"#),
        meta("abc", 200, r#"{"nip05":"z@y.com"}"#),
    ];
    let r = resolve(&events, &cands(&["abc"]));
    assert_eq!(summary(r), vec![("abc".to_string(), "z@y.com".to_string(), 200)]);
}

#[test]
fn non_candidates_and_bad_content_are_skipped() {
    let events = vec![
        meta("stranger", 5, r#"{"nip05":"s@y.com"}"#),
        meta("abc", 5, "not json"),
        meta("abc", 6, r#"{"name":"no claim"}"#),
        meta("abc", 7, r#"{"nip05":42}"#),
        meta("abc", 8, r#"["nip05"]"#),
        meta("def", 1, r#"{"nip05":"d@y.com","name":"d"}"#),
    ];
    let r = resolve(&events, &cands(&["abc", "def"]));
    assert_eq!(summary(r), vec![("def".to_string(), "d@y.com".to_string(), 1)]);
}

#[test]
fn equal_timestamps_keep_the_later_claim() {
    let events = vec![
        meta("abc", 50, r#"{"nip05":"first@y.com"}"#),
        meta("abc", 50, r#"{"nip05":"second@y.com"}"#),
    ];
    let r = resolve(&events, &cands(&["abc"]));
    assert_eq!(summary(r), vec![("abc".to_string(), "second@y.com".to_string(), 50)]);
}

#[test]
fn resolution_is_order_independent() {
    let raw = |id: &str, ts: u64, c: Option<&str>| RawClaim {
        identity: id.to_string(),
        created_at: ts,
        identifier: c.map(|s| s.to_string()),
    };
    let a = vec![
        raw("abc", 1, Some("a1@y.com")),
        raw("def", 3, Some("d3@y.com")),
        raw("abc", 4, Some("a4@y.com")),
        raw("def", 2, None),
        raw("abc", 2, Some("a2@y.com")),
    ];
    let b = vec![
        raw("abc", 2, Some("a2@y.com")),
        raw("def", 2, None),
        raw("abc", 4, Some("a4@y.com")),
        raw("def", 3, Some("d3@y.com")),
        raw("abc", 1, Some("a1@y.com")),
    ];
    let c = cands(&["abc", "def"]);
    let ra = summary(resolve_claims(&a, &c));
    assert_eq!(ra, summary(resolve_claims(&b, &c)));
    assert_eq!(
        ra,
        vec![
            ("abc".to_string(), "a4@y.com".to_string(), 4),
            ("def".to_string(), "d3@y.com".to_string(), 3)
        ]
    );
}

#[test]
fn no_claims_leave_nothing_resolved() {
    assert!(resolve(&vec![], &cands(&["abc"])).is_empty());
    let events = vec![meta("abc", 1, r#"{"nip05":"x@y.com"}"#)];
    assert!(resolve(&events, &vec![]).is_empty());
}
