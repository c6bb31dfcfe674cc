use smart_follow::follow::{latest_event, merge, FollowListEvent};

fn tag(a: &str, b: &str) -> Vec<String> {
    vec![a.to_string(), b.to_string()]
}

fn event(author: &str, created_at: u64, tags: Vec<Vec<String>>) -> FollowListEvent {
    FollowListEvent { author: author.to_string(), created_at, tags }
}

fn sorted(mut v: Vec<String>) -> Vec<String> {
    v.sort();
    v
}

#[test]
fn latest_follow_list_gives_candidates() {
    let events = vec![event("owner", 10, vec![tag("p", "abc"), tag("p", "def")])];
    assert_eq!(sorted(merge(&"owner".to_string(), &events)), vec!["abc", "def"]);
}

#[test]
fn latest_event_replaces_older_ones() {
    let events = vec![
        event("owner", 5, vec![tag("p", "old")]),
        event("owner", 9, vec![tag("p", "new")]),
        event("owner", 7, vec![tag("p", "mid")]),
    ];
    assert_eq!(merge(&"owner".to_string(), &events), vec!["new"]);
    assert_eq!(latest_event(&"owner".to_string(), &events), Some(1));
}

#[test]
fn equal_timestamps_keep_the_first_event() {
    let events = vec![
        event("owner", 9, vec![tag("p", "first")]),
        event("owner", 9, vec![tag("p", "second")]),
    ];
    assert_eq!(merge(&"owner".to_string(), &events), vec!["first"]);
}

#[test]
fn other_authors_and_other_tags_are_ignored() {
    let events = vec![
        event("someone", 99, vec![tag("p", "theirs")]),
        event(
            "owner",
            3,
            vec![
                tag("e", "note"),
                vec!["p".to_string()],
                vec![],
                tag("p", "abc"),
                tag("pp", "x"),
            ],
        ),
    ];
    assert_eq!(merge(&"owner".to_string(), &events), vec!["abc"]);
}

#[test]
fn duplicate_targets_are_listed_once() {
    let events = vec![event("owner", 1, vec![tag("p", "abc"), tag("p", "abc"), tag("p", "def")])];
    assert_eq!(sorted(merge(&"owner".to_string(), &events)), vec!["abc", "def"]);
}

#[test]
fn no_owner_event_gives_no_candidates() {
    let events = vec![event("someone", 1, vec![tag("p", "abc")])];
    assert!(merge(&"owner".to_string(), &events).is_empty());
    assert!(merge(&"owner".to_string(), &vec![]).is_empty());
    assert_eq!(latest_event(&"owner".to_string(), &events), None);
}

#[test]
fn merging_the_same_events_twice_is_idempotent() {
    let once = vec![
        event("owner", 4, vec![tag("p", "abc")]),
        event("owner", 8, vec![tag("p", "def"), tag("p", "ghi")]),
    ];
    let mut twice = once.iter().map(|e| event(&e.author, e.created_at, e.tags.clone())).collect::<Vec<_>>();
    twice.extend(once.iter().map(|e| event(&e.author, e.created_at, e.tags.clone())));
    let owner = "owner".to_string();
    assert_eq!(sorted(merge(&owner, &once)), sorted(merge(&owner, &twice)));
    assert_eq!(sorted(merge(&owner, &twice)), vec!["def", "ghi"]);
}
