//! Merging relay-reported follow lists into one candidate set.
use vstd::prelude::*;
use vstd::string::StrSliceExecFns;

verus! {

/// A follow-list event as a relay reports it.
pub struct FollowListEvent {
    pub author: String,
    pub created_at: u64,
    pub tags: Vec<Vec<String>>,
}

/// The identities a list of strings holds.
pub open spec fn ids_of(v: Seq<String>) -> Set<Seq<char>> {
    Set::new(|t: Seq<char>| exists|i: int| 0 <= i < v.len() && (#[trigger] v[i])@ == t)
}

/// No identity occurs twice.
pub open spec fn distinct_ids(v: Seq<String>) -> bool {
    forall|i: int, j: int| 0 <= i < j < v.len() ==> (#[trigger] v[i])@ != (#[trigger] v[j])@
}

/// The follow target that a tag names: a `p` tag with a second element.
pub open spec fn tag_target(tag: Seq<String>) -> Option<Seq<char>> {
    if tag.len() >= 2 && tag[0]@ == seq!['p'] {
        Some(tag[1]@)
    } else {
        None
    }
}

/// Every identity that the tags follow.
pub open spec fn follow_targets(tags: Seq<Vec<String>>) -> Set<Seq<char>> {
    Set::new(
        |t: Seq<char>| exists|i: int| 0 <= i < tags.len() && tag_target((#[trigger] tags[i])@) == Some(t),
    )
}

pub open spec fn owned_by(events: Seq<FollowListEvent>, owner: Seq<char>, i: int) -> bool {
    0 <= i < events.len() && events[i].author@ == owner
}

/// Event `i` is the owner's latest: no owned event is newer, and no earlier
/// owned event is as new (ties go to the first one in the sequence).
pub open spec fn is_latest(events: Seq<FollowListEvent>, owner: Seq<char>, i: int) -> bool {
    &&& owned_by(events, owner, i)
    &&& forall|j: int|
        #[trigger] owned_by(events, owner, j) ==> events[j].created_at <= events[i].created_at
    &&& forall|j: int|
        0 <= j < i && #[trigger] owned_by(events, owner, j) ==> events[j].created_at
            < events[i].created_at
}

pub proof fn lemma_latest_unique(events: Seq<FollowListEvent>, owner: Seq<char>, i: int, j: int)
    requires
        is_latest(events, owner, i),
        is_latest(events, owner, j),
    ensures
        i == j,
{
    assert(owned_by(events, owner, i));
    assert(owned_by(events, owner, j));
}

/// The candidate set: the follow targets of the owner's latest event, or
/// nothing when the owner published none.
pub open spec fn merged(events: Seq<FollowListEvent>, owner: Seq<char>) -> Set<Seq<char>> {
    if exists|i: int| is_latest(events, owner, i) {
        follow_targets(events[choose|i: int| is_latest(events, owner, i)].tags@)
    } else {
        Set::empty()
    }
}

/// The index of the owner's latest follow-list event.
pub fn latest_event(owner: &String, events: &Vec<FollowListEvent>) -> (r: Option<usize>)
    ensures
        r is None <==> forall|j: int| !owned_by(events@, owner@, j),
        r matches Some(i) ==> is_latest(events@, owner@, i as int),
{
    let mut best: Option<usize> = None;
    let mut i: usize = 0;
    while i < events.len()
        invariant
            0 <= i <= events@.len(),
            best is None ==> forall|j: int| 0 <= j < i ==> !owned_by(events@, owner@, j),
            best matches Some(b) ==> {
                &&& b < i
                &&& owned_by(events@, owner@, b as int)
                &&& forall|j: int|
                    0 <= j < i && #[trigger] owned_by(events@, owner@, j)
                        ==> events@[j].created_at <= events@[b as int].created_at
                &&& forall|j: int|
                    0 <= j < b && #[trigger] owned_by(events@, owner@, j)
                        ==> events@[j].created_at < events@[b as int].created_at
            },
        decreases events@.len() - i,
    {
        if events[i].author == *owner {
            match best {
                None => {
                    best = Some(i);
                },
                Some(b) => {
                    if events[b].created_at < events[i].created_at {
                        best = Some(i);
                    }
                },
            }
        }
        i = i + 1;
    }
    best
}

/// Whether a tag is a follow edge, and the identity it names.
pub fn follow_target(tag: &Vec<String>) -> (r: Option<&String>)
    ensures
        r matches Some(t) ==> tag_target(tag@) == Some(t@),
        r is None ==> tag_target(tag@) is None,
{
    if tag.len() >= 2 {
        let first = tag[0].as_str();
        if first.unicode_len() == 1 && first.get_char(0) == 'p' {
            assert(first@ =~= seq!['p']);
            return Some(&tag[1]);
        }
        assert(tag@[0]@ != seq!['p']) by {
            if tag@[0]@ == seq!['p'] {
                assert(first@.len() == 1);
            }
        }
    }
    None
}

/// Adds `id` to `v` unless an equal identity is there already.
pub fn insert_unique(v: &mut Vec<String>, id: &String)
    requires
        distinct_ids(old(v)@),
    ensures
        distinct_ids(final(v)@),
        ids_of(final(v)@) == ids_of(old(v)@).insert(id@),
{
    let mut i: usize = 0;
    while i < v.len()
        invariant
            0 <= i <= v@.len(),
            v@ == old(v)@,
            distinct_ids(v@),
            forall|j: int| 0 <= j < i ==> (#[trigger] v@[j])@ != id@,
        decreases v@.len() - i,
    {
        if v[i] == *id {
            assert(ids_of(v@).contains(id@));
            assert(ids_of(v@).insert(id@) =~= ids_of(v@));
            return;
        }
        i = i + 1;
    }
    let ghost before = v@;
    v.push(id.clone());
    assert(distinct_ids(v@)) by {
        assert(forall|j: int| 0 <= j < before.len() ==> v@[j] == before[j]);
    }
    assert(ids_of(v@) =~= ids_of(before).insert(id@)) by {
        assert(forall|j: int| 0 <= j < before.len() ==> v@[j] == before[j]);
        assert(v@[before.len() as int]@ == id@);
    }
}

/// Whether `v` holds identity `id`.
pub fn contains_id(v: &Vec<String>, id: &String) -> (r: bool)
    ensures
        r == ids_of(v@).contains(id@),
{
    let mut i: usize = 0;
    while i < v.len()
        invariant
            0 <= i <= v@.len(),
            forall|j: int| 0 <= j < i ==> (#[trigger] v@[j])@ != id@,
        decreases v@.len() - i,
    {
        if v[i] == *id {
            return true;
        }
        i = i + 1;
    }
    false
}

/// The identities followed by one list of tags, each once.
pub fn targets_of(tags: &Vec<Vec<String>>) -> (r: Vec<String>)
    ensures
        distinct_ids(r@),
        ids_of(r@) == follow_targets(tags@),
{
    let mut r: Vec<String> = Vec::new();
    let mut i: usize = 0;
    while i < tags.len()
        invariant
            0 <= i <= tags@.len(),
            distinct_ids(r@),
            ids_of(r@) == follow_targets(tags@.subrange(0, i as int)),
        decreases tags@.len() - i,
    {
        let ghost before = ids_of(r@);
        match follow_target(&tags[i]) {
            Some(t) => {
                insert_unique(&mut r, t);
            },
            None => {},
        }
        proof {
            let next = tags@.subrange(0, i + 1);
            let prev = tags@.subrange(0, i as int);
            assert(forall|j: int| 0 <= j < i ==> next[j] == prev[j]);
            assert(next[i as int] == tags@[i as int]);
            assert(ids_of(r@) =~= follow_targets(next));
        }
        i = i + 1;
    }
    assert(tags@.subrange(0, tags@.len() as int) =~= tags@);
    r
}

/// The candidate set: the owner's latest follow list replaces whatever was
/// followed before; each identity is listed once.
pub fn merge(owner: &String, events: &Vec<FollowListEvent>) -> (r: Vec<String>)
    ensures
        distinct_ids(r@),
        ids_of(r@) == merged(events@, owner@),
{
    match latest_event(owner, events) {
        None => {
            let r: Vec<String> = Vec::new();
            assert(ids_of(r@) =~= Set::<Seq<char>>::empty());
            r
        },
        Some(i) => {
            let r = targets_of(&events[i].tags);
            proof {
                let c = choose|k: int| is_latest(events@, owner@, k);
                lemma_latest_unique(events@, owner@, i as int, c);
            }
            r
        },
    }
}

/// Merging is idempotent: the same events delivered twice (from two relays,
/// say) give the same candidates as delivered once.
pub proof fn lemma_merge_idempotent(events: Seq<FollowListEvent>, owner: Seq<char>)
    ensures
        merged(events + events, owner) == merged(events, owner),
{
    let both = events + events;
    let n = events.len() as int;
    assert forall|j: int| 0 <= j < both.len() implies #[trigger] both[j] == (if j < n {
        events[j]
    } else {
        events[j - n]
    }) by {}
    if exists|i: int| is_latest(events, owner, i) {
        let i = choose|i: int| is_latest(events, owner, i);
        assert forall|j: int| #[trigger] owned_by(both, owner, j) implies both[j].created_at
            <= both[i].created_at by {
            if j < n {
                assert(owned_by(events, owner, j));
            } else {
                assert(owned_by(events, owner, j - n));
            }
        }
        assert forall|j: int| 0 <= j < i && #[trigger] owned_by(both, owner, j) implies both[j].created_at
            < both[i].created_at by {
            assert(owned_by(events, owner, j));
        }
        assert(is_latest(both, owner, i));
        let c = choose|k: int| is_latest(both, owner, k);
        lemma_latest_unique(both, owner, i, c);
    } else {
        if exists|i: int| is_latest(both, owner, i) {
            let i = choose|i: int| is_latest(both, owner, i);
            let m = if i < n {
                i
            } else {
                i - n
            };
            assert(owned_by(events, owner, m));
            assert forall|j: int| #[trigger] owned_by(events, owner, j) implies events[j].created_at
                <= events[m].created_at by {
                assert(owned_by(both, owner, j));
            }
            assert forall|j: int| 0 <= j < m && #[trigger] owned_by(events, owner, j) implies events[j].created_at
                < events[m].created_at by {
                assert(owned_by(both, owner, j));
                assert(owned_by(both, owner, j + n));
            }
            assert(is_latest(events, owner, m));
        }
    }
}

} // verus!
