//! Resolving the identifier each candidate claims in its metadata events.
use vstd::prelude::*;
use crate::follow::{contains_id, ids_of};
use vstd::seq_lib::group_to_multiset_ensures;

verus! {

/// A metadata event as a relay reports it; `content` is a JSON document.
pub struct MetadataEvent {
    pub pub_key: String,
    pub created_at: u64,
    pub content: String,
}

/// What one metadata event claims: its author, its time, and the identifier
/// named in its content, if any.
pub struct RawClaim {
    pub identity: String,
    pub created_at: u64,
    pub identifier: Option<String>,
}

/// The claim retained for one identity.
#[derive(Clone, Debug)]
pub struct Claim {
    pub identity: String,
    pub identifier: String,
    pub created_at: u64,
}

/// A claim as plain values: (identity, timestamp, claimed identifier).
pub type ClaimView = (Seq<char>, u64, Option<Seq<char>>);

/// The `nip05` string field of a JSON object, if the text is one and has it.
pub uninterp spec fn nip05_field(content: Seq<char>) -> Option<Seq<char>>;

/// Relies on serde_json::from_str, Value::get and Value::as_str: the string
/// field "nip05" of the JSON object in `content`; the answer depends on the
/// text alone.
#[verifier::external_body]
fn nip05_of(content: &str) -> (r: Option<String>)
    ensures
        r matches Some(s) ==> nip05_field(content@) == Some(s@),
        r is None ==> nip05_field(content@) is None,
{
    match serde_json::from_str::<serde_json::Value>(content) {
        Ok(v) => match v.get("nip05") {
            Some(f) => match f.as_str() {
                Some(s) => Some(s.to_string()),
                None => None,
            },
            None => None,
        },
        Err(_) => None,
    }
}

pub open spec fn raw_view(c: RawClaim) -> ClaimView {
    (
        c.identity@,
        c.created_at,
        match c.identifier {
            Some(s) => Some(s@),
            None => None,
        },
    )
}

pub open spec fn event_claim(e: MetadataEvent) -> ClaimView {
    (e.pub_key@, e.created_at, nip05_field(e.content@))
}

/// Claim `c` counts: it names an identifier and comes from a candidate.
pub open spec fn counts(c: ClaimView, cands: Set<Seq<char>>) -> bool {
    c.2 is Some && cands.contains(c.0)
}

/// Greatest timestamp wins per identity; on equal timestamps the claim
/// processed later wins.
pub open spec fn resolved(cs: Seq<ClaimView>, cands: Set<Seq<char>>) -> Map<
    Seq<char>,
    (u64, Seq<char>),
>
    decreases cs.len(),
{
    if cs.len() == 0 {
        Map::empty()
    } else {
        let prev = resolved(cs.drop_last(), cands);
        let c = cs.last();
        if counts(c, cands) && (!prev.contains_key(c.0) || prev[c.0].0 <= c.1) {
            prev.insert(c.0, (c.1, c.2->0))
        } else {
            prev
        }
    }
}

/// `v` lists the map's entries, each identity once.
pub open spec fn represents(v: Seq<Claim>, m: Map<Seq<char>, (u64, Seq<char>)>) -> bool {
    &&& forall|i: int, j: int|
        0 <= i < j < v.len() ==> (#[trigger] v[i]).identity@ != (#[trigger] v[j]).identity@
    &&& forall|i: int|
        0 <= i < v.len() ==> m.contains_key((#[trigger] v[i]).identity@) && m[v[i].identity@] == (
            v[i].created_at,
            v[i].identifier@,
        )
    &&& forall|id: Seq<char>|
        #[trigger] m.contains_key(id) ==> exists|i: int| 0 <= i < v.len() && v[i].identity@ == id
}

fn find_claim(v: &Vec<Claim>, id: &String) -> (r: Option<usize>)
    ensures
        r matches Some(k) ==> k < v@.len() && v@[k as int].identity@ == id@,
        r is None ==> forall|j: int| 0 <= j < v@.len() ==> (#[trigger] v@[j]).identity@ != id@,
{
    let mut i: usize = 0;
    while i < v.len()
        invariant
            0 <= i <= v@.len(),
            forall|j: int| 0 <= j < i ==> (#[trigger] v@[j]).identity@ != id@,
        decreases v@.len() - i,
    {
        if v[i].identity == *id {
            return Some(i);
        }
        i = i + 1;
    }
    None
}

/// Keeps, per candidate, the claim with the greatest timestamp.
pub fn resolve_claims(claims: &Vec<RawClaim>, candidates: &Vec<String>) -> (r: Vec<Claim>)
    ensures
        represents(r@, resolved(claims@.map_values(|c: RawClaim| raw_view(c)), ids_of(candidates@))),
{
    let ghost cands = ids_of(candidates@);
    let ghost cs = claims@.map_values(|c: RawClaim| raw_view(c));
    let mut r: Vec<Claim> = Vec::new();
    let mut i: usize = 0;
    while i < claims.len()
        invariant
            0 <= i <= claims@.len(),
            cands == ids_of(candidates@),
            cs == claims@.map_values(|c: RawClaim| raw_view(c)),
            represents(r@, resolved(cs.subrange(0, i as int), cands)),
        decreases claims@.len() - i,
    {
        let ghost prev = resolved(cs.subrange(0, i as int), cands);
        let ghost old_r = r@;
        assert(cs.subrange(0, i + 1).drop_last() =~= cs.subrange(0, i as int));
        let c = &claims[i];
        assert(cs[i as int] == raw_view(*c));
        match &c.identifier {
            Some(ident) => {
                if contains_id(candidates, &c.identity) {
                    let entry = Claim {
                        identity: c.identity.clone(),
                        identifier: ident.clone(),
                        created_at: c.created_at,
                    };
                    match find_claim(&r, &c.identity) {
                        Some(k) => {
                            if r[k].created_at <= c.created_at {
                                r.set(k, entry);
                                proof {
                                    let m = resolved(cs.subrange(0, i + 1), cands);
                                    assert(m == prev.insert(c.identity@, (c.created_at, ident@)));
                                    assert forall|id: Seq<char>| #[trigger] m.contains_key(id) implies exists|j: int|
                                        0 <= j < r@.len() && r@[j].identity@ == id by {
                                        if id != c.identity@ {
                                            let j = choose|j: int|
                                                0 <= j < old_r.len() && old_r[j].identity@ == id;
                                            assert(r@[j] == old_r[j]);
                                        } else {
                                            assert(r@[k as int].identity@ == id);
                                        }
                                    }
                                }
                            }
                        },
                        None => {
                            r.push(entry);
                            proof {
                                let m = resolved(cs.subrange(0, i + 1), cands);
                                assert(!prev.contains_key(c.identity@));
                                assert(m == prev.insert(c.identity@, (c.created_at, ident@)));
                                assert(forall|j: int| 0 <= j < old_r.len() ==> r@[j] == old_r[j]);
                                assert forall|id: Seq<char>| #[trigger] m.contains_key(id) implies exists|j: int|
                                    0 <= j < r@.len() && r@[j].identity@ == id by {
                                    if id != c.identity@ {
                                        let j = choose|j: int|
                                            0 <= j < old_r.len() && old_r[j].identity@ == id;
                                        assert(r@[j] == old_r[j]);
                                    } else {
                                        assert(r@[old_r.len() as int].identity@ == id);
                                    }
                                }
                            }
                        },
                    }
                }
            },
            None => {},
        }
        i = i + 1;
    }
    assert(cs.subrange(0, claims@.len() as int) =~= cs);
    r
}

/// The claims of the candidates' metadata events, greatest timestamp first.
pub fn resolve(events: &Vec<MetadataEvent>, candidates: &Vec<String>) -> (r: Vec<Claim>)
    ensures
        represents(
            r@,
            resolved(events@.map_values(|e: MetadataEvent| event_claim(e)), ids_of(candidates@)),
        ),
{
    let mut raw: Vec<RawClaim> = Vec::new();
    let mut i: usize = 0;
    while i < events.len()
        invariant
            0 <= i <= events@.len(),
            raw@.len() == i,
            forall|j: int|
                0 <= j < i ==> raw_view(#[trigger] raw@[j]) == event_claim(events@[j]),
        decreases events@.len() - i,
    {
        let e = &events[i];
        raw.push(
            RawClaim {
                identity: e.pub_key.clone(),
                created_at: e.created_at,
                identifier: nip05_of(e.content.as_str()),
            },
        );
        i = i + 1;
    }
    assert(raw@.map_values(|c: RawClaim| raw_view(c)) =~= events@.map_values(
        |e: MetadataEvent| event_claim(e),
    ));
    resolve_claims(&raw, candidates)
}

/// Two claims in `cs` that count, for one identity and with one timestamp,
/// name the same identifier.
pub open spec fn no_ties(cs: Seq<ClaimView>, cands: Set<Seq<char>>) -> bool {
    forall|i: int, j: int|
        0 <= i < cs.len() && 0 <= j < cs.len() && counts(cs[i], cands) && counts(cs[j], cands)
            && (#[trigger] cs[i]).0 == (#[trigger] cs[j]).0 && cs[i].1 == cs[j].1 ==> cs[i].2 == cs[j].2
}

/// What `resolved` holds for each identity: an entry exactly for the
/// identities with a claim that counts, and that entry is one such claim, of
/// the greatest timestamp among them.
pub proof fn lemma_resolved_entries(cs: Seq<ClaimView>, cands: Set<Seq<char>>)
    ensures
        forall|id: Seq<char>|
            #[trigger] resolved(cs, cands).contains_key(id) ==> exists|i: int|
                0 <= i < cs.len() && counts(cs[i], cands) && cs[i].0 == id && cs[i].1 == resolved(
                    cs,
                    cands,
                )[id].0 && cs[i].2 == Some(resolved(cs, cands)[id].1),
        forall|i: int|
            0 <= i < cs.len() && counts(#[trigger] cs[i], cands) ==> resolved(cs, cands).contains_key(
                cs[i].0,
            ) && cs[i].1 <= resolved(cs, cands)[cs[i].0].0,
    decreases cs.len(),
{
    if cs.len() > 0 {
        let front = cs.drop_last();
        lemma_resolved_entries(front, cands);
        let m = resolved(cs, cands);
        let prev = resolved(front, cands);
        assert forall|i: int| 0 <= i < front.len() implies #[trigger] front[i] == cs[i] by {}
        assert forall|id: Seq<char>| #[trigger] m.contains_key(id) implies exists|i: int|
            0 <= i < cs.len() && counts(cs[i], cands) && cs[i].0 == id && cs[i].1 == m[id].0 && cs[i].2
                == Some(m[id].1) by {
            if id == cs.last().0 && m[id] != prev.get(id).unwrap_or((0u64, Seq::empty())) {
                assert(cs[cs.len() - 1] == cs.last());
            } else if id == cs.last().0 && !prev.contains_key(id) {
                assert(cs[cs.len() - 1] == cs.last());
            } else {
                let i = choose|i: int|
                    0 <= i < front.len() && counts(front[i], cands) && front[i].0 == id && front[i].1
                        == prev[id].0 && front[i].2 == Some(prev[id].1);
                assert(cs[i] == front[i]);
            }
        }
        assert forall|i: int| 0 <= i < cs.len() && counts(#[trigger] cs[i], cands) implies m.contains_key(
            cs[i].0,
        ) && cs[i].1 <= m[cs[i].0].0 by {
            if i < front.len() {
                assert(cs[i] == front[i]);
            }
        }
    }
}

/// Resolution does not depend on the order in which claims are processed:
/// any reordering of the same claims gives the same identity-to-identifier
/// map, provided no two claims for one identity with one timestamp disagree.
pub proof fn lemma_resolution_order_independent(
    cs1: Seq<ClaimView>,
    cs2: Seq<ClaimView>,
    cands: Set<Seq<char>>,
)
    requires
        cs1.to_multiset() == cs2.to_multiset(),
        no_ties(cs1, cands),
    ensures
        resolved(cs1, cands) == resolved(cs2, cands),
{
    broadcast use group_to_multiset_ensures;

    lemma_resolved_entries(cs1, cands);
    lemma_resolved_entries(cs2, cands);
    let m1 = resolved(cs1, cands);
    let m2 = resolved(cs2, cands);
    assert forall|c: ClaimView| cs1.contains(c) <==> cs2.contains(c) by {
        assert(cs1.contains(c) <==> cs1.to_multiset().count(c) > 0);
        assert(cs2.contains(c) <==> cs2.to_multiset().count(c) > 0);
    }
    assert forall|id: Seq<char>| m1.contains_key(id) implies m2.contains_key(id) && m2[id] == m1[id] by {
        let i = choose|i: int|
            0 <= i < cs1.len() && counts(cs1[i], cands) && cs1[i].0 == id && cs1[i].1 == m1[id].0
                && cs1[i].2 == Some(m1[id].1);
        assert(cs1.contains(cs1[i]));
        let j2 = choose|j: int| 0 <= j < cs2.len() && cs2[j] == cs1[i];
        assert(counts(cs2[j2], cands));
        let k = choose|k: int|
            0 <= k < cs2.len() && counts(cs2[k], cands) && cs2[k].0 == id && cs2[k].1 == m2[id].0
                && cs2[k].2 == Some(m2[id].1);
        assert(cs2.contains(cs2[k]));
        let k1 = choose|j: int| 0 <= j < cs1.len() && cs1[j] == cs2[k];
        assert(counts(cs1[k1], cands));
        assert(cs1[i].2 == cs1[k1].2);
    }
    assert forall|id: Seq<char>| m2.contains_key(id) implies m1.contains_key(id) by {
        let k = choose|k: int|
            0 <= k < cs2.len() && counts(cs2[k], cands) && cs2[k].0 == id && cs2[k].1 == m2[id].0
                && cs2[k].2 == Some(m2[id].1);
        assert(cs2.contains(cs2[k]));
        let k1 = choose|j: int| 0 <= j < cs1.len() && cs1[j] == cs2[k];
        assert(counts(cs1[k1], cands));
    }
    assert(m1 =~= m2);
}

} // verus!
