//! One reconciliation run: partitioning the candidates by their verification
//! results and computing what must be republished.
use vstd::prelude::*;
use crate::follow::ids_of;
use crate::verification::{VerificationResult, Verdict};

verus! {

/// One followed identity, with the identifier bound to it, if any.
#[derive(Clone, Debug)]
pub struct ContactRecord {
    pub identity: String,
    pub identifier: Option<String>,
}

/// Identity to bound identifier; `None` is the unresolved partition.
pub type Bindings = Map<Seq<char>, Option<Seq<char>>>;

pub open spec fn binding_view(b: Option<String>) -> Option<Seq<char>> {
    match b {
        Some(s) => Some(s@),
        None => None,
    }
}

/// No identity has two records.
pub open spec fn distinct_records(v: Seq<ContactRecord>) -> bool {
    forall|i: int, j: int|
        0 <= i < j < v.len() ==> (#[trigger] v[i]).identity@ != (#[trigger] v[j]).identity@
}

/// `v` lists exactly the bindings of `m`, one record per identity.
pub open spec fn holds(v: Seq<ContactRecord>, m: Bindings) -> bool {
    &&& distinct_records(v)
    &&& forall|i: int|
        0 <= i < v.len() ==> m.contains_key((#[trigger] v[i]).identity@) && m[v[i].identity@]
            == binding_view(v[i].identifier)
    &&& forall|id: Seq<char>|
        #[trigger] m.contains_key(id) ==> exists|i: int| 0 <= i < v.len() && v[i].identity@ == id
}

/// The bindings that a list of records states.
pub open spec fn records_map(v: Seq<ContactRecord>) -> Bindings {
    Map::new(
        |id: Seq<char>| exists|i: int| 0 <= i < v.len() && v[i].identity@ == id,
        |id: Seq<char>|
            binding_view(v[choose|i: int| 0 <= i < v.len() && v[i].identity@ == id].identifier),
    )
}

pub proof fn lemma_records_map(v: Seq<ContactRecord>)
    requires
        distinct_records(v),
    ensures
        holds(v, records_map(v)),
{
    assert forall|i: int| 0 <= i < v.len() implies records_map(v).contains_key(
        (#[trigger] v[i]).identity@,
    ) && records_map(v)[v[i].identity@] == binding_view(v[i].identifier) by {
        let id = v[i].identity@;
        let c = choose|c: int| 0 <= c < v.len() && v[c].identity@ == id;
        if c < i {
            assert(v[c].identity@ != v[i].identity@);
        }
        if c > i {
            assert(v[i].identity@ != v[c].identity@);
        }
    }
}

/// Bindings at the start of partitioning: every candidate, unresolved.
pub open spec fn unresolved_all(cands: Set<Seq<char>>) -> Bindings {
    Map::new(|id: Seq<char>| cands.contains(id), |id: Seq<char>| None)
}

/// Folds the verification results into the bindings, in order: a confirmed
/// identity is bound to its identifier; on drift the claimed identity is
/// dropped and the identity that the lookup now gives is followed, bound to
/// the identifier; an unresolvable claim leaves its candidate unresolved.
pub open spec fn partitioned(cands: Set<Seq<char>>, vs: Seq<Verdict>) -> Bindings
    decreases vs.len(),
{
    if vs.len() == 0 {
        unresolved_all(cands)
    } else {
        let m = partitioned(cands, vs.drop_last());
        match vs.last() {
            Verdict::Confirmed { identity, identifier } => m.insert(identity, Some(identifier)),
            Verdict::Drifted { identifier, claimed, current } => m.remove(claimed).insert(
                current,
                Some(identifier),
            ),
            Verdict::Unresolvable { .. } => m,
        }
    }
}

/// The records whose binding is new or changed.
pub open spec fn changes(prior: Bindings, next: Bindings) -> Bindings {
    next.restrict(
        Set::new(
            |id: Seq<char>| next.contains_key(id) && !(prior.contains_key(id) && prior[id] == next[id]),
        ),
    )
}

/// The identities no longer followed.
pub open spec fn dropped_ids(prior: Bindings, next: Bindings) -> Set<Seq<char>> {
    prior.dom().difference(next.dom())
}

fn find_record(v: &Vec<ContactRecord>, id: &String) -> (r: Option<usize>)
    ensures
        r matches Some(k) ==> k < v@.len() && v@[k as int].identity@ == id@,
        r is None ==> forall|j: int| 0 <= j < v@.len() ==> (#[trigger] v@[j]).identity@ != id@,
{
    let mut i: usize = 0;
    while i < v.len()
        invariant
            0 <= i <= v@.len(),
            forall|j: int| 0 <= j < i ==> (#[trigger] v@[j]).identity@ != id@,
        decreases v@.len() - i,
    {
        if v[i].identity == *id {
            return Some(i);
        }
        i = i + 1;
    }
    None
}

fn clone_binding(b: &Option<String>) -> (r: Option<String>)
    ensures
        binding_view(r) == binding_view(*b),
{
    match b {
        Some(s) => Some(s.clone()),
        None => None,
    }
}

fn same_binding(a: &Option<String>, b: &Option<String>) -> (r: bool)
    ensures
        r == (binding_view(*a) == binding_view(*b)),
{
    match (a, b) {
        (Some(x), Some(y)) => *x == *y,
        (None, None) => true,
        _ => false,
    }
}

/// Binds `id` to `b`, adding a record if `id` has none.
fn upsert(v: &mut Vec<ContactRecord>, id: &String, b: Option<String>, Ghost(m): Ghost<Bindings>)
    requires
        holds(old(v)@, m),
    ensures
        holds(final(v)@, m.insert(id@, binding_view(b))),
{
    let ghost old_v = v@;
    let ghost bv = binding_view(b);
    let rec = ContactRecord { identity: id.clone(), identifier: b };
    match find_record(v, id) {
        Some(k) => {
            v.set(k, rec);
            assert forall|id2: Seq<char>| #[trigger] m.insert(id@, bv).contains_key(id2) implies exists|i: int|
                0 <= i < v@.len() && v@[i].identity@ == id2 by {
                if id2 != id@ {
                    let j = choose|j: int| 0 <= j < old_v.len() && old_v[j].identity@ == id2;
                    assert(v@[j] == old_v[j]);
                } else {
                    assert(v@[k as int].identity@ == id2);
                }
            }
        },
        None => {
            v.push(rec);
            assert(forall|j: int| 0 <= j < old_v.len() ==> v@[j] == old_v[j]);
            assert forall|id2: Seq<char>| #[trigger] m.insert(id@, bv).contains_key(id2) implies exists|i: int|
                0 <= i < v@.len() && v@[i].identity@ == id2 by {
                if id2 != id@ {
                    let j = choose|j: int| 0 <= j < old_v.len() && old_v[j].identity@ == id2;
                    assert(v@[j] == old_v[j]);
                } else {
                    assert(v@[old_v.len() as int].identity@ == id2);
                }
            }
        },
    }
}

/// Removes the record of `id`, if any.
fn drop_record(v: &mut Vec<ContactRecord>, id: &String, Ghost(m): Ghost<Bindings>)
    requires
        holds(old(v)@, m),
    ensures
        holds(final(v)@, m.remove(id@)),
{
    let ghost old_v = v@;
    match find_record(v, id) {
        Some(k) => {
            v.remove(k);
            assert forall|j: int| 0 <= j < v@.len() implies #[trigger] v@[j] == (if j < k {
                old_v[j]
            } else {
                old_v[j + 1]
            }) by {}
            assert forall|i: int, j: int| 0 <= i < j < v@.len() implies (#[trigger] v@[i]).identity@
                != (#[trigger] v@[j]).identity@ by {
                let oi = if i < k { i } else { i + 1 };
                let oj = if j < k { j } else { j + 1 };
                assert(old_v[oi].identity@ != old_v[oj].identity@);
            }
            assert forall|i: int| 0 <= i < v@.len() implies m.remove(id@).contains_key(
                (#[trigger] v@[i]).identity@,
            ) && m.remove(id@)[v@[i].identity@] == binding_view(v@[i].identifier) by {
                let oi = if i < k { i } else { i + 1 };
                assert(old_v[oi].identity@ != old_v[k as int].identity@);
            }
            assert forall|id2: Seq<char>| #[trigger] m.remove(id@).contains_key(id2) implies exists|i: int|
                0 <= i < v@.len() && v@[i].identity@ == id2 by {
                let j = choose|j: int| 0 <= j < old_v.len() && old_v[j].identity@ == id2;
                assert(j != k);
                if j < k {
                    assert(v@[j] == old_v[j]);
                } else {
                    assert(v@[j - 1] == old_v[j]);
                }
            }
        },
        None => {
            assert(m.remove(id@) =~= m);
        },
    }
}

/// The new contact state: every candidate, unresolved, then each
/// verification result folded in, in order.
pub fn partition(candidates: &Vec<String>, verdicts: &Vec<VerificationResult>) -> (r: Vec<
    ContactRecord,
>)
    ensures
        holds(
            r@,
            partitioned(ids_of(candidates@), verdicts@.map_values(|v: VerificationResult| v@)),
        ),
{
    let ghost cands = ids_of(candidates@);
    let ghost vs = verdicts@.map_values(|v: VerificationResult| v@);
    let mut r: Vec<ContactRecord> = Vec::new();
    let mut i: usize = 0;
    assert(holds(r@, Map::empty()));
    while i < candidates.len()
        invariant
            0 <= i <= candidates@.len(),
            cands == ids_of(candidates@),
            holds(r@, unresolved_all(ids_of(candidates@.subrange(0, i as int)))),
        decreases candidates@.len() - i,
    {
        let ghost m = unresolved_all(ids_of(candidates@.subrange(0, i as int)));
        upsert(&mut r, &candidates[i], None, Ghost(m));
        assert(m.insert(candidates@[i as int]@, None) =~= unresolved_all(
            ids_of(candidates@.subrange(0, i + 1)),
        )) by {
            let a = candidates@.subrange(0, i as int);
            let b = candidates@.subrange(0, i + 1);
            assert(forall|j: int| 0 <= j < i ==> b[j] == a[j]);
            assert(b[i as int] == candidates@[i as int]);
            assert(ids_of(b) =~= ids_of(a).insert(candidates@[i as int]@));
        }
        i = i + 1;
    }
    assert(candidates@.subrange(0, candidates@.len() as int) =~= candidates@);
    assert(partitioned(cands, vs.subrange(0, 0)) == unresolved_all(cands));
    let mut i: usize = 0;
    while i < verdicts.len()
        invariant
            0 <= i <= verdicts@.len(),
            cands == ids_of(candidates@),
            vs == verdicts@.map_values(|v: VerificationResult| v@),
            holds(r@, partitioned(cands, vs.subrange(0, i as int))),
        decreases verdicts@.len() - i,
    {
        let ghost m = partitioned(cands, vs.subrange(0, i as int));
        assert(vs.subrange(0, i + 1).drop_last() =~= vs.subrange(0, i as int));
        assert(vs[i as int] == verdicts@[i as int]@);
        match &verdicts[i] {
            VerificationResult::Confirmed { identity, identifier } => {
                upsert(&mut r, identity, Some(identifier.clone()), Ghost(m));
            },
            VerificationResult::Drifted { identifier, claimed, current } => {
                drop_record(&mut r, claimed, Ghost(m));
                upsert(&mut r, current, Some(identifier.clone()), Ghost(m.remove(claimed@)));
            },
            VerificationResult::Unresolvable { .. } => {},
        }
        i = i + 1;
    }
    assert(vs.subrange(0, verdicts@.len() as int) =~= vs);
    r
}

/// The records of `next` whose binding is new or differs from `prior`.
fn delta_of(
    prior: &Vec<ContactRecord>,
    next: &Vec<ContactRecord>,
    Ghost(pm): Ghost<Bindings>,
    Ghost(nm): Ghost<Bindings>,
) -> (r: Vec<ContactRecord>)
    requires
        holds(prior@, pm),
        holds(next@, nm),
    ensures
        holds(r@, changes(pm, nm)),
{
    let mut r: Vec<ContactRecord> = Vec::new();
    let mut i: usize = 0;
    while i < next.len()
        invariant
            0 <= i <= next@.len(),
            holds(prior@, pm),
            holds(next@, nm),
            holds(
                r@,
                changes(pm, nm).restrict(
                    Set::new(|id: Seq<char>| exists|j: int| 0 <= j < i && next@[j].identity@ == id),
                ),
            ),
        decreases next@.len() - i,
    {
        let ghost cur = changes(pm, nm).restrict(
            Set::new(|id: Seq<char>| exists|j: int| 0 <= j < i && next@[j].identity@ == id),
        );
        let ghost nxt = changes(pm, nm).restrict(
            Set::new(|id: Seq<char>| exists|j: int| 0 <= j < i + 1 && next@[j].identity@ == id),
        );
        let rec = &next[i];
        let ghost id = rec.identity@;
        assert(forall|j: int| 0 <= j < i ==> (#[trigger] next@[j]).identity@ != id);
        let changed = match find_record(prior, &rec.identity) {
            Some(k) => !same_binding(&prior[k].identifier, &rec.identifier),
            None => true,
        };
        if changed {
            upsert(&mut r, &rec.identity, clone_binding(&rec.identifier), Ghost(cur));
            assert(cur.insert(id, binding_view(rec.identifier)) =~= nxt);
        } else {
            assert(cur =~= nxt);
        }
        i = i + 1;
    }
    assert(changes(pm, nm).restrict(
        Set::new(|id: Seq<char>| exists|j: int| 0 <= j < next@.len() && next@[j].identity@ == id),
    ) =~= changes(pm, nm));
    r
}

/// The identities of `prior` that `next` no longer holds.
fn dropped_of(
    prior: &Vec<ContactRecord>,
    next: &Vec<ContactRecord>,
    Ghost(pm): Ghost<Bindings>,
    Ghost(nm): Ghost<Bindings>,
) -> (r: Vec<String>)
    requires
        holds(prior@, pm),
        holds(next@, nm),
    ensures
        ids_of(r@) == dropped_ids(pm, nm),
{
    let mut r: Vec<String> = Vec::new();
    let mut i: usize = 0;
    while i < prior.len()
        invariant
            0 <= i <= prior@.len(),
            holds(prior@, pm),
            holds(next@, nm),
            ids_of(r@) == dropped_ids(pm, nm).intersect(
                Set::new(|id: Seq<char>| exists|j: int| 0 <= j < i && prior@[j].identity@ == id),
            ),
        decreases prior@.len() - i,
    {
        let ghost before = r@;
        let rec = &prior[i];
        let ghost id = rec.identity@;
        let found = find_record(next, &rec.identity);
        if found.is_none() {
            r.push(rec.identity.clone());
        }
        proof {
            let prev_set = Set::new(
                |x: Seq<char>| exists|j: int| 0 <= j < i && prior@[j].identity@ == x,
            );
            let new_set = Set::new(
                |x: Seq<char>| exists|j: int| 0 <= j < i + 1 && prior@[j].identity@ == x,
            );
            assert(new_set =~= prev_set.insert(id)) by {
                assert forall|x: Seq<char>| new_set.contains(x) implies prev_set.contains(x) || x
                    == id by {
                    let j = choose|j: int| 0 <= j < i + 1 && prior@[j].identity@ == x;
                    if j < i {
                        assert(prev_set.contains(x));
                    }
                }
                assert(prior@[i as int].identity@ == id);
            }
            assert(pm.contains_key(id));
            if found is None {
                assert(!nm.contains_key(id)) by {
                    if nm.contains_key(id) {
                        let j = choose|j: int| 0 <= j < next@.len() && next@[j].identity@ == id;
                        assert(next@[j].identity@ != id);
                    }
                }
                assert(forall|j: int| 0 <= j < before.len() ==> r@[j] == before[j]);
                assert(r@[before.len() as int]@ == id);
                assert(ids_of(r@) =~= ids_of(before).insert(id));
            } else {
                assert(nm.contains_key(id));
            }
            assert(ids_of(r@) =~= dropped_ids(pm, nm).intersect(new_set));
        }
        i = i + 1;
    }
    assert(dropped_ids(pm, nm).intersect(
        Set::new(|id: Seq<char>| exists|j: int| 0 <= j < prior@.len() && prior@[j].identity@ == id),
    ) =~= dropped_ids(pm, nm));
    r
}

/// The outcome of one run.
pub struct Reconciliation {
    /// The new contact state.
    pub state: Vec<ContactRecord>,
    /// The records whose binding is new or changed since the run started.
    pub delta: Vec<ContactRecord>,
    /// The identities that the latest follow list no longer holds; they are
    /// dropped from the state (replace-on-fetch).
    pub dropped: Vec<String>,
}

/// Partitions the candidates by their verification results and compares the
/// outcome with the state the run started from.
pub fn reconcile(
    prior: &Vec<ContactRecord>,
    candidates: &Vec<String>,
    verdicts: &Vec<VerificationResult>,
) -> (r: Reconciliation)
    requires
        distinct_records(prior@),
    ensures
        holds(
            r.state@,
            partitioned(ids_of(candidates@), verdicts@.map_values(|v: VerificationResult| v@)),
        ),
        holds(r.delta@, changes(records_map(prior@), records_map(r.state@))),
        ids_of(r.dropped@) == dropped_ids(records_map(prior@), records_map(r.state@)),
{
    let state = partition(candidates, verdicts);
    let ghost nm = partitioned(ids_of(candidates@), verdicts@.map_values(|v: VerificationResult| v@));
    proof {
        lemma_records_map(prior@);
        lemma_holds_unique(state@, nm);
    }
    let delta = delta_of(prior, &state, Ghost(records_map(prior@)), Ghost(nm));
    let dropped = dropped_of(prior, &state, Ghost(records_map(prior@)), Ghost(nm));
    Reconciliation { state, delta, dropped }
}

/// A list of records states one map of bindings.
pub proof fn lemma_holds_unique(v: Seq<ContactRecord>, m1: Bindings)
    requires
        holds(v, m1),
    ensures
        m1 == records_map(v),
{
    lemma_records_map(v);
    let m2 = records_map(v);
    assert forall|id: Seq<char>| m1.contains_key(id) <==> m2.contains_key(id) by {
        if m2.contains_key(id) {
            let i = choose|i: int| 0 <= i < v.len() && v[i].identity@ == id;
            assert(m1.contains_key(v[i].identity@));
        }
    }
    assert forall|id: Seq<char>| m1.contains_key(id) implies m1[id] == m2[id] by {
        let i = choose|i: int| 0 <= i < v.len() && v[i].identity@ == id;
        assert(m1.contains_key(v[i].identity@));
    }
    assert(m1 =~= m2);
}

/// A confirmed identity enters the update delta exactly when its prior
/// binding differed from the confirmed one.
pub proof fn lemma_confirmed_in_delta_iff_changed(
    prior: Bindings,
    cands: Set<Seq<char>>,
    vs: Seq<Verdict>,
    identity: Seq<char>,
    identifier: Seq<char>,
)
    requires
        vs.len() > 0,
        vs.last() == (Verdict::Confirmed { identity, identifier }),
    ensures
        changes(prior, partitioned(cands, vs)).contains_key(identity) <==> !(prior.contains_key(
            identity,
        ) && prior[identity] == Some(identifier)),
{
    let next = partitioned(cands, vs);
    assert(next.contains_key(identity) && next[identity] == Some(identifier));
}

/// A state that is already up to date produces an empty update delta: when
/// the bindings a run arrives at equal those it started from, the delta that
/// `reconcile` returns holds no record.
pub proof fn lemma_up_to_date_no_delta(
    prior: Seq<ContactRecord>,
    next: Bindings,
    delta: Seq<ContactRecord>,
)
    requires
        distinct_records(prior),
        records_map(prior) == next,
        holds(delta, changes(records_map(prior), next)),
    ensures
        delta.len() == 0,
{
    if delta.len() > 0 {
        assert(changes(records_map(prior), next).contains_key(delta[0].identity@));
    }
}

/// The identities to publish as the new follow list, one per record.
pub fn publish_keys(state: &Vec<ContactRecord>) -> (r: Vec<String>)
    ensures
        r@.len() == state@.len(),
        forall|i: int| 0 <= i < r@.len() ==> (#[trigger] r@[i])@ == state@[i].identity@,
{
    let mut r: Vec<String> = Vec::new();
    let mut i: usize = 0;
    while i < state.len()
        invariant
            0 <= i <= state@.len(),
            r@.len() == i,
            forall|j: int| 0 <= j < i ==> (#[trigger] r@[j])@ == state@[j].identity@,
        decreases state@.len() - i,
    {
        r.push(state[i].identity.clone());
        i = i + 1;
    }
    r
}

/// How many results fell into each bucket.
#[derive(Clone, Copy, Debug, PartialEq, Eq)]
pub struct Tally {
    pub confirmed: u64,
    pub drifted: u64,
    pub unresolvable: u64,
}

/// (confirmed, drifted, unresolvable) counts of `vs`.
pub open spec fn tally_of(vs: Seq<Verdict>) -> (nat, nat, nat)
    decreases vs.len(),
{
    if vs.len() == 0 {
        (0, 0, 0)
    } else {
        let t = tally_of(vs.drop_last());
        match vs.last() {
            Verdict::Confirmed { .. } => ((t.0 + 1) as nat, t.1, t.2),
            Verdict::Drifted { .. } => (t.0, (t.1 + 1) as nat, t.2),
            Verdict::Unresolvable { .. } => (t.0, t.1, (t.2 + 1) as nat),
        }
    }
}

pub proof fn lemma_tally_bounded(vs: Seq<Verdict>)
    ensures
        tally_of(vs).0 + tally_of(vs).1 + tally_of(vs).2 == vs.len(),
    decreases vs.len(),
{
    if vs.len() > 0 {
        lemma_tally_bounded(vs.drop_last());
    }
}

/// Counts the results of one run by bucket.
pub fn tally(verdicts: &Vec<VerificationResult>) -> (r: Tally)
    ensures
        (r.confirmed as nat, r.drifted as nat, r.unresolvable as nat) == tally_of(
            verdicts@.map_values(|v: VerificationResult| v@),
        ),
{
    let ghost vs = verdicts@.map_values(|v: VerificationResult| v@);
    let mut t = Tally { confirmed: 0, drifted: 0, unresolvable: 0 };
    let mut i: usize = 0;
    while i < verdicts.len()
        invariant
            0 <= i <= verdicts@.len(),
            vs == verdicts@.map_values(|v: VerificationResult| v@),
            (t.confirmed as nat, t.drifted as nat, t.unresolvable as nat) == tally_of(
                vs.subrange(0, i as int),
            ),
        decreases verdicts@.len() - i,
    {
        proof {
            assert(vs.subrange(0, i + 1).drop_last() =~= vs.subrange(0, i as int));
            assert(vs[i as int] == verdicts@[i as int]@);
            lemma_tally_bounded(vs.subrange(0, i as int));
        }
        match &verdicts[i] {
            VerificationResult::Confirmed { .. } => {
                t.confirmed = t.confirmed + 1;
            },
            VerificationResult::Drifted { .. } => {
                t.drifted = t.drifted + 1;
            },
            VerificationResult::Unresolvable { .. } => {
                t.unresolvable = t.unresolvable + 1;
            },
        }
        i = i + 1;
    }
    assert(vs.subrange(0, verdicts@.len() as int) =~= vs);
    t
}

} // verus!
