//! The persisted settings: the owner's key, the relays, and the contact state.
use vstd::prelude::*;
use vstd::string::StringExecFns;
use crate::reconcile::{ContactRecord, distinct_records};

verus! {

/// Settings kept between runs.
pub struct Config {
    /// The owner's secret key, hex-encoded.
    pub privkey: String,
    pub relays: Vec<String>,
    pub contact_list: Vec<ContactRecord>,
}

impl Default for Config {
    /// A placeholder key, one well-known relay, and no contacts.
    fn default() -> (r: Self)
        ensures
            r.privkey@ == "YOUR_HEX_ENCODED_PRIVKEY"@,
            r.relays@.len() == 1,
            r.relays@[0]@ == "wss://relay.damus.io"@,
            r.contact_list@.len() == 0,
    {
        let mut relays: Vec<String> = Vec::new();
        relays.push(String::from_str("wss://relay.damus.io"));
        Config {
            privkey: String::from_str("YOUR_HEX_ENCODED_PRIVKEY"),
            relays,
            contact_list: Vec::new(),
        }
    }
}

/// Whether no identity has two records (what `reconcile` asks of the state
/// it starts from).
pub fn has_distinct_identities(v: &Vec<ContactRecord>) -> (r: bool)
    ensures
        r == distinct_records(v@),
{
    let mut i: usize = 0;
    while i < v.len()
        invariant
            0 <= i <= v@.len(),
            forall|a: int, b: int|
                0 <= a < b < v@.len() && a < i ==> (#[trigger] v@[a]).identity@ != (#[trigger] v@[b]).identity@,
        decreases v@.len() - i,
    {
        let mut j: usize = i + 1;
        while j < v.len()
            invariant
                0 <= i < v@.len(),
                i + 1 <= j <= v@.len(),
                forall|a: int, b: int|
                    0 <= a < b < v@.len() && a < i ==> (#[trigger] v@[a]).identity@ != (#[trigger] v@[b]).identity@,
                forall|b: int| i < b < j ==> v@[i as int].identity@ != (#[trigger] v@[b]).identity@,
            decreases v@.len() - j,
        {
            if v[i].identity == v[j].identity {
                return false;
            }
            j = j + 1;
        }
        i = i + 1;
    }
    true
}

} // verus!
