//! Checking a claimed identifier against the domain's lookup document.
use vstd::prelude::*;
use vstd::string::StringExecFns;
use crate::identifier::{parse, valid_identifier, HumanIdentifier};

verus! {

/// Why a claim could not be checked.
#[derive(Clone, Copy, Debug, PartialEq, Eq)]
pub enum UnresolvableReason {
    ParseError,
    LookupFailed,
    NotFound,
    Cancelled,
}

/// What the lookup collaborator gave back for one request.
pub enum LookupOutcome {
    /// The body of the well-known document.
    Document(String),
    /// Network error or non-success response.
    Failed,
    /// The run was cancelled before this lookup completed.
    Cancelled,
}

/// The lookup's answer for one local part.
pub enum LookupAnswer {
    Key(String),
    NotFound,
    Failed,
    Cancelled,
}

pub enum Answer {
    Key(Seq<char>),
    NotFound,
    Failed,
    Cancelled,
}

impl View for LookupAnswer {
    type V = Answer;

    open spec fn view(&self) -> Answer {
        match self {
            LookupAnswer::Key(k) => Answer::Key(k@),
            LookupAnswer::NotFound => Answer::NotFound,
            LookupAnswer::Failed => Answer::Failed,
            LookupAnswer::Cancelled => Answer::Cancelled,
        }
    }
}

/// The result of checking one claim.
#[derive(Clone, Debug)]
pub enum VerificationResult {
    /// The lookup binds the identifier to the claimed identity.
    Confirmed { identity: String, identifier: String },
    /// The lookup binds the identifier to `current`, not to `claimed`.
    Drifted { identifier: String, claimed: String, current: String },
    Unresolvable { identifier: String, reason: UnresolvableReason },
}

pub enum Verdict {
    Confirmed { identity: Seq<char>, identifier: Seq<char> },
    Drifted { identifier: Seq<char>, claimed: Seq<char>, current: Seq<char> },
    Unresolvable { identifier: Seq<char>, reason: UnresolvableReason },
}

impl View for VerificationResult {
    type V = Verdict;

    open spec fn view(&self) -> Verdict {
        match self {
            VerificationResult::Confirmed { identity, identifier } => Verdict::Confirmed {
                identity: identity@,
                identifier: identifier@,
            },
            VerificationResult::Drifted { identifier, claimed, current } => Verdict::Drifted {
                identifier: identifier@,
                claimed: claimed@,
                current: current@,
            },
            VerificationResult::Unresolvable { identifier, reason } => Verdict::Unresolvable {
                identifier: identifier@,
                reason: *reason,
            },
        }
    }
}

/// The authoritative lookup wins: the same key confirms, another key is drift.
pub open spec fn decision(identity: Seq<char>, identifier: Seq<char>, a: Answer) -> Verdict {
    match a {
        Answer::Key(k) => if k == identity {
            Verdict::Confirmed { identity, identifier }
        } else {
            Verdict::Drifted { identifier, claimed: identity, current: k }
        },
        Answer::NotFound => Verdict::Unresolvable { identifier, reason: UnresolvableReason::NotFound },
        Answer::Failed => Verdict::Unresolvable {
            identifier,
            reason: UnresolvableReason::LookupFailed,
        },
        Answer::Cancelled => Verdict::Unresolvable {
            identifier,
            reason: UnresolvableReason::Cancelled,
        },
    }
}

/// Decides the result of a claim from the lookup's answer.
pub fn decide(identity: &String, identifier: &String, answer: &LookupAnswer) -> (r: VerificationResult)
    ensures
        r@ == decision(identity@, identifier@, answer@),
{
    match answer {
        LookupAnswer::Key(k) => {
            if *k == *identity {
                VerificationResult::Confirmed { identity: identity.clone(), identifier: identifier.clone() }
            } else {
                VerificationResult::Drifted {
                    identifier: identifier.clone(),
                    claimed: identity.clone(),
                    current: k.clone(),
                }
            }
        },
        LookupAnswer::NotFound => VerificationResult::Unresolvable {
            identifier: identifier.clone(),
            reason: UnresolvableReason::NotFound,
        },
        LookupAnswer::Failed => VerificationResult::Unresolvable {
            identifier: identifier.clone(),
            reason: UnresolvableReason::LookupFailed,
        },
        LookupAnswer::Cancelled => VerificationResult::Unresolvable {
            identifier: identifier.clone(),
            reason: UnresolvableReason::Cancelled,
        },
    }
}

/// The key that a lookup document's `names` object gives a local part.
pub uninterp spec fn names_entry(document: Seq<char>, local_part: Seq<char>) -> Option<Seq<char>>;

/// Relies on serde_json::from_str, Value::get and Value::as_str: the string
/// under `names.<local_part>` in the JSON document; the answer depends on the
/// two texts alone.
#[verifier::external_body]
fn names_entry_of(document: &str, local_part: &str) -> (r: Option<String>)
    ensures
        r matches Some(k) ==> names_entry(document@, local_part@) == Some(k@),
        r is None ==> names_entry(document@, local_part@) is None,
{
    match serde_json::from_str::<serde_json::Value>(document) {
        Ok(v) => match v.get("names") {
            Some(names) => match names.get(local_part) {
                Some(k) => match k.as_str() {
                    Some(k) => Some(k.to_string()),
                    None => None,
                },
                None => None,
            },
            None => None,
        },
        Err(_) => None,
    }
}

pub open spec fn answer_of(outcome: LookupOutcome, local_part: Seq<char>) -> Answer {
    match outcome {
        LookupOutcome::Document(d) => match names_entry(d@, local_part) {
            Some(k) => Answer::Key(k),
            None => Answer::NotFound,
        },
        LookupOutcome::Failed => Answer::Failed,
        LookupOutcome::Cancelled => Answer::Cancelled,
    }
}

/// Reads the lookup's answer for `local_part` out of what the collaborator
/// returned.
pub fn answer_from(outcome: &LookupOutcome, local_part: &String) -> (r: LookupAnswer)
    ensures
        r@ == answer_of(*outcome, local_part@),
{
    match outcome {
        LookupOutcome::Document(d) => match names_entry_of(d.as_str(), local_part.as_str()) {
            Some(k) => LookupAnswer::Key(k),
            None => LookupAnswer::NotFound,
        },
        LookupOutcome::Failed => LookupAnswer::Failed,
        LookupOutcome::Cancelled => LookupAnswer::Cancelled,
    }
}

/// One request to the lookup collaborator.
pub struct LookupRequest {
    pub identifier: HumanIdentifier,
    /// `https://<domain>/.well-known/nostr.json?name=<local-part>`
    pub url: String,
}

pub open spec fn lookup_url(h: HumanIdentifier) -> Seq<char> {
    "https://"@ + h.domain@ + "/.well-known/nostr.json?name="@ + h.local_part@
}

/// The lookup to make for a claim; a malformed identifier gets none.
pub fn lookup_request(claim: &String) -> (r: Option<LookupRequest>)
    ensures
        r is Some <==> valid_identifier(claim@),
        r matches Some(q) ==> q.identifier.wf() && q.identifier.text_view() == claim@ && q.url@
            == lookup_url(q.identifier),
{
    match parse(claim.as_str()) {
        Ok(h) => {
            let mut url = String::from_str("https://");
            url.append(h.domain.as_str());
            url.append("/.well-known/nostr.json?name=");
            url.append(h.local_part.as_str());
            proof {
                reveal_strlit("https://");
                reveal_strlit("/.well-known/nostr.json?name=");
            }
            assert(url@ =~= lookup_url(h));
            Some(LookupRequest { identifier: h, url })
        },
        Err(_) => None,
    }
}

/// The local part of `s` when `s` is a valid identifier.
pub open spec fn local_of(s: Seq<char>) -> Seq<char> {
    s.subrange(0, choose|k: int| 0 <= k < s.len() && s[k] == '@')
}

pub open spec fn verification(identity: Seq<char>, claim: Seq<char>, outcome: LookupOutcome) -> Verdict {
    if valid_identifier(claim) {
        decision(identity, claim, answer_of(outcome, local_of(claim)))
    } else {
        Verdict::Unresolvable { identifier: claim, reason: UnresolvableReason::ParseError }
    }
}

/// Checks the claim that `identity` holds `claim`, given what the lookup
/// returned. A malformed claim is unresolvable whatever the outcome; it is
/// never looked up (see `lookup_request`).
pub fn verify(identity: &String, claim: &String, outcome: &LookupOutcome) -> (r: VerificationResult)
    ensures
        r@ == verification(identity@, claim@, *outcome),
        !valid_identifier(claim@) ==> r@ == (Verdict::Unresolvable {
            identifier: claim@,
            reason: UnresolvableReason::ParseError,
        }),
{
    match parse(claim.as_str()) {
        Ok(h) => {
            proof {
                let k = h.local_part@.len() as int;
                let s = claim@;
                assert(s[k] == '@');
                let c = choose|c: int| 0 <= c < s.len() && s[c] == '@';
                if c < k {
                    assert(s[c] == h.local_part@[c]);
                }
                if c > k {
                    assert(s[c] == h.domain@[c - k - 1]);
                }
                assert(h.local_part@ =~= local_of(s));
            }
            let answer = answer_from(outcome, &h.local_part);
            decide(identity, claim, &answer)
        },
        Err(_) => VerificationResult::Unresolvable {
            identifier: claim.clone(),
            reason: UnresolvableReason::ParseError,
        },
    }
}

} // verus!
