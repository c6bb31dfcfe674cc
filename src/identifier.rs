//! Human-readable identifiers of the form `local-part@domain`.
use vstd::prelude::*;
use vstd::string::StrSliceExecFns;
use vstd::string::StringExecFns;

verus! {

/// A character allowed in the local part: `[a-z0-9-_.]`.
pub open spec fn is_local_char(c: char) -> bool {
    ('a' <= c && c <= 'z') || ('0' <= c && c <= '9') || c == '-' || c == '_' || c == '.'
}

/// An ASCII letter or digit.
pub open spec fn is_alnum(c: char) -> bool {
    ('a' <= c && c <= 'z') || ('A' <= c && c <= 'Z') || ('0' <= c && c <= '9')
}

/// A character allowed anywhere in a host name.
pub open spec fn is_host_char(c: char) -> bool {
    is_alnum(c) || c == '-' || c == '.'
}

/// Number of characters since the last dot, counted over `s[0..i]`.
pub open spec fn run_before(s: Seq<char>, i: int) -> nat
    decreases i,
{
    if i <= 0 {
        0
    } else if s[i - 1] == '.' {
        0
    } else {
        run_before(s, i - 1) + 1
    }
}

/// A non-empty local part over `[a-z0-9-_.]`.
pub open spec fn valid_local(s: Seq<char>) -> bool {
    &&& s.len() > 0
    &&& forall|i: int| 0 <= i < s.len() ==> is_local_char(#[trigger] s[i])
}

/// A DNS-style host name: dot-separated labels, each of 1 to 63 letters, digits
/// or hyphens, starting and ending with a letter or digit.
pub open spec fn valid_domain(s: Seq<char>) -> bool {
    &&& s.len() > 0
    &&& forall|i: int| 0 <= i < s.len() ==> is_host_char(#[trigger] s[i])
    &&& is_alnum(s[0])
    &&& is_alnum(s[s.len() - 1])
    &&& forall|i: int|
        0 < i < s.len() - 1 && #[trigger] s[i] == '.' ==> is_alnum(s[i - 1]) && is_alnum(s[i + 1])
    &&& forall|i: int| 0 <= i <= s.len() ==> #[trigger] run_before(s, i) <= 63
}

/// `s` is `local@domain` with both parts valid (the split is unique, since
/// neither part holds an `@`).
pub open spec fn valid_identifier(s: Seq<char>) -> bool {
    exists|k: int|
        0 <= k < s.len() && s[k] == '@' && valid_local(#[trigger] s.subrange(0, k)) && valid_domain(
            s.subrange(k + 1, s.len() as int),
        )
}

/// A parsed `local-part@domain` identifier.
#[derive(Clone, Debug)]
pub struct HumanIdentifier {
    pub local_part: String,
    pub domain: String,
}

impl HumanIdentifier {
    pub open spec fn wf(&self) -> bool {
        valid_local(self.local_part@) && valid_domain(self.domain@)
    }

    /// The identifier written back as `local@domain`.
    pub open spec fn text_view(&self) -> Seq<char> {
        self.local_part@ + seq!['@'] + self.domain@
    }

    pub fn text(&self) -> (r: String)
        ensures
            r@ == self.text_view(),
    {
        let mut r = self.local_part.clone();
        r.append("@");
        proof {
            reveal_strlit("@");
        }
        r.append(self.domain.as_str());
        r
    }
}

/// Why a string is not an identifier.
#[derive(Clone, Copy, Debug, PartialEq, Eq)]
pub enum ParseError {
    Malformed,
}

fn local_char(c: char) -> (r: bool)
    ensures
        r == is_local_char(c),
{
    ('a' <= c && c <= 'z') || ('0' <= c && c <= '9') || c == '-' || c == '_' || c == '.'
}

fn alnum(c: char) -> (r: bool)
    ensures
        r == is_alnum(c),
{
    ('a' <= c && c <= 'z') || ('A' <= c && c <= 'Z') || ('0' <= c && c <= '9')
}

fn host_char(c: char) -> (r: bool)
    ensures
        r == is_host_char(c),
{
    alnum(c) || c == '-' || c == '.'
}

/// Whether `s` is a valid local part.
pub fn is_valid_local(s: &str) -> (r: bool)
    ensures
        r == valid_local(s@),
{
    let n = s.unicode_len();
    if n == 0 {
        return false;
    }
    let mut i: usize = 0;
    while i < n
        invariant
            0 <= i <= n,
            n == s@.len(),
            forall|j: int| 0 <= j < i ==> is_local_char(#[trigger] s@[j]),
        decreases n - i,
    {
        if !local_char(s.get_char(i)) {
            return false;
        }
        i = i + 1;
    }
    true
}

/// Whether `s` is a valid host name.
pub fn is_valid_domain(s: &str) -> (r: bool)
    ensures
        r == valid_domain(s@),
{
    let n = s.unicode_len();
    if n == 0 {
        return false;
    }
    if !alnum(s.get_char(0)) || !alnum(s.get_char(n - 1)) {
        return false;
    }
    let mut run: usize = 0;
    let mut i: usize = 0;
    while i < n
        invariant
            0 <= i <= n,
            n == s@.len(),
            is_alnum(s@[0]),
            is_alnum(s@[n - 1]),
            run == run_before(s@, i as int),
            forall|j: int| 0 <= j < i ==> is_host_char(#[trigger] s@[j]),
            forall|j: int|
                0 < j < n - 1 && j < i && #[trigger] s@[j] == '.' ==> is_alnum(s@[j - 1]) && is_alnum(
                    s@[j + 1],
                ),
            forall|j: int| 0 <= j <= i ==> #[trigger] run_before(s@, j) <= 63,
        decreases n - i,
    {
        let c = s.get_char(i);
        if !host_char(c) {
            return false;
        }
        if c == '.' {
            if !alnum(s.get_char(i - 1)) || !alnum(s.get_char(i + 1)) {
                return false;
            }
            run = 0;
        } else {
            if run == 63 {
                assert(run_before(s@, i + 1) == 64);
                return false;
            }
            run = run + 1;
        }
        i = i + 1;
        assert(run == run_before(s@, i as int));
    }
    true
}

/// Splits `s` at its first `@`, if it has one.
fn first_at(s: &str) -> (r: Option<usize>)
    ensures
        r matches Some(k) ==> k < s@.len() && s@[k as int] == '@' && forall|j: int|
            0 <= j < k ==> s@[j] != '@',
        r is None ==> forall|j: int| 0 <= j < s@.len() ==> s@[j] != '@',
{
    let n = s.unicode_len();
    let mut i: usize = 0;
    while i < n
        invariant
            0 <= i <= n,
            n == s@.len(),
            forall|j: int| 0 <= j < i ==> s@[j] != '@',
        decreases n - i,
    {
        if s.get_char(i) == '@' {
            return Some(i);
        }
        i = i + 1;
    }
    None
}

/// Parses `local-part@domain`, anchored to the whole string.
pub fn parse(s: &str) -> (r: Result<HumanIdentifier, ParseError>)
    ensures
        r is Ok <==> valid_identifier(s@),
        r matches Ok(h) ==> h.wf() && h.text_view() == s@,
        r matches Err(e) ==> e == ParseError::Malformed,
{
    match first_at(s) {
        None => {
            assert(!valid_identifier(s@));
            Err(ParseError::Malformed)
        },
        Some(k) => {
            let n = s.unicode_len();
            let local = s.substring_char(0, k);
            let domain = s.substring_char(k + 1, n);
            if is_valid_local(local) && is_valid_domain(domain) {
                let h = HumanIdentifier {
                    local_part: String::from_str(local),
                    domain: String::from_str(domain),
                };
                assert(h.text_view() =~= s@);
                assert(valid_local(s@.subrange(0, k as int)));
                Ok(h)
            } else {
                proof {
                    if valid_identifier(s@) {
                        let k2 = choose|k2: int|
                            0 <= k2 < s@.len() && s@[k2] == '@' && valid_local(
                                #[trigger] s@.subrange(0, k2),
                            ) && valid_domain(s@.subrange(k2 + 1, s@.len() as int));
                        if k2 > k {
                            assert(s@.subrange(0, k2)[k as int] == '@');
                        }
                    }
                }
                Err(ParseError::Malformed)
            }
        },
    }
}

} // verus!
