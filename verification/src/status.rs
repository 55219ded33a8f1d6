//! Normalized event severity and the mapping from raw status text.

use vstd::prelude::*;
use vstd::string::{StrSliceExecFns, StringExecFns};

verus! {

/// Severity of an event after normalization.
#[derive(Clone, Copy, PartialEq, Eq, Structural, Debug)]
pub enum Status {
    Okay,
    Warning,
    Error,
}

/// `c` reads as the letter `l` ignoring ASCII case: it is `l` itself, or
/// the upper-case form of a lower-case ASCII letter `l`.
pub open spec fn lowers_to(c: char, l: char) -> bool {
    c == l || ('a' as int <= l as int && l as int <= 'z' as int && c as int == l as int - 32)
}

/// `s` matches the lower-case word `t` ignoring ASCII case.
pub open spec fn matches_ignore_ascii_case(s: Seq<char>, t: Seq<char>) -> bool {
    s.len() == t.len() && forall|i: int| 0 <= i < s.len() ==> lowers_to(#[trigger] s[i], t[i])
}

/// The status a raw status text normalizes to: `error` and `warning` are
/// recognized ignoring ASCII case, anything else counts as `ok`.
pub open spec fn spec_status_of(s: Seq<char>) -> Status {
    if matches_ignore_ascii_case(s, "error"@) {
        Status::Error
    } else if matches_ignore_ascii_case(s, "warning"@) {
        Status::Warning
    } else {
        Status::Okay
    }
}

impl Status {
    /// The wire text of this status.
    pub open spec fn spec_text(self) -> Seq<char> {
        match self {
            Status::Okay => "ok"@,
            Status::Warning => "warning"@,
            Status::Error => "error"@,
        }
    }

    /// The wire text of this status as an owned string.
    pub fn text(&self) -> (r: String)
        ensures
            r@ == self.spec_text(),
    {
        match self {
            Status::Okay => String::from_str("ok"),
            Status::Warning => String::from_str("warning"),
            Status::Error => String::from_str("error"),
        }
    }

    /// Normalize a raw status text to a status.
    pub fn parse(s: &str) -> (r: Status)
        ensures
            r == spec_status_of(s@),
    {
        if str_matches_lower(s, "error") {
            Status::Error
        } else if str_matches_lower(s, "warning") {
            Status::Warning
        } else {
            Status::Okay
        }
    }
}

/// Whether `s` matches the lower-case word `t` ignoring ASCII case.
fn str_matches_lower(s: &str, t: &str) -> (r: bool)
    ensures
        r == matches_ignore_ascii_case(s@, t@),
{
    let n = s.unicode_len();
    if n != t.unicode_len() {
        return false;
    }
    let mut i: usize = 0;
    while i < n
        invariant
            i <= n,
            n == s@.len(),
            n == t@.len(),
            forall|j: int| 0 <= j < i ==> lowers_to(#[trigger] s@[j], t@[j]),
        decreases n - i,
    {
        let c = s.get_char(i);
        let l = t.get_char(i);
        let cu = c as u32;
        let lu = l as u32;
        let matches = c == l || ('a' as u32 <= lu && lu <= 'z' as u32 && cu + 32 == lu);
        if !matches {
            assert(!lowers_to(s@[i as int], t@[i as int]));
            return false;
        }
        i += 1;
    }
    true
}

/// Normalize a raw status text to its wire form: `error` and `warning`
/// ignoring ASCII case, anything else to `ok`.
pub fn status_norm(status: &str) -> (r: String)
    ensures
        r@ == spec_status_of(status@).spec_text(),
{
    Status::parse(status).text()
}

} // verus!
