//! The HTTP surface: response bytes, routing, and the parsing of a
//! request head from the bytes read off the socket.  The socket itself
//! stays with the embedding binary.

use vstd::prelude::*;
use vstd::string::{StrSliceExecFns, StringExecFns};
use vstd::utf8::encode_utf8;

use crate::jsonout::json_quoted;
use crate::jsonout::json_string;
use crate::text::{dec_str, u64_to_dec};

verus! {

/// The header block of a short response: status line, content type and
/// length, no caching, connection closed.
pub open spec fn response_head_text(code: Seq<char>, ctype: Seq<char>, len: nat) -> Seq<char> {
    "HTTP/1.1 "@ + code + "\r\nContent-Type: "@ + ctype + "\r\nContent-Length: "@ + dec_str(len)
        + "\r\nCache-Control: no-cache\r\nConnection: close\r\n\r\n"@
}

fn response_head(code: &str, ctype: &str, len: usize) -> (r: String)
    ensures
        r@ == response_head_text(code@, ctype@, len as nat),
{
    let mut out = String::from_str("HTTP/1.1 ");
    out.append(code);
    out.append("\r\nContent-Type: ");
    out.append(ctype);
    out.append("\r\nContent-Length: ");
    out.append(u64_to_dec(len as u64).as_str());
    out.append("\r\nCache-Control: no-cache\r\nConnection: close\r\n\r\n");
    proof {
        assert(out@ =~= response_head_text(code@, ctype@, len as nat));
    }
    out
}

/// A JSON response: the header block for the body's byte length, then
/// the body, all UTF-8.
pub fn json_response(code: &str, body: &str) -> (r: Vec<u8>)
    ensures
        r@ == encode_utf8(
            response_head_text(
                code@,
                "application/json; charset=utf-8"@,
                (encode_utf8(body@).len() as usize) as nat,
            ) + body@,
        ),
{
    let head = response_head(code, "application/json; charset=utf-8", body.len());
    let full = head.concat(body);
    full.as_str().as_bytes_vec()
}

/// A raw response: the header block for the given content type, then
/// the body bytes unchanged.
#[verifier::loop_isolation(false)]
pub fn bytes_response(code: &str, body: &[u8], content_type: &str) -> (r: Vec<u8>)
    ensures
        r@ == encode_utf8(response_head_text(code@, content_type@, body@.len())) + body@,
{
    let head = response_head(code, content_type, body.len());
    let mut r = head.as_str().as_bytes_vec();
    let ghost head_bytes = r@;
    let mut i: usize = 0;
    while i < body.len()
        invariant
            i <= body@.len(),
            r@ == head_bytes + body@.take(i as int),
        decreases body@.len() - i,
    {
        r.push(body[i]);
        proof {
            assert(r@ =~= head_bytes + body@.take(i as int + 1));
        }
        i += 1;
    }
    proof {
        assert(body@.take(body@.len() as int) =~= body@);
    }
    r
}

/// Whether `s` ends in `suf`.
pub open spec fn spec_ends_with(s: Seq<char>, suf: Seq<char>) -> bool {
    suf.len() <= s.len() && s.skip(s.len() - suf.len()) == suf
}

/// Decide `a@ == b@`.
pub fn str_eq(a: &str, b: &str) -> (r: bool)
    ensures
        r == (a@ == b@),
{
    let sa = a.to_owned();
    let sb = b.to_owned();
    sa == sb
}

/// Decide whether `s` ends in `suf`.
pub fn str_ends_with(s: &str, suf: &str) -> (r: bool)
    ensures
        r == spec_ends_with(s@, suf@),
{
    let n = s.unicode_len();
    let m = suf.unicode_len();
    if m > n {
        return false;
    }
    let tail = s.substring_char(n - m, n);
    str_eq(tail, suf)
}

/// The content type served for a file path, by its extension.
pub open spec fn spec_content_type(p: Seq<char>) -> Seq<char> {
    if spec_ends_with(p, ".html"@) {
        "text/html; charset=utf-8"@
    } else if spec_ends_with(p, ".css"@) {
        "text/css; charset=utf-8"@
    } else if spec_ends_with(p, ".js"@) {
        "application/javascript; charset=utf-8"@
    } else if spec_ends_with(p, ".json"@) {
        "application/json; charset=utf-8"@
    } else {
        "application/octet-stream"@
    }
}

/// The content type served for a file path, by its extension.
pub fn content_type_for(path: &str) -> (r: &'static str)
    ensures
        r@ == spec_content_type(path@),
{
    if str_ends_with(path, ".html") {
        "text/html; charset=utf-8"
    } else if str_ends_with(path, ".css") {
        "text/css; charset=utf-8"
    } else if str_ends_with(path, ".js") {
        "application/javascript; charset=utf-8"
    } else if str_ends_with(path, ".json") {
        "application/json; charset=utf-8"
    } else {
        "application/octet-stream"
    }
}

/// The body of the health endpoint (keys in wire order).
pub open spec fn health_body_text(now: Seq<char>) -> Seq<char> {
    "{\"now\":"@ + json_quoted(now) + ",\"ok\":true}"@
}

pub fn health_body(now: &str) -> (r: String)
    ensures
        r@ == health_body_text(now@),
{
    let mut out = String::from_str("{\"now\":");
    out.append(json_string(now).as_str());
    out.append(",\"ok\":true}");
    proof {
        assert(out@ =~= health_body_text(now@));
    }
    out
}

/// The body acknowledging an accepted push (keys in wire order).
pub open spec fn accepted_body_text(id: Seq<char>) -> Seq<char> {
    "{\"accepted\":true,\"id\":"@ + json_quoted(id) + "}"@
}

pub fn accepted_body(id: &str) -> (r: String)
    ensures
        r@ == accepted_body_text(id@),
{
    let mut out = String::from_str("{\"accepted\":true,\"id\":");
    out.append(json_string(id).as_str());
    out.append("}");
    proof {
        assert(out@ =~= accepted_body_text(id@));
    }
    out
}

/// The body of an error response.
pub open spec fn error_body_text(msg: Seq<char>) -> Seq<char> {
    "{\"error\":"@ + json_quoted(msg) + "}"@
}

pub fn error_body(msg: &str) -> (r: String)
    ensures
        r@ == error_body_text(msg@),
{
    let mut out = String::from_str("{\"error\":");
    out.append(json_string(msg).as_str());
    out.append("}");
    proof {
        assert(out@ =~= error_body_text(msg@));
    }
    out
}

/// The file a static path asks for: the bare root is the index page,
/// anything else stands as it is.
pub fn static_candidate(path: &str) -> (r: String)
    ensures
        r@ == if path@ == "/"@ {
            "/index.html"@
        } else {
            path@
        },
{
    if str_eq(path, "/") {
        String::from_str("/index.html")
    } else {
        path.to_owned()
    }
}

/// Decide whether a pushed request passes the shared-secret check: no
/// configured secret leaves the endpoint open; otherwise the request
/// must carry exactly the secret's bytes.
pub fn api_key_ok(expected: &Option<String>, provided: &Option<Vec<u8>>) -> (r: bool)
    ensures
        r == match *expected {
            None => true,
            Some(e) => match *provided {
                Some(p) => p@ == encode_utf8(e@),
                None => false,
            },
        },
{
    match expected {
        None => true,
        Some(e) => match provided {
            Some(p) => bytes_eq(p.as_slice(), e.as_str().as_bytes()),
            None => false,
        },
    }
}

/// Decide `a@ == b@`.
#[verifier::loop_isolation(false)]
fn bytes_eq(a: &[u8], b: &[u8]) -> (r: bool)
    ensures
        r == (a@ == b@),
{
    if a.len() != b.len() {
        return false;
    }
    let mut i: usize = 0;
    while i < a.len()
        invariant
            i <= a@.len(),
            a@.len() == b@.len(),
            forall|j: int| 0 <= j < i ==> a@[j] == b@[j],
        decreases a@.len() - i,
    {
        if a[i] != b[i] {
            return false;
        }
        i += 1;
    }
    proof {
        assert(a@ =~= b@);
    }
    true
}

/// Where a request goes.
#[derive(Clone, Copy, PartialEq, Eq, Structural, Debug)]
pub enum Route {
    Health,
    EventsGet,
    AlertsGet,
    Stream,
    EventsPost,
    StaticGet,
    NotAllowed,
}

/// The route of a method and query-stripped path: the four API reads and
/// the push endpoint by exact path; any other GET serves a static file;
/// everything else is not allowed.
pub open spec fn spec_route(m: Seq<char>, p: Seq<char>) -> Route {
    if m == "GET"@ {
        if p == "/api/health"@ {
            Route::Health
        } else if p == "/api/events"@ {
            Route::EventsGet
        } else if p == "/api/alerts"@ {
            Route::AlertsGet
        } else if p == "/api/stream"@ {
            Route::Stream
        } else {
            Route::StaticGet
        }
    } else if m == "POST"@ && p == "/api/events"@ {
        Route::EventsPost
    } else {
        Route::NotAllowed
    }
}

pub fn route_of(method: &str, path: &str) -> (r: Route)
    ensures
        r == spec_route(method@, path@),
{
    if str_eq(method, "GET") {
        if str_eq(path, "/api/health") {
            Route::Health
        } else if str_eq(path, "/api/events") {
            Route::EventsGet
        } else if str_eq(path, "/api/alerts") {
            Route::AlertsGet
        } else if str_eq(path, "/api/stream") {
            Route::Stream
        } else {
            Route::StaticGet
        }
    } else if str_eq(method, "POST") && str_eq(path, "/api/events") {
        Route::EventsPost
    } else {
        Route::NotAllowed
    }
}

} // verus!

verus! {

/// A four-byte head terminator stands at `i`.
pub open spec fn sep_at(d: Seq<u8>, i: int) -> bool {
    0 <= i && i + 4 <= d.len() && d[i] == 13 && d[i + 1] == 10 && d[i + 2] == 13 && d[i + 3] == 10
}

/// Index of the first head terminator; `d.len()` when there is none.
pub open spec fn find_sep(d: Seq<u8>) -> int
    decreases d.len(),
{
    if d.len() < 4 {
        d.len() as int
    } else if d[0] == 13 && d[1] == 10 && d[2] == 13 && d[3] == 10 {
        0
    } else {
        1 + find_sep(d.drop_first())
    }
}

proof fn lemma_find_sep_is(d: Seq<u8>, k: int)
    requires
        0 <= k <= d.len(),
        forall|j: int| 0 <= j < k ==> !sep_at(d, j),
        k < d.len() ==> sep_at(d, k),
    ensures
        k + 4 <= d.len() ==> find_sep(d) == k,
        k + 4 > d.len() ==> find_sep(d) >= d.len() - 3,
    decreases d.len(),
{
    if d.len() < 4 {
    } else if d[0] == 13 && d[1] == 10 && d[2] == 13 && d[3] == 10 {
        assert(sep_at(d, 0));
        assert(k == 0);
    } else {
        let t = d.drop_first();
        assert(!sep_at(d, 0));
        assert(forall|j: int| 0 <= j < k - 1 ==> sep_at(t, j) == sep_at(d, j + 1));
        if k == 0 {
            lemma_find_sep_is(t, 0);
        } else {
            lemma_find_sep_is(t, k - 1);
        }
    }
}

/// Index of the first CRLF pair; `s.len()` when there is none.
pub open spec fn find_crlf(s: Seq<u8>) -> int
    decreases s.len(),
{
    if s.len() < 2 {
        s.len() as int
    } else if s[0] == 13 && s[1] == 10 {
        0
    } else {
        1 + find_crlf(s.drop_first())
    }
}

/// A CRLF pair stands at `i`.
pub open spec fn crlf_at(s: Seq<u8>, i: int) -> bool {
    0 <= i && i + 2 <= s.len() && s[i] == 13 && s[i + 1] == 10
}

proof fn lemma_find_crlf_is(s: Seq<u8>, k: int)
    requires
        0 <= k <= s.len(),
        forall|j: int| 0 <= j < k ==> !crlf_at(s, j),
        k < s.len() ==> crlf_at(s, k),
    ensures
        k + 2 <= s.len() ==> find_crlf(s) == k,
        k + 2 > s.len() ==> find_crlf(s) >= s.len() - 1,
    decreases s.len(),
{
    if s.len() < 2 {
    } else if s[0] == 13 && s[1] == 10 {
        assert(crlf_at(s, 0));
        assert(k == 0);
    } else {
        let t = s.drop_first();
        assert(!crlf_at(s, 0));
        assert(forall|j: int| 0 <= j < k - 1 ==> crlf_at(t, j) == crlf_at(s, j + 1));
        if k == 0 {
            lemma_find_crlf_is(t, 0);
        } else {
            lemma_find_crlf_is(t, k - 1);
        }
    }
}

/// Index of the first occurrence of `b`; `s.len()` when absent.
pub open spec fn find_byte(s: Seq<u8>, b: u8) -> int
    decreases s.len(),
{
    if s.len() == 0 {
        0
    } else if s[0] == b {
        0
    } else {
        1 + find_byte(s.drop_first(), b)
    }
}

proof fn lemma_find_byte_is(s: Seq<u8>, b: u8, k: int)
    requires
        0 <= k <= s.len(),
        forall|j: int| 0 <= j < k ==> s[j] != b,
        k < s.len() ==> s[k] == b,
    ensures
        find_byte(s, b) == k,
    decreases s.len(),
{
    if s.len() == 0 {
    } else if s[0] == b {
        assert(k == 0);
    } else {
        let t = s.drop_first();
        assert(forall|j: int| 0 <= j < k - 1 ==> t[j] != b);
        lemma_find_byte_is(t, b, k - 1);
    }
}

/// Every byte of `s` is ASCII.
pub open spec fn all_ascii_b(s: Seq<u8>) -> bool {
    forall|i: int| 0 <= i < s.len() ==> (#[trigger] s[i]) < 128
}

/// The characters the ASCII bytes of `s` decode to.
pub open spec fn chars_of(s: Seq<u8>) -> Seq<char> {
    Seq::new(s.len(), |i: int| s[i] as char)
}

/// The method and query-stripped path of a request line, when it has
/// two ASCII tokens.
pub open spec fn spec_request_line(line: Seq<u8>) -> Option<(Seq<u8>, Seq<u8>)> {
    let sp1 = find_byte(line, 32);
    if sp1 == line.len() {
        None
    } else {
        let rest = line.skip(sp1 + 1);
        let sp2 = find_byte(rest, 32);
        let tok = rest.take(sp2);
        let path = tok.take(find_byte(tok, 63));
        if tok.len() == 0 || !all_ascii_b(line.take(sp1)) || !all_ascii_b(path) {
            None
        } else {
            Some((line.take(sp1), path))
        }
    }
}

/// A horizontal-whitespace byte.
pub open spec fn space_b(b: u8) -> bool {
    b == 32 || b == 9
}

pub open spec fn trim_front_b(s: Seq<u8>) -> Seq<u8>
    decreases s.len(),
{
    if s.len() > 0 && space_b(s[0]) {
        trim_front_b(s.drop_first())
    } else {
        s
    }
}

pub open spec fn trim_back_b(s: Seq<u8>) -> Seq<u8>
    decreases s.len(),
{
    if s.len() > 0 && space_b(s.last()) {
        trim_back_b(s.drop_last())
    } else {
        s
    }
}

/// `s` without leading and trailing spaces and tabs.
pub open spec fn trim_b(s: Seq<u8>) -> Seq<u8> {
    trim_back_b(trim_front_b(s))
}

proof fn lemma_trim_front_is(s: Seq<u8>, a: int)
    requires
        0 <= a <= s.len(),
        forall|j: int| 0 <= j < a ==> space_b(s[j]),
        a < s.len() ==> !space_b(s[a]),
    ensures
        trim_front_b(s) == s.skip(a),
    decreases s.len(),
{
    if s.len() > 0 && space_b(s[0]) {
        assert(a >= 1);
        let t = s.drop_first();
        assert(forall|j: int| 0 <= j < a - 1 ==> space_b(t[j]));
        lemma_trim_front_is(t, a - 1);
        assert(t.skip(a - 1) =~= s.skip(a));
    } else {
        assert(a == 0);
        assert(s.skip(0) =~= s);
    }
}

proof fn lemma_trim_back_is(s: Seq<u8>, b: int)
    requires
        0 <= b <= s.len(),
        forall|j: int| b <= j < s.len() ==> space_b(s[j]),
        b > 0 ==> !space_b(s[b - 1]),
    ensures
        trim_back_b(s) == s.take(b),
    decreases s.len(),
{
    if s.len() > 0 && space_b(s.last()) {
        assert(b < s.len());
        let t = s.drop_last();
        assert(forall|j: int| b <= j < t.len() ==> space_b(t[j]));
        lemma_trim_back_is(t, b);
        assert(t.take(b) =~= s.take(b));
    } else {
        assert(b == s.len());
        assert(s.take(s.len() as int) =~= s);
    }
}

/// ASCII lower case of one byte.
pub open spec fn lower_b(b: u8) -> u8 {
    if 65 <= b && b <= 90 {
        (b + 32) as u8
    } else {
        b
    }
}

/// The characters the lowered bytes of `s` decode to.
pub open spec fn lower_chars_of(s: Seq<u8>) -> Seq<char> {
    Seq::new(s.len(), |i: int| lower_b(s[i]) as char)
}

/// `l` names the header `name` (ASCII case ignored, the name trimmed).
pub open spec fn header_is(l: Seq<u8>, name: Seq<char>) -> bool {
    let c = find_byte(l, 58);
    c < l.len() && lower_chars_of(trim_b(l.take(c))) == name
}

/// The trimmed value of header line `l`.
pub open spec fn header_value_of(l: Seq<u8>) -> Seq<u8> {
    trim_b(l.skip(find_byte(l, 58) + 1))
}

/// The lines of a header region, split on CRLF.
pub open spec fn split_crlf(s: Seq<u8>) -> Seq<Seq<u8>>
    decreases s.len(),
{
    let i = find_crlf(s);
    if i < 0 || i + 2 > s.len() {
        seq![s]
    } else {
        seq![s.take(i)] + split_crlf(s.skip(i + 2))
    }
}

/// The value of the last header line naming `name`, if any.
pub open spec fn header_lookup(lines: Seq<Seq<u8>>, name: Seq<char>) -> Option<Seq<u8>>
    decreases lines.len(),
{
    if lines.len() == 0 {
        None
    } else if header_lookup(lines.drop_first(), name) is Some {
        header_lookup(lines.drop_first(), name)
    } else if header_is(lines[0], name) {
        Some(header_value_of(lines[0]))
    } else {
        None
    }
}

} // verus!

verus! {

proof fn lemma_find_crlf_absent(s: Seq<u8>)
    requires
        forall|j: int| 0 <= j < s.len() ==> !crlf_at(s, j),
    ensures
        find_crlf(s) == s.len(),
    decreases s.len(),
{
    if s.len() >= 2 {
        assert(!crlf_at(s, 0));
        let t = s.drop_first();
        assert(forall|j: int| 0 <= j < t.len() ==> crlf_at(t, j) == crlf_at(s, j + 1));
        lemma_find_crlf_absent(t);
    }
}

proof fn lemma_find_sep_absent(d: Seq<u8>)
    requires
        forall|j: int| 0 <= j < d.len() ==> !sep_at(d, j),
    ensures
        find_sep(d) == d.len(),
    decreases d.len(),
{
    if d.len() >= 4 {
        assert(!sep_at(d, 0));
        let t = d.drop_first();
        assert(forall|j: int| 0 <= j < t.len() ==> sep_at(t, j) == sep_at(d, j + 1));
        lemma_find_sep_absent(t);
    }
}

proof fn lemma_find_crlf_le(s: Seq<u8>)
    ensures
        0 <= find_crlf(s) <= s.len(),
    decreases s.len(),
{
    if s.len() >= 2 && !(s[0] == 13 && s[1] == 10) {
        lemma_find_crlf_le(s.drop_first());
    }
}

proof fn lemma_find_byte_le(s: Seq<u8>, b: u8)
    ensures
        0 <= find_byte(s, b) <= s.len(),
    decreases s.len(),
{
    if s.len() > 0 && s[0] != b {
        lemma_find_byte_le(s.drop_first(), b);
    }
}

/// First CRLF pair in `d[start..end)`, as an absolute index.
#[verifier::loop_isolation(false)]
fn find_crlf_in(d: &Vec<u8>, start: usize, end: usize) -> (r: Option<usize>)
    requires
        start <= end <= d@.len(),
    ensures
        ({
            let region = d@.subrange(start as int, end as int);
            match r {
                Some(k) => start <= k && k + 2 <= end && find_crlf(region) == k - start,
                None => find_crlf(region) == region.len(),
            }
        }),
{
    let ghost region = d@.subrange(start as int, end as int);
    let mut k: usize = start;
    while end - k >= 2
        invariant
            start <= k,
            k <= end,
            forall|j: int| 0 <= j < k - start ==> !crlf_at(region, j),
        decreases end - k,
    {
        if d[k] == 13 && d[k + 1] == 10 {
            proof {
                assert(region[k - start] == 13 && region[k - start + 1] == 10);
                assert(crlf_at(region, k - start));
                lemma_find_crlf_is(region, k - start);
            }
            return Some(k);
        }
        proof {
            assert(!crlf_at(region, k - start));
        }
        k += 1;
    }
    proof {
        assert(forall|j: int| 0 <= j < region.len() ==> !crlf_at(region, j));
        lemma_find_crlf_absent(region);
    }
    None
}

/// First occurrence of `b` in `d[start..end)`, as an absolute index.
#[verifier::loop_isolation(false)]
fn find_byte_in(d: &Vec<u8>, start: usize, end: usize, b: u8) -> (r: Option<usize>)
    requires
        start <= end <= d@.len(),
    ensures
        ({
            let region = d@.subrange(start as int, end as int);
            match r {
                Some(k) => start <= k && k < end && find_byte(region, b) == k - start,
                None => find_byte(region, b) == region.len(),
            }
        }),
{
    let ghost region = d@.subrange(start as int, end as int);
    let mut k: usize = start;
    while k < end
        invariant
            start <= k,
            k <= end,
            forall|j: int| 0 <= j < k - start ==> region[j] != b,
        decreases end - k,
    {
        if d[k] == b {
            proof {
                lemma_find_byte_is(region, b, k - start);
            }
            return Some(k);
        }
        k += 1;
    }
    proof {
        lemma_find_byte_is(region, b, region.len() as int);
    }
    None
}

/// Narrow `[a, b)` to the region its trimmed bytes occupy.
#[verifier::loop_isolation(false)]
fn trim_range(d: &Vec<u8>, a: usize, b: usize) -> (r: (usize, usize))
    requires
        a <= b <= d@.len(),
    ensures
        a <= r.0 <= r.1 <= b,
        trim_b(d@.subrange(a as int, b as int)) == d@.subrange(r.0 as int, r.1 as int),
{
    let ghost s = d@.subrange(a as int, b as int);
    let mut x: usize = a;
    while x < b && (d[x] == 32 || d[x] == 9)
        invariant
            a <= x <= b,
            forall|j: int| 0 <= j < x - a ==> space_b(s[j]),
        decreases b - x,
    {
        x += 1;
    }
    proof {
        lemma_trim_front_is(s, x - a);
    }
    let mut y: usize = b;
    while y > x && (d[y - 1] == 32 || d[y - 1] == 9)
        invariant
            x <= y <= b,
            forall|j: int| y - a <= j < b - a ==> space_b(s[j]),
        decreases y,
    {
        y -= 1;
    }
    proof {
        let f = s.skip(x - a);
        assert(trim_front_b(s) == f);
        assert(forall|j: int| y - x <= j < f.len() ==> space_b(f[j]));
        if y > x {
            assert(!space_b(f[y - x - 1]));
        }
        lemma_trim_back_is(f, y - x);
        assert(f.take(y - x) =~= d@.subrange(x as int, y as int));
    }
    (x, y)
}

/// Whether the lowered bytes of `d[a..b)` read as `name`.
#[verifier::loop_isolation(false)]
fn lower_eq_name(d: &Vec<u8>, a: usize, b: usize, name: &str) -> (r: bool)
    requires
        a <= b <= d@.len(),
    ensures
        r == (lower_chars_of(d@.subrange(a as int, b as int)) == name@),
{
    let ghost s = d@.subrange(a as int, b as int);
    let m = name.unicode_len();
    if b - a != m {
        proof {
            assert(lower_chars_of(s).len() != name@.len());
        }
        return false;
    }
    let mut i: usize = 0;
    while i < m
        invariant
            i <= m,
            m == b - a,
            m == name@.len(),
            forall|j: int| 0 <= j < i ==> lower_chars_of(s)[j] == name@[j],
        decreases m - i,
    {
        let x = d[a + i];
        let lx: u8 = if 65 <= x && x <= 90 {
            x + 32
        } else {
            x
        };
        let c = name.get_char(i);
        if (lx as char) != c {
            proof {
                assert(lower_chars_of(s)[i as int] == lower_b(s[i as int]) as char);
                assert(s[i as int] == x);
                assert(lower_chars_of(s)[i as int] != name@[i as int]);
            }
            return false;
        }
        i += 1;
    }
    proof {
        assert(lower_chars_of(s) =~= name@);
    }
    true
}

/// Copy `d[a..b)` out.
#[verifier::loop_isolation(false)]
fn copy_range(d: &Vec<u8>, a: usize, b: usize) -> (r: Vec<u8>)
    requires
        a <= b <= d@.len(),
    ensures
        r@ == d@.subrange(a as int, b as int),
{
    let mut out: Vec<u8> = Vec::new();
    let mut i: usize = a;
    while i < b
        invariant
            a <= i <= b,
            out@ == d@.subrange(a as int, i as int),
        decreases b - i,
    {
        out.push(d[i]);
        proof {
            assert(out@ =~= d@.subrange(a as int, i as int + 1));
        }
        i += 1;
    }
    out
}

/// The trimmed value of the header line `d[a..b)` when it names `name`.
fn header_line_value(d: &Vec<u8>, a: usize, b: usize, name: &str) -> (r: Option<Vec<u8>>)
    requires
        a <= b <= d@.len(),
    ensures
        ({
            let l = d@.subrange(a as int, b as int);
            if header_is(l, name@) {
                r matches Some(v) && v@ == header_value_of(l)
            } else {
                r is None
            }
        }),
{
    let ghost l = d@.subrange(a as int, b as int);
    let c = match find_byte_in(d, a, b, 58) {
        Some(c) => c,
        None => {
            proof {
                assert(!header_is(l, name@));
            }
            return None;
        },
    };
    let (na, nb) = trim_range(d, a, c);
    proof {
        assert(l.take(c - a) =~= d@.subrange(a as int, c as int));
    }
    if !lower_eq_name(d, na, nb, name) {
        return None;
    }
    let (va, vb) = trim_range(d, c + 1, b);
    proof {
        assert(l.skip(find_byte(l, 58) + 1) =~= d@.subrange(c as int + 1, b as int));
    }
    Some(copy_range(d, va, vb))
}

proof fn lemma_lookup_single(l: Seq<u8>, name: Seq<char>)
    ensures
        header_lookup(seq![l], name) == if header_is(l, name) {
            Some(header_value_of(l))
        } else {
            None::<Seq<u8>>
        },
{
    assert(header_lookup(Seq::<Seq<u8>>::empty(), name) is None);
    assert(seq![l].drop_first() =~= Seq::<Seq<u8>>::empty());
    assert(seq![l][0] == l);
}

proof fn lemma_lookup_cons(l: Seq<u8>, rest: Seq<Seq<u8>>, name: Seq<char>)
    ensures
        header_lookup(seq![l] + rest, name) == if header_lookup(rest, name) is Some {
            header_lookup(rest, name)
        } else if header_is(l, name) {
            Some(header_value_of(l))
        } else {
            None::<Seq<u8>>
        },
{
    let lines = seq![l] + rest;
    assert(lines.len() == rest.len() + 1);
    assert(lines[0] == l);
    assert(lines.drop_first() =~= rest);
}

/// `r` carries exactly the bytes `s` names.
pub open spec fn opt_bytes_match(r: Option<Vec<u8>>, s: Option<Seq<u8>>) -> bool {
    match r {
        Some(v) => s == Some(v@),
        None => s is None,
    }
}

/// The last values of the three recognized headers in `d[start..end)`.
#[verifier::loop_isolation(false)]
fn scan_headers(d: &Vec<u8>, start: usize, end: usize) -> (r: (
    Option<Vec<u8>>,
    Option<Vec<u8>>,
    Option<Vec<u8>>,
))
    requires
        start <= end <= d@.len(),
    ensures
        ({
            let lines = split_crlf(d@.subrange(start as int, end as int));
            &&& opt_bytes_match(r.0, header_lookup(lines, "content-length"@))
            &&& opt_bytes_match(r.1, header_lookup(lines, "transfer-encoding"@))
            &&& opt_bytes_match(r.2, header_lookup(lines, "x-api-key"@))
        }),
{
    let ghost whole = split_crlf(d@.subrange(start as int, end as int));
    let mut cl: Option<Vec<u8>> = None;
    let mut te: Option<Vec<u8>> = None;
    let mut key: Option<Vec<u8>> = None;
    let mut pos: usize = start;
    // walk the lines front to back; a later line naming the same header
    // overrides an earlier one, so the remaining region always decides
    // first and the running values stand in only when it is silent
    loop
        invariant
            start <= pos <= end,
            end <= d@.len(),
            ({
                let rest = split_crlf(d@.subrange(pos as int, end as int));
                &&& resolves(whole, rest, cl, "content-length"@)
                &&& resolves(whole, rest, te, "transfer-encoding"@)
                &&& resolves(whole, rest, key, "x-api-key"@)
            }),
        decreases end - pos,
    {
        let ghost rest = split_crlf(d@.subrange(pos as int, end as int));
        match find_crlf_in(d, pos, end) {
            Some(k) => {
                let ghost line = d@.subrange(pos as int, k as int);
                let ghost tail = split_crlf(d@.subrange(k as int + 2, end as int));
                proof {
                    lemma_find_crlf_le(d@.subrange(pos as int, end as int));
                    assert(d@.subrange(pos as int, end as int).take(k - pos) =~= line);
                    assert(d@.subrange(pos as int, end as int).skip(k - pos + 2) =~= d@.subrange(
                        k as int + 2,
                        end as int,
                    ));
                    assert(rest == seq![line] + tail);
                    lemma_lookup_cons(line, tail, "content-length"@);
                    lemma_lookup_cons(line, tail, "transfer-encoding"@);
                    lemma_lookup_cons(line, tail, "x-api-key"@);
                }
                match header_line_value(d, pos, k, "content-length") {
                    Some(v) => {
                        cl = Some(v);
                    },
                    None => {},
                }
                match header_line_value(d, pos, k, "transfer-encoding") {
                    Some(v) => {
                        te = Some(v);
                    },
                    None => {},
                }
                match header_line_value(d, pos, k, "x-api-key") {
                    Some(v) => {
                        key = Some(v);
                    },
                    None => {},
                }
                pos = k + 2;
            },
            None => {
                // the final line, without a terminator
                let ghost line = d@.subrange(pos as int, end as int);
                proof {
                    assert(rest =~= seq![line]);
                    lemma_lookup_single(line, "content-length"@);
                    lemma_lookup_single(line, "transfer-encoding"@);
                    lemma_lookup_single(line, "x-api-key"@);
                }
                match header_line_value(d, pos, end, "content-length") {
                    Some(v) => {
                        cl = Some(v);
                    },
                    None => {},
                }
                match header_line_value(d, pos, end, "transfer-encoding") {
                    Some(v) => {
                        te = Some(v);
                    },
                    None => {},
                }
                match header_line_value(d, pos, end, "x-api-key") {
                    Some(v) => {
                        key = Some(v);
                    },
                    None => {},
                }
                proof {
                    let empty_rest = Seq::<Seq<u8>>::empty();
                    assert(header_lookup(empty_rest, "content-length"@) is None);
                    assert(header_lookup(empty_rest, "transfer-encoding"@) is None);
                    assert(header_lookup(empty_rest, "x-api-key"@) is None);
                }
                return (cl, te, key);
            },
        }
    }
}

/// The running value `cur` agrees with the whole head: the still
/// unprocessed lines decide first, `cur` stands in when they are silent.
pub open spec fn resolves(
    whole: Seq<Seq<u8>>,
    rest: Seq<Seq<u8>>,
    cur: Option<Vec<u8>>,
    name: Seq<char>,
) -> bool {
    header_lookup(whole, name) == match header_lookup(rest, name) {
        Some(v) => Some(v),
        None => match cur {
            Some(c) => Some(c@),
            None => None,
        },
    }
}

/// Digit bytes only.
pub open spec fn all_digits_b(s: Seq<u8>) -> bool {
    forall|i: int| 0 <= i < s.len() ==> 48 <= #[trigger] s[i] <= 57
}

/// Value of a digit-byte string.
pub open spec fn dec_val_b(s: Seq<u8>) -> int
    decreases s.len(),
{
    if s.len() == 0 {
        0
    } else {
        dec_val_b(s.drop_last()) * 10 + (s.last() - 48)
    }
}

proof fn lemma_dec_val_b_bound(s: Seq<u8>)
    requires
        all_digits_b(s),
    ensures
        0 <= dec_val_b(s) < crate::text::pow10(s.len()),
    decreases s.len(),
{
    if s.len() > 0 {
        assert(forall|i: int|
            0 <= i < s.drop_last().len() ==> 48 <= #[trigger] s.drop_last()[i] <= 57);
        lemma_dec_val_b_bound(s.drop_last());
    }
}

/// The content length a header value carries: its decimal value, or 0
/// when it is empty, not all digits, or out of the machine's range.
pub open spec fn spec_cl_val(v: Seq<u8>) -> int {
    if v.len() == 0 || !all_digits_b(v) || v.len() > 19 || dec_val_b(v) > usize::MAX {
        0
    } else {
        dec_val_b(v)
    }
}

/// Parse a content-length value.
#[verifier::loop_isolation(false)]
fn parse_cl(v: &Vec<u8>) -> (r: usize)
    ensures
        r == spec_cl_val(v@),
{
    let n = v.len();
    if n == 0 || n > 19 {
        return 0;
    }
    let mut acc: u64 = 0;
    let mut i: usize = 0;
    while i < n
        invariant
            i <= n,
            n == v@.len(),
            n <= 19,
            forall|j: int| 0 <= j < i ==> 48 <= #[trigger] v@[j] <= 57,
            acc as int == dec_val_b(v@.take(i as int)),
        decreases n - i,
    {
        let b = v[i];
        if !(48 <= b && b <= 57) {
            return 0;
        }
        proof {
            assert(v@.take(i as int + 1).drop_last() =~= v@.take(i as int));
            assert(v@.take(i as int + 1).last() == v@[i as int]);
            assert(forall|j: int|
                0 <= j < i ==> 48 <= #[trigger] v@.take(i as int)[j] <= 57);
            lemma_dec_val_b_bound(v@.take(i as int));
            assert(crate::text::pow10(18) == 1000000000000000000) by {
                reveal_with_fuel(crate::text::pow10, 19);
            }
            crate::text::lemma_pow10_le(i as nat, 18);
        }
        acc = acc * 10 + ((b - 48) as u64);
        i += 1;
    }
    proof {
        assert(v@.take(n as int) =~= v@);
    }
    if acc > usize::MAX as u64 {
        0
    } else {
        acc as usize
    }
}

/// The header lines of a request: everything between the request line
/// and the blank line, split on CRLF.
pub open spec fn spec_head_lines(d: Seq<u8>) -> Seq<Seq<u8>> {
    let head = d.take(find_sep(d));
    let le = find_crlf(head);
    if le + 2 <= head.len() {
        split_crlf(head.skip(le + 2))
    } else {
        Seq::empty()
    }
}

/// The request's content length: the last `Content-Length` header's
/// value, 0 when there is none.
pub open spec fn spec_content_length(d: Seq<u8>) -> int {
    match header_lookup(spec_head_lines(d), "content-length"@) {
        Some(v) => spec_cl_val(v),
        None => 0,
    }
}

/// Some comma-separated member of a Transfer-Encoding value reads
/// `chunked`, ignoring ASCII case and padding.
pub open spec fn spec_te_chunked(s: Seq<u8>) -> bool
    decreases s.len(),
{
    let i = find_byte(s, 44);
    if i < 0 || i >= s.len() {
        lower_chars_of(trim_b(s)) == "chunked"@
    } else {
        lower_chars_of(trim_b(s.take(i))) == "chunked"@ || spec_te_chunked(s.skip(i + 1))
    }
}

/// Decide `spec_te_chunked(v@)`.
#[verifier::loop_isolation(false)]
fn te_value_chunked(v: &Vec<u8>) -> (r: bool)
    ensures
        r == spec_te_chunked(v@),
{
    let n = v.len();
    let mut pos: usize = 0;
    proof {
        assert(v@.subrange(0, n as int) =~= v@);
    }
    loop
        invariant
            pos <= n,
            n == v@.len(),
            spec_te_chunked(v@) == spec_te_chunked(v@.subrange(pos as int, n as int)),
        decreases n - pos,
    {
        let ghost region = v@.subrange(pos as int, n as int);
        match find_byte_in(v, pos, n, 44) {
            Some(c) => {
                proof {
                    lemma_find_byte_le(region, 44);
                    assert(region.take(c - pos) =~= v@.subrange(pos as int, c as int));
                    assert(region.skip(c - pos + 1) =~= v@.subrange(c as int + 1, n as int));
                }
                let (a, b) = trim_range(v, pos, c);
                if lower_eq_name(v, a, b, "chunked") {
                    proof {
                        assert(trim_b(region.take(c - pos)) == v@.subrange(a as int, b as int));
                        assert(spec_te_chunked(region));
                    }
                    return true;
                }
                proof {
                    assert(trim_b(region.take(c - pos)) == v@.subrange(a as int, b as int));
                    assert(spec_te_chunked(region) == spec_te_chunked(
                        v@.subrange(c as int + 1, n as int),
                    ));
                }
                pos = c + 1;
            },
            None => {
                let (a, b) = trim_range(v, pos, n);
                let m = lower_eq_name(v, a, b, "chunked");
                proof {
                    assert(trim_b(region) == v@.subrange(a as int, b as int));
                    assert(spec_te_chunked(region) == (lower_chars_of(
                        v@.subrange(a as int, b as int),
                    ) == "chunked"@));
                }
                return m;
            },
        }
    }
}

/// The request declares a chunked transfer encoding: some member of the
/// Transfer-Encoding list reads `chunked`.
pub open spec fn spec_chunked(d: Seq<u8>) -> bool {
    match header_lookup(spec_head_lines(d), "transfer-encoding"@) {
        Some(v) => spec_te_chunked(v),
        None => false,
    }
}

/// The request line of `d`: the bytes before the first CRLF of the head.
pub open spec fn spec_line_of(d: Seq<u8>) -> Seq<u8> {
    let head = d.take(find_sep(d));
    head.take(find_crlf(head))
}

/// A parsed request head.
pub struct RequestHead {
    pub method: String,
    /// The path with any query string stripped.
    pub path: String,
    pub content_length: usize,
    /// The raw value of the `X-Api-Key` header, when present.
    pub api_key: Option<Vec<u8>>,
    /// Index of the first body byte in the read buffer.
    pub body_start: usize,
}

/// Relies on String::from_utf8_lossy: ASCII bytes decode to themselves.
#[verifier::external_body]
fn ascii_to_string(v: &Vec<u8>) -> (r: String)
    requires
        all_ascii_b(v@),
    ensures
        r@ == chars_of(v@),
{
    String::from_utf8_lossy(v.as_slice()).into_owned()
}

/// Parse the head of a request from the bytes read so far.  `None` for
/// a buffer without the blank line, a request line without two ASCII
/// tokens, a chunked transfer encoding, or a declared body over the
/// 1 MiB cap; otherwise the method, the query-stripped path, the body
/// bounds and the pushed key.
#[verifier::rlimit(30)]
#[verifier::loop_isolation(false)]
pub fn parse_request_head(data: &Vec<u8>) -> (r: Option<RequestHead>)
    ensures
        ({
            let d = data@;
            match r {
                Some(h) => {
                    &&& find_sep(d) + 4 <= d.len()
                    &&& h.body_start == find_sep(d) + 4
                    &&& spec_request_line(spec_line_of(d)) matches Some((m, p))
                        && h.method@ == chars_of(m) && h.path@ == chars_of(p)
                    &&& h.content_length == spec_content_length(d)
                    &&& h.content_length <= 1048576
                    &&& !spec_chunked(d)
                    &&& opt_bytes_match(
                        h.api_key,
                        header_lookup(spec_head_lines(d), "x-api-key"@),
                    )
                },
                None => find_sep(d) + 4 > d.len() || spec_request_line(spec_line_of(d)) is None
                    || spec_chunked(d) || spec_content_length(d) > 1048576,
            }
        }),
{
    let n = data.len();
    // the blank line ending the head
    let mut sep: usize = 0;
    let mut found = false;
    while !found && n - sep >= 4
        invariant
            sep <= n,
            n == data@.len(),
            forall|j: int| 0 <= j < sep ==> !sep_at(data@, j),
            found ==> sep_at(data@, sep as int),
        decreases n - sep, (if found { 0int } else { 1int }),
    {
        if data[sep] == 13 && data[sep + 1] == 10 && data[sep + 2] == 13 && data[sep + 3] == 10 {
            found = true;
        } else {
            proof {
                assert(!sep_at(data@, sep as int));
            }
            sep += 1;
        }
    }
    if !found {
        proof {
            assert(forall|j: int| 0 <= j < data@.len() ==> !sep_at(data@, j));
            lemma_find_sep_absent(data@);
        }
        return None;
    }
    proof {
        lemma_find_sep_is(data@, sep as int);
    }
    let ghost head = data@.take(sep as int);

    // the request line
    let line_end = match find_crlf_in(data, 0, sep) {
        Some(k) => k,
        None => sep,
    };
    proof {
        assert(data@.subrange(0, sep as int) =~= head);
        lemma_find_crlf_le(head);
        assert(head.take(find_crlf(head)) =~= data@.subrange(0, line_end as int));
    }
    let ghost line = spec_line_of(data@);
    let sp1 = match find_byte_in(data, 0, line_end, 32) {
        Some(k) => k,
        None => {
            proof {
                assert(line =~= data@.subrange(0, line_end as int));
                assert(find_byte(line, 32) == line.len());
                assert(spec_request_line(line) is None);
            }
            return None;
        },
    };
    proof {
        assert(line =~= data@.subrange(0, line_end as int));
        assert(line.skip(sp1 as int + 1) =~= data@.subrange(sp1 as int + 1, line_end as int));
    }
    let ghost rest = line.skip(sp1 as int + 1);
    let sp2 = match find_byte_in(data, sp1 + 1, line_end, 32) {
        Some(k) => k,
        None => line_end,
    };
    proof {
        lemma_find_byte_le(rest, 32);
        assert(rest.take(find_byte(rest, 32)) =~= data@.subrange(sp1 as int + 1, sp2 as int));
    }
    let ghost tok = rest.take(find_byte(rest, 32));
    if sp2 == sp1 + 1 {
        // an empty path token
        proof {
            assert(tok.len() == 0);
            assert(spec_request_line(line) is None);
        }
        return None;
    }
    let qpos = match find_byte_in(data, sp1 + 1, sp2, 63) {
        Some(k) => k,
        None => sp2,
    };
    proof {
        lemma_find_byte_le(tok, 63);
        assert(tok.take(find_byte(tok, 63)) =~= data@.subrange(sp1 as int + 1, qpos as int));
    }
    let ghost path_b = tok.take(find_byte(tok, 63));

    // both tokens must be ASCII
    let method_bytes = copy_range(data, 0, sp1);
    let path_bytes = copy_range(data, sp1 + 1, qpos);
    let mut i: usize = 0;
    while i < method_bytes.len()
        invariant
            i <= method_bytes@.len(),
            forall|j: int| 0 <= j < i ==> (#[trigger] method_bytes@[j]) < 128,
        decreases method_bytes@.len() - i,
    {
        if method_bytes[i] >= 128 {
            proof {
                assert(method_bytes@ =~= line.take(find_byte(line, 32)));
                assert(!all_ascii_b(line.take(find_byte(line, 32))));
                assert(spec_request_line(line) is None);
            }
            return None;
        }
        i += 1;
    }
    let mut i: usize = 0;
    while i < path_bytes.len()
        invariant
            i <= path_bytes@.len(),
            forall|j: int| 0 <= j < i ==> (#[trigger] path_bytes@[j]) < 128,
        decreases path_bytes@.len() - i,
    {
        if path_bytes[i] >= 128 {
            proof {
                assert(path_bytes@ =~= tok.take(find_byte(tok, 63)));
                assert(!all_ascii_b(tok.take(find_byte(tok, 63))));
                assert(spec_request_line(line) is None);
            }
            return None;
        }
        i += 1;
    }
    let method = ascii_to_string(&method_bytes);
    let path = ascii_to_string(&path_bytes);

    // header fields
    let headers_start = if line_end + 2 <= sep {
        line_end + 2
    } else {
        sep
    };
    let (cl_v, te_v, key) = scan_headers(data, headers_start, sep);
    proof {
        if find_crlf(head) + 2 <= head.len() {
            assert(head.skip(find_crlf(head) + 2) =~= data@.subrange(
                headers_start as int,
                sep as int,
            ));
        } else {
            assert(headers_start == sep);
            assert(data@.subrange(sep as int, sep as int) =~= Seq::<u8>::empty());
        }
    }
    proof {
        if find_crlf(head) + 2 <= head.len() {
            assert(spec_head_lines(data@) == split_crlf(
                data@.subrange(headers_start as int, sep as int),
            ));
        } else {
            // the scan ran on an empty region whose single empty line
            // matches nothing
            let empty_region = data@.subrange(sep as int, sep as int);
            assert(empty_region =~= Seq::<u8>::empty());
            assert(find_crlf(empty_region) == 0);
            assert(split_crlf(empty_region) =~= seq![empty_region]);
            lemma_lookup_single(empty_region, "content-length"@);
            lemma_lookup_single(empty_region, "transfer-encoding"@);
            lemma_lookup_single(empty_region, "x-api-key"@);
            assert(find_byte(empty_region, 58) == 0);
            assert(!header_is(empty_region, "content-length"@));
            assert(!header_is(empty_region, "transfer-encoding"@));
            assert(!header_is(empty_region, "x-api-key"@));
            assert(spec_head_lines(data@) =~= Seq::<Seq<u8>>::empty());
            assert(header_lookup(spec_head_lines(data@), "content-length"@) is None);
            assert(header_lookup(spec_head_lines(data@), "transfer-encoding"@) is None);
            assert(header_lookup(spec_head_lines(data@), "x-api-key"@) is None);
        }
    }
    let chunked = match &te_v {
        Some(v) => te_value_chunked(v),
        None => false,
    };
    if chunked {
        return None;
    }
    let content_length = match &cl_v {
        Some(v) => parse_cl(v),
        None => 0,
    };
    if content_length > 1048576 {
        return None;
    }
    proof {
        assert(spec_request_line(line) == Some((line.take(sp1 as int), path_b)));
        assert(data@.subrange(0, sp1 as int) =~= line.take(sp1 as int));
        assert(method_bytes@ =~= line.take(sp1 as int));
        assert(path_bytes@ =~= path_b);
        assert(method@ == chars_of(line.take(sp1 as int)));
        assert(path@ == chars_of(path_b));
    }
    Some(
        RequestHead {
            method,
            path,
            content_length,
            api_key: key,
            body_start: sep + 4,
        },
    )
}

} // verus!
