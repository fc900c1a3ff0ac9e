//! The per-connection protocol logic, on raw bytes: pick the requested file
//! name out of the request line, refuse names that reach outside the served
//! tree, derive the on-disk lookup key, and assemble the response buffer.
//! Reading the request and the file, and writing the response back, stay with
//! the caller.

use vstd::prelude::*;

use crate::logline::{dec_bytes, dec_spec};

verus! {

/// ASCII whitespace, the separators of the request line's fields.
pub open spec fn is_ws(b: u8) -> bool {
    b == 32 || b == 9 || b == 10 || b == 11 || b == 12 || b == 13
}

/// A byte that ends the file-name part of the request target: a fragment or
/// query delimiter.
pub open spec fn is_stop(b: u8) -> bool {
    b == 35 || b == 63
}

/// The first whitespace position at or after `i`, or the end.
pub open spec fn find_ws(s: Seq<u8>, i: int) -> int
    decreases s.len() - i when i <= s.len()
{
    if i < 0 || i >= s.len() {
        s.len() as int
    } else if is_ws(s[i]) {
        i
    } else {
        find_ws(s, i + 1)
    }
}

/// The first non-whitespace position at or after `i`, or the end.
pub open spec fn find_non_ws(s: Seq<u8>, i: int) -> int
    decreases s.len() - i when i <= s.len()
{
    if i < 0 || i >= s.len() {
        s.len() as int
    } else if !is_ws(s[i]) {
        i
    } else {
        find_non_ws(s, i + 1)
    }
}

/// The first fragment or query delimiter in `[i, end)`, or `end`.
pub open spec fn find_stop(s: Seq<u8>, i: int, end: int) -> int
    decreases end - i when i <= end
{
    if i < 0 || i >= end || i >= s.len() {
        end
    } else if is_stop(s[i]) {
        i
    } else {
        find_stop(s, i + 1, end)
    }
}

/// Whether the request opens with the method `GET`.
pub open spec fn is_get(s: Seq<u8>) -> bool {
    s.len() >= 3 && s[0] == 71 && s[1] == 69 && s[2] == 84
}

/// The requested name: the request line's second whitespace-separated field,
/// cut short at the first fragment or query delimiter.
pub open spec fn requested_name(s: Seq<u8>) -> Seq<u8> {
    let e1 = find_ws(s, 0);
    let s2 = find_non_ws(s, e1);
    let e2 = find_ws(s, s2);
    s.subrange(s2, find_stop(s, s2, e2))
}

/// `404.html`, the page served for anything that cannot be resolved.
pub open spec fn not_found_file_spec() -> Seq<u8> {
    seq![52u8, 48u8, 52u8, 46u8, 104u8, 116u8, 109u8, 108u8]
}

/// `index.html`, the page behind the bare `/` target.
pub open spec fn index_file_spec() -> Seq<u8> {
    seq![105u8, 110u8, 100u8, 101u8, 120u8, 46u8, 104u8, 116u8, 109u8, 108u8]
}

/// Where a request is routed: the file to serve and whether the request was
/// understood (a misunderstood one is served the not-found page).
pub struct RouteDecision {
    pub file: Vec<u8>,
    pub found: bool,
}

/// Route one raw request. A request that does not open with `GET` is served
/// the not-found page. A `GET` whose requested name is empty — no second
/// field at all, or one opening with a fragment or query delimiter — cannot
/// be routed at all and yields `None`. The bare `/` maps to `index.html`;
/// any other name is served under itself, its first byte (the leading slash)
/// skipped.
pub fn route_request(buf: &[u8]) -> (r: Option<RouteDecision>)
    ensures
        !is_get(buf@) ==> (r matches Some(d) && d.file@ == not_found_file_spec() && !d.found),
        is_get(buf@) ==> ({
            let name = requested_name(buf@);
            if name.len() == 0 {
                r is None
            } else if name == seq![47u8] {
                r matches Some(d) && d.file@ == index_file_spec() && d.found
            } else {
                r matches Some(d) && d.file@ == name.drop_first() && d.found
            }
        }),
{
    let get = buf.len() >= 3 && *slice_get(buf, 0) == 71 && *slice_get(buf, 1) == 69 && *slice_get(
        buf,
        2,
    ) == 84;
    if !get {
        let mut file: Vec<u8> = Vec::new();
        file.push(52);
        file.push(48);
        file.push(52);
        file.push(46);
        file.push(104);
        file.push(116);
        file.push(109);
        file.push(108);
        proof {
            assert(file@ =~= not_found_file_spec());
        }
        return Some(RouteDecision { file, found: false });
    }
    let e1 = scan_ws(buf, 0);
    let s2 = scan_non_ws(buf, e1);
    let e2 = scan_ws(buf, s2);
    let t = scan_stop(buf, s2, e2);
    let ghost name = requested_name(buf@);
    proof {
        assert(name == buf@.subrange(s2 as int, t as int));
    }
    if s2 == t {
        return None;
    }
    if t == s2 + 1 && *slice_get(buf, s2) == 47 {
        proof {
            assert(name =~= seq![47u8]);
        }
        let mut file: Vec<u8> = Vec::new();
        file.push(105);
        file.push(110);
        file.push(100);
        file.push(101);
        file.push(120);
        file.push(46);
        file.push(104);
        file.push(116);
        file.push(109);
        file.push(108);
        proof {
            assert(file@ =~= index_file_spec());
        }
        return Some(RouteDecision { file, found: true });
    }
    proof {
        assert(name[0] == buf@[s2 as int]);
        assert(name != seq![47u8]);
    }
    let mut file: Vec<u8> = Vec::new();
    let mut i: usize = s2 + 1;
    while i < t
        invariant
            s2 + 1 <= i <= t <= buf@.len(),
            file@ == buf@.subrange(s2 + 1, i as int),
        decreases t - i,
    {
        proof {
            assert(buf@.subrange(s2 + 1, i + 1) =~= buf@.subrange(s2 + 1, i as int).push(
                buf@[i as int],
            ));
        }
        file.push(*slice_get(buf, i));
        i = i + 1;
    }
    proof {
        assert(file@ =~= name.drop_first());
    }
    Some(RouteDecision { file, found: true })
}

/// One byte of a slice.
fn slice_get(s: &[u8], i: usize) -> (b: &u8)
    requires
        i < s@.len(),
    ensures
        *b == s@[i as int],
{
    &s[i]
}

/// The first whitespace position at or after `from`, found by one pass.
fn scan_ws(buf: &[u8], from: usize) -> (r: usize)
    requires
        from <= buf@.len(),
    ensures
        r == find_ws(buf@, from as int),
        from <= r <= buf@.len(),
{
    let mut i = from;
    while i < buf.len()
        invariant
            from <= i <= buf@.len(),
            find_ws(buf@, from as int) == find_ws(buf@, i as int),
        decreases buf@.len() - i,
    {
        if is_ws_byte(*slice_get(buf, i)) {
            return i;
        }
        i = i + 1;
    }
    i
}

/// The first non-whitespace position at or after `from`, found by one pass.
fn scan_non_ws(buf: &[u8], from: usize) -> (r: usize)
    requires
        from <= buf@.len(),
    ensures
        r == find_non_ws(buf@, from as int),
        from <= r <= buf@.len(),
{
    let mut i = from;
    while i < buf.len()
        invariant
            from <= i <= buf@.len(),
            find_non_ws(buf@, from as int) == find_non_ws(buf@, i as int),
        decreases buf@.len() - i,
    {
        if !is_ws_byte(*slice_get(buf, i)) {
            return i;
        }
        i = i + 1;
    }
    i
}

/// The first fragment or query delimiter in `[from, end)`, found by one pass.
fn scan_stop(buf: &[u8], from: usize, end: usize) -> (r: usize)
    requires
        from <= end <= buf@.len(),
    ensures
        r == find_stop(buf@, from as int, end as int),
        from <= r <= end,
{
    let mut i = from;
    while i < end
        invariant
            from <= i <= end <= buf@.len(),
            find_stop(buf@, from as int, end as int) == find_stop(buf@, i as int, end as int),
        decreases end - i,
    {
        if *slice_get(buf, i) == 35 || *slice_get(buf, i) == 63 {
            return i;
        }
        i = i + 1;
    }
    i
}

/// Whether the byte is an ASCII field separator.
fn is_ws_byte(b: u8) -> (r: bool)
    ensures
        r == is_ws(b),
{
    b == 32 || b == 9 || b == 10 || b == 11 || b == 12 || b == 13
}

/// Whether `p` occurs in `s` starting at position `i`.
pub open spec fn contains_at(s: Seq<u8>, p: Seq<u8>, i: int) -> bool {
    0 <= i && i + p.len() <= s.len() && s.subrange(i, i + p.len()) == p
}

/// Whether `p` occurs anywhere in `s`.
pub open spec fn contains_seq(s: Seq<u8>, p: Seq<u8>) -> bool {
    exists|i: int| contains_at(s, p, i)
}

/// `home`, one of the two byte runs a requested name may not carry.
pub open spec fn home_spec() -> Seq<u8> {
    seq![104u8, 111u8, 109u8, 101u8]
}

/// `..`, the other.
pub open spec fn dotdot_spec() -> Seq<u8> {
    seq![46u8, 46u8]
}

/// Whether `p` stands at position `i` of `s`.
fn match_at(s: &[u8], p: &[u8], i: usize) -> (r: bool)
    requires
        i + p@.len() <= s@.len(),
    ensures
        r == contains_at(s@, p@, i as int),
{
    let slen = s.len();
    let mut j: usize = 0;
    while j < p.len()
        invariant
            j <= p@.len(),
            i + p@.len() <= s@.len(),
            s@.len() == slen,
            forall|k: int| 0 <= k < j ==> s@[i + k] == p@[k],
        decreases p@.len() - j,
    {
        if *slice_get(s, i + j) != *slice_get(p, j) {
            proof {
                assert(s@.subrange(i as int, i + p@.len())[j as int] != p@[j as int]);
            }
            return false;
        }
        j = j + 1;
    }
    proof {
        assert(s@.subrange(i as int, i + p@.len()) =~= p@);
    }
    true
}

/// Whether `p` occurs anywhere in `s`, by scanning every position.
fn contains_bytes(s: &[u8], p: &[u8]) -> (r: bool)
    ensures
        r == contains_seq(s@, p@),
{
    if p.len() > s.len() {
        proof {
            assert(forall|i: int| !contains_at(s@, p@, i));
        }
        return false;
    }
    if p.len() == 0 {
        proof {
            assert(s@.subrange(0, 0) =~= p@);
            assert(contains_at(s@, p@, 0));
        }
        return true;
    }
    let slen = s.len();
    let bound = slen - p.len();
    let mut i: usize = 0;
    while i <= bound
        invariant
            i <= bound + 1,
            p@.len() >= 1,
            s@.len() == slen,
            bound == s@.len() - p@.len(),
            forall|k: int| 0 <= k < i ==> !contains_at(s@, p@, k),
        decreases bound + 1 - i,
    {
        if match_at(s, p, i) {
            return true;
        }
        i = i + 1;
    }
    proof {
        assert(forall|k: int| k > bound ==> !contains_at(s@, p@, k));
    }
    false
}

/// Whether a requested name is refused outright: one that carries `home` or
/// `..` reaches outside the served tree and is served the not-found page
/// instead, whatever file it names.
pub fn is_forbidden(name: &[u8]) -> (r: bool)
    ensures
        r == (contains_seq(name@, home_spec()) || contains_seq(name@, dotdot_spec())),
{
    let mut home: Vec<u8> = Vec::new();
    home.push(104);
    home.push(111);
    home.push(109);
    home.push(101);
    let mut dotdot: Vec<u8> = Vec::new();
    dotdot.push(46);
    dotdot.push(46);
    proof {
        assert(home@ =~= home_spec());
        assert(dotdot@ =~= dotdot_spec());
    }
    contains_bytes(name, home.as_slice()) || contains_bytes(name, dotdot.as_slice())
}

/// `\r\n`.
pub open spec fn crlf_spec() -> Seq<u8> {
    seq![13u8, 10u8]
}

/// `Content-Length: `, the one header the response carries.
pub open spec fn content_length_prefix_spec() -> Seq<u8> {
    seq![
        67u8,
        111u8,
        110u8,
        116u8,
        101u8,
        110u8,
        116u8,
        45u8,
        76u8,
        101u8,
        110u8,
        103u8,
        116u8,
        104u8,
        58u8,
        32u8,
    ]
}

/// The whole response buffer: status line, the content-length header with
/// the body's exact length in decimal, a blank line, and the body.
pub open spec fn response_spec(status: Seq<u8>, body: Seq<u8>) -> Seq<u8> {
    status + crlf_spec() + content_length_prefix_spec() + dec_spec(body.len()) + crlf_spec()
        + crlf_spec() + body
}

/// Assemble the response buffer, matching `response_spec` exactly.
pub fn build_response(status: &[u8], body: &[u8]) -> (r: Vec<u8>)
    ensures
        r@ == response_spec(status@, body@),
{
    let mut v: Vec<u8> = Vec::new();
    v.extend_from_slice(status);
    v.push(13);
    v.push(10);
    proof {
        assert(v@ =~= status@ + crlf_spec());
    }
    v.push(67);
    v.push(111);
    v.push(110);
    v.push(116);
    v.push(101);
    v.push(110);
    v.push(116);
    v.push(45);
    v.push(76);
    v.push(101);
    v.push(110);
    v.push(103);
    v.push(116);
    v.push(104);
    v.push(58);
    v.push(32);
    proof {
        assert(v@ =~= status@ + crlf_spec() + content_length_prefix_spec());
    }
    let len_digits = dec_bytes(body.len());
    v.extend_from_slice(len_digits.as_slice());
    v.push(13);
    v.push(10);
    v.push(13);
    v.push(10);
    v.extend_from_slice(body);
    proof {
        assert(v@ =~= response_spec(status@, body@));
    }
    v
}

/// The text an outside reader makes of raw bytes, invalid sequences patched:
/// a function of the bytes alone.
pub uninterp spec fn lossy_text_of(b: Seq<u8>) -> Seq<char>;

/// The lower-case folding of text: a function of the characters alone.
pub uninterp spec fn lower_of(s: Seq<char>) -> Seq<char>;

/// Relies on `String::from_utf8_lossy`: the bytes read as UTF-8 text, every
/// invalid sequence replaced, depending on the bytes alone.
#[verifier::external_body]
fn utf8_lossy(b: &[u8]) -> (r: String)
    ensures
        r@ == lossy_text_of(b@),
{
    String::from_utf8_lossy(b).into_owned()
}

/// Relies on `str::to_lowercase`: the lower-case form of the text, depending
/// on the characters alone.
#[verifier::external_body]
fn lowercase(s: &str) -> (r: String)
    ensures
        r@ == lower_of(s@),
{
    s.to_lowercase()
}

/// The name a requested file is looked up under on disk: the request's file
/// name read as text and folded to lower case.
pub fn storage_key(name: &[u8]) -> (r: String)
    ensures
        r@ == lower_of(lossy_text_of(name@)),
{
    let text = utf8_lossy(name);
    lowercase(text.as_str())
}

} // verus!
