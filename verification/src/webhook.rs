//! The ingest admission webhook: the media server asks before accepting an
//! incoming stream; the request must carry an HMAC-SHA1 signature of its
//! body, and an incoming stream's key marks the rooms using it live.
use vstd::prelude::*;

use crate::crypto::{base64, base64_url_no_pad, ct_eq_bytes, hmac_sha1, hmac_sha1_tag};
use crate::error::{fails_with, owned, AppError, ErrorKind};
use crate::text::{
    chars_of, first_index_of, lemma_first_index_of, last_index_of, lemma_last_index_of,
    starts_with, starts_with_str, string_of_range, sub_chars, find_char, rfind_char, str_eq,
    trailing_count, lemma_trailing_count_at,
};

verus! {

// ---------------------------------------------------------------------------
// Stream key from the ingest URL
// ---------------------------------------------------------------------------

/// `p` occurs in `s` at `i`.
pub open spec fn occurs_at(s: Seq<char>, p: Seq<char>, i: int) -> bool {
    0 <= i && i + p.len() <= s.len() && s.subrange(i, i + p.len()) == p
}

/// The first index at or after `i` where `p` occurs in `s`.
pub open spec fn find_from(s: Seq<char>, p: Seq<char>, i: int) -> Option<int>
    decreases s.len() + 1 - i,
{
    if i < 0 || i + p.len() > s.len() {
        None
    } else if occurs_at(s, p, i) {
        Some(i)
    } else {
        find_from(s, p, i + 1)
    }
}

/// The last non-empty `/`-separated segment of a path.
pub open spec fn last_segment(path: Seq<char>) -> Option<Seq<char>> {
    let e = path.len() - trailing_count(path, '/');
    if e <= 0 {
        None
    } else {
        let b = match last_index_of(path.take(e), '/') {
            Some(i) => i + 1,
            None => 0,
        };
        Some(path.subrange(b, e))
    }
}

/// The text of `s` before its first `'?'`.
pub open spec fn before_query(s: Seq<char>) -> Seq<char> {
    match first_index_of(s, '?') {
        Some(i) => s.take(i),
        None => s,
    }
}

/// The stream key an ingest URL names: its last path segment without the
/// query. A URL without an `http`/`rtmp` scheme is read as a path.
pub open spec fn stream_key_of(url: Seq<char>) -> Option<Seq<char>> {
    let u = if starts_with(url, "http"@) || starts_with(url, "rtmp"@) {
        url
    } else {
        "http://x"@ + url
    };
    let path = match find_from(u, "://"@, 0) {
        Some(pos) => {
            let after = u.skip(pos + 3);
            match first_index_of(after, '/') {
                Some(p) => after.skip(p),
                None => Seq::<char>::empty(),
            }
        },
        None => u,
    };
    match last_segment(path) {
        Some(seg) => Some(before_query(seg)),
        None => None,
    }
}

fn find_sub(s: &Vec<char>, p: &Vec<char>) -> (res: Option<usize>)
    ensures
        match res {
            Some(i) => find_from(s@, p@, 0) == Some(i as int),
            None => find_from(s@, p@, 0) is None,
        },
{
    let n = s.len();
    let m = p.len();
    if m > n {
        return None;
    }
    if m == 0 {
        assert(s@.subrange(0, 0) =~= p@);
        return Some(0);
    }
    let mut i: usize = 0;
    while i <= n - m
        invariant
            0 < m <= n == s@.len(),
            m == p@.len(),
            i <= n - m + 1,
            find_from(s@, p@, 0) == find_from(s@, p@, i as int),
        decreases n - i,
    {
        let mut j: usize = 0;
        let mut ok = true;
        while j < m && ok
            invariant
                i + m <= n == s@.len(),
                m == p@.len(),
                j <= m,
                ok ==> forall|k: int| 0 <= k < j ==> s@[i + k] == p@[k],
                !ok ==> s@.subrange(i as int, i + m) != p@,
            decreases m - j + (if ok { 1int } else { 0int }),
        {
            if s[i + j] != p[j] {
                assert(s@.subrange(i as int, i + m)[j as int] != p@[j as int]);
                ok = false;
            } else {
                j += 1;
            }
        }
        if ok {
            assert(s@.subrange(i as int, i + m) =~= p@);
            return Some(i);
        }
        i += 1;
    }
    None
}

fn last_segment_of(path: &Vec<char>) -> (res: Option<Vec<char>>)
    ensures
        match res {
            Some(v) => last_segment(path@) == Some(v@),
            None => last_segment(path@) is None,
        },
{
    let n = path.len();
    let mut e = n;
    while e > 0 && path[e - 1] == '/'
        invariant
            e <= n == path@.len(),
            forall|j: int| e <= j < n ==> path@[j] == '/',
        decreases e,
    {
        e -= 1;
    }
    proof {
        lemma_trailing_count_at(path@, '/', (n - e) as int);
    }
    if e == 0 {
        return None;
    }
    let head = sub_chars(path, 0, e);
    assert(head@ == path@.take(e as int));
    proof {
        lemma_last_index_of(head@, '/');
    }
    let b = match rfind_char(&head, '/') {
        Some(i) => i + 1,
        None => 0,
    };
    Some(sub_chars(path, b, e))
}

/// The stream key named by an ingest URL (see `stream_key_of`).
pub fn extract_stream_key(url: &str) -> (res: Option<String>)
    ensures
        match res {
            Some(k) => stream_key_of(url@) == Some(k@),
            None => stream_key_of(url@) is None,
        },
{
    let uc = chars_of(url);
    let u: Vec<char> = if starts_with_str(&uc, "http") || starts_with_str(&uc, "rtmp") {
        uc
    } else {
        let mut v = chars_of("http://x");
        let mut i: usize = 0;
        let ghost base = v@;
        while i < uc.len()
            invariant
                i <= uc@.len(),
                v@ == base + uc@.take(i as int),
            decreases uc@.len() - i,
        {
            v.push(uc[i]);
            assert(uc@.take(i + 1) == uc@.take(i as int).push(uc@[i as int]));
            i += 1;
        }
        assert(uc@.take(uc@.len() as int) == uc@);
        v
    };
    let sep = chars_of("://");
    proof {
        reveal_strlit("://");
    }
    assert(sep@.len() == 3);
    let path: Vec<char> = match find_sub(&u, &sep) {
        Some(pos) => {
            proof {
                assert(occurs_at(u@, sep@, pos as int)) by {
                    lemma_find_from(u@, sep@, 0);
                }
            }
            let ulen = u.len();
            assert(pos + 3 <= ulen);
            let after = sub_chars(&u, pos + 3, ulen);
            assert(after@ == u@.skip(pos + 3));
            proof {
                lemma_first_index_of(after@, '/');
            }
            match find_char(&after, '/') {
                Some(p) => {
                    let r = sub_chars(&after, p, after.len());
                    assert(r@ == after@.skip(p as int));
                    r
                },
                None => Vec::new(),
            }
        },
        None => u,
    };
    let seg = match last_segment_of(&path) {
        Some(s) => s,
        None => return None,
    };
    proof {
        lemma_first_index_of(seg@, '?');
    }
    let end = match find_char(&seg, '?') {
        Some(q) => q,
        None => seg.len(),
    };
    Some(string_of_range(&seg, 0, end))
}

/// A stream key is one path segment: it holds no `/` and no `?`.
pub proof fn lemma_stream_key_is_one_segment(url: Seq<char>)
    ensures
        stream_key_of(url) matches Some(k) ==> forall|i: int|
            0 <= i < k.len() ==> #[trigger] k[i] != '/' && k[i] != '?',
{
    let u = if starts_with(url, "http"@) || starts_with(url, "rtmp"@) {
        url
    } else {
        "http://x"@ + url
    };
    let path = match find_from(u, "://"@, 0) {
        Some(pos) => {
            let after = u.skip(pos + 3);
            match first_index_of(after, '/') {
                Some(p) => after.skip(p),
                None => Seq::<char>::empty(),
            }
        },
        None => u,
    };
    if let Some(seg) = last_segment(path) {
        let e = path.len() - trailing_count(path, '/');
        let head = path.take(e);
        lemma_last_index_of(head, '/');
        let b = match last_index_of(head, '/') {
            Some(i) => i + 1,
            None => 0,
        };
        assert forall|i: int| 0 <= i < seg.len() implies #[trigger] seg[i] != '/' by {
            assert(seg[i] == head[b + i]);
        }
        lemma_first_index_of(seg, '?');
        let k = before_query(seg);
        assert forall|i: int| 0 <= i < k.len() implies #[trigger] k[i] != '/' && k[i] != '?' by {
            assert(k[i] == seg[i]);
        }
    }
}

proof fn lemma_find_from(s: Seq<char>, p: Seq<char>, i: int)
    ensures
        find_from(s, p, i) matches Some(k) ==> occurs_at(s, p, k) && k >= i,
    decreases s.len() + 1 - i,
{
    if !(i < 0 || i + p.len() > s.len()) && !occurs_at(s, p, i) {
        lemma_find_from(s, p, i + 1);
    }
}

// ---------------------------------------------------------------------------
// Signature
// ---------------------------------------------------------------------------

/// The signature a request body must carry: the URL-safe, unpadded base64
/// of its HMAC-SHA1 under the webhook secret.
pub open spec fn expected_signature(secret: Seq<char>, body: Seq<u8>) -> Seq<char> {
    base64(hmac_sha1(vstd::utf8::encode_utf8(secret), body), true, false)
}

/// Checks the `X-OME-Signature` header of an admission request: missing
/// answers 401 `Missing signature`; anything but the expected signature
/// (compared in constant time) answers 401 `Invalid signature`.
pub fn verify_admission_signature(signature: Option<&str>, secret: &str, body: &[u8]) -> (res: Result<
    (),
    AppError,
>)
    ensures
        signature is None ==> fails_with(res, ErrorKind::Unauthorized, "Missing signature"@),
        signature matches Some(s) && s@ == expected_signature(secret@, body@) ==> res is Ok,
        signature matches Some(s) && s@ != expected_signature(secret@, body@) ==> fails_with(
            res,
            ErrorKind::Unauthorized,
            "Invalid signature"@,
        ),
{
    let sig = match signature {
        Some(s) => s,
        None => return Err(AppError::new(ErrorKind::Unauthorized, "Missing signature")),
    };
    let tag = match hmac_sha1_tag(secret.as_bytes(), body) {
        Ok(t) => t,
        Err(_) => return Err(AppError::new(ErrorKind::Internal, "HMAC init error")),
    };
    let expected = base64_url_no_pad(tag.as_slice());
    let same = ct_eq_bytes(expected.as_str().as_bytes(), sig.as_bytes());
    proof {
        let e = expected@;
        let g = sig@;
        vstd::utf8::encode_utf8_decode_utf8(e);
        vstd::utf8::encode_utf8_decode_utf8(g);
    }
    if !same {
        return Err(AppError::new(ErrorKind::Unauthorized, "Invalid signature"));
    }
    Ok(())
}

// ---------------------------------------------------------------------------
// Admission decision
// ---------------------------------------------------------------------------

/// The fields of the admission request that the decision reads.
#[derive(Clone, Debug)]
pub struct AdmissionRequest {
    pub direction: Option<String>,
    pub url: Option<String>,
}

/// What to do with a verified admission request.
#[derive(Clone, Debug)]
pub enum Admission {
    /// Not an incoming stream: allow it without looking anything up.
    Allow,
    /// An incoming stream: mark the rooms using this key live, then allow.
    GoLive(String),
}

/// The request asks to admit an incoming stream.
pub open spec fn is_incoming(r: AdmissionRequest) -> bool {
    r.direction matches Some(d) && d@ == "incoming"@
}

/// The request's URL, empty when it has none.
pub open spec fn url_of(r: AdmissionRequest) -> Seq<char> {
    match r.url {
        Some(u) => u@,
        None => Seq::<char>::empty(),
    }
}

/// Decides a verified admission request, given its `request` object (`None`
/// when the body has none): 400 `Missing request object` without one;
/// anything but `direction == "incoming"` is allowed as is; an incoming
/// stream whose URL names no key answers 400 `Cannot extract stream key`.
pub fn admission_decision(request: Option<AdmissionRequest>) -> (res: Result<Admission, AppError>)
    ensures
        request is None ==> fails_with(res, ErrorKind::BadRequest, "Missing request object"@),
        request matches Some(r) ==> (!is_incoming(r) ==> (res matches Ok(a) && a is Allow)),
        request matches Some(r) ==> (is_incoming(r) ==> match stream_key_of(url_of(r)) {
            Some(k) => res matches Ok(Admission::GoLive(key)) && key@ == k,
            None => fails_with(res, ErrorKind::BadRequest, "Cannot extract stream key"@),
        }),
{
    let r = match request {
        Some(r) => r,
        None => return Err(AppError::new(ErrorKind::BadRequest, "Missing request object")),
    };
    let incoming = match &r.direction {
        Some(d) => str_eq(d.as_str(), "incoming"),
        None => false,
    };
    if !incoming {
        return Ok(Admission::Allow);
    }
    let url = match &r.url {
        Some(u) => u.clone(),
        None => String::new(),
    };
    match extract_stream_key(url.as_str()) {
        Some(k) => Ok(Admission::GoLive(k)),
        None => Err(AppError::new(ErrorKind::BadRequest, "Cannot extract stream key")),
    }
}

} // verus!
