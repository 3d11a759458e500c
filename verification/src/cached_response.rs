//! An immutable snapshot of a computed response: the payload bytes and
//! a content fingerprint used as the ETag value for conditional GET.
//!
//! The fingerprint is the 64-bit FNV-1a hash of the body, rendered as
//! sixteen lowercase hexadecimal digits; it is a deterministic function
//! of the body bytes alone.

use vstd::prelude::*;
use crate::cache::CacheValue;

verus! {

/// 64-bit FNV-1a offset basis.
pub const FNV_OFFSET_BASIS: u64 = 0xcbf29ce484222325;

/// 64-bit FNV-1a prime.
pub const FNV_PRIME: u64 = 0x100000001b3;

/// One FNV-1a round: fold a byte in, then multiply (wrapping).
pub open spec fn fnv_step(h: u64, b: u8) -> u64 {
    vstd::wrapping::u64_specs::wrapping_mul(h ^ (b as u64), FNV_PRIME)
}

/// The 64-bit FNV-1a hash of a byte sequence.
pub open spec fn fnv1a(bytes: Seq<u8>) -> u64
    decreases bytes.len(),
{
    if bytes.len() == 0 {
        FNV_OFFSET_BASIS
    } else {
        fnv_step(fnv1a(bytes.drop_last()), bytes.last())
    }
}

/// The lowercase hexadecimal digit for a value below sixteen.
pub open spec fn hex_digit(n: u64) -> char {
    if n == 0 {
        '0'
    } else if n == 1 {
        '1'
    } else if n == 2 {
        '2'
    } else if n == 3 {
        '3'
    } else if n == 4 {
        '4'
    } else if n == 5 {
        '5'
    } else if n == 6 {
        '6'
    } else if n == 7 {
        '7'
    } else if n == 8 {
        '8'
    } else if n == 9 {
        '9'
    } else if n == 10 {
        'a'
    } else if n == 11 {
        'b'
    } else if n == 12 {
        'c'
    } else if n == 13 {
        'd'
    } else if n == 14 {
        'e'
    } else {
        'f'
    }
}

/// Sixteen hexadecimal digits, most significant nibble first.
pub open spec fn hex_of(h: u64) -> Seq<char> {
    Seq::new(16, |i: int| hex_digit((h >> ((4 * (15 - i)) as u64)) & 0xf))
}

/// The fingerprint of a body: the hex rendering of its FNV-1a hash.
pub open spec fn spec_fingerprint(bytes: Seq<u8>) -> Seq<char> {
    hex_of(fnv1a(bytes))
}

/// Computes the 64-bit FNV-1a hash of the bytes.
fn fnv1a_hash(bytes: &Vec<u8>) -> (r: u64)
    ensures
        r == fnv1a(bytes@),
{
    let mut h: u64 = FNV_OFFSET_BASIS;
    let mut i: usize = 0;
    while i < bytes.len()
        invariant
            i <= bytes@.len(),
            h == fnv1a(bytes@.take(i as int)),
        decreases bytes@.len() - i,
    {
        proof {
            let t = bytes@.take(i + 1 as int);
            assert(t.drop_last() =~= bytes@.take(i as int));
            assert(t.last() == bytes@[i as int]);
        }
        h = (h ^ (bytes[i] as u64)).wrapping_mul(FNV_PRIME);
        i += 1;
    }
    proof {
        assert(bytes@.take(bytes@.len() as int) =~= bytes@);
    }
    h
}

/// The one-character string for a value below sixteen.
fn nibble_str(n: u64) -> (r: &'static str)
    requires
        n < 16,
    ensures
        r@ =~= seq![hex_digit(n)],
{
    proof {
        reveal_strlit("0");
        reveal_strlit("1");
        reveal_strlit("2");
        reveal_strlit("3");
        reveal_strlit("4");
        reveal_strlit("5");
        reveal_strlit("6");
        reveal_strlit("7");
        reveal_strlit("8");
        reveal_strlit("9");
        reveal_strlit("a");
        reveal_strlit("b");
        reveal_strlit("c");
        reveal_strlit("d");
        reveal_strlit("e");
        reveal_strlit("f");
    }
    if n == 0 {
        "0"
    } else if n == 1 {
        "1"
    } else if n == 2 {
        "2"
    } else if n == 3 {
        "3"
    } else if n == 4 {
        "4"
    } else if n == 5 {
        "5"
    } else if n == 6 {
        "6"
    } else if n == 7 {
        "7"
    } else if n == 8 {
        "8"
    } else if n == 9 {
        "9"
    } else if n == 10 {
        "a"
    } else if n == 11 {
        "b"
    } else if n == 12 {
        "c"
    } else if n == 13 {
        "d"
    } else if n == 14 {
        "e"
    } else {
        "f"
    }
}

/// Renders a 64-bit value as sixteen lowercase hexadecimal digits.
fn hex_string(h: u64) -> (r: String)
    ensures
        r@ == hex_of(h),
{
    let mut s = String::new();
    let mut i: usize = 0;
    while i < 16
        invariant
            i <= 16,
            s@ == hex_of(h).take(i as int),
        decreases 16 - i,
    {
        let shift: u64 = (4 * (15 - i)) as u64;
        let nibble: u64 = (h >> shift) & 0xf;
        proof {
            assert((h >> shift) & 0xf < 16) by (bit_vector);
        }
        let digit = nibble_str(nibble);
        proof {
            assert(hex_of(h)[i as int] == hex_digit(nibble));
            assert(hex_of(h).take(i + 1 as int) =~= hex_of(h).take(i as int) + digit@);
        }
        s.append(digit);
        i += 1;
    }
    proof {
        assert(hex_of(h).take(16) =~= hex_of(h));
    }
    s
}

/// Copies a byte vector.
fn dup_bytes(v: &Vec<u8>) -> (r: Vec<u8>)
    ensures
        r@ == v@,
{
    let mut r: Vec<u8> = Vec::new();
    let mut i: usize = 0;
    while i < v.len()
        invariant
            i <= v@.len(),
            r@ == v@.take(i as int),
        decreases v@.len() - i,
    {
        r.push(v[i]);
        proof {
            assert(v@.take(i + 1 as int) =~= v@.take(i as int).push(v@[i as int]));
        }
        i += 1;
    }
    proof {
        assert(v@.take(v@.len() as int) =~= v@);
    }
    r
}

/// Abstract contents of a cached response.
pub struct CachedResponseView {
    pub body: Seq<u8>,
    pub fingerprint: Seq<char>,
}

/// An immutable snapshot of a computed response body together with its
/// content fingerprint.
#[derive(Debug, Clone)]
pub struct CachedResponse {
    body: Vec<u8>,
    fingerprint: String,
}

impl View for CachedResponse {
    type V = CachedResponseView;

    closed spec fn view(&self) -> CachedResponseView {
        CachedResponseView { body: self.body@, fingerprint: self.fingerprint@ }
    }
}

/// The conditional token a caller supplied, as a sequence of characters.
pub open spec fn token_view(token: Option<&String>) -> Option<Seq<char>> {
    match token {
        Some(t) => Some(t@),
        None => None,
    }
}

/// What a conditional request is answered with.
#[derive(Debug, Clone)]
pub enum RenderedReply {
    /// The caller's copy is current: only the validator, an empty body.
    NotModified { etag: String },
    /// The full payload together with its validator.
    Full { body: Vec<u8>, etag: String },
}

/// Abstract contents of a rendered reply.
pub enum RenderedReplyView {
    NotModified { etag: Seq<char> },
    Full { body: Seq<u8>, etag: Seq<char> },
}

impl View for RenderedReply {
    type V = RenderedReplyView;

    open spec fn view(&self) -> RenderedReplyView {
        match self {
            RenderedReply::NotModified { etag } => RenderedReplyView::NotModified { etag: etag@ },
            RenderedReply::Full { body, etag } => RenderedReplyView::Full {
                body: body@,
                etag: etag@,
            },
        }
    }
}

/// How a response answers a conditional request: a token equal to the
/// fingerprint yields `NotModified`; any other token, or none, yields
/// the full body. Both carry the fingerprint as the validator.
pub open spec fn spec_render(resp: CachedResponseView, token: Option<Seq<char>>) -> RenderedReplyView {
    if token == Some(resp.fingerprint) {
        RenderedReplyView::NotModified { etag: resp.fingerprint }
    } else {
        RenderedReplyView::Full { body: resp.body, etag: resp.fingerprint }
    }
}

impl CachedResponse {
    /// The fingerprint stored is exactly the fingerprint of the body.
    pub open spec fn wf(&self) -> bool {
        self@.fingerprint == spec_fingerprint(self@.body)
    }

    /// Wraps a computed body, deriving its fingerprint. Total: every
    /// byte sequence can be fingerprinted.
    pub fn from(body: Vec<u8>) -> (r: CachedResponse)
        ensures
            r.wf(),
            r@.body == body@,
            r@.fingerprint == spec_fingerprint(body@),
    {
        let h = fnv1a_hash(&body);
        let fingerprint = hex_string(h);
        CachedResponse { body, fingerprint }
    }

    /// The payload bytes.
    pub fn body(&self) -> (r: &Vec<u8>)
        ensures
            r@ == self@.body,
    {
        &self.body
    }

    /// The content fingerprint, used as the ETag value.
    pub fn fingerprint(&self) -> (r: &String)
        ensures
            r@ == self@.fingerprint,
    {
        &self.fingerprint
    }

    /// True exactly when the caller-supplied conditional token equals
    /// this response's fingerprint.
    pub fn matches(&self, token: Option<&String>) -> (r: bool)
        ensures
            r == (token_view(token) == Some(self@.fingerprint)),
    {
        match token {
            Some(t) => *t == self.fingerprint,
            None => false,
        }
    }

    /// Answers a conditional request: `NotModified` when the token
    /// matches the fingerprint, the full body otherwise. A pure
    /// function of the response and the token.
    pub fn render(&self, token: Option<&String>) -> (r: RenderedReply)
        ensures
            r@ == spec_render(self@, token_view(token)),
    {
        if self.matches(token) {
            RenderedReply::NotModified { etag: self.fingerprint.clone() }
        } else {
            RenderedReply::Full { body: dup_bytes(&self.body), etag: self.fingerprint.clone() }
        }
    }
}

impl CacheValue for CachedResponse {
    fn value_dup(&self) -> (r: Self) {
        CachedResponse { body: dup_bytes(&self.body), fingerprint: self.fingerprint.clone() }
    }
}

/// Fingerprint determinism: two envelopes whose fingerprints were
/// derived from their bodies agree on the fingerprint whenever they
/// agree on the body.
pub proof fn lemma_fingerprint_deterministic(a: CachedResponseView, b: CachedResponseView)
    requires
        a.fingerprint == spec_fingerprint(a.body),
        b.fingerprint == spec_fingerprint(b.body),
        a.body == b.body,
    ensures
        a.fingerprint == b.fingerprint,
{
}

/// Conditional-GET round trip: presenting a response's own fingerprint
/// yields `NotModified` carrying that fingerprint; presenting no token,
/// or any other token, yields `Full` carrying the original body and the
/// fingerprint.
pub proof fn lemma_conditional_get_roundtrip(resp: CachedResponseView, token: Option<Seq<char>>)
    ensures
        spec_render(resp, Some(resp.fingerprint)) == (RenderedReplyView::NotModified {
            etag: resp.fingerprint,
        }),
        token != Some(resp.fingerprint) ==> spec_render(resp, token)
            == (RenderedReplyView::Full { body: resp.body, etag: resp.fingerprint }),
{
}

} // verus!
