//! Trusted declarations for the outside crates the library leans on:
//! uuid, base64, ring, memchr and url. Each wrapper's contract states what
//! the named function is relied on for; Verus believes these contracts
//! without reading the bodies.

use vstd::prelude::*;

use base64::Engine;
use crate::bytes::find_from;

verus! {

/// The 16 bytes of the UUID named by `s`, when `s` is a well-formed UUID
/// string; a fixed function of `s` alone.
pub uninterp spec fn uuid_bytes_of(s: Seq<u8>) -> Option<Seq<u8>>;

/// Relies on `uuid::Uuid::parse_str` (which accepts the common textual UUID
/// formats) to turn a textual UUID into its 16 bytes.
#[verifier::external_body]
pub(crate) fn parse_uuid(s: &[u8]) -> (r: Option<[u8; 16]>)
    ensures
        match r {
            Some(b) => uuid_bytes_of(s@) == Some(b@),
            None => uuid_bytes_of(s@) is None,
        },
{
    let t = match core::str::from_utf8(s) {
        Ok(t) => t,
        Err(_) => return None,
    };
    match uuid::Uuid::parse_str(t) {
        Ok(u) => Some(*u.as_bytes()),
        Err(_) => None,
    }
}

/// The unpadded standard-alphabet base64 encoding of `b`; a fixed function
/// of `b` alone.
pub uninterp spec fn b64_nopad_of(b: Seq<u8>) -> Seq<u8>;

/// A character of the standard base64 alphabet (unpadded, so no `=`).
pub open spec fn is_b64_char(b: u8) -> bool {
    (65 <= b && b <= 90) || (97 <= b && b <= 122) || (48 <= b && b <= 57) || b == 43 || b == 47
}

/// Relies on base64's `STANDARD_NO_PAD` engine: the unpadded encoding of
/// `n` bytes has exactly `ceil(4n/3)` characters, all from the standard
/// alphabet `A-Z a-z 0-9 + /`.
#[verifier::external_body]
pub(crate) fn base64_encode_nopad(b: &[u8]) -> (r: Vec<u8>)
    ensures
        r@ == b64_nopad_of(b@),
        r@.len() == (b@.len() * 4 + 2) / 3,
        forall|i: int| 0 <= i < r@.len() ==> is_b64_char(#[trigger] r@[i]),
{
    base64::engine::general_purpose::STANDARD_NO_PAD.encode(b).into_bytes()
}

/// Relies on base64's `STANDARD_NO_PAD` engine inverting the encoding: an
/// input equal to the encoding of some bytes decodes to those bytes.
#[verifier::external_body]
pub(crate) fn base64_decode_nopad(s: &[u8]) -> (r: Option<Vec<u8>>)
    ensures
        match r {
            Some(w) => forall|v: Seq<u8>| s@ == b64_nopad_of(v) ==> w@ == v,
            None => forall|v: Seq<u8>| s@ != b64_nopad_of(v),
        },
{
    base64::engine::general_purpose::STANDARD_NO_PAD.decode(s).ok()
}

/// Relies on `ring::constant_time::verify_slices_are_equal`, which returns
/// `Ok` exactly when the two slices hold the same bytes.
#[allow(deprecated)]
#[verifier::external_body]
pub(crate) fn constant_time_eq(a: &[u8], b: &[u8]) -> (r: bool)
    ensures
        r == (a@ == b@),
{
    ring::constant_time::verify_slices_are_equal(a, b).is_ok()
}

/// The SHA-256 digest of `b`; a fixed function of `b` alone.
pub uninterp spec fn sha256_of(b: Seq<u8>) -> Seq<u8>;

/// Relies on `ring::digest::digest` with SHA-256: a 32-byte digest
/// determined by the input alone.
#[verifier::external_body]
pub(crate) fn sha256(b: &[u8]) -> (r: Vec<u8>)
    ensures
        r@ == sha256_of(b@),
        r@.len() == 32,
{
    ring::digest::digest(&ring::digest::SHA256, b).as_ref().to_vec()
}

/// Relies on `ring::rand::SystemRandom::fill`. Nothing is assumed of the
/// bytes themselves; the buffer keeps its length whether or not the fill
/// succeeded.
#[verifier::external_body]
pub(crate) fn fill_random(buf: &mut Vec<u8>) -> (r: bool)
    ensures
        final(buf)@.len() == old(buf)@.len(),
{
    let rng = ring::rand::SystemRandom::new();
    ring::rand::SecureRandom::fill(&rng, buf.as_mut_slice()).is_ok()
}

/// Relies on `memchr::memchr`: the index of the first occurrence of the
/// needle in the haystack, if any.
pub assume_specification [ memchr::memchr ](needle: u8, haystack: &[u8]) -> (r: Option<usize>)
    ensures
        match r {
            Some(i) => find_from(haystack@, 0, needle) == Some(i as int),
            None => find_from(haystack@, 0, needle) is None,
        },
;

/// The key/value pairs denoted by the query string `q` under
/// application/x-www-form-urlencoded decoding; a fixed function of `q`.
pub uninterp spec fn query_pairs_of(q: Seq<u8>) -> Seq<(Seq<u8>, Seq<u8>)>;

/// Relies on `url::form_urlencoded::parse` for percent- and plus-decoding
/// of a query string into key/value pairs.
#[verifier::external_body]
pub(crate) fn parse_query(q: &[u8]) -> (r: Vec<(Vec<u8>, Vec<u8>)>)
    ensures
        r@.len() == query_pairs_of(q@).len(),
        forall|i: int| 0 <= i < r@.len() ==> (#[trigger] r@[i]).0@ == query_pairs_of(q@)[i].0
            && r@[i].1@ == query_pairs_of(q@)[i].1,
{
    url::form_urlencoded::parse(q)
        .into_owned()
        .map(|(k, v)| (k.into_bytes(), v.into_bytes()))
        .collect()
}

} // verus!
