//! The cryptographic and encoding primitives the library calls: HMAC-SHA1,
//! base64, constant-time comparison and random bytes, each behind a trusted
//! item whose contract says what the outside crate computes; plus verified
//! lowercase hex.
use base64::Engine;
use hmac::{Hmac, Mac};
use subtle::ConstantTimeEq;
use vstd::prelude::*;

use crate::text::push_char;

verus! {

// ---------------------------------------------------------------------------
// base64 (RFC 4648)
// ---------------------------------------------------------------------------

/// The base64 digit for a 6-bit value: the standard alphabet, or the
/// URL-safe one (`-` and `_` for 62 and 63).
pub open spec fn b64_digit(v: nat, url_safe: bool) -> char {
    if v < 26 {
        (v + ('A' as nat)) as char
    } else if v < 52 {
        ((v - 26) + ('a' as nat)) as char
    } else if v < 62 {
        ((v - 52) + ('0' as nat)) as char
    } else if v == 62 {
        if url_safe {
            '-'
        } else {
            '+'
        }
    } else {
        if url_safe {
            '_'
        } else {
            '/'
        }
    }
}

/// The base64 encoding of `data`: each group of three bytes becomes four
/// digits; a last group of one or two bytes becomes two or three digits,
/// followed by `=` padding up to four when `padded`.
pub open spec fn base64(data: Seq<u8>, url_safe: bool, padded: bool) -> Seq<char>
    decreases data.len(),
{
    if data.len() == 0 {
        Seq::<char>::empty()
    } else if data.len() == 1 {
        let b0 = data[0] as nat;
        seq![b64_digit(b0 / 4, url_safe), b64_digit((b0 % 4) * 16, url_safe)] + if padded {
            seq!['=', '=']
        } else {
            Seq::<char>::empty()
        }
    } else if data.len() == 2 {
        let b0 = data[0] as nat;
        let b1 = data[1] as nat;
        seq![
            b64_digit(b0 / 4, url_safe),
            b64_digit((b0 % 4) * 16 + b1 / 16, url_safe),
            b64_digit((b1 % 16) * 4, url_safe),
        ] + if padded {
            seq!['=']
        } else {
            Seq::<char>::empty()
        }
    } else {
        let b0 = data[0] as nat;
        let b1 = data[1] as nat;
        let b2 = data[2] as nat;
        seq![
            b64_digit(b0 / 4, url_safe),
            b64_digit((b0 % 4) * 16 + b1 / 16, url_safe),
            b64_digit((b1 % 16) * 4 + b2 / 64, url_safe),
            b64_digit(b2 % 64, url_safe),
        ] + base64(data.skip(3), url_safe, padded)
    }
}

/// `base64::engine::general_purpose::URL_SAFE_NO_PAD.encode`: URL-safe
/// alphabet, no padding.
#[verifier::external_body]
pub(crate) fn base64_url_no_pad(data: &[u8]) -> (res: String)
    ensures
        res@ == base64(data@, true, false),
{
    base64::engine::general_purpose::URL_SAFE_NO_PAD.encode(data)
}

/// `base64::engine::general_purpose::STANDARD.encode`: standard alphabet,
/// `=` padding.
#[verifier::external_body]
pub(crate) fn base64_standard(data: &[u8]) -> (res: String)
    ensures
        res@ == base64(data@, false, true),
{
    base64::engine::general_purpose::STANDARD.encode(data)
}

// ---------------------------------------------------------------------------
// HMAC-SHA1
// ---------------------------------------------------------------------------

/// Names the HMAC-SHA1 tag of `msg` under `key`.
pub uninterp spec fn hmac_sha1(key: Seq<u8>, msg: Seq<u8>) -> Seq<u8>;

#[verifier::external_type_specification]
#[verifier::external_body]
pub struct ExInvalidLength(hmac::digest::InvalidLength);

/// `Hmac::<Sha1>::new_from_slice(key)`, `update(msg)`, `finalize()`: the
/// HMAC-SHA1 tag of `msg` under `key`. HMAC takes keys of any length (the
/// crate's `new_from_slice` never returns its error), which the contract
/// states; of the tag it claims only that it is the named tag of exactly
/// these bytes.
#[verifier::external_body]
pub(crate) fn hmac_sha1_tag(key: &[u8], msg: &[u8]) -> (res: Result<Vec<u8>, hmac::digest::InvalidLength>)
    ensures
        res is Ok,
        res matches Ok(t) ==> t@ == hmac_sha1(key@, msg@),
{
    let mut mac = Hmac::<sha1::Sha1>::new_from_slice(key)?;
    mac.update(msg);
    Ok(mac.finalize().into_bytes().to_vec())
}

// ---------------------------------------------------------------------------
// Constant-time comparison
// ---------------------------------------------------------------------------

/// `subtle::ConstantTimeEq::ct_eq` on byte slices, unwrapped: `true` exactly
/// when both slices have the same length and the same bytes.
#[verifier::external_body]
pub(crate) fn ct_eq_bytes(a: &[u8], b: &[u8]) -> (res: bool)
    ensures
        res == (a@ == b@),
{
    a.ct_eq(b).unwrap_u8() == 1
}

// ---------------------------------------------------------------------------
// Random bytes and hex
// ---------------------------------------------------------------------------

/// `n` bytes from `rand::rng()` (the thread-local CSPRNG). Only the length
/// is claimed: the bytes are random.
#[verifier::external_body]
pub(crate) fn random_bytes(n: usize) -> (res: Vec<u8>)
    ensures
        res@.len() == n,
{
    let mut v = vec![0u8; n];
    rand::RngExt::fill(&mut rand::rng(), &mut v[..]);
    v
}

/// The lowercase hexadecimal digit for a value below 16.
pub open spec fn hex_digit(v: nat) -> char {
    if v < 10 {
        (v + ('0' as nat)) as char
    } else {
        ((v - 10) + ('a' as nat)) as char
    }
}

/// The lowercase hex of `data`, two digits per byte (`format!("{:02x}")`).
pub open spec fn hex(data: Seq<u8>) -> Seq<char>
    decreases data.len(),
{
    if data.len() == 0 {
        Seq::<char>::empty()
    } else {
        hex(data.drop_last()).push(hex_digit(data.last() as nat / 16)).push(
            hex_digit(data.last() as nat % 16),
        )
    }
}

pub open spec fn is_lower_hex(c: char) -> bool {
    ('0' <= c && c <= '9') || ('a' <= c && c <= 'f')
}

pub proof fn lemma_hex_shape(data: Seq<u8>)
    ensures
        hex(data).len() == 2 * data.len(),
        forall|i: int| 0 <= i < hex(data).len() ==> is_lower_hex(#[trigger] hex(data)[i]),
    decreases data.len(),
{
    if data.len() > 0 {
        lemma_hex_shape(data.drop_last());
        let h = hex(data.drop_last());
        let b = data.last() as nat;
        assert(is_lower_hex(hex_digit(b / 16)));
        assert(is_lower_hex(hex_digit(b % 16)));
        assert forall|i: int| 0 <= i < hex(data).len() implies is_lower_hex(#[trigger] hex(data)[i]) by {
            if i < h.len() {
                assert(hex(data)[i] == h[i]);
            }
        }
    }
}

fn hex_digit_char(v: u8) -> (c: char)
    requires
        v < 16,
    ensures
        c == hex_digit(v as nat),
{
    if v < 10 {
        (48u8 + v) as char
    } else {
        (87u8 + v) as char
    }
}

/// The lowercase hex of `data`.
pub fn hex_of(data: &[u8]) -> (res: String)
    ensures
        res@ == hex(data@),
        res@.len() == 2 * data@.len(),
{
    let mut res = String::new();
    for i in 0..data.len()
        invariant
            res@ == hex(data@.take(i as int)),
    {
        let b = data[i];
        assert(data@.take(i + 1).drop_last() == data@.take(i as int));
        assert(data@.take(i + 1).last() == b);
        push_char(&mut res, hex_digit_char(b / 16));
        push_char(&mut res, hex_digit_char(b % 16));
    }
    assert(data@.take(data@.len() as int) == data@);
    proof {
        lemma_hex_shape(data@);
    }
    res
}

/// A fresh random token of `n` bytes, as `2n` lowercase hex digits.
pub fn random_hex(n: usize) -> (res: String)
    ensures
        res@.len() == 2 * n,
        forall|i: int| 0 <= i < res@.len() ==> is_lower_hex(#[trigger] res@[i]),
        exists|b: Seq<u8>| b.len() == n && res@ == hex(b),
{
    let bytes = random_bytes(n);
    let res = hex_of(bytes.as_slice());
    proof {
        lemma_hex_shape(bytes@);
    }
    res
}

} // verus!
