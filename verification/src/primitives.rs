//! Trusted boundary to the cryptographic primitive crates.
//!
//! Every function here is `external_body`: its body makes one call into an
//! outside crate, and its contract states what that crate's source and
//! documentation promise.  Results that cannot be written down in a few lines
//! (digests, the key-derivation function, curve arithmetic, the textual
//! encodings) are given names as uninterpreted spec functions; the verified
//! code reasons about those names only.

use hmac::Mac;
use k256::elliptic_curve::sec1::ToEncodedPoint;
use rand_core::RngCore;
use sha2::Digest;
use unicode_normalization::UnicodeNormalization;
use vstd::prelude::*;
use vstd::utf8::{encode_utf8, is_ascii_chars};

verus! {

/// The SHA-256 digest (32 bytes) of a byte string.
pub uninterp spec fn spec_sha256(data: Seq<u8>) -> Seq<u8>;

/// The RIPEMD-160 digest (20 bytes) of a byte string.
pub uninterp spec fn spec_ripemd160(data: Seq<u8>) -> Seq<u8>;

/// The HMAC-SHA-512 tag (64 bytes) of a message under a key.
pub uninterp spec fn spec_hmac_sha512(key: Seq<u8>, data: Seq<u8>) -> Seq<u8>;

/// The 64-byte PBKDF2-HMAC-SHA-512 output for a password, a salt and an
/// iteration count.
pub uninterp spec fn spec_pbkdf2_sha512(password: Seq<u8>, salt: Seq<u8>, rounds: u32) -> Seq<u8>;

/// The Unicode NFKD normalization of a character sequence.
pub uninterp spec fn spec_nfkd(s: Seq<char>) -> Seq<char>;

/// Whether 32 big-endian bytes form a canonical nonzero scalar below the
/// secp256k1 group order.
pub uninterp spec fn spec_scalar_in_range(s: Seq<u8>) -> bool;

/// The 32-byte big-endian form of the sum, modulo the secp256k1 group order,
/// of two scalars given in 32-byte big-endian form.
pub uninterp spec fn spec_scalar_sum(a: Seq<u8>, b: Seq<u8>) -> Seq<u8>;

/// The 33-byte compressed SEC1 encoding of the public point of a scalar.
pub uninterp spec fn spec_compressed_point(scalar: Seq<u8>) -> Seq<u8>;

/// The base-58 rendering (ASCII bytes) of a byte string.
pub uninterp spec fn spec_base58(data: Seq<u8>) -> Seq<u8>;

/// The bech32 string for a human-readable part and a sequence of 5-bit values.
pub uninterp spec fn spec_bech32(hrp: Seq<u8>, data: Seq<u8>) -> Seq<char>;

/// What bech32 decoding yields for a string: the lowercased human-readable
/// part and the 5-bit values, or nothing when the string is not well-formed
/// bech32 with a valid checksum.
pub uninterp spec fn spec_bech32_decode(s: Seq<char>) -> Option<(Seq<u8>, Seq<u8>)>;

/// Relies on `sha2::Sha256`: a 32-byte digest depending on the input alone.
#[verifier::external_body]
pub(crate) fn sha256(data: &Vec<u8>) -> (r: Vec<u8>)
    ensures
        r@ == spec_sha256(data@),
        r@.len() == 32,
{
    sha2::Sha256::digest(data.as_slice()).to_vec()
}

/// Relies on `ripemd::Ripemd160`: a 20-byte digest depending on the input alone.
#[verifier::external_body]
pub(crate) fn ripemd160(data: &Vec<u8>) -> (r: Vec<u8>)
    ensures
        r@ == spec_ripemd160(data@),
        r@.len() == 20,
{
    ripemd::Ripemd160::digest(data.as_slice()).to_vec()
}

/// Relies on `hmac::Hmac<Sha512>`: a 64-byte tag depending on key and message
/// alone; HMAC accepts keys of any length.
#[verifier::external_body]
pub(crate) fn hmac_sha512(key: &Vec<u8>, data: &Vec<u8>) -> (r: Vec<u8>)
    ensures
        r@ == spec_hmac_sha512(key@, data@),
        r@.len() == 64,
{
    let mut mac = hmac::Hmac::<sha2::Sha512>::new_from_slice(key.as_slice()).unwrap();
    mac.update(data.as_slice());
    mac.finalize().into_bytes().to_vec()
}

/// Relies on `pbkdf2::pbkdf2_hmac::<Sha512>` filling a 64-byte buffer: the
/// output depends on password, salt and iteration count alone.
#[verifier::external_body]
pub(crate) fn pbkdf2_sha512(password: &Vec<u8>, salt: &Vec<u8>, rounds: u32) -> (r: Vec<u8>)
    ensures
        r@ == spec_pbkdf2_sha512(password@, salt@, rounds),
        r@.len() == 64,
{
    let mut out = [0u8; 64];
    pbkdf2::pbkdf2_hmac::<sha2::Sha512>(password.as_slice(), salt.as_slice(), rounds, &mut out);
    out.to_vec()
}

/// Relies on `unicode_normalization`'s NFKD iterator; normalization leaves
/// ASCII text unchanged, and is idempotent (normalizing an already
/// normalized string returns it unchanged, as the Unicode standard
/// guarantees of its normalization forms).
#[verifier::external_body]
pub(crate) fn nfkd(s: &str) -> (r: String)
    ensures
        r@ == spec_nfkd(s@),
        is_ascii_chars(s@) ==> r@ == s@,
        spec_nfkd(r@) == r@,
{
    s.nfkd().collect()
}

/// Relies on `String::from_utf8`: bytes below 128 are valid UTF-8 and decode
/// to the characters with the same values.
#[verifier::external_body]
pub(crate) fn ascii_string(b: Vec<u8>) -> (r: String)
    requires
        forall|i: int| 0 <= i < b@.len() ==> b@[i] < 128,
    ensures
        is_ascii_chars(r@),
        encode_utf8(r@) == b@,
{
    String::from_utf8(b).unwrap()
}

/// Relies on `rand_core::OsRng`, the operating system's secure random source.
/// Nothing is promised of the drawn values beyond their count.
#[verifier::external_body]
pub(crate) fn os_fill_random(buf: &mut Vec<u8>) -> (ok: bool)
    ensures
        final(buf)@.len() == old(buf)@.len(),
{
    rand_core::OsRng.try_fill_bytes(buf.as_mut_slice()).is_ok()
}

/// Relies on `k256::NonZeroScalar::from_repr`, which succeeds exactly on
/// canonical encodings of nonzero scalars below the group order.
#[verifier::external_body]
pub(crate) fn scalar_in_range(b: &Vec<u8>) -> (r: bool)
    requires
        b@.len() == 32,
    ensures
        r == spec_scalar_in_range(b@),
{
    let arr: [u8; 32] = b.as_slice().try_into().unwrap();
    bool::from(k256::NonZeroScalar::from_repr(arr.into()).is_some())
}

/// Relies on `k256` scalar addition modulo the secp256k1 group order, and on
/// `NonZeroScalar`'s range checks: the call fails exactly when the tweak is
/// out of range or the sum is zero.
#[verifier::external_body]
pub(crate) fn scalar_tweak_add(tweak: &Vec<u8>, parent: &Vec<u8>) -> (r: Option<Vec<u8>>)
    requires
        tweak@.len() == 32,
        parent@.len() == 32,
        spec_scalar_in_range(parent@),
    ensures
        r is Some ==> spec_scalar_in_range(tweak@) && spec_scalar_in_range(
            spec_scalar_sum(tweak@, parent@),
        ),
        spec_scalar_in_range(tweak@) && spec_scalar_in_range(spec_scalar_sum(tweak@, parent@))
            ==> r is Some,
        r is Some ==> r.unwrap()@ == spec_scalar_sum(tweak@, parent@) && r.unwrap()@.len() == 32,
{
    let t_arr: [u8; 32] = tweak.as_slice().try_into().unwrap();
    let t = match Option::<k256::NonZeroScalar>::from(k256::NonZeroScalar::from_repr(t_arr.into()))
    {
        Some(t) => t,
        None => return None,
    };
    let p_arr: [u8; 32] = parent.as_slice().try_into().unwrap();
    let p = Option::<k256::NonZeroScalar>::from(k256::NonZeroScalar::from_repr(p_arr.into()))
        .unwrap();
    let sum = *t.as_ref() + *p.as_ref();
    Option::<k256::NonZeroScalar>::from(k256::NonZeroScalar::new(sum))
        .map(|s| s.to_bytes().to_vec())
}

/// Relies on `k256::SecretKey::public_key` and the compressed SEC1 point
/// encoding: 33 bytes depending on the scalar alone.
#[verifier::external_body]
pub(crate) fn compressed_public_key(scalar: &Vec<u8>) -> (r: Vec<u8>)
    requires
        scalar@.len() == 32,
        spec_scalar_in_range(scalar@),
    ensures
        r@ == spec_compressed_point(scalar@),
        r@.len() == 33,
{
    let sk = k256::SecretKey::from_slice(scalar.as_slice()).unwrap();
    sk.public_key().to_encoded_point(true).as_bytes().to_vec()
}

/// Relies on `bs58::encode`: ASCII text (its alphabet is a subset of the
/// alphanumeric characters) depending on the input bytes alone.
#[verifier::external_body]
pub(crate) fn base58_encode(data: &Vec<u8>) -> (r: Vec<u8>)
    ensures
        r@ == spec_base58(data@),
        forall|i: int| 0 <= i < r@.len() ==> r@[i] < 128,
{
    bs58::encode(data.as_slice()).into_string().into_bytes()
}

/// Relies on `bech32::encode` with the classic bech32 checksum.  For a
/// nonempty lowercase human-readable part of at most 83 bytes and 5-bit data
/// values the call cannot fail, and `bech32::decode` recovers exactly the
/// human-readable part and the data values from its output.
#[verifier::external_body]
pub(crate) fn bech32_encode(hrp: &Vec<u8>, data: &Vec<u8>) -> (r: String)
    requires
        1 <= hrp@.len() <= 83,
        forall|i: int| 0 <= i < hrp@.len() ==> 97 <= #[trigger] hrp@[i] <= 122,
        forall|i: int| 0 <= i < data@.len() ==> data@[i] < 32,
    ensures
        r@ == spec_bech32(hrp@, data@),
        spec_bech32_decode(r@) == Some((hrp@, data@)),
        is_ascii_chars(r@),
{
    let hrp_str = core::str::from_utf8(hrp.as_slice()).unwrap();
    let groups: Vec<bech32::u5> =
        data.iter().map(|b| bech32::u5::try_from_u8(*b).unwrap()).collect();
    bech32::encode(hrp_str, groups, bech32::Variant::Bech32).unwrap()
}

/// Relies on `bech32::decode`: it succeeds exactly on well-formed bech32 text
/// with a valid checksum, yielding the lowercased human-readable part and the
/// 5-bit data values.
#[verifier::external_body]
pub(crate) fn bech32_decode(s: &str) -> (r: Option<(Vec<u8>, Vec<u8>)>)
    ensures
        r is Some <==> spec_bech32_decode(s@) is Some,
        r is Some ==> Some((r.unwrap().0@, r.unwrap().1@)) == spec_bech32_decode(s@),
        r is Some ==> forall|i: int| 0 <= i < r.unwrap().1@.len() ==> r.unwrap().1@[i] < 32,
{
    match bech32::decode(s) {
        Ok((hrp, data, bech32::Variant::Bech32)) => Some((
            hrp.into_bytes(),
            data.iter().map(|u| u.to_u8()).collect(),
        )),
        _ => None,
    }
}

} // verus!
