//! A deterministic key-derivation pipeline: from a mnemonic phrase to a
//! signing key and a chain account identifier.
//!
//! The stages run strictly forward: the mnemonic codec turns entropy into a
//! checksummed phrase and back; seed derivation stretches a phrase and
//! passphrase into 64 bytes; hierarchical derivation walks a path of
//! hardened and open steps to an extended private key; the key codec and
//! the account module render keys and identifiers as text.  Every stage is
//! specified and verified; the cryptographic primitives and the base-58 and
//! bech32 renderings are called through a narrow trusted boundary.

pub mod account;
pub mod bits;
pub mod errors;
pub mod hd;
pub mod keycodec;
pub mod laws;
pub mod mnemonic;
pub mod path;
pub mod primitives;
pub mod seed;
pub mod text;
pub mod wordlist;

use crate::account::{from_public_key, hrp_wf, spec_hash160, AccountIdentity};
use crate::errors::KeyError;
use crate::hd::{derive_path, spec_derive_path};
use crate::keycodec::{signing_key, SigningKeyHandle};
use crate::mnemonic::{
    from_entropy, generate, parse, spec_parse_result, valid_entropy_len, Mnemonic,
};
use crate::path::{DerivationPath, PathSegment};
use crate::primitives::{nfkd, spec_compressed_point, spec_nfkd};
use crate::seed::{derive_seed, spec_seed};
use crate::wordlist::{spec_std_words, std_words_ok, Wordlist};
use vstd::prelude::*;
use vstd::string::StrSliceExecFns;
use vstd::utf8::encode_utf8;

verus! {

/// Draw fresh entropy of the given bit size and build a mnemonic over it
/// against the standard wordlist.
pub fn new_mnemonic(entropy_bits: usize) -> (r: Result<Mnemonic, KeyError>)
    ensures
        r is Err && r->Err_0 == KeyError::InvalidEntropyLength <==> !(entropy_bits == 128
            || entropy_bits == 160 || entropy_bits == 192 || entropy_bits == 224 || entropy_bits
            == 256),
        (entropy_bits == 128 || entropy_bits == 160 || entropy_bits == 192 || entropy_bits == 224
            || entropy_bits == 256) ==> (r is Err && r->Err_0 == KeyError::EncodingError
            <==> !std_words_ok()),
        r matches Ok(m) ==> m.wf() && m.spec_words() == spec_std_words() && m.spec_entropy().len()
            == entropy_bits / 8,
        r matches Err(e) ==> e == KeyError::InvalidEntropyLength || e
            == KeyError::EntropySourceError || e == KeyError::EncodingError,
{
    if !(entropy_bits == 128 || entropy_bits == 160 || entropy_bits == 192 || entropy_bits == 224
        || entropy_bits == 256) {
        return Err(KeyError::InvalidEntropyLength);
    }
    let wl = match Wordlist::standard() {
        Ok(wl) => wl,
        Err(_) => {
            return Err(KeyError::EncodingError);
        },
    };
    match generate(&wl, entropy_bits) {
        Ok(m) => Ok(m),
        Err(e) => Err(e),
    }
}

/// Build a mnemonic over given entropy bytes against the standard wordlist.
pub fn mnemonic_from_entropy(entropy: Vec<u8>) -> (r: Result<Mnemonic, KeyError>)
    ensures
        r is Err && r->Err_0 == KeyError::InvalidEntropyLength <==> !valid_entropy_len(
            entropy@.len(),
        ),
        std_words_ok() ==> (r is Ok <==> valid_entropy_len(entropy@.len())),
        r matches Ok(m) ==> m.wf() && m.spec_words() == spec_std_words() && m.spec_entropy()
            == entropy@,
        r matches Err(e) ==> e == KeyError::InvalidEntropyLength || e == KeyError::EncodingError,
{
    let n = entropy.len();
    if !(n == 16 || n == 20 || n == 24 || n == 28 || n == 32) {
        return Err(KeyError::InvalidEntropyLength);
    }
    let wl = match Wordlist::standard() {
        Ok(wl) => wl,
        Err(_) => {
            return Err(KeyError::EncodingError);
        },
    };
    match from_entropy(&wl, entropy) {
        Ok(m) => Ok(m),
        Err(e) => Err(e),
    }
}

/// Parse a phrase against the standard wordlist.  The phrase is normalized
/// before any word is looked up; an unknown word is reported before any
/// checksum test.
pub fn parse_mnemonic(phrase: &str) -> (r: Result<Mnemonic, KeyError>)
    ensures
        !std_words_ok() ==> r is Err && r->Err_0 == KeyError::EncodingError,
        std_words_ok() ==> (r is Ok <==> spec_parse_result(
            spec_std_words(),
            encode_utf8(spec_nfkd(phrase@)),
        ) is Ok),
        std_words_ok() ==> (r matches Err(e) ==> Err::<(Seq<u8>, Seq<u16>), KeyError>(e)
            == spec_parse_result(spec_std_words(), encode_utf8(spec_nfkd(phrase@)))),
        r matches Ok(m) ==> m.wf() && m.spec_words() == spec_std_words() && m.spec_phrase()
            == encode_utf8(spec_nfkd(phrase@)) && Ok::<(Seq<u8>, Seq<u16>), KeyError>(
            (m.spec_entropy(), m.spec_indices()),
        ) == spec_parse_result(spec_std_words(), encode_utf8(spec_nfkd(phrase@))),
{
    let wl = match Wordlist::standard() {
        Ok(wl) => wl,
        Err(e) => {
            return Err(e);
        },
    };
    let normalized = nfkd(phrase);
    let bytes = normalized.as_str().as_bytes_vec();
    parse(&wl, &bytes)
}

/// What account derivation yields: the account hash and the signing scalar,
/// or the error of the stage that failed.
pub open spec fn spec_derive_account(
    phrase: Seq<u8>,
    passphrase: Seq<char>,
    segs: Seq<PathSegment>,
    hrp: Seq<u8>,
) -> Result<(Seq<u8>, Seq<u8>), KeyError> {
    match spec_derive_path(spec_seed(phrase, passphrase), segs) {
        Err(e) => Err(e),
        Ok(node) => if !hrp_wf(hrp) {
            Err(KeyError::EncodingError)
        } else {
            Ok((spec_hash160(spec_compressed_point(node.key)), node.key))
        },
    }
}

/// Derive the account identity and signing key of a mnemonic under a
/// passphrase, along a path, for a chain prefix.  The result is a function
/// of the four inputs alone: the same inputs always derive the same
/// account.
pub fn derive_account(m: &Mnemonic, passphrase: &str, path: &DerivationPath, hrp: &Vec<u8>) -> (r:
    Result<(AccountIdentity, SigningKeyHandle), KeyError>)
    requires
        path.wf(),
    ensures
        r is Ok <==> spec_derive_account(
            m.spec_phrase(),
            passphrase@,
            path.spec_segments(),
            hrp@,
        ) is Ok,
        r matches Ok(p) ==> p.0.wf() && p.1.wf() && p.0.spec_hrp() == hrp@ && Ok::<
            (Seq<u8>, Seq<u8>),
            KeyError,
        >((p.0.spec_hash(), p.1.spec_bytes())) == spec_derive_account(
            m.spec_phrase(),
            passphrase@,
            path.spec_segments(),
            hrp@,
        ),
        r matches Err(e) ==> Err::<(Seq<u8>, Seq<u8>), KeyError>(e) == spec_derive_account(
            m.spec_phrase(),
            passphrase@,
            path.spec_segments(),
            hrp@,
        ),
{
    let seed = derive_seed(m, passphrase);
    let xprv = match derive_path(&seed, path) {
        Ok(k) => k,
        Err(e) => {
            return Err(e);
        },
    };
    let pubkey = xprv.public_key();
    let id = match from_public_key(&pubkey, hrp) {
        Ok(id) => id,
        Err(e) => {
            return Err(e);
        },
    };
    let handle = match signing_key(&xprv) {
        Ok(h) => h,
        Err(e) => {
            proof {
                assert(false);
            }
            return Err(e);
        },
    };
    Ok((id, handle))
}

} // verus!
