//! Seed derivation: a mnemonic phrase and an optional passphrase to 64
//! bytes of key material.

use crate::mnemonic::Mnemonic;
use crate::primitives::{nfkd, pbkdf2_sha512, spec_nfkd, spec_pbkdf2_sha512};
use vstd::prelude::*;
use vstd::string::StrSliceExecFns;
use vstd::utf8::encode_utf8;

verus! {

/// The salt: the ASCII bytes of the fixed domain word, then the normalized
/// passphrase bytes.
pub open spec fn spec_salt(passphrase: Seq<char>) -> Seq<u8> {
    seq![109u8, 110u8, 101u8, 109u8, 111u8, 110u8, 105u8, 99u8] + encode_utf8(
        spec_nfkd(passphrase),
    )
}

/// The seed a phrase and passphrase derive: 2048 rounds of
/// PBKDF2-HMAC-SHA-512 over the phrase bytes with the salt above.
pub open spec fn spec_seed(phrase: Seq<u8>, passphrase: Seq<char>) -> Seq<u8> {
    spec_pbkdf2_sha512(phrase, spec_salt(passphrase), 2048)
}

/// A derived 64-byte seed.
pub struct Seed {
    bytes: Vec<u8>,
}

impl Seed {
    /// The seed bytes.
    pub closed spec fn spec_bytes(&self) -> Seq<u8> {
        self.bytes@
    }

    /// A seed always holds exactly 64 bytes.
    pub closed spec fn wf(&self) -> bool {
        self.bytes@.len() == 64
    }

    /// `wf` in terms of the public accessor.
    pub proof fn lemma_wf(&self)
        requires
            self.wf(),
        ensures
            self.spec_bytes().len() == 64,
    {
    }

    /// The seed bytes.
    pub fn bytes(&self) -> (r: &Vec<u8>)
        ensures
            r@ == self.spec_bytes(),
    {
        &self.bytes
    }

    /// A seed from raw bytes, for callers that store seeds themselves.
    pub fn from_bytes(bytes: Vec<u8>) -> (r: Option<Seed>)
        ensures
            r is Some <==> bytes@.len() == 64,
            r is Some ==> r.unwrap().wf() && r.unwrap().spec_bytes() == bytes@,
    {
        if bytes.len() == 64 {
            Some(Seed { bytes })
        } else {
            None
        }
    }
}

impl Drop for Seed {
    /// Relies on `zeroize` to clear the seed bytes when the value is
    /// released, on every exit path.
    #[verifier::external_body]
    fn drop(&mut self)
        opens_invariants none
        no_unwind
    {
        zeroize::Zeroize::zeroize(&mut self.bytes);
    }
}

/// Derive the seed of a mnemonic under a passphrase.
pub fn derive_seed(m: &Mnemonic, passphrase: &str) -> (r: Seed)
    ensures
        r.wf(),
        r.spec_bytes() == spec_seed(m.spec_phrase(), passphrase@),
{
    let normalized = nfkd(passphrase);
    let pass_bytes = normalized.as_str().as_bytes_vec();
    let mut salt: Vec<u8> = Vec::new();
    salt.push(109);
    salt.push(110);
    salt.push(101);
    salt.push(109);
    salt.push(111);
    salt.push(110);
    salt.push(105);
    salt.push(99);
    let ghost prefix = salt@;
    proof {
        assert(prefix =~= seq![109u8, 110u8, 101u8, 109u8, 111u8, 110u8, 105u8, 99u8]);
    }
    let mut i: usize = 0;
    while i < pass_bytes.len()
        invariant
            i <= pass_bytes@.len(),
            salt@ == prefix + pass_bytes@.take(i as int),
        decreases pass_bytes@.len() - i,
    {
        salt.push(pass_bytes[i]);
        proof {
            assert(pass_bytes@.take(i as int).push(pass_bytes@[i as int]) =~= pass_bytes@.take(
                i + 1 as int,
            ));
            assert(prefix + pass_bytes@.take(i as int) + seq![pass_bytes@[i as int]] =~= prefix
                + pass_bytes@.take(i + 1 as int));
        }
        i += 1;
    }
    proof {
        assert(pass_bytes@.take(pass_bytes@.len() as int) =~= pass_bytes@);
        assert(salt@ == spec_salt(passphrase@));
    }
    let bytes = pbkdf2_sha512(m.phrase_bytes(), &salt, 2048);
    Seed { bytes }
}

} // verus!
