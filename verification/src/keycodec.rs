//! Serialization of extended keys, and the signing-key handle.
//!
//! An extended key serializes to 78 bytes: a 4-byte version, the depth, the
//! parent fingerprint, the child number big-endian, the chain code, and a
//! 33-byte key field (a zero byte then the scalar for private keys, the
//! compressed point for public keys).  A 4-byte checksum, the leading bytes
//! of the double SHA-256 of the payload, is appended and the 82 bytes are
//! rendered in base-58.

use crate::errors::KeyError;
use crate::hd::{spec_be32, ExtendedPrivateKey, KeyNode};
use crate::primitives::{
    ascii_string, base58_encode, scalar_in_range, sha256, spec_base58, spec_compressed_point,
    spec_scalar_in_range, spec_sha256,
};
use vstd::prelude::*;
use vstd::utf8::{encode_utf8, is_ascii_chars};

verus! {

/// Which serialization of an extended key is asked for.
#[derive(Clone, Copy, Debug, PartialEq, Eq, Structural)]
pub enum KeyVariant {
    /// The private serialization, `xprv`.
    Private,
    /// The public serialization, `xpub`.
    Public,
}

/// The version bytes of a variant.
pub open spec fn spec_version(variant: KeyVariant) -> Seq<u8> {
    match variant {
        KeyVariant::Private => seq![0x04u8, 0x88u8, 0xadu8, 0xe4u8],
        KeyVariant::Public => seq![0x04u8, 0x88u8, 0xb2u8, 0x1eu8],
    }
}

/// The expected leading text of a variant's rendering.
pub open spec fn spec_prefix(variant: KeyVariant) -> Seq<u8> {
    match variant {
        KeyVariant::Private => seq![120u8, 112u8, 114u8, 118u8],
        KeyVariant::Public => seq![120u8, 112u8, 117u8, 98u8],
    }
}

/// The 33-byte key field of a serialization.
pub open spec fn spec_key_field(node: KeyNode, variant: KeyVariant) -> Seq<u8> {
    match variant {
        KeyVariant::Private => seq![0u8] + node.key,
        KeyVariant::Public => spec_compressed_point(node.key),
    }
}

/// The 78-byte serialization payload of an extended key.
pub open spec fn spec_payload(node: KeyNode, variant: KeyVariant) -> Seq<u8> {
    spec_version(variant) + seq![node.depth as u8] + node.fingerprint + spec_be32(node.child_number)
        + node.chain + spec_key_field(node, variant)
}

/// The full rendering: payload, then the leading four bytes of its double
/// SHA-256, in base-58.
pub open spec fn spec_encoded(node: KeyNode, variant: KeyVariant) -> Seq<u8> {
    spec_base58(
        spec_payload(node, variant) + spec_sha256(spec_sha256(spec_payload(node, variant))).take(4),
    )
}

/// Whether rendered text opens with the variant's expected prefix.
pub open spec fn spec_prefix_ok(node: KeyNode, variant: KeyVariant) -> bool {
    spec_encoded(node, variant).len() >= 4 && spec_encoded(node, variant).take(4) == spec_prefix(
        variant,
    )
}

/// Serialize an extended key as text.  The rendering is checked to open
/// with the expected prefix; one that does not is reported as an encoding
/// failure rather than returned.
pub fn encode_extended_key(key: &ExtendedPrivateKey, variant: KeyVariant) -> (r: Result<
    String,
    KeyError,
>)
    requires
        key.wf(),
    ensures
        r is Ok <==> spec_prefix_ok(key@, variant),
        r matches Ok(s) ==> is_ascii_chars(s@) && encode_utf8(s@) == spec_encoded(key@, variant),
        r matches Err(e) ==> e == KeyError::EncodingError,
{
    proof {
        key.lemma_wf();
    }
    let mut payload: Vec<u8> = Vec::new();
    match variant {
        KeyVariant::Private => {
            payload.push(0x04);
            payload.push(0x88);
            payload.push(0xad);
            payload.push(0xe4);
        },
        KeyVariant::Public => {
            payload.push(0x04);
            payload.push(0x88);
            payload.push(0xb2);
            payload.push(0x1e);
        },
    }
    proof {
        assert(payload@ =~= spec_version(variant));
    }
    payload.push(key.depth());
    let ghost after_depth = payload@;
    proof {
        assert(after_depth =~= spec_version(variant) + seq![key@.depth as u8]);
    }
    extend_bytes(&mut payload, key.parent_fingerprint());
    push_be32_bytes(&mut payload, key.child_number());
    extend_bytes(&mut payload, key.chain_code());
    match variant {
        KeyVariant::Private => {
            payload.push(0);
            extend_bytes(&mut payload, key.key_bytes());
            proof {
                assert(payload@ =~= spec_payload(key@, variant));
            }
        },
        KeyVariant::Public => {
            let point = key.public_key();
            extend_bytes(&mut payload, &point);
            proof {
                assert(payload@ =~= spec_payload(key@, variant));
            }
        },
    }
    let check = sha256(&sha256(&payload));
    let mut full = payload;
    full.push(check[0]);
    full.push(check[1]);
    full.push(check[2]);
    full.push(check[3]);
    proof {
        assert(check@.take(4) =~= seq![check@[0], check@[1], check@[2], check@[3]]);
        assert(full@ =~= spec_payload(key@, variant) + spec_sha256(
            spec_sha256(spec_payload(key@, variant)),
        ).take(4));
    }
    let text = base58_encode(&full);
    let ok = match variant {
        KeyVariant::Private => {
            text.len() >= 4 && text[0] == 120 && text[1] == 112 && text[2] == 114 && text[3] == 118
        },
        KeyVariant::Public => {
            text.len() >= 4 && text[0] == 120 && text[1] == 112 && text[2] == 117 && text[3] == 98
        },
    };
    if !ok {
        proof {
            if spec_prefix_ok(key@, variant) {
                assert(text@.take(4)[0] == text@[0] && text@.take(4)[1] == text@[1] && text@.take(
                    4,
                )[2] == text@[2] && text@.take(4)[3] == text@[3]);
            }
        }
        return Err(KeyError::EncodingError);
    }
    proof {
        assert(text@.take(4) =~= spec_prefix(variant));
    }
    Ok(ascii_string(text))
}

/// Append all bytes of a vector.
fn extend_bytes(out: &mut Vec<u8>, v: &Vec<u8>)
    ensures
        final(out)@ == old(out)@ + v@,
{
    let mut i: usize = 0;
    while i < v.len()
        invariant
            i <= v@.len(),
            out@ == old(out)@ + v@.take(i as int),
        decreases v@.len() - i,
    {
        out.push(v[i]);
        proof {
            assert(v@.take(i as int).push(v@[i as int]) =~= v@.take(i + 1 as int));
            assert(old(out)@ + v@.take(i as int) + seq![v@[i as int]] =~= old(out)@ + v@.take(
                i + 1 as int,
            ));
        }
        i += 1;
    }
    proof {
        assert(v@.take(v@.len() as int) =~= v@);
    }
}

/// Append the big-endian bytes of a child number.
fn push_be32_bytes(out: &mut Vec<u8>, x: u32)
    ensures
        final(out)@ == old(out)@ + spec_be32(x),
{
    out.push(((x >> 24) & 0xff) as u8);
    out.push(((x >> 16) & 0xff) as u8);
    out.push(((x >> 8) & 0xff) as u8);
    out.push((x & 0xff) as u8);
    proof {
        assert(out@ =~= old(out)@ + spec_be32(x));
    }
}

/// A private scalar ready for signing: 32 bytes, nonzero and below the
/// group order.
#[derive(Debug)]
pub struct SigningKeyHandle {
    bytes: Vec<u8>,
}

impl Drop for SigningKeyHandle {
    /// Relies on `zeroize` to clear the scalar when the handle is released,
    /// on every exit path.
    #[verifier::external_body]
    fn drop(&mut self)
        opens_invariants none
        no_unwind
    {
        zeroize::Zeroize::zeroize(&mut self.bytes);
    }
}

impl SigningKeyHandle {
    /// The scalar bytes.
    pub closed spec fn spec_bytes(&self) -> Seq<u8> {
        self.bytes@
    }

    /// 32 bytes forming a scalar in range.
    pub closed spec fn wf(&self) -> bool {
        self.bytes@.len() == 32 && spec_scalar_in_range(self.bytes@)
    }

    /// `wf` in terms of the public accessor.
    pub proof fn lemma_wf(&self)
        requires
            self.wf(),
        ensures
            self.spec_bytes().len() == 32,
            spec_scalar_in_range(self.spec_bytes()),
    {
    }

    /// The scalar bytes.
    pub fn bytes(&self) -> (r: &Vec<u8>)
        ensures
            r@ == self.spec_bytes(),
    {
        &self.bytes
    }
}

/// The signing key of an extended private key.  The scalar is checked
/// again here; raw key material that is zero or not below the group order
/// is rejected rather than handed out.
pub fn signing_key(key: &ExtendedPrivateKey) -> (r: Result<SigningKeyHandle, KeyError>)
    requires
        key.wf(),
    ensures
        r is Ok,
        r matches Ok(h) ==> h.wf() && h.spec_bytes() == key@.key,
{
    proof {
        key.lemma_wf();
    }
    match signing_key_from_bytes(key.key_bytes()) {
        Ok(h) => Ok(h),
        Err(e) => Err(e),
    }
}

/// A signing key from raw scalar bytes.
pub fn signing_key_from_bytes(bytes: &Vec<u8>) -> (r: Result<SigningKeyHandle, KeyError>)
    ensures
        r is Ok <==> bytes@.len() == 32 && spec_scalar_in_range(bytes@),
        r matches Ok(h) ==> h.wf() && h.spec_bytes() == bytes@,
        r matches Err(e) ==> e == KeyError::InvalidKeyMaterialError,
{
    if bytes.len() != 32 {
        return Err(KeyError::InvalidKeyMaterialError);
    }
    if !scalar_in_range(bytes) {
        return Err(KeyError::InvalidKeyMaterialError);
    }
    let mut copy: Vec<u8> = Vec::new();
    let mut i: usize = 0;
    while i < bytes.len()
        invariant
            i <= bytes@.len(),
            copy@ == bytes@.take(i as int),
        decreases bytes@.len() - i,
    {
        copy.push(bytes[i]);
        proof {
            assert(bytes@.take(i as int).push(bytes@[i as int]) =~= bytes@.take(i + 1 as int));
        }
        i += 1;
    }
    proof {
        assert(bytes@.take(bytes@.len() as int) =~= bytes@);
    }
    Ok(SigningKeyHandle { bytes: copy })
}

} // verus!
