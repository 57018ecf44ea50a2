//! Hierarchical deterministic key derivation over the secp256k1 curve.
//!
//! The master key comes from an HMAC-SHA-512 of the seed under the curve's
//! fixed domain string; each child key comes from an HMAC of the parent's
//! chain code over either the parent's private key (hardened) or its
//! compressed public key, with the child index appended big-endian.  The
//! left half is added to the parent scalar modulo the group order; a result
//! of zero or an out-of-range left half fails the derivation.

use crate::errors::KeyError;
use crate::path::{segment_wf, DerivationPath, PathSegment};
use crate::primitives::{
    compressed_public_key, hmac_sha512, ripemd160, scalar_in_range, scalar_tweak_add, sha256,
    spec_compressed_point, spec_hmac_sha512, spec_ripemd160, spec_scalar_in_range, spec_scalar_sum,
    spec_sha256,
};
use crate::seed::Seed;
use vstd::prelude::*;

verus! {

/// The spec-level contents of an extended private key.
pub struct KeyNode {
    /// The 32-byte private scalar.
    pub key: Seq<u8>,
    /// The 32-byte chain code.
    pub chain: Seq<u8>,
    /// Steps from the master key.
    pub depth: nat,
    /// The first four bytes of the parent public key's hash.
    pub fingerprint: Seq<u8>,
    /// The raw child number, hardening offset included.
    pub child_number: u32,
}

/// The ASCII bytes of the curve's domain-separation string.
pub open spec fn curve_domain() -> Seq<u8> {
    seq![66u8, 105u8, 116u8, 99u8, 111u8, 105u8, 110u8, 32u8, 115u8, 101u8, 101u8, 100u8]
}

/// A child index in big-endian bytes.
pub open spec fn spec_be32(x: u32) -> Seq<u8> {
    seq![((x >> 24) & 0xff) as u8, ((x >> 16) & 0xff) as u8, ((x >> 8) & 0xff) as u8, (x
        & 0xff) as u8]
}

/// The raw child number of a step: the index, with the hardening offset
/// added for hardened steps.
pub open spec fn spec_child_number(seg: PathSegment) -> u32
    recommends
        segment_wf(seg),
{
    if seg.hardened {
        (seg.index + 0x80000000) as u32
    } else {
        seg.index
    }
}

/// The HMAC input of a child-derivation step.
pub open spec fn spec_child_data(parent_key: Seq<u8>, seg: PathSegment) -> Seq<u8> {
    if seg.hardened {
        seq![0u8] + parent_key + spec_be32(spec_child_number(seg))
    } else {
        spec_compressed_point(parent_key) + spec_be32(spec_child_number(seg))
    }
}

/// The first four bytes of the double hash of a parent's public key.
pub open spec fn spec_fingerprint(parent_key: Seq<u8>) -> Seq<u8> {
    spec_ripemd160(spec_sha256(spec_compressed_point(parent_key))).take(4)
}

/// What master-key derivation yields for a seed.
pub open spec fn spec_master_node(seed: Seq<u8>) -> Result<KeyNode, KeyError> {
    let i = spec_hmac_sha512(curve_domain(), seed);
    if spec_scalar_in_range(i.take(32)) {
        Ok(
            KeyNode {
                key: i.take(32),
                chain: i.skip(32),
                depth: 0,
                fingerprint: seq![0u8, 0u8, 0u8, 0u8],
                child_number: 0,
            },
        )
    } else {
        Err(KeyError::DerivationArithmeticError)
    }
}

/// What one child-derivation step yields.
pub open spec fn spec_child_node(p: KeyNode, seg: PathSegment) -> Result<KeyNode, KeyError> {
    if p.depth >= 255 {
        Err(KeyError::DerivationArithmeticError)
    } else {
        let i = spec_hmac_sha512(p.chain, spec_child_data(p.key, seg));
        let il = i.take(32);
        if spec_scalar_in_range(il) && spec_scalar_in_range(spec_scalar_sum(il, p.key)) {
            Ok(
                KeyNode {
                    key: spec_scalar_sum(il, p.key),
                    chain: i.skip(32),
                    depth: p.depth + 1,
                    fingerprint: spec_fingerprint(p.key),
                    child_number: spec_child_number(seg),
                },
            )
        } else {
            Err(KeyError::DerivationArithmeticError)
        }
    }
}

/// Folding child steps over a starting node.
pub open spec fn spec_fold_path(n: Result<KeyNode, KeyError>, segs: Seq<PathSegment>) -> Result<
    KeyNode,
    KeyError,
>
    decreases segs.len(),
{
    if segs.len() == 0 {
        n
    } else {
        match n {
            Err(e) => Err(e),
            Ok(k) => spec_fold_path(spec_child_node(k, segs[0]), segs.drop_first()),
        }
    }
}

/// What deriving a whole path from a seed yields.
pub open spec fn spec_derive_path(seed: Seq<u8>, segs: Seq<PathSegment>) -> Result<
    KeyNode,
    KeyError,
> {
    spec_fold_path(spec_master_node(seed), segs)
}

/// Folding the steps one at a time from the left agrees with folding the
/// whole path.
pub proof fn lemma_fold_snoc(n: Result<KeyNode, KeyError>, segs: Seq<PathSegment>, x: PathSegment)
    ensures
        spec_fold_path(n, segs) is Err ==> spec_fold_path(n, segs.push(x)) == spec_fold_path(
            n,
            segs,
        ),
        spec_fold_path(n, segs) matches Ok(k) ==> spec_fold_path(n, segs.push(x))
            == spec_child_node(k, x),
    decreases segs.len(),
{
    if segs.len() == 0 {
        assert(segs.push(x).drop_first() =~= segs);
        assert(segs.push(x)[0] == x);
        assert(spec_fold_path(n, segs.push(x)) == (match n {
            Err(e) => Err::<KeyNode, KeyError>(e),
            Ok(k) => spec_fold_path(spec_child_node(k, x), segs),
        }));
    } else {
        assert(segs.push(x).drop_first() =~= segs.drop_first().push(x));
        assert(segs.push(x)[0] == segs[0]);
        match n {
            Err(_) => {},
            Ok(k) => {
                lemma_fold_snoc(spec_child_node(k, segs[0]), segs.drop_first(), x);
            },
        }
    }
}

/// An extended private key: the scalar, the chain code, and the metadata
/// that names its place in the key tree.
pub struct ExtendedPrivateKey {
    key: Vec<u8>,
    chain_code: Vec<u8>,
    depth: u8,
    parent_fingerprint: Vec<u8>,
    child_number: u32,
}

impl View for ExtendedPrivateKey {
    type V = KeyNode;

    closed spec fn view(&self) -> KeyNode {
        KeyNode {
            key: self.key@,
            chain: self.chain_code@,
            depth: self.depth as nat,
            fingerprint: self.parent_fingerprint@,
            child_number: self.child_number,
        }
    }
}

impl Drop for ExtendedPrivateKey {
    /// Relies on `zeroize` to clear the private scalar and chain code when
    /// the value is released, on every exit path.
    #[verifier::external_body]
    fn drop(&mut self)
        opens_invariants none
        no_unwind
    {
        zeroize::Zeroize::zeroize(&mut self.key);
        zeroize::Zeroize::zeroize(&mut self.chain_code);
    }
}

impl ExtendedPrivateKey {
    /// Field sizes and a private scalar in range.
    pub closed spec fn wf(&self) -> bool {
        &&& self.key@.len() == 32
        &&& self.chain_code@.len() == 32
        &&& self.parent_fingerprint@.len() == 4
        &&& spec_scalar_in_range(self.key@)
    }

    /// `wf` in terms of the view.
    pub proof fn lemma_wf(&self)
        requires
            self.wf(),
        ensures
            self@.key.len() == 32,
            self@.chain.len() == 32,
            self@.fingerprint.len() == 4,
            self@.depth <= 255,
            spec_scalar_in_range(self@.key),
    {
    }

    /// The private scalar bytes.
    pub fn key_bytes(&self) -> (r: &Vec<u8>)
        ensures
            r@ == self@.key,
    {
        &self.key
    }

    /// The chain code bytes.
    pub fn chain_code(&self) -> (r: &Vec<u8>)
        ensures
            r@ == self@.chain,
    {
        &self.chain_code
    }

    /// Steps from the master key.
    pub fn depth(&self) -> (r: u8)
        ensures
            r == self@.depth,
    {
        self.depth
    }

    /// The parent fingerprint bytes.
    pub fn parent_fingerprint(&self) -> (r: &Vec<u8>)
        ensures
            r@ == self@.fingerprint,
    {
        &self.parent_fingerprint
    }

    /// The raw child number.
    pub fn child_number(&self) -> (r: u32)
        ensures
            r == self@.child_number,
    {
        self.child_number
    }

    /// The compressed public key of this key's scalar.
    pub fn public_key(&self) -> (r: Vec<u8>)
        requires
            self.wf(),
        ensures
            r@ == spec_compressed_point(self@.key),
            r@.len() == 33,
    {
        compressed_public_key(&self.key)
    }
}

/// Derive the master key of a seed.
pub fn master_key(seed: &Seed) -> (r: Result<ExtendedPrivateKey, KeyError>)
    requires
        seed.wf(),
    ensures
        r is Ok <==> spec_master_node(seed.spec_bytes()) is Ok,
        r matches Ok(k) ==> k.wf() && Ok::<KeyNode, KeyError>(k@) == spec_master_node(
            seed.spec_bytes(),
        ),
        r matches Err(e) ==> e == KeyError::DerivationArithmeticError,
{
    let mut domain: Vec<u8> = Vec::new();
    domain.push(66);
    domain.push(105);
    domain.push(116);
    domain.push(99);
    domain.push(111);
    domain.push(105);
    domain.push(110);
    domain.push(32);
    domain.push(115);
    domain.push(101);
    domain.push(101);
    domain.push(100);
    proof {
        assert(domain@ =~= curve_domain());
    }
    let i = hmac_sha512(&domain, seed.bytes());
    let key = take_range(&i, 0, 32);
    let chain_code = take_range(&i, 32, 64);
    if !scalar_in_range(&key) {
        return Err(KeyError::DerivationArithmeticError);
    }
    let mut parent_fingerprint: Vec<u8> = Vec::new();
    parent_fingerprint.push(0);
    parent_fingerprint.push(0);
    parent_fingerprint.push(0);
    parent_fingerprint.push(0);
    let k = ExtendedPrivateKey { key, chain_code, depth: 0, parent_fingerprint, child_number: 0 };
    proof {
        assert(k@.fingerprint =~= seq![0u8, 0u8, 0u8, 0u8]);
        assert(k@.key =~= spec_hmac_sha512(curve_domain(), seed.spec_bytes()).take(32));
        assert(k@.chain =~= spec_hmac_sha512(curve_domain(), seed.spec_bytes()).skip(32));
    }
    Ok(k)
}

/// Copy the bytes of a range of a vector.
fn take_range(v: &Vec<u8>, from: usize, to: usize) -> (r: Vec<u8>)
    requires
        from <= to <= v@.len(),
    ensures
        r@ == v@.subrange(from as int, to as int),
{
    let mut r: Vec<u8> = Vec::new();
    let mut i: usize = from;
    while i < to
        invariant
            from <= i <= to <= v@.len(),
            r@ == v@.subrange(from as int, i as int),
        decreases to - i,
    {
        r.push(v[i]);
        proof {
            assert(v@.subrange(from as int, i as int).push(v@[i as int]) =~= v@.subrange(
                from as int,
                i + 1 as int,
            ));
        }
        i += 1;
    }
    r
}

/// Append the big-endian bytes of a child number.
fn push_be32(out: &mut Vec<u8>, x: u32)
    ensures
        final(out)@ == old(out)@ + spec_be32(x),
{
    out.push(((x >> 24) & 0xff) as u8);
    out.push(((x >> 16) & 0xff) as u8);
    out.push(((x >> 8) & 0xff) as u8);
    out.push((x & 0xff) as u8);
    proof {
        assert(out@ =~= old(out)@ + spec_be32(x));
    }
}

/// Derive one child of an extended private key.
pub fn derive_child(parent: &ExtendedPrivateKey, seg: PathSegment) -> (r: Result<
    ExtendedPrivateKey,
    KeyError,
>)
    requires
        parent.wf(),
        segment_wf(seg),
    ensures
        r is Ok <==> spec_child_node(parent@, seg) is Ok,
        r matches Ok(k) ==> k.wf() && Ok::<KeyNode, KeyError>(k@) == spec_child_node(parent@, seg),
        r matches Err(e) ==> e == KeyError::DerivationArithmeticError,
{
    if parent.depth == 255 {
        return Err(KeyError::DerivationArithmeticError);
    }
    let child_number: u32 = if seg.hardened {
        seg.index + 0x80000000
    } else {
        seg.index
    };
    let mut data: Vec<u8> = Vec::new();
    if seg.hardened {
        data.push(0);
        let mut i: usize = 0;
        while i < 32
            invariant
                i <= 32,
                parent.wf(),
                data@ == seq![0u8] + parent@.key.take(i as int),
            decreases 32 - i,
        {
            data.push(parent.key_bytes()[i]);
            proof {
                assert(parent@.key.take(i as int).push(parent@.key[i as int]) =~= parent@.key.take(
                    i + 1 as int,
                ));
                assert(seq![0u8] + parent@.key.take(i as int) + seq![parent@.key[i as int]]
                    =~= seq![0u8] + parent@.key.take(i + 1 as int));
            }
            i += 1;
        }
        proof {
            assert(parent@.key.take(32) =~= parent@.key);
        }
    } else {
        data = parent.public_key();
    }
    push_be32(&mut data, child_number);
    proof {
        assert(data@ == spec_child_data(parent@.key, seg));
    }
    let i = hmac_sha512(parent.chain_code(), &data);
    let il = take_range(&i, 0, 32);
    let chain_code = take_range(&i, 32, 64);
    let key = match scalar_tweak_add(&il, &parent.key) {
        Some(k) => k,
        None => {
            return Err(KeyError::DerivationArithmeticError);
        },
    };
    let pubkey = parent.public_key();
    let digest = ripemd160(&sha256(&pubkey));
    let parent_fingerprint = take_range(&digest, 0, 4);
    let depth = parent.depth + 1;
    let k = ExtendedPrivateKey { key, chain_code, depth, parent_fingerprint, child_number };
    proof {
        let ghost spec_i = spec_hmac_sha512(parent@.chain, spec_child_data(parent@.key, seg));
        assert(il@ == spec_i.take(32));
        assert(k@.chain == spec_i.skip(32));
        assert(k@.fingerprint == spec_fingerprint(parent@.key));
    }
    Ok(k)
}

/// Derive the key a path names, starting from the master key of a seed.
pub fn derive_path(seed: &Seed, path: &DerivationPath) -> (r: Result<ExtendedPrivateKey, KeyError>)
    requires
        seed.wf(),
        path.wf(),
    ensures
        r is Ok <==> spec_derive_path(seed.spec_bytes(), path.spec_segments()) is Ok,
        r matches Ok(k) ==> k.wf() && Ok::<KeyNode, KeyError>(k@) == spec_derive_path(
            seed.spec_bytes(),
            path.spec_segments(),
        ),
        r matches Err(e) ==> e == KeyError::DerivationArithmeticError && Err::<
            KeyNode,
            KeyError,
        >(e) == spec_derive_path(seed.spec_bytes(), path.spec_segments()),
{
    let ghost segs = path.spec_segments();
    proof {
        path.lemma_wf();
    }
    let mut key = match master_key(seed) {
        Ok(k) => k,
        Err(e) => {
            proof {
                assert(spec_fold_path(spec_master_node(seed.spec_bytes()), segs) is Err) by {
                    lemma_fold_err(spec_master_node(seed.spec_bytes()), segs);
                }
            }
            return Err(e);
        },
    };
    let mut i: usize = 0;
    proof {
        assert(segs.take(0) =~= Seq::<PathSegment>::empty());
    }
    while i < path.len()
        invariant
            i <= segs.len(),
            seed.wf(),
            path.wf(),
            segs == path.spec_segments(),
            key.wf(),
            Ok::<KeyNode, KeyError>(key@) == spec_fold_path(
                spec_master_node(seed.spec_bytes()),
                segs.take(i as int),
            ),
        decreases segs.len() - i,
    {
        let seg = path.segment(i);
        proof {
            path.lemma_wf();
        }
        let next = match derive_child(&key, seg) {
            Ok(k) => k,
            Err(e) => {
                proof {
                    lemma_fold_snoc(spec_master_node(seed.spec_bytes()), segs.take(i as int), seg);
                    assert(segs.take(i as int).push(seg) =~= segs.take(i + 1 as int));
                    lemma_fold_take_err(spec_master_node(seed.spec_bytes()), segs, i + 1);
                }
                return Err(e);
            },
        };
        proof {
            lemma_fold_snoc(spec_master_node(seed.spec_bytes()), segs.take(i as int), seg);
            assert(segs.take(i as int).push(seg) =~= segs.take(i + 1 as int));
        }
        key = next;
        i += 1;
    }
    proof {
        assert(segs.take(segs.len() as int) =~= segs);
    }
    Ok(key)
}

/// A fold from an error stays that error.
proof fn lemma_fold_err(n: Result<KeyNode, KeyError>, segs: Seq<PathSegment>)
    requires
        n is Err,
    ensures
        spec_fold_path(n, segs) == n,
    decreases segs.len(),
{
    if segs.len() > 0 {
        lemma_fold_err(n, segs.drop_first());
    }
}

/// A fold that fails on a prefix fails on the whole path, with the same
/// error.
proof fn lemma_fold_take_err(n: Result<KeyNode, KeyError>, segs: Seq<PathSegment>, i: int)
    requires
        0 <= i <= segs.len(),
        spec_fold_path(n, segs.take(i)) is Err,
    ensures
        spec_fold_path(n, segs) == spec_fold_path(n, segs.take(i)),
    decreases i, segs.len(),
{
    if i == 0 {
        assert(segs.take(0) =~= Seq::<PathSegment>::empty());
        lemma_fold_err(n, segs);
    } else if segs.len() == 0 {
        assert(segs.take(i) =~= segs);
    } else {
        match n {
            Err(_) => {
                lemma_fold_err(n, segs);
                lemma_fold_err(n, segs.take(i));
            },
            Ok(k) => {
                assert(segs.take(i)[0] == segs[0]);
                assert(segs.take(i).drop_first() =~= segs.drop_first().take(i - 1));
                lemma_fold_take_err(spec_child_node(k, segs[0]), segs.drop_first(), i - 1);
            },
        }
    }
}

} // verus!
