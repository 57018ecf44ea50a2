//! Account identifiers: a public key's 20-byte hash under a checksummed,
//! human-readable-prefix encoding.
//!
//! The hash chains SHA-256 and RIPEMD-160 over the compressed public key.
//! Its 160 bits are regrouped into 32 five-bit values — the regrouping and
//! its inverse are verified here — and rendered as bech32; decoding checks
//! the prefix and the group count and regroups the bits back.

use crate::bits::{
    bit8, bits_of_units, bits_to_units, lemma_u8_eq_low5, unit_bits8, units_to_bits,
};
use crate::errors::KeyError;
use crate::mnemonic::{lemma_bits_of_units_index, lemma_unit8_eq, spec_byte_of_bits};
use crate::primitives::{
    bech32_decode, bech32_encode, ripemd160, sha256, spec_bech32, spec_bech32_decode,
    spec_ripemd160, spec_sha256,
};
use crate::text::bytes_eq;
use vstd::prelude::*;

verus! {

/// The 20-byte account hash of a compressed public key.
pub open spec fn spec_hash160(b: Seq<u8>) -> Seq<u8> {
    spec_ripemd160(spec_sha256(b))
}

/// Whether bytes form a usable human-readable prefix: one to 83 lowercase
/// letters.
pub open spec fn hrp_wf(hrp: Seq<u8>) -> bool {
    1 <= hrp.len() <= 83 && forall|i: int| 0 <= i < hrp.len() ==> 97 <= #[trigger] hrp[i] <= 122
}

/// The five-bit value packing five bits, most significant first.
pub open spec fn spec_group_of_bits(b: Seq<bool>) -> u8
    recommends
        b.len() == 5,
{
    ((if b[0] {
        16int
    } else {
        0int
    }) + (if b[1] {
        8int
    } else {
        0int
    }) + (if b[2] {
        4int
    } else {
        0int
    }) + (if b[3] {
        2int
    } else {
        0int
    }) + (if b[4] {
        1int
    } else {
        0int
    })) as u8
}

/// The 32 five-bit groups carrying the bits of a 20-byte hash.
pub open spec fn spec_groups(hash: Seq<u8>) -> Seq<u8> {
    Seq::new(32, |i: int| spec_group_of_bits(bits_of_units(hash, 8).subrange(5 * i, 5 * i + 5)))
}

/// The 20 bytes carrying the bits of 32 five-bit groups.
pub open spec fn spec_regroup(groups: Seq<u8>) -> Seq<u8> {
    Seq::new(20, |i: int| spec_byte_of_bits(bits_of_units(groups, 5).subrange(8 * i, 8 * i + 8)))
}

/// The rendering of an account hash under a prefix.
pub open spec fn spec_account_text(hrp: Seq<u8>, hash: Seq<u8>) -> Seq<char> {
    spec_bech32(hrp, spec_groups(hash))
}

/// What reading account text back under an expected prefix yields: the
/// carried 20-byte hash, or an encoding failure when the text does not
/// decode, carries another prefix, or carries other than 32 groups.
pub open spec fn spec_text_to_hash(s: Seq<char>, hrp: Seq<u8>) -> Result<Seq<u8>, KeyError> {
    if !hrp_wf(hrp) {
        Err(KeyError::EncodingError)
    } else {
        match spec_bech32_decode(s) {
            Option::None => Err(KeyError::EncodingError),
            Option::Some((h, d)) => {
                if h == hrp && d.len() == 32 {
                    Ok(spec_regroup(d))
                } else {
                    Err(KeyError::EncodingError)
                }
            },
        }
    }
}

proof fn lemma_group_decomp(x: u8, c0: u8, c1: u8, c2: u8, c3: u8, c4: u8)
    by (bit_vector)
    requires
        c0 < 2,
        c1 < 2,
        c2 < 2,
        c3 < 2,
        c4 < 2,
        x == (c0 * 16 + c1 * 8 + c2 * 4 + c3 * 2 + c4) as u8,
    ensures
        ((x >> 4u8) & 1 == 1) == (c0 == 1),
        ((x >> 3u8) & 1 == 1) == (c1 == 1),
        ((x >> 2u8) & 1 == 1) == (c2 == 1),
        ((x >> 1u8) & 1 == 1) == (c3 == 1),
        ((x >> 0u8) & 1 == 1) == (c4 == 1),
        x < 32,
{
}

/// The five-bit value packed from five bits reads back as those bits.
proof fn lemma_group_of_bits_unit(b: Seq<bool>)
    requires
        b.len() == 5,
    ensures
        unit_bits8(spec_group_of_bits(b), 5) == b,
        spec_group_of_bits(b) < 32,
{
    let x = spec_group_of_bits(b);
    let c0: u8 = if b[0] {
        1
    } else {
        0
    };
    let c1: u8 = if b[1] {
        1
    } else {
        0
    };
    let c2: u8 = if b[2] {
        1
    } else {
        0
    };
    let c3: u8 = if b[3] {
        1
    } else {
        0
    };
    let c4: u8 = if b[4] {
        1
    } else {
        0
    };
    assert(x == (c0 * 16 + c1 * 8 + c2 * 4 + c3 * 2 + c4) as u8);
    lemma_group_decomp(x, c0, c1, c2, c3, c4);
    assert(unit_bits8(x, 5) =~= b);
}

/// Five-bit values with the same five-bit rendering are equal.
proof fn lemma_unit5_eq(x: u8, y: u8)
    requires
        x < 32,
        y < 32,
        unit_bits8(x, 5) == unit_bits8(y, 5),
    ensures
        x == y,
{
    assert forall|m: u8| m < 5 implies (((x >> m) & 1 == 1) == ((y >> m) & 1 == 1)) by {
        assert(unit_bits8(x, 5)[4 - m] == bit8(x, m));
        assert(unit_bits8(y, 5)[4 - m] == bit8(y, m));
    }
    lemma_u8_eq_low5(x, y);
}

/// Regrouping the groups of a 20-byte hash gives the hash back.
pub proof fn lemma_regroup_inverse(hash: Seq<u8>)
    requires
        hash.len() == 20,
    ensures
        spec_regroup(spec_groups(hash)) == hash,
{
    let hb = bits_of_units(hash, 8);
    let g = spec_groups(hash);
    crate::bits::lemma_bits_of_units_len(hash, 8);
    crate::bits::lemma_bits_of_units_len(g, 5);
    assert(bits_of_units(g, 5) =~= hb) by {
        assert forall|t: int| 0 <= t < 160 implies bits_of_units(g, 5)[t] == hb[t] by {
            let i = t / 5;
            lemma_bits_of_units_index(g, 5, i);
            lemma_group_of_bits_unit(hb.subrange(5 * i, 5 * i + 5));
            assert(bits_of_units(g, 5).subrange(5 * i, 5 * i + 5) == unit_bits8(g[i], 5));
            assert(unit_bits8(g[i], 5) == hb.subrange(5 * i, 5 * i + 5));
            assert(bits_of_units(g, 5)[5 * i + (t - 5 * i)] == bits_of_units(g, 5).subrange(
                5 * i,
                5 * i + 5,
            )[t - 5 * i]);
            assert(hb[5 * i + (t - 5 * i)] == hb.subrange(5 * i, 5 * i + 5)[t - 5 * i]);
        }
    }
    assert(spec_regroup(g) =~= hash) by {
        assert forall|i: int| 0 <= i < 20 implies spec_regroup(g)[i] == hash[i] by {
            lemma_bits_of_units_index(hash, 8, i);
            assert(bits_of_units(g, 5).subrange(8 * i, 8 * i + 8) == hb.subrange(8 * i, 8 * i + 8));
            crate::mnemonic::lemma_byte_of_bits_unit(hb.subrange(8 * i, 8 * i + 8));
            lemma_unit8_eq(spec_byte_of_bits(hb.subrange(8 * i, 8 * i + 8)), hash[i]);
        }
    }
}

/// An account identity: the prefix and the 20-byte public-key hash.
#[derive(Debug)]
pub struct AccountIdentity {
    hrp: Vec<u8>,
    hash: Vec<u8>,
}

impl AccountIdentity {
    /// The human-readable prefix bytes.
    pub closed spec fn spec_hrp(&self) -> Seq<u8> {
        self.hrp@
    }

    /// The 20-byte hash.
    pub closed spec fn spec_hash(&self) -> Seq<u8> {
        self.hash@
    }

    /// A usable prefix and a 20-byte hash.
    pub closed spec fn wf(&self) -> bool {
        hrp_wf(self.hrp@) && self.hash@.len() == 20
    }

    /// `wf` in terms of the public accessors.
    pub proof fn lemma_wf(&self)
        requires
            self.wf(),
        ensures
            hrp_wf(self.spec_hrp()),
            self.spec_hash().len() == 20,
    {
    }

    /// The prefix bytes.
    pub fn hrp(&self) -> (r: &Vec<u8>)
        ensures
            r@ == self.spec_hrp(),
    {
        &self.hrp
    }

    /// The hash bytes.
    pub fn hash(&self) -> (r: &Vec<u8>)
        ensures
            r@ == self.spec_hash(),
    {
        &self.hash
    }
}

/// Whether bytes are a usable prefix.
fn check_hrp(hrp: &Vec<u8>) -> (r: bool)
    ensures
        r == hrp_wf(hrp@),
{
    if hrp.len() < 1 || hrp.len() > 83 {
        return false;
    }
    let mut i: usize = 0;
    while i < hrp.len()
        invariant
            i <= hrp@.len(),
            forall|j: int| 0 <= j < i ==> 97 <= #[trigger] hrp@[j] <= 122,
        decreases hrp@.len() - i,
    {
        let b = hrp[i];
        if b < 97 || b > 122 {
            return false;
        }
        i += 1;
    }
    true
}

/// The account identity of a compressed public key under a prefix.
pub fn from_public_key(pubkey: &Vec<u8>, hrp: &Vec<u8>) -> (r: Result<AccountIdentity, KeyError>)
    ensures
        r is Ok <==> hrp_wf(hrp@),
        r matches Ok(id) ==> id.wf() && id.spec_hrp() == hrp@ && id.spec_hash() == spec_hash160(
            pubkey@,
        ),
        r matches Err(e) ==> e == KeyError::EncodingError,
{
    if !check_hrp(hrp) {
        return Err(KeyError::EncodingError);
    }
    let hash = ripemd160(&sha256(pubkey));
    Ok(AccountIdentity { hrp: copy_bytes(hrp), hash })
}

/// Copy a byte vector.
fn copy_bytes(v: &Vec<u8>) -> (r: Vec<u8>)
    ensures
        r@ == v@,
{
    let mut r: Vec<u8> = Vec::new();
    let mut i: usize = 0;
    while i < v.len()
        invariant
            i <= v@.len(),
            r@ == v@.take(i as int),
        decreases v@.len() - i,
    {
        r.push(v[i]);
        proof {
            assert(v@.take(i as int).push(v@[i as int]) =~= v@.take(i + 1 as int));
        }
        i += 1;
    }
    proof {
        assert(v@.take(v@.len() as int) =~= v@);
    }
    r
}

/// Render an account identity as text.
pub fn account_to_text(id: &AccountIdentity) -> (r: String)
    requires
        id.wf(),
    ensures
        r@ == spec_account_text(id.spec_hrp(), id.spec_hash()),
        spec_bech32_decode(r@) == Some((id.spec_hrp(), spec_groups(id.spec_hash()))),
{
    proof {
        id.lemma_wf();
        crate::bits::lemma_bits_of_units_len(id.spec_hash(), 8);
    }
    let bits = units_to_bits(id.hash(), 8);
    let groups = bits_to_units(&bits, 5, 32);
    proof {
        assert((1u8 << 5u8) == 32) by (bit_vector);
        assert(groups@ =~= spec_groups(id.spec_hash())) by {
            assert forall|i: int| 0 <= i < 32 implies groups@[i] == spec_groups(id.spec_hash())[i]
            by {
                lemma_bits_of_units_index(groups@, 5, i);
                crate::bits::lemma_bits_of_units_len(groups@, 5);
                assert(bits@.subrange(0, 160).subrange(5 * i, 5 * i + 5) =~= bits@.subrange(
                    5 * i,
                    5 * i + 5,
                ));
                assert(unit_bits8(groups@[i], 5) == bits@.subrange(5 * i, 5 * i + 5));
                lemma_group_of_bits_unit(bits@.subrange(5 * i, 5 * i + 5));
                lemma_unit5_eq(
                    groups@[i],
                    spec_group_of_bits(bits@.subrange(5 * i, 5 * i + 5)),
                );
            }
        }
    }
    bech32_encode(id.hrp(), &groups)
}

/// Read an account identity back from text under an expected prefix.
pub fn text_to_account(s: &str, hrp: &Vec<u8>) -> (r: Result<AccountIdentity, KeyError>)
    ensures
        r is Ok <==> spec_text_to_hash(s@, hrp@) is Ok,
        r matches Ok(id) ==> id.wf() && id.spec_hrp() == hrp@ && Ok::<Seq<u8>, KeyError>(
            id.spec_hash(),
        ) == spec_text_to_hash(s@, hrp@),
        r matches Err(e) ==> e == KeyError::EncodingError,
{
    if !check_hrp(hrp) {
        return Err(KeyError::EncodingError);
    }
    let (dec_hrp, groups) = match bech32_decode(s) {
        Some(p) => p,
        None => {
            return Err(KeyError::EncodingError);
        },
    };
    if !bytes_eq(&dec_hrp, hrp) {
        return Err(KeyError::EncodingError);
    }
    if groups.len() != 32 {
        return Err(KeyError::EncodingError);
    }
    let bits = units_to_bits(&groups, 5);
    let hash = bits_to_units(&bits, 8, 20);
    proof {
        assert(hash@ =~= spec_regroup(groups@)) by {
            crate::bits::lemma_bits_of_units_len(groups@, 5);
            assert forall|i: int| 0 <= i < 20 implies hash@[i] == spec_regroup(groups@)[i] by {
                lemma_bits_of_units_index(hash@, 8, i);
                assert(bits_of_units(hash@, 8).subrange(8 * i, 8 * i + 8) =~= bits@.subrange(
                    0,
                    160,
                ).subrange(8 * i, 8 * i + 8)) by {
                    crate::bits::lemma_bits_of_units_len(hash@, 8);
                }
                assert(bits@.subrange(0, 160).subrange(8 * i, 8 * i + 8) =~= bits@.subrange(
                    8 * i,
                    8 * i + 8,
                ));
                crate::mnemonic::lemma_byte_of_bits_unit(bits@.subrange(8 * i, 8 * i + 8));
                lemma_unit8_eq(hash@[i], spec_byte_of_bits(bits@.subrange(8 * i, 8 * i + 8)));
            }
        }
    }
    Ok(AccountIdentity { hrp: copy_bytes(hrp), hash })
}

/// Reading rendered account text back under the same prefix yields the same
/// identity.  The hypotheses are exactly what the bech32 renderer
/// guarantees of its output.
pub proof fn lemma_account_round_trip(hrp: Seq<u8>, hash: Seq<u8>, s: Seq<char>)
    requires
        hrp_wf(hrp),
        hash.len() == 20,
        s == spec_account_text(hrp, hash),
        spec_bech32_decode(s) == Some((hrp, spec_groups(hash))),
    ensures
        spec_text_to_hash(s, hrp) == Ok::<Seq<u8>, KeyError>(hash),
{
    lemma_regroup_inverse(hash);
}

} // verus!
