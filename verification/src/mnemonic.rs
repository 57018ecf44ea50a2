//! The mnemonic codec: entropy to phrase and phrase back to entropy.
//!
//! A phrase carries the entropy bits followed by a checksum, the leading
//! `entropy_bits / 32` bits of the entropy's SHA-256 digest, cut into 11-bit
//! groups, one wordlist word per group.  Parsing looks every word up first,
//! then rebuilds the entropy and verifies the checksum; each error kind
//! comes exactly on the inputs its contract names.

use crate::bits::{
    bit8, bits_of_units, bits_of_words, bits_to_units, bits_to_words, lemma_bits_of_units_len,
    lemma_bits_of_words_len, lemma_u8_eq_by_bits, unit_bits8, units_to_bits, words_to_bits,
};
use crate::errors::KeyError;
use crate::primitives::{ascii_string, os_fill_random, sha256, spec_sha256};
use crate::text::{join, join_words, split, split_bytes, space};
use crate::wordlist::{lemma_words_distinct, lemma_words_space_free, word_wf, words_wf, Wordlist};
use vstd::prelude::*;
use vstd::utf8::{encode_utf8, is_ascii_chars};

verus! {

/// The supported entropy sizes, in bytes.
pub open spec fn valid_entropy_len(n: nat) -> bool {
    n == 16 || n == 20 || n == 24 || n == 28 || n == 32
}

/// The word counts of well-formed phrases.
pub open spec fn valid_word_count(c: nat) -> bool {
    c == 12 || c == 15 || c == 18 || c == 21 || c == 24
}

/// Entropy bytes carried by a phrase of `c` words.
pub open spec fn entropy_len_of(c: nat) -> nat {
    c / 3 * 4
}

/// The bit string a phrase over entropy `e` encodes: the entropy bits
/// followed by the leading `e.len() / 4` bits of the entropy's digest.
pub open spec fn mnemonic_bits(e: Seq<u8>) -> Seq<bool> {
    bits_of_units(e, 8) + bits_of_units(spec_sha256(e), 8).take((e.len() / 4) as int)
}

/// Whether a word occurs in the wordlist.
pub open spec fn known_word(ws: Seq<Seq<u8>>, w: Seq<u8>) -> bool {
    exists|i: int| 0 <= i < ws.len() && ws[i] == w
}

/// The index of a word in the wordlist.
pub open spec fn word_index(ws: Seq<Seq<u8>>, w: Seq<u8>) -> int {
    choose|i: int| 0 <= i < ws.len() && ws[i] == w
}

/// Whether every token of the phrase is a wordlist word.
pub open spec fn all_known(ws: Seq<Seq<u8>>, toks: Seq<Seq<u8>>) -> bool {
    forall|t: int| 0 <= t < toks.len() ==> known_word(ws, #[trigger] toks[t])
}

/// The indices of the phrase's tokens in the wordlist.
pub open spec fn indices_of_tokens(ws: Seq<Seq<u8>>, toks: Seq<Seq<u8>>) -> Seq<u16> {
    Seq::new(toks.len(), |k: int| word_index(ws, toks[k]) as u16)
}

/// The byte packing eight bits, most significant first.
pub open spec fn spec_byte_of_bits(b: Seq<bool>) -> u8
    recommends
        b.len() == 8,
{
    ((if b[0] {
        128int
    } else {
        0int
    }) + (if b[1] {
        64int
    } else {
        0int
    }) + (if b[2] {
        32int
    } else {
        0int
    }) + (if b[3] {
        16int
    } else {
        0int
    }) + (if b[4] {
        8int
    } else {
        0int
    }) + (if b[5] {
        4int
    } else {
        0int
    }) + (if b[6] {
        2int
    } else {
        0int
    }) + (if b[7] {
        1int
    } else {
        0int
    })) as u8
}

/// The first `count` bytes a bit string encodes.
pub open spec fn bytes_of_bits(bits: Seq<bool>, count: nat) -> Seq<u8> {
    Seq::new(count, |i: int| spec_byte_of_bits(bits.subrange(8 * i, 8 * i + 8)))
}

/// The entropy a sequence of word indices encodes, before any checksum test.
pub open spec fn candidate_entropy(idx: Seq<u16>) -> Seq<u8> {
    bytes_of_bits(bits_of_words(idx), entropy_len_of(idx.len()))
}

/// Whether the trailing bits of the phrase match the digest of the entropy
/// the leading bits encode.
pub open spec fn checksum_ok(idx: Seq<u16>) -> bool {
    let e = candidate_entropy(idx);
    bits_of_words(idx).skip(8 * e.len() as int) == bits_of_units(spec_sha256(e), 8).take(
        (e.len() / 4) as int,
    )
}

/// A validated mnemonic: its entropy, the word indices, and the phrase, tied
/// together against the wordlist it was built with.
pub struct Mnemonic {
    entropy: Vec<u8>,
    indices: Vec<u16>,
    phrase: Vec<u8>,
    words: Ghost<Seq<Seq<u8>>>,
}

impl Drop for Mnemonic {
    /// Relies on `zeroize` to clear the entropy, the indices and the phrase
    /// when the mnemonic is released, on every exit path.
    #[verifier::external_body]
    fn drop(&mut self)
        opens_invariants none
        no_unwind
    {
        zeroize::Zeroize::zeroize(&mut self.entropy);
        zeroize::Zeroize::zeroize(&mut self.indices);
        zeroize::Zeroize::zeroize(&mut self.phrase);
    }
}

impl Mnemonic {
    /// The entropy bytes.
    pub closed spec fn spec_entropy(&self) -> Seq<u8> {
        self.entropy@
    }

    /// The word indices.
    pub closed spec fn spec_indices(&self) -> Seq<u16> {
        self.indices@
    }

    /// The phrase bytes: the words joined with single spaces.
    pub closed spec fn spec_phrase(&self) -> Seq<u8> {
        self.phrase@
    }

    /// The wordlist the mnemonic was built against.
    pub closed spec fn spec_words(&self) -> Seq<Seq<u8>> {
        self.words@
    }

    /// The words of the phrase, as the wordlist entries the indices pick.
    pub open spec fn word_seq(&self) -> Seq<Seq<u8>> {
        Seq::new(self.spec_indices().len(), |k: int| self.spec_words()[self.spec_indices()[k] as int])
    }

    /// What every mnemonic satisfies: a supported entropy size, indices that
    /// carry exactly the entropy and checksum bits, and the phrase joined
    /// from the words the indices pick.
    pub closed spec fn wf(&self) -> bool {
        &&& words_wf(self.words@)
        &&& valid_entropy_len(self.entropy@.len())
        &&& self.indices@.len() == 3 * (self.entropy@.len() / 4)
        &&& forall|k: int| 0 <= k < self.indices@.len() ==> self.indices@[k] < 2048
        &&& bits_of_words(self.indices@) == mnemonic_bits(self.entropy@)
        &&& self.phrase@ == join_words(self.word_seq(), 32)
    }

    /// `wf` in terms of the public spec accessors.
    pub proof fn lemma_wf(&self)
        requires
            self.wf(),
        ensures
            words_wf(self.spec_words()),
            valid_entropy_len(self.spec_entropy().len()),
            self.spec_indices().len() == 3 * (self.spec_entropy().len() / 4),
            forall|k: int| 0 <= k < self.spec_indices().len() ==> self.spec_indices()[k] < 2048,
            bits_of_words(self.spec_indices()) == mnemonic_bits(self.spec_entropy()),
            self.spec_phrase() == join_words(self.word_seq(), 32),
    {
    }

    /// The entropy bytes.
    pub fn entropy(&self) -> (r: &Vec<u8>)
        ensures
            r@ == self.spec_entropy(),
    {
        &self.entropy
    }

    /// The phrase bytes.
    pub fn phrase_bytes(&self) -> (r: &Vec<u8>)
        ensures
            r@ == self.spec_phrase(),
    {
        &self.phrase
    }

    /// The number of words in the phrase.
    pub fn word_count(&self) -> (r: usize)
        ensures
            r == self.spec_indices().len(),
    {
        self.indices.len()
    }

    /// The phrase as text.
    pub fn phrase_string(&self) -> (r: String)
        requires
            self.wf(),
        ensures
            is_ascii_chars(r@),
            encode_utf8(r@) == self.spec_phrase(),
    {
        proof {
            lemma_words_space_free(self.words@);
            lemma_join_bytes_bounded(self.word_seq(), self.words@);
        }
        ascii_string(self.phrase.clone())
    }
}

/// Every byte of a phrase joined from wordlist words is ASCII.
proof fn lemma_join_bytes_bounded(ws: Seq<Seq<u8>>, list: Seq<Seq<u8>>)
    requires
        words_wf(list),
        forall|k: int| 0 <= k < ws.len() ==> known_word(list, #[trigger] ws[k]),
    ensures
        forall|i: int| 0 <= i < join_words(ws, 32).len() ==> #[trigger] join_words(ws, 32)[i] < 128,
    decreases ws.len(),
{
    if ws.len() == 0 {
    } else if ws.len() == 1 {
        assert(word_wf(ws[0]));
    } else {
        assert(word_wf(ws[0]));
        assert(forall|k: int|
            0 <= k < ws.drop_first().len() ==> known_word(list, #[trigger] ws.drop_first()[k]));
        lemma_join_bytes_bounded(ws.drop_first(), list);
        assert forall|i: int| 0 <= i < join_words(ws, 32).len() implies #[trigger] join_words(ws, 32)[i]
            < 128 by {
            let head = ws[0] + seq![space()];
            if i < head.len() {
            } else {
                assert(join_words(ws, 32)[i] == join_words(ws.drop_first(), 32)[i - head.len()]);
            }
        }
    }
}


/// What parsing a phrase against a wordlist yields: the entropy and the
/// word indices, or the error its contract names.  Unknown words are
/// reported first; then a word count outside the supported set; then a
/// checksum mismatch.
pub open spec fn spec_parse_result(ws: Seq<Seq<u8>>, phrase: Seq<u8>) -> Result<
    (Seq<u8>, Seq<u16>),
    KeyError,
> {
    let toks = split_bytes(phrase, 32);
    if !all_known(ws, toks) {
        Err(KeyError::UnknownWordError)
    } else if !valid_word_count(toks.len()) {
        Err(KeyError::InvalidEntropyLength)
    } else {
        let idx = indices_of_tokens(ws, toks);
        if !checksum_ok(idx) {
            Err(KeyError::ChecksumMismatchError)
        } else {
            Ok((candidate_entropy(idx), idx))
        }
    }
}

/// In a well-formed wordlist the index of a word is the position it stands
/// at, and nowhere else.
pub proof fn lemma_index_unique(ws: Seq<Seq<u8>>, w: Seq<u8>, i: int)
    requires
        words_wf(ws),
        0 <= i < ws.len(),
        ws[i] == w,
    ensures
        known_word(ws, w),
        word_index(ws, w) == i,
{
    assert(known_word(ws, w));
    let j = word_index(ws, w);
    assert(0 <= j < ws.len() && ws[j] == w);
    lemma_words_distinct(ws);
    if i < j {
        assert(ws[i] != ws[j]);
    } else if j < i {
        assert(ws[j] != ws[i]);
    }
}

proof fn lemma_byte_decomp(x: u8, c0: u8, c1: u8, c2: u8, c3: u8, c4: u8, c5: u8, c6: u8, c7: u8)
    by (bit_vector)
    requires
        c0 < 2,
        c1 < 2,
        c2 < 2,
        c3 < 2,
        c4 < 2,
        c5 < 2,
        c6 < 2,
        c7 < 2,
        x == (c0 * 128 + c1 * 64 + c2 * 32 + c3 * 16 + c4 * 8 + c5 * 4 + c6 * 2 + c7) as u8,
    ensures
        ((x >> 7u8) & 1 == 1) == (c0 == 1),
        ((x >> 6u8) & 1 == 1) == (c1 == 1),
        ((x >> 5u8) & 1 == 1) == (c2 == 1),
        ((x >> 4u8) & 1 == 1) == (c3 == 1),
        ((x >> 3u8) & 1 == 1) == (c4 == 1),
        ((x >> 2u8) & 1 == 1) == (c5 == 1),
        ((x >> 1u8) & 1 == 1) == (c6 == 1),
        ((x >> 0u8) & 1 == 1) == (c7 == 1),
{
}

/// The byte packed from eight bits reads back as those bits.
pub proof fn lemma_byte_of_bits_unit(b: Seq<bool>)
    requires
        b.len() == 8,
    ensures
        unit_bits8(spec_byte_of_bits(b), 8) == b,
{
    let x = spec_byte_of_bits(b);
    let c0: u8 = if b[0] { 1 } else { 0 };
    let c1: u8 = if b[1] { 1 } else { 0 };
    let c2: u8 = if b[2] { 1 } else { 0 };
    let c3: u8 = if b[3] { 1 } else { 0 };
    let c4: u8 = if b[4] { 1 } else { 0 };
    let c5: u8 = if b[5] { 1 } else { 0 };
    let c6: u8 = if b[6] { 1 } else { 0 };
    let c7: u8 = if b[7] { 1 } else { 0 };
    assert(x == (c0 * 128 + c1 * 64 + c2 * 32 + c3 * 16 + c4 * 8 + c5 * 4 + c6 * 2 + c7) as u8);
    lemma_byte_decomp(x, c0, c1, c2, c3, c4, c5, c6, c7);
    assert(unit_bits8(x, 8) =~= b);
}

/// Bytes with the same eight-bit rendering are equal.
pub proof fn lemma_unit8_eq(x: u8, y: u8)
    requires
        unit_bits8(x, 8) == unit_bits8(y, 8),
    ensures
        x == y,
{
    assert forall|m: u8| m < 8 implies (((x >> m) & 1 == 1) == ((y >> m) & 1 == 1)) by {
        assert(unit_bits8(x, 8)[7 - m] == bit8(x, m));
        assert(unit_bits8(y, 8)[7 - m] == bit8(y, m));
    }
    lemma_u8_eq_by_bits(x, y);
}

/// The `w` bits of the byte at position `i` stand at offset `w * i` of the
/// bit string.
pub proof fn lemma_bits_of_units_index(s: Seq<u8>, w: int, i: int)
    requires
        w >= 0,
        0 <= i < s.len(),
    ensures
        bits_of_units(s, w).subrange(w * i, w * i + w) == unit_bits8(s[i], w),
    decreases s.len(),
{
    lemma_bits_of_units_len(s, w);
    lemma_bits_of_units_len(s.drop_last(), w);
    let pre = bits_of_units(s.drop_last(), w);
    let unit = unit_bits8(s.last(), w);
    if i == s.len() - 1 {
        assert(w * i == (s.len() - 1) * w) by (nonlinear_arith)
            requires
                i == s.len() - 1,
        ;
        assert((pre + unit).subrange(w * i, w * i + w) =~= unit);
    } else {
        lemma_bits_of_units_index(s.drop_last(), w, i);
        assert(0 <= w * i) by (nonlinear_arith)
            requires
                w >= 0,
                i >= 0,
        ;
        assert(pre.len() == (s.len() - 1) * w);
        assert(w * (s.len() - 1) == (s.len() - 1) * w) by (nonlinear_arith);
        assert(w * i + w == w * (i + 1)) by (nonlinear_arith);
        assert(w * (i + 1) <= w * (s.len() - 1)) by (nonlinear_arith)
            requires
                w >= 0,
                i + 1 <= s.len() - 1,
        ;
        assert((pre + unit).subrange(w * i, w * i + w) =~= pre.subrange(w * i, w * i + w));
        assert(s.drop_last()[i] == s[i]);
    }
}

/// Joining the split of a byte string gives the string back.
pub proof fn lemma_join_split(s: Seq<u8>)
    ensures
        join_words(split_bytes(s, 32), 32) == s,
    decreases s.len(),
{
    if s.len() == 0 {
        assert(join_words(split_bytes(s, 32), 32) =~= s);
    } else if s[0] == space() {
        lemma_join_split(s.drop_first());
        crate::text::lemma_split_len(s.drop_first(), 32);
        let r = split_bytes(s.drop_first(), 32);
        assert((seq![Seq::<u8>::empty()] + r).drop_first() =~= r);
        assert(join_words(split_bytes(s, 32), 32) =~= s);
    } else {
        lemma_join_split(s.drop_first());
        crate::text::lemma_split_len(s.drop_first(), 32);
        let r = split_bytes(s.drop_first(), 32);
        let u = r.update(0, seq![s[0]] + r[0]);
        if r.len() == 1 {
            assert(u =~= seq![seq![s[0]] + r[0]]);
            assert(join_words(u, 32) == seq![s[0]] + r[0]);
            assert(join_words(r, 32) == r[0]);
            assert(join_words(split_bytes(s, 32), 32) =~= s);
        } else {
            assert(u.drop_first() =~= r.drop_first());
            assert(join_words(u, 32) == u[0] + seq![space()] + join_words(r.drop_first(), 32));
            assert(u[0] == seq![s[0]] + r[0]);
            assert(join_words(r, 32) == r[0] + seq![space()] + join_words(r.drop_first(), 32));
            assert(join_words(u, 32) =~= seq![s[0]] + join_words(r, 32));
            assert(join_words(split_bytes(s, 32), 32) =~= s);
        }
    }
}

/// Build a mnemonic over the given entropy bytes.
pub fn from_entropy(wl: &Wordlist, entropy: Vec<u8>) -> (r: Result<Mnemonic, KeyError>)
    requires
        wl.wf(),
    ensures
        r is Ok <==> valid_entropy_len(entropy@.len()),
        r matches Err(e) ==> e == KeyError::InvalidEntropyLength,
        r matches Ok(m) ==> m.wf() && m.spec_entropy() == entropy@ && m.spec_words() == wl@,
{
    proof {
        wl.lemma_wf_words();
    }
    let n = entropy.len();
    if !(n == 16 || n == 20 || n == 24 || n == 28 || n == 32) {
        return Err(KeyError::InvalidEntropyLength);
    }
    let digest = sha256(&entropy);
    let mut bitsv = units_to_bits(&entropy, 8);
    let digest_bits = units_to_bits(&digest, 8);
    let cs = n / 4;
    let ghost ebits = bitsv@;
    let mut j: usize = 0;
    while j < cs
        invariant
            j <= cs,
            cs <= 8,
            digest_bits@.len() == 256,
            bitsv@ == ebits + digest_bits@.take(j as int),
        decreases cs - j,
    {
        let b = digest_bits[j];
        bitsv.push(b);
        proof {
            assert(digest_bits@.take(j as int).push(digest_bits@[j as int]) =~= digest_bits@.take(
                j + 1 as int,
            ));
            assert(ebits + digest_bits@.take(j as int) + seq![digest_bits@[j as int]] =~= ebits
                + digest_bits@.take(j + 1 as int));
        }
        j += 1;
    }
    let count = n / 4 * 3;
    proof {
        if n == 16 {
            assert(11 * count == 8 * n + n / 4);
        } else if n == 20 {
            assert(11 * count == 8 * n + n / 4);
        } else if n == 24 {
            assert(11 * count == 8 * n + n / 4);
        } else if n == 28 {
            assert(11 * count == 8 * n + n / 4);
        } else {
            assert(11 * count == 8 * n + n / 4);
        }
        assert(bitsv@ == mnemonic_bits(entropy@));
        assert(bitsv@.len() == 11 * count);
    }
    let indices = bits_to_words(&bitsv, count);
    proof {
        assert(bitsv@.subrange(0, (count * 11) as int) =~= bitsv@);
    }
    let phrase = render_phrase(wl, &indices);
    let m = Mnemonic { entropy, indices, phrase, words: Ghost(wl@) };
    proof {
        assert(m.word_seq() =~= Seq::new(
            m.spec_indices().len(),
            |k: int| wl@[m.spec_indices()[k] as int],
        ));
    }
    Ok(m)
}

/// Join the words the indices pick into phrase bytes.
fn render_phrase(wl: &Wordlist, indices: &Vec<u16>) -> (r: Vec<u8>)
    requires
        wl.wf(),
        indices@.len() >= 1,
        forall|k: int| 0 <= k < indices@.len() ==> indices@[k] < 2048,
    ensures
        r@ == join_words(Seq::new(indices@.len(), |k: int| wl@[indices@[k] as int]), 32),
{
    let ghost picked = Seq::new(indices@.len(), |k: int| wl@[indices@[k] as int]);
    let mut wvec: Vec<Vec<u8>> = Vec::new();
    let mut k: usize = 0;
    while k < indices.len()
        invariant
            k <= indices@.len(),
            wl.wf(),
            picked == Seq::new(indices@.len(), |t: int| wl@[indices@[t] as int]),
            forall|t: int| 0 <= t < indices@.len() ==> indices@[t] < 2048,
            wvec.deep_view() == picked.take(k as int),
        decreases indices@.len() - k,
    {
        let idx = indices[k];
        let w = wl.word_at(idx);
        let ghost pre = wvec.deep_view();
        wvec.push(w.clone());
        proof {
            assert(wvec.deep_view() =~~= pre.push(w@));
            assert(picked.take(k as int).push(picked[k as int]) =~= picked.take(k + 1 as int));
        }
        k += 1;
    }
    proof {
        assert(picked.take(indices@.len() as int) =~= picked);
    }
    join(&wvec, 32)
}

/// Parse a phrase against a wordlist.
pub fn parse(wl: &Wordlist, phrase: &Vec<u8>) -> (r: Result<Mnemonic, KeyError>)
    requires
        wl.wf(),
    ensures
        r is Ok <==> spec_parse_result(wl@, phrase@) is Ok,
        r matches Err(e) ==> Err::<(Seq<u8>, Seq<u16>), KeyError>(e) == spec_parse_result(
            wl@,
            phrase@,
        ),
        r matches Ok(m) ==> m.wf() && m.spec_words() == wl@ && m.spec_phrase() == phrase@
            && Ok::<(Seq<u8>, Seq<u16>), KeyError>((m.spec_entropy(), m.spec_indices()))
            == spec_parse_result(wl@, phrase@),
{
    proof {
        wl.lemma_wf_words();
    }
    let ghost ws = wl@;
    let toks = split(phrase, 32);
    let ghost toks_dv = toks.deep_view();
    let count = toks.len();
    let mut indices: Vec<u16> = Vec::new();
    let mut k: usize = 0;
    while k < count
        invariant
            k <= count,
            wl.wf(),
            ws == wl@,
            count == toks@.len(),
            toks_dv == toks.deep_view(),
            toks_dv == split_bytes(phrase@, 32),
            toks_dv.len() == count,
            indices@.len() == k,
            forall|t: int| 0 <= t < k ==> known_word(ws, #[trigger] toks_dv[t]),
            forall|t: int|
                0 <= t < k ==> #[trigger] indices@[t] < 2048 && indices@[t] == word_index(
                    ws,
                    toks_dv[t],
                ) && ws[indices@[t] as int] == toks_dv[t],
        decreases count - k,
    {
        let tok: &Vec<u8> = &toks[k];
        proof {
            assert(tok@ == toks_dv[k as int]);
        }
        match wl.lookup(tok) {
            Some(i) => {
                proof {
                    wl.lemma_wf_words();
                    lemma_index_unique(ws, tok@, i as int);
                }
                indices.push(i);
            },
            None => {
                proof {
                    assert(!known_word(ws, toks_dv[k as int]));
                    assert(!all_known(ws, toks_dv));
                }
                return Err(KeyError::UnknownWordError);
            },
        }
        k += 1;
    }
    proof {
        assert(all_known(ws, toks_dv));
        assert(indices@ =~= indices_of_tokens(ws, toks_dv));
    }
    if !(count == 12 || count == 15 || count == 18 || count == 21 || count == 24) {
        return Err(KeyError::InvalidEntropyLength);
    }
    let n = count / 3 * 4;
    let cs = n / 4;
    proof {
        if count == 12 {
            assert(11 * count == 8 * n + cs && valid_entropy_len(n as nat) && count == 3 * (n
                / 4));
        } else if count == 15 {
            assert(11 * count == 8 * n + cs && valid_entropy_len(n as nat) && count == 3 * (n
                / 4));
        } else if count == 18 {
            assert(11 * count == 8 * n + cs && valid_entropy_len(n as nat) && count == 3 * (n
                / 4));
        } else if count == 21 {
            assert(11 * count == 8 * n + cs && valid_entropy_len(n as nat) && count == 3 * (n
                / 4));
        } else {
            assert(11 * count == 8 * n + cs && valid_entropy_len(n as nat) && count == 3 * (n
                / 4));
        }
    }
    let bitsv = words_to_bits(&indices);
    proof {
        assert(n * 8 <= bitsv@.len());
    }
    let entropy = bits_to_units(&bitsv, 8, n);
    let ghost idx = indices@;
    proof {
        assert(entropy@ =~= candidate_entropy(idx)) by {
            lemma_bits_of_units_len(entropy@, 8);
            assert forall|i: int| 0 <= i < n implies entropy@[i] == candidate_entropy(idx)[i] by {
                let whole = bits_of_words(idx);
                lemma_bits_of_units_index(entropy@, 8, i);
                let sub = whole.subrange(8 * i, 8 * i + 8);
                assert(bits_of_units(entropy@, 8).subrange(8 * i, 8 * i + 8) =~= sub);
                assert(unit_bits8(entropy@[i], 8) == sub);
                lemma_byte_of_bits_unit(sub);
                lemma_unit8_eq(entropy@[i], spec_byte_of_bits(sub));
            }
        }
    }
    let digest = sha256(&entropy);
    let digest_bits = units_to_bits(&digest, 8);
    let mut j: usize = 0;
    while j < cs
        invariant
            j <= cs,
            cs == n / 4,
            n == count / 3 * 4,
            n <= 32,
            ws == wl@,
            toks_dv == split_bytes(phrase@, 32),
            all_known(ws, toks_dv),
            toks_dv.len() == count,
            valid_word_count(count as nat),
            idx == indices_of_tokens(ws, toks_dv),
            idx.len() == count,
            entropy@.len() == n,
            entropy@ == candidate_entropy(idx),
            idx == indices@,
            bitsv@ == bits_of_words(idx),
            bitsv@.len() == 8 * n + cs,
            digest_bits@.len() == 256,
            digest_bits@ == bits_of_units(digest@, 8),
            digest@ == spec_sha256(entropy@),
            forall|t: int| 0 <= t < j ==> bitsv@[8 * n + t] == #[trigger] digest_bits@[t],
        decreases cs - j,
    {
        let hb = bitsv[8 * n + j];
        let db = digest_bits[j];
        if hb != db {
            proof {
                assert(!checksum_ok(idx)) by {
                    let e = candidate_entropy(idx);
                    assert(e == entropy@);
                    if checksum_ok(idx) {
                        assert(bits_of_words(idx).skip(8 * e.len() as int)[j as int]
                            == bits_of_units(spec_sha256(e), 8).take((e.len() / 4) as int)[
                        j as int]);
                    }
                }
            }
            return Err(KeyError::ChecksumMismatchError);
        }
        j += 1;
    }
    proof {
        let e = candidate_entropy(idx);
        assert(e == entropy@);
        lemma_bits_of_words_len(idx);
        assert(bits_of_words(idx).skip(8 * e.len() as int) =~= bits_of_units(
            spec_sha256(e),
            8,
        ).take((e.len() / 4) as int));
        assert(checksum_ok(idx));
    }
    let m = Mnemonic {
        entropy,
        indices,
        phrase: clone_bytes(phrase),
        words: Ghost(ws),
    };
    proof {
        assert(m.word_seq() =~= toks_dv);
        lemma_join_split(phrase@);
        assert(m.spec_phrase() == join_words(m.word_seq(), 32));
        assert(bits_of_units(entropy@, 8) =~= bitsv@.subrange(0, 8 * n));
        assert(bitsv@ =~= bitsv@.subrange(0, 8 * n) + bitsv@.skip(8 * n));
        assert(mnemonic_bits(entropy@) =~= bitsv@);
        assert(m.wf());
        assert(Ok::<(Seq<u8>, Seq<u16>), KeyError>((m.spec_entropy(), m.spec_indices()))
            == spec_parse_result(ws, phrase@));
    }
    Ok(m)
}

/// Copy phrase bytes.
fn clone_bytes(v: &Vec<u8>) -> (r: Vec<u8>)
    ensures
        r@ == v@,
{
    let mut r: Vec<u8> = Vec::new();
    let mut i: usize = 0;
    while i < v.len()
        invariant
            i <= v@.len(),
            r@ == v@.take(i as int),
        decreases v@.len() - i,
    {
        r.push(v[i]);
        proof {
            assert(v@.take(i as int).push(v@[i as int]) =~= v@.take(i + 1 as int));
        }
        i += 1;
    }
    proof {
        assert(v@.take(v@.len() as int) =~= v@);
    }
    r
}

/// Draw fresh entropy of the given size and build a mnemonic over it.
pub fn generate(wl: &Wordlist, entropy_bits: usize) -> (r: Result<Mnemonic, KeyError>)
    requires
        wl.wf(),
    ensures
        r is Err && r->Err_0 == KeyError::InvalidEntropyLength <==> !valid_entropy_len(
            (entropy_bits / 8) as nat,
        ) || entropy_bits % 8 != 0,
        r matches Err(e) ==> e == KeyError::InvalidEntropyLength || e
            == KeyError::EntropySourceError,
        r matches Ok(m) ==> m.wf() && m.spec_words() == wl@ && m.spec_entropy().len()
            == entropy_bits / 8,
{
    if !(entropy_bits == 128 || entropy_bits == 160 || entropy_bits == 192 || entropy_bits == 224
        || entropy_bits == 256) {
        return Err(KeyError::InvalidEntropyLength);
    }
    let n = entropy_bits / 8;
    let mut buf: Vec<u8> = Vec::new();
    let mut i: usize = 0;
    while i < n
        invariant
            i <= n,
            buf@.len() == i,
        decreases n - i,
    {
        buf.push(0);
        i += 1;
    }
    if !os_fill_random(&mut buf) {
        return Err(KeyError::EntropySourceError);
    }
    match from_entropy(wl, buf) {
        Ok(m) => Ok(m),
        Err(_) => Err(KeyError::InvalidEntropyLength),
    }
}

} // verus!
