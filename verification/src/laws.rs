//! The laws the pipeline obeys, stated and proved once over the spec
//! functions that the stage contracts use.

use crate::bits::{bits_of_units, bits_of_words, lemma_bits_of_units_len, unit_bits8};
use crate::errors::KeyError;
use crate::mnemonic::{
    all_known, candidate_entropy, checksum_ok, entropy_len_of, indices_of_tokens, known_word,
    lemma_bits_of_units_index, lemma_byte_of_bits_unit, lemma_index_unique, lemma_unit8_eq,
    mnemonic_bits, spec_byte_of_bits, spec_parse_result, valid_word_count, Mnemonic,
};
use crate::seed::spec_seed;
use crate::text::{lemma_split_join, sep_free, split_bytes};
use crate::wordlist::lemma_words_space_free;
use vstd::prelude::*;

verus! {

/// Parsing a mnemonic's own phrase against its wordlist recovers exactly
/// its entropy and word indices.  Together with the codec contracts this
/// says that for every supported entropy size, the generated phrase parses
/// back to the identical entropy bytes.
pub proof fn lemma_phrase_round_trip(m: &Mnemonic)
    requires
        m.wf(),
    ensures
        spec_parse_result(m.spec_words(), m.spec_phrase()) == Ok::<(Seq<u8>, Seq<u16>), KeyError>(
            (m.spec_entropy(), m.spec_indices()),
        ),
{
    m.lemma_wf();
    let ws = m.spec_words();
    let idx = m.spec_indices();
    let e = m.spec_entropy();
    let toks = m.word_seq();
    let n = e.len();
    let count = idx.len();
    assert(count == 3 * (n / 4));
    assert(valid_word_count(count) && entropy_len_of(count) == n && count >= 12 && 11 * count == 8
        * n + n / 4) by {
        if n == 16 {
        } else if n == 20 {
        } else if n == 24 {
        } else if n == 28 {
        } else {
            assert(n == 32);
        }
    }
    lemma_words_space_free(ws);
    assert(forall|k: int| 0 <= k < toks.len() ==> sep_free(#[trigger] toks[k], 32)) by {
        assert(forall|k: int|
            0 <= k < toks.len() ==> #[trigger] toks[k] == ws[idx[k] as int] && sep_free(
                ws[idx[k] as int],
                32,
            ));
    }
    lemma_split_join(toks, 32);
    assert(split_bytes(m.spec_phrase(), 32) == toks);
    assert(all_known(ws, toks)) by {
        assert forall|t: int| 0 <= t < toks.len() implies known_word(ws, #[trigger] toks[t]) by {
            lemma_index_unique(ws, toks[t], idx[t] as int);
        }
    }
    assert(indices_of_tokens(ws, toks) =~= idx) by {
        assert forall|t: int| 0 <= t < toks.len() implies indices_of_tokens(ws, toks)[t] == idx[t]
        by {
            lemma_index_unique(ws, toks[t], idx[t] as int);
        }
    }
    let whole = bits_of_words(idx);
    assert(whole == mnemonic_bits(e));
    lemma_bits_of_units_len(e, 8);
    lemma_bits_of_units_len(crate::primitives::spec_sha256(e), 8);
    assert(candidate_entropy(idx) =~= e) by {
        assert forall|i: int| 0 <= i < n implies candidate_entropy(idx)[i] == e[i] by {
            lemma_bits_of_units_index(e, 8, i);
            assert(whole.subrange(8 * i, 8 * i + 8) =~= bits_of_units(e, 8).subrange(
                8 * i,
                8 * i + 8,
            ));
            assert(unit_bits8(e[i], 8) == whole.subrange(8 * i, 8 * i + 8));
            lemma_byte_of_bits_unit(whole.subrange(8 * i, 8 * i + 8));
            lemma_unit8_eq(e[i], spec_byte_of_bits(whole.subrange(8 * i, 8 * i + 8)));
        }
    }
    assert(checksum_ok(idx)) by {
        assert(whole.skip(8 * n as int) =~= bits_of_units(
            crate::primitives::spec_sha256(e),
            8,
        ).take((n / 4) as int));
    }
}

/// A phrase with a word outside the wordlist is rejected as an unknown
/// word; no checksum is consulted.
pub proof fn lemma_unknown_word_rejected(ws: Seq<Seq<u8>>, phrase: Seq<u8>)
    requires
        !all_known(ws, split_bytes(phrase, 32)),
    ensures
        spec_parse_result(ws, phrase) == Err::<(Seq<u8>, Seq<u16>), KeyError>(
            KeyError::UnknownWordError,
        ),
{
}

/// A phrase of known words with a supported count whose checksum does not
/// match is rejected as a checksum mismatch, never accepted.
pub proof fn lemma_checksum_mismatch_rejected(ws: Seq<Seq<u8>>, phrase: Seq<u8>)
    requires
        all_known(ws, split_bytes(phrase, 32)),
        valid_word_count(split_bytes(phrase, 32).len()),
        !checksum_ok(indices_of_tokens(ws, split_bytes(phrase, 32))),
    ensures
        spec_parse_result(ws, phrase) == Err::<(Seq<u8>, Seq<u16>), KeyError>(
            KeyError::ChecksumMismatchError,
        ),
{
}

/// Normalizing a passphrase before derivation leaves the seed unchanged:
/// an already normalized passphrase derives the same seed as the text it
/// was normalized from.  The hypotheses are exactly what the normalization
/// wrapper guarantees of its output.
pub proof fn lemma_normalized_passphrase_same_seed(phrase: Seq<u8>, p: Seq<char>, q: Seq<char>)
    requires
        q == crate::primitives::spec_nfkd(p),
        crate::primitives::spec_nfkd(q) == q,
    ensures
        spec_seed(phrase, q) == spec_seed(phrase, p),
{
}

} // verus!
