use gvltkeys::errors::KeyError;
use gvltkeys::mnemonic::Mnemonic;
use gvltkeys::seed::derive_seed;
use gvltkeys::{mnemonic_from_entropy, new_mnemonic, parse_mnemonic};

fn hex_to_bytes(s: &str) -> Vec<u8> {
    let chars: Vec<u32> = s.chars().map(|c| c.to_digit(16).expect("hex digit")).collect();
    assert!(chars.len() % 2 == 0);
    chars.chunks(2).map(|p| (p[0] * 16 + p[1]) as u8).collect()
}

const ABANDON_PHRASE: &str = "abandon abandon abandon abandon abandon abandon abandon abandon abandon abandon abandon about";

fn parse_err(phrase: &str) -> KeyError {
    match parse_mnemonic(phrase) {
        Ok(_) => panic!("expected a parse error"),
        Err(e) => e,
    }
}

fn from_entropy_err(entropy: Vec<u8>) -> KeyError {
    match mnemonic_from_entropy(entropy) {
        Ok(_) => panic!("expected an entropy error"),
        Err(e) => e,
    }
}

fn new_mnemonic_err(bits: usize) -> KeyError {
    match new_mnemonic(bits) {
        Ok(_) => panic!("expected an entropy error"),
        Err(e) => e,
    }
}

#[test]
fn all_zero_entropy_gives_reference_phrase() {
    let m = mnemonic_from_entropy(vec![0u8; 16]).unwrap();
    assert_eq!(m.phrase_string(), ABANDON_PHRASE);
    assert_eq!(m.word_count(), 12);
}

#[test]
fn reference_phrase_parses_to_zero_entropy() {
    let m = parse_mnemonic(ABANDON_PHRASE).unwrap();
    assert_eq!(m.entropy(), &vec![0u8; 16]);
}

#[test]
fn reference_seed_vector() {
    // The published reference seed for the all-"abandon" twelve-word phrase
    // with an empty passphrase.
    let m = parse_mnemonic(ABANDON_PHRASE).unwrap();
    let seed = derive_seed(&m, "");
    let expected = hex_to_bytes(
        "5eb00bbddcf069084889a8ab9155568165f5c453ccb85e70811aaed6f6da5fc1\
         9a5ac40b389cd370d086206dec8aa6c43daea6690f20ad3d8d48b2d2ce9e38e4",
    );
    assert_eq!(seed.bytes().as_slice(), expected.as_slice());
}

#[test]
fn seed_matches_other_implementation() {
    // The other implementation only takes 24-word phrases; it validates the
    // checksum of ours independently and must derive the same seed.
    let m = mnemonic_from_entropy(vec![0u8; 32]).unwrap();
    let phrase = m.phrase_string();
    let theirs = bip32::Mnemonic::new(&phrase, Default::default()).unwrap();
    assert_eq!(theirs.entropy().as_slice(), m.entropy().as_slice());
    let seed = derive_seed(&m, "");
    assert_eq!(seed.bytes().as_slice(), theirs.to_seed("").as_bytes().as_slice());
    let seed2 = derive_seed(&m, "TREZOR");
    assert_eq!(seed2.bytes().as_slice(), theirs.to_seed("TREZOR").as_bytes().as_slice());
}

#[test]
fn round_trip_all_entropy_sizes() {
    for (len, words) in [(16usize, 12usize), (20, 15), (24, 18), (28, 21), (32, 24)] {
        let entropy: Vec<u8> = (0..len).map(|i| (i * 37 + 11) as u8).collect();
        let m = mnemonic_from_entropy(entropy.clone()).unwrap();
        assert_eq!(m.word_count(), words);
        let phrase = m.phrase_string();
        assert_eq!(phrase.split(' ').count(), words);
        let back = parse_mnemonic(&phrase).unwrap();
        assert_eq!(back.entropy().as_slice(), entropy.as_slice());
    }
}

#[test]
fn random_mnemonics_round_trip() {
    for (bits, words) in [(128usize, 12usize), (160, 15), (192, 18), (224, 21), (256, 24)] {
        let m = new_mnemonic(bits).unwrap();
        assert_eq!(m.word_count(), words);
        assert_eq!(m.entropy().len(), bits / 8);
        let phrase = m.phrase_string();
        let back = parse_mnemonic(&phrase).unwrap();
        assert_eq!(back.entropy().as_slice(), m.entropy().as_slice());
    }
}

#[test]
fn invalid_entropy_sizes_rejected() {
    assert_eq!(new_mnemonic_err(0), KeyError::InvalidEntropyLength);
    assert_eq!(new_mnemonic_err(129), KeyError::InvalidEntropyLength);
    assert_eq!(new_mnemonic_err(512), KeyError::InvalidEntropyLength);
    assert_eq!(from_entropy_err(vec![0u8; 15]), KeyError::InvalidEntropyLength);
    assert_eq!(from_entropy_err(Vec::new()), KeyError::InvalidEntropyLength);
}

#[test]
fn unknown_word_rejected() {
    let phrase = "abandon abandon abandon abandon abandon abandon abandon abandon abandon abandon abandon zzzz";
    assert_eq!(parse_err(phrase), KeyError::UnknownWordError);
}

#[test]
fn unknown_word_beats_checksum() {
    // One unknown word in an otherwise broken phrase: the unknown word is
    // what is reported.
    let phrase = "abandon abandon abandon abandon abandon abandon abandon abandon abandon abandon abandon qqqq";
    assert_eq!(parse_err(phrase), KeyError::UnknownWordError);
}

#[test]
fn checksum_mismatch_rejected() {
    // Twelve valid words whose embedded checksum does not match.
    let phrase = "abandon abandon abandon abandon abandon abandon abandon abandon abandon abandon abandon abandon";
    assert_eq!(parse_err(phrase), KeyError::ChecksumMismatchError);
}

#[test]
fn wrong_word_count_rejected() {
    assert_eq!(parse_err("abandon abandon abandon"), KeyError::InvalidEntropyLength);
}

#[test]
fn double_space_makes_empty_unknown_word() {
    let phrase = "abandon  abandon abandon abandon abandon abandon abandon abandon abandon abandon abandon about";
    assert_eq!(parse_err(phrase), KeyError::UnknownWordError);
}

#[test]
fn passphrase_changes_seed() {
    let m = parse_mnemonic(ABANDON_PHRASE).unwrap();
    let a = derive_seed(&m, "");
    let b = derive_seed(&m, "first");
    let c = derive_seed(&m, "second");
    assert_ne!(a.bytes(), b.bytes());
    assert_ne!(a.bytes(), c.bytes());
    assert_ne!(b.bytes(), c.bytes());
}

#[test]
fn seed_is_deterministic() {
    let m = parse_mnemonic(ABANDON_PHRASE).unwrap();
    let a = derive_seed(&m, "pw");
    let b = derive_seed(&m, "pw");
    assert_eq!(a.bytes(), b.bytes());
    assert_eq!(a.bytes().len(), 64);
}

#[test]
fn passphrase_is_normalized_before_derivation() {
    // The same passphrase written with a precomposed and a decomposed
    // accent must normalize to the same bytes and derive the same seed.
    let m = parse_mnemonic(ABANDON_PHRASE).unwrap();
    let composed = derive_seed(&m, "caf\u{00e9}");
    let decomposed = derive_seed(&m, "cafe\u{0301}");
    assert_eq!(composed.bytes(), decomposed.bytes());
    assert_ne!(composed.bytes(), derive_seed(&m, "cafe").bytes());
}

#[test]
fn generated_mnemonics_differ() {
    let a: Mnemonic = new_mnemonic(128).unwrap();
    let b: Mnemonic = new_mnemonic(128).unwrap();
    // Two independent 128-bit draws colliding would mean a broken entropy
    // source.
    assert_ne!(a.entropy().as_slice(), b.entropy().as_slice());
}

#[test]
fn wordlist_spot_checks() {
    // Entropy picking known index patterns: all-zero entropy uses word 0
    // eleven times; the final word carries the checksum.
    let m = mnemonic_from_entropy(vec![0u8; 16]).unwrap();
    let phrase = m.phrase_string();
    let words: Vec<&str> = phrase.split(' ').collect();
    assert_eq!(words[0], "abandon");
    assert_eq!(words[11], "about");
    // All-ones entropy ends every 11-bit group at index 2047, "zoo".
    let m2 = mnemonic_from_entropy(vec![0xffu8; 32]).unwrap();
    let phrase2 = m2.phrase_string();
    let words2: Vec<&str> = phrase2.split(' ').collect();
    assert_eq!(words2[0], "zoo");
    assert_eq!(words2[22], "zoo");
}

#[test]
fn error_names_are_distinct() {
    let names = [
        KeyError::InvalidEntropyLength.name(),
        KeyError::UnknownWordError.name(),
        KeyError::ChecksumMismatchError.name(),
        KeyError::InvalidPathSyntax.name(),
        KeyError::DerivationArithmeticError.name(),
        KeyError::InvalidKeyMaterialError.name(),
        KeyError::EncodingError.name(),
        KeyError::EntropySourceError.name(),
    ];
    for i in 0..names.len() {
        for j in 0..names.len() {
            if i != j {
                assert_ne!(names[i], names[j]);
            }
        }
    }
}
