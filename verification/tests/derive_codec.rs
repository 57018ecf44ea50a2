use gvltkeys::account::{account_to_text, text_to_account};
use gvltkeys::derive_account;
use gvltkeys::errors::KeyError;
use gvltkeys::hd::{derive_child, derive_path, master_key};
use gvltkeys::keycodec::{encode_extended_key, signing_key, signing_key_from_bytes, KeyVariant};
use gvltkeys::parse_mnemonic;
use gvltkeys::path::{default_path, parse_path, PathSegment};
use gvltkeys::seed::derive_seed;

const ABANDON_PHRASE: &str = "abandon abandon abandon abandon abandon abandon abandon abandon abandon abandon abandon about";

fn gvlt_hrp() -> Vec<u8> {
    b"gvlt".to_vec()
}

#[test]
fn default_path_reads_like_its_text() {
    let parsed = parse_path("m/44'/118'/0'/0/0").unwrap();
    let built = default_path();
    assert_eq!(parsed.len(), 5);
    for i in 0..5 {
        assert_eq!(parsed.segment(i), built.segment(i));
    }
    assert_eq!(parsed.segment(0), PathSegment { index: 44, hardened: true });
    assert_eq!(parsed.segment(3), PathSegment { index: 0, hardened: false });
}

#[test]
fn path_syntax_accepted_forms() {
    let p = parse_path("m").unwrap();
    assert_eq!(p.len(), 0);
    let p = parse_path("m/0h/2147483647").unwrap();
    assert_eq!(p.segment(0), PathSegment { index: 0, hardened: true });
    assert_eq!(p.segment(1), PathSegment { index: 2147483647, hardened: false });
}

#[test]
fn path_syntax_rejected_forms() {
    for bad in ["", "44'/0", "m/", "m/x", "m/4 4", "m/2147483648", "m/'", "m/h", "M/44'"] {
        assert_eq!(parse_path(bad).unwrap_err(), KeyError::InvalidPathSyntax, "{}", bad);
    }
}

#[test]
fn extended_key_text_matches_other_implementation() {
    let m = gvltkeys::mnemonic_from_entropy(vec![7u8; 32]).unwrap();
    let seed = derive_seed(&m, "");
    let key = derive_path(&seed, &default_path()).unwrap();
    let ours_prv = encode_extended_key(&key, KeyVariant::Private).unwrap();
    let ours_pub = encode_extended_key(&key, KeyVariant::Public).unwrap();

    let their_seed = bip32::Mnemonic::new(&m.phrase_string(), Default::default())
        .unwrap()
        .to_seed("");
    let their_key =
        bip32::XPrv::derive_from_path(&their_seed, &"m/44'/118'/0'/0/0".parse().unwrap()).unwrap();
    assert_eq!(ours_prv, their_key.to_string(bip32::Prefix::XPRV).as_str());
    assert_eq!(
        ours_pub,
        their_key.public_key().to_string(bip32::Prefix::XPUB)
    );
    assert!(ours_prv.starts_with("xprv"));
    assert!(ours_pub.starts_with("xpub"));
}

#[test]
fn hd_derivation_matches_other_implementation() {
    let m = gvltkeys::mnemonic_from_entropy(vec![42u8; 32]).unwrap();
    let seed = derive_seed(&m, "");
    let master = master_key(&seed).unwrap();
    let their_master = bip32::XPrv::new(
        bip32::Mnemonic::new(&m.phrase_string(), Default::default())
            .unwrap()
            .to_seed(""),
    )
    .unwrap();
    assert_eq!(
        master.key_bytes().as_slice(),
        their_master.to_bytes().as_slice()
    );
    let child = derive_child(&master, PathSegment { index: 44, hardened: true }).unwrap();
    let their_child = their_master
        .derive_child(bip32::ChildNumber::new(44, true).unwrap())
        .unwrap();
    assert_eq!(
        child.key_bytes().as_slice(),
        their_child.to_bytes().as_slice()
    );
    assert_eq!(child.depth(), 1);
    assert_eq!(
        child.parent_fingerprint().as_slice(),
        their_child.attrs().parent_fingerprint.as_slice()
    );
}

#[test]
fn account_round_trip() {
    let m = parse_mnemonic(ABANDON_PHRASE).unwrap();
    let hrp = gvlt_hrp();
    let (id, _) = derive_account(&m, "", &default_path(), &hrp).unwrap();
    let text = account_to_text(&id);
    let back = text_to_account(&text, &hrp).unwrap();
    assert_eq!(back.hash(), id.hash());
    assert_eq!(back.hrp(), id.hrp());
}

#[test]
fn corrupted_account_text_rejected() {
    let m = parse_mnemonic(ABANDON_PHRASE).unwrap();
    let hrp = gvlt_hrp();
    let (id, _) = derive_account(&m, "", &default_path(), &hrp).unwrap();
    let text = account_to_text(&id);
    let chars: Vec<char> = text.chars().collect();
    for pos in 0..chars.len() {
        let mut corrupted = chars.clone();
        corrupted[pos] = if corrupted[pos] == 'q' { 'p' } else { 'q' };
        let s: String = corrupted.into_iter().collect();
        assert_eq!(
            text_to_account(&s, &hrp).unwrap_err(),
            KeyError::EncodingError,
            "position {}",
            pos
        );
    }
}

#[test]
fn wrong_prefix_rejected_on_decode() {
    let m = parse_mnemonic(ABANDON_PHRASE).unwrap();
    let hrp = gvlt_hrp();
    let (id, _) = derive_account(&m, "", &default_path(), &hrp).unwrap();
    let text = account_to_text(&id);
    let other = b"cosmos".to_vec();
    assert_eq!(
        text_to_account(&text, &other).unwrap_err(),
        KeyError::EncodingError
    );
}

#[test]
fn derive_account_is_deterministic() {
    let m = parse_mnemonic(ABANDON_PHRASE).unwrap();
    let hrp = gvlt_hrp();
    let (id1, k1) = derive_account(&m, "pw", &default_path(), &hrp).unwrap();
    let (id2, k2) = derive_account(&m, "pw", &default_path(), &hrp).unwrap();
    assert_eq!(account_to_text(&id1), account_to_text(&id2));
    assert_eq!(k1.bytes(), k2.bytes());
}

#[test]
fn passphrase_changes_account() {
    let m = parse_mnemonic(ABANDON_PHRASE).unwrap();
    let hrp = gvlt_hrp();
    let (id1, _) = derive_account(&m, "", &default_path(), &hrp).unwrap();
    let (id2, _) = derive_account(&m, "other", &default_path(), &hrp).unwrap();
    assert_ne!(id1.hash(), id2.hash());
    assert_ne!(account_to_text(&id1), account_to_text(&id2));
}

#[test]
fn known_accounts_for_reference_phrase() {
    // The accounts for the reference phrase at the fixed path, as an
    // independent implementation of the whole pipeline derives them.
    let m = parse_mnemonic(ABANDON_PHRASE).unwrap();
    let (id, _) = derive_account(&m, "", &default_path(), &b"cosmos".to_vec()).unwrap();
    assert_eq!(
        account_to_text(&id),
        "cosmos19rl4cm2hmr8afy4kldpxz3fka4jguq0auqdal4"
    );
    let (id2, _) = derive_account(&m, "", &default_path(), &b"gvlt".to_vec()).unwrap();
    assert_eq!(
        account_to_text(&id2),
        "gvlt19rl4cm2hmr8afy4kldpxz3fka4jguq0aqtukzt"
    );
}

#[test]
fn bad_hrp_rejected() {
    let m = parse_mnemonic(ABANDON_PHRASE).unwrap();
    for bad in [b"".to_vec(), b"GVLT".to_vec(), b"gv lt".to_vec(), vec![103u8; 84]] {
        assert_eq!(
            derive_account(&m, "", &default_path(), &bad).unwrap_err(),
            KeyError::EncodingError
        );
    }
}

#[test]
fn signing_key_material_checked() {
    assert_eq!(
        signing_key_from_bytes(&vec![0u8; 32]).unwrap_err(),
        KeyError::InvalidKeyMaterialError
    );
    assert_eq!(
        signing_key_from_bytes(&vec![0xffu8; 32]).unwrap_err(),
        KeyError::InvalidKeyMaterialError
    );
    assert_eq!(
        signing_key_from_bytes(&vec![1u8; 31]).unwrap_err(),
        KeyError::InvalidKeyMaterialError
    );
    let mut one = vec![0u8; 32];
    one[31] = 1;
    let h = signing_key_from_bytes(&one).unwrap();
    assert_eq!(h.bytes(), &one);
}

#[test]
fn signing_key_comes_from_derived_key() {
    let m = parse_mnemonic(ABANDON_PHRASE).unwrap();
    let seed = derive_seed(&m, "");
    let key = derive_path(&seed, &default_path()).unwrap();
    let h = signing_key(&key).unwrap();
    assert_eq!(h.bytes(), key.key_bytes());
    // The derived scalar also drives a real signing key object.
    let sk = k256::ecdsa::SigningKey::from_slice(h.bytes()).unwrap();
    assert_eq!(sk.to_bytes().as_slice(), h.bytes().as_slice());
}

#[test]
fn public_key_matches_other_implementation() {
    let m = gvltkeys::mnemonic_from_entropy(vec![99u8; 32]).unwrap();
    let seed = derive_seed(&m, "");
    let key = derive_path(&seed, &default_path()).unwrap();
    let their_seed = bip32::Mnemonic::new(&m.phrase_string(), Default::default())
        .unwrap()
        .to_seed("");
    let their_key =
        bip32::XPrv::derive_from_path(&their_seed, &"m/44'/118'/0'/0/0".parse().unwrap()).unwrap();
    assert_eq!(
        key.public_key().as_slice(),
        their_key.public_key().to_bytes().as_slice()
    );
}
