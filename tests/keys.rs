use key_gen::codec::index_to_seed_phrase;
use key_gen::derive::derive_phantom_compatible_key;
use key_gen::error::KeyGenError;
use key_gen::search::{
    find_address_index, find_private_key, generate_key_batch, generate_single_key_for_seed,
};
use sha2::Digest;

const PHRASE: &str =
    "legal winner thank year wave sausage worth useful legal winner thank yellow";

#[test]
fn derivation_matches_direct_computation() {
    let kd = derive_phantom_compatible_key(PHRASE, 3).unwrap();
    let seed = bip39::Mnemonic::parse(PHRASE).unwrap().to_seed("");
    let mut h = sha2::Sha256::new();
    h.update(b"solana-bip44-derivation");
    h.update(seed);
    h.update(3u32.to_le_bytes());
    let secret: [u8; 32] = h.finalize().into();
    let public = ed25519_dalek::SigningKey::from_bytes(&secret).verifying_key().to_bytes();
    assert_eq!(kd.address(), bs58::encode(public).into_string());
    assert_eq!(kd.private_key_hex(), hex::encode(secret));
    assert_eq!(kd.seed_hex(), hex::encode(secret));
    assert_eq!(kd.private_key_base58(), bs58::encode(secret).into_string());
    assert_eq!(kd.derivation_path(), "m/44'/501'/3'/0'");
    assert_eq!(kd.seed_phrase(), PHRASE);
    assert_eq!(kd.index(), 3);
}

#[test]
fn encodings_have_expected_shape() {
    let kd = derive_phantom_compatible_key(PHRASE, 0).unwrap();
    let hx = kd.private_key_hex();
    assert_eq!(hx.len(), 64);
    assert!(hx.chars().all(|c| c.is_ascii_digit() || ('a'..='f').contains(&c)));
    assert_eq!(bs58::decode(kd.address()).into_vec().unwrap().len(), 32);
    assert_eq!(
        bs58::decode(kd.private_key_base58()).into_vec().unwrap(),
        hex::decode(&hx).unwrap()
    );
    assert_ne!(kd.address(), PHRASE);
}

#[test]
fn derivation_path_label() {
    let kd = derive_phantom_compatible_key(PHRASE, 123456).unwrap();
    assert_eq!(kd.derivation_path(), "m/44'/501'/123456'/0'");
    let kd = derive_phantom_compatible_key(PHRASE, u32::MAX).unwrap();
    assert_eq!(kd.derivation_path(), "m/44'/501'/4294967295'/0'");
}

#[test]
fn derivation_is_deterministic() {
    let a = derive_phantom_compatible_key(PHRASE, 9).unwrap();
    let b = generate_single_key_for_seed(PHRASE, 9).unwrap();
    assert_eq!(a.address(), b.address());
    assert_eq!(a.private_key_hex(), b.private_key_hex());
    assert_eq!(a.private_key_base58(), b.private_key_base58());
    assert_eq!(a.derivation_path(), b.derivation_path());
}

#[test]
fn addresses_differ_across_accounts() {
    let mut seen: Vec<String> = Vec::new();
    for a in 0..20u32 {
        let addr = derive_phantom_compatible_key(PHRASE, a).unwrap().address();
        assert!(!seen.contains(&addr));
        seen.push(addr);
    }
}

#[test]
fn invalid_phrase_is_refused() {
    let bad = "abandon ".repeat(12);
    assert!(matches!(derive_phantom_compatible_key(&bad, 0), Err(KeyGenError::InvalidPhrase)));
    assert!(matches!(generate_single_key_for_seed("not a phrase", 1), Err(KeyGenError::InvalidPhrase)));
    assert_eq!(KeyGenError::InvalidPhrase.message(), "Invalid seed phrase");
}

#[test]
fn search_finds_address() {
    let r = derive_phantom_compatible_key(PHRASE, 7).unwrap();
    assert_eq!(find_address_index(PHRASE, &r.address(), 20), 7);
    assert_eq!(find_address_index(PHRASE, "nonexistent", 20), -1);
    assert_eq!(find_address_index(PHRASE, &r.address(), 7), -1);
    assert_eq!(find_address_index(PHRASE, &r.address(), 0), -1);
}

#[test]
fn search_finds_private_key() {
    let r = derive_phantom_compatible_key(PHRASE, 4).unwrap();
    assert_eq!(find_private_key(PHRASE, &r.private_key_base58(), 20), 4);
    assert_eq!(find_private_key(PHRASE, &r.address(), 20), -1);
}

#[test]
fn search_skips_invalid_phrase() {
    let r = derive_phantom_compatible_key(PHRASE, 2).unwrap();
    assert_eq!(find_address_index("zoo zoo", &r.address(), 10), -1);
}

#[test]
fn batch_indices_and_records() {
    let v = generate_key_batch("", 5, 4).unwrap();
    assert_eq!(v.len(), 4);
    for (k, kd) in v.iter().enumerate() {
        let i = 5 + k as u32;
        assert_eq!(kd.index(), i);
        let phrase = index_to_seed_phrase(i as u128);
        assert_eq!(kd.seed_phrase(), phrase);
        let d = derive_phantom_compatible_key(&phrase, 0).unwrap();
        assert_eq!(kd.address(), d.address());
        assert_eq!(kd.derivation_path(), "m/44'/501'/0'/0'");
    }
    assert!(generate_key_batch("", 10, 0).unwrap().is_empty());
}

#[test]
fn batch_at_top_of_range() {
    let v = generate_key_batch("", u32::MAX - 1, 2).unwrap();
    assert_eq!(v[0].index(), u32::MAX - 1);
    assert_eq!(v[1].index(), u32::MAX);
}
