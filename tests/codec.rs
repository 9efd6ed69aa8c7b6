use key_gen::codec::{
    generate_deterministic_seed, generate_random_seed, index_to_seed_phrase, mnemonic_to_index,
    prefix_to_index,
};
use key_gen::derive::validate_seed_phrase;
use key_gen::error::KeyGenError;
use sha2::Digest;

const ZERO_PHRASE: &str =
    "abandon abandon abandon abandon abandon abandon abandon abandon abandon abandon abandon about";

#[test]
fn zero_index_encodes_to_first_word_and_checksum() {
    let p = index_to_seed_phrase(0);
    assert_eq!(p, ZERO_PHRASE);
    assert_eq!(mnemonic_to_index(&p).unwrap(), 0);
}

#[test]
fn known_vectors_encode() {
    assert_eq!(
        index_to_seed_phrase(0x7f7f7f7f7f7f7f7f7f7f7f7f7f7f7f7f),
        "legal winner thank year wave sausage worth useful legal winner thank yellow"
    );
    assert_eq!(
        index_to_seed_phrase(0x80808080808080808080808080808080),
        "letter advice cage absurd amount doctor acoustic avoid letter advice cage above"
    );
    assert_eq!(
        index_to_seed_phrase(u128::MAX),
        "zoo zoo zoo zoo zoo zoo zoo zoo zoo zoo zoo wrong"
    );
}

#[test]
fn round_trip_over_whole_range() {
    let samples: [u128; 8] = [
        0,
        1,
        2047,
        0xdead_beef,
        1u128 << 124,
        0x7f7f7f7f7f7f7f7f7f7f7f7f7f7f7f7f,
        0x80808080808080808080808080808080,
        u128::MAX,
    ];
    for i in samples {
        let p = index_to_seed_phrase(i);
        assert_eq!(mnemonic_to_index(&p).unwrap(), i);
    }
}

#[test]
fn deterministic_and_fixed_seeds() {
    assert_eq!(generate_deterministic_seed(0), ZERO_PHRASE);
    assert_eq!(generate_deterministic_seed(77), index_to_seed_phrase(77));
    let r = generate_random_seed();
    assert_eq!(r, index_to_seed_phrase(0x123456789abcdef01122334455667788));
    assert_eq!(mnemonic_to_index(&r).unwrap(), 0x123456789abcdef01122334455667788);
}

#[test]
fn decode_ignores_extra_whitespace() {
    let p = format!("  {}\t\n", ZERO_PHRASE.replace(' ', "   "));
    assert_eq!(mnemonic_to_index(&p).unwrap(), 0);
}

#[test]
fn decode_does_not_check_checksum() {
    let p = "abandon ".repeat(12);
    assert!(!validate_seed_phrase(&p));
    assert_eq!(mnemonic_to_index(&p).unwrap(), 0);
}

#[test]
fn decode_wrong_word_count() {
    let eleven = "abandon ".repeat(11);
    let thirteen = "abandon ".repeat(13);
    assert!(matches!(mnemonic_to_index(&eleven), Err(KeyGenError::InvalidWordCount)));
    assert!(matches!(mnemonic_to_index(&thirteen), Err(KeyGenError::InvalidWordCount)));
    assert!(matches!(mnemonic_to_index(""), Err(KeyGenError::InvalidWordCount)));
}

#[test]
fn decode_unknown_word_is_named() {
    let p = "abandon abandon abandon qwerty abandon abandon abandon xyzzy abandon abandon abandon about";
    match mnemonic_to_index(p) {
        Err(KeyGenError::UnknownWord(w)) => assert_eq!(w, "qwerty"),
        _ => panic!("expected an unknown word"),
    }
    let e = mnemonic_to_index(p).unwrap_err();
    assert_eq!(e.message(), "Unknown word: qwerty");
}

#[test]
fn prefix_values() {
    assert_eq!(prefix_to_index("abandon").unwrap(), 0);
    assert_eq!(prefix_to_index("zoo").unwrap(), 0xffe00000000000000000000000000000);
    assert_eq!(prefix_to_index(ZERO_PHRASE).unwrap(), 0);
    assert_eq!(
        prefix_to_index("zoo zoo zoo zoo zoo zoo zoo zoo zoo zoo zoo wrong").unwrap(),
        u128::MAX
    );
}

#[test]
fn prefix_equals_smallest_completion() {
    let prefixes = ["legal winner", "zoo", "letter advice cage absurd amount", "about zoo wrong"];
    for pre in prefixes {
        let k = pre.split_whitespace().count();
        let full = format!("{}{}", pre, " abandon".repeat(12 - k));
        assert_eq!(prefix_to_index(pre).unwrap(), mnemonic_to_index(&full).unwrap());
    }
}

#[test]
fn prefix_errors() {
    assert!(matches!(prefix_to_index("   "), Err(KeyGenError::InvalidWordCount)));
    let thirteen = "zoo ".repeat(13);
    assert!(matches!(prefix_to_index(&thirteen), Err(KeyGenError::InvalidWordCount)));
    match prefix_to_index("zoo notaword") {
        Err(KeyGenError::UnknownWord(w)) => assert_eq!(w, "notaword"),
        _ => panic!("expected an unknown word"),
    }
}

#[test]
fn validation() {
    for i in [0u128, 5, 1 << 100, u128::MAX] {
        assert!(validate_seed_phrase(&index_to_seed_phrase(i)));
    }
    // one word replaced by another dictionary word: checksum mismatch
    let altered =
        "abandon abandon abandon abandon abandon abandon abandon abandon abandon abandon abandon zoo";
    assert!(!validate_seed_phrase(altered));
    let unknown =
        "abandon abandon abandon abandon abandon abandon abandon abandon abandon abandon abandon qwerty";
    assert!(!validate_seed_phrase(unknown));
}

#[test]
fn checksum_is_top_of_sha256() {
    for i in [0u128, 1, 0xdead_beef, 1 << 127, u128::MAX - 5] {
        let p = index_to_seed_phrase(i);
        let last = p.split_whitespace().last().unwrap();
        let pos = bip39::Language::English.find_word(last).unwrap();
        let digest = sha2::Sha256::digest(i.to_be_bytes());
        assert_eq!(pos & 15, (digest[0] >> 4) as u16);
        assert_eq!((pos >> 4) as u128, i & 0x7f);
    }
}

#[test]
fn decode_splits_on_unicode_whitespace() {
    let p = ZERO_PHRASE.replace(' ', "\u{3000}\u{a0}");
    assert_eq!(mnemonic_to_index(&p).unwrap(), 0);
}
