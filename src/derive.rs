use vstd::prelude::*;
use crate::error::KeyGenError;

verus! {

/// Whether bip39's `Mnemonic::parse` accepts `s` (English words, word count, checksum).
pub uninterp spec fn mnemonic_accepted(s: Seq<char>) -> bool;

/// The 64-byte seed that bip39 stretches from the accepted phrase `s` with an empty passphrase.
pub uninterp spec fn mnemonic_seed_of(s: Seq<char>) -> Seq<u8>;

/// The SHA-256 digest of `b`.
pub uninterp spec fn sha256_of(b: Seq<u8>) -> Seq<u8>;

/// The Ed25519 public key of the 32-byte secret key `b`.
pub uninterp spec fn ed25519_public_of(b: Seq<u8>) -> Seq<u8>;

/// The Base58 text (Bitcoin alphabet) of `b`.
pub uninterp spec fn base58_of(b: Seq<u8>) -> Seq<char>;

/// A lower-case hexadecimal digit.
pub open spec fn hex_digit(d: nat) -> char {
    if d < 10 {
        (d + 48) as char
    } else {
        (d + 87) as char
    }
}

/// Two lower-case hexadecimal digits per byte, high digit first.
pub open spec fn hex_of(b: Seq<u8>) -> Seq<char>
    decreases b.len(),
{
    if b.len() == 0 {
        seq![]
    } else {
        hex_of(b.drop_last()) + seq![hex_digit(b.last() as nat / 16), hex_digit(b.last() as nat % 16)]
    }
}

/// The decimal digits of `n`, without leading zeros.
pub open spec fn decimal_of(n: nat) -> Seq<char>
    decreases n,
{
    if n < 10 {
        seq![(n + 48) as char]
    } else {
        decimal_of(n / 10).push((n % 10 + 48) as char)
    }
}

/// The bytes of the label `solana-bip44-derivation` that opens every hashed message.
pub open spec fn derivation_tag() -> Seq<u8> {
    seq![
        115u8, 111, 108, 97, 110, 97, 45, 98, 105, 112, 52, 52, 45, 100, 101, 114, 105, 118, 97,
        116, 105, 111, 110,
    ]
}

/// The four little-endian bytes of `a`.
pub open spec fn le_bytes(a: u32) -> Seq<u8> {
    seq![
        (a % 256) as u8,
        (a / 256 % 256) as u8,
        (a / 65536 % 256) as u8,
        (a / 16777216) as u8,
    ]
}

/// The 32-byte secret key of account `account` of `phrase`: one SHA-256 over the label, the
/// phrase's seed and the account's little-endian bytes.
pub open spec fn secret_key_of(phrase: Seq<char>, account: u32) -> Seq<u8> {
    sha256_of(derivation_tag() + mnemonic_seed_of(phrase) + le_bytes(account))
}

/// The address of account `account` of `phrase`: Base58 of its public key.
pub open spec fn address_of(phrase: Seq<char>, account: u32) -> Seq<char> {
    base58_of(ed25519_public_of(secret_key_of(phrase, account)))
}

/// The display label `m/44'/501'/{account}'/0'`.
pub open spec fn derivation_path_of(account: u32) -> Seq<char> {
    "m/44'/501'/"@ + decimal_of(account as nat) + "'/0'"@
}

/// One derived key and what it was derived from.
pub struct KeyData {
    /// The account index, or in a batch the global index of the phrase.
    pub index: u32,
    /// Base58 of the public key.
    pub address: String,
    /// Lower-case hex of the 32-byte secret key.
    pub private_key_hex: String,
    /// Base58 of the 32-byte secret key.
    pub private_key_base58: String,
    /// The display label `m/44'/501'/{account}'/0'`.
    pub derivation_path: String,
    /// Lower-case hex of the 32 bytes that seed the Ed25519 key.
    pub seed_hex: String,
    /// The phrase the key was derived from.
    pub seed_phrase: String,
}

/// `kd` holds the key of account `account` of `phrase` (all but the index).
pub open spec fn is_derived(kd: KeyData, phrase: Seq<char>, account: u32) -> bool {
    let secret = secret_key_of(phrase, account);
    &&& kd.address@ == address_of(phrase, account)
    &&& kd.private_key_hex@ == hex_of(secret)
    &&& kd.private_key_base58@ == base58_of(secret)
    &&& kd.derivation_path@ == derivation_path_of(account)
    &&& kd.seed_hex@ == hex_of(secret)
    &&& kd.seed_phrase@ == phrase
}

impl KeyData {
    pub fn index(&self) -> (r: u32)
        ensures
            r == self.index,
    {
        self.index
    }

    pub fn address(&self) -> (r: String)
        ensures
            r@ == self.address@,
    {
        self.address.clone()
    }

    pub fn private_key_hex(&self) -> (r: String)
        ensures
            r@ == self.private_key_hex@,
    {
        self.private_key_hex.clone()
    }

    pub fn private_key_base58(&self) -> (r: String)
        ensures
            r@ == self.private_key_base58@,
    {
        self.private_key_base58.clone()
    }

    pub fn derivation_path(&self) -> (r: String)
        ensures
            r@ == self.derivation_path@,
    {
        self.derivation_path.clone()
    }

    pub fn seed_hex(&self) -> (r: String)
        ensures
            r@ == self.seed_hex@,
    {
        self.seed_hex.clone()
    }

    pub fn seed_phrase(&self) -> (r: String)
        ensures
            r@ == self.seed_phrase@,
    {
        self.seed_phrase.clone()
    }
}

/// Relies on bip39's `Mnemonic::parse`: whether the phrase is a valid mnemonic.
#[verifier::external_body]
fn mnemonic_parses(s: &str) -> (r: bool)
    ensures
        r == mnemonic_accepted(s@),
{
    bip39::Mnemonic::parse(s).is_ok()
}

/// Relies on bip39's `Mnemonic::parse` and then `Mnemonic::to_seed` with an empty passphrase.
#[verifier::external_body]
fn mnemonic_seed(s: &str) -> (r: Option<[u8; 64]>)
    ensures
        r is Some <==> mnemonic_accepted(s@),
        r matches Some(seed) ==> seed@ == mnemonic_seed_of(s@),
{
    match bip39::Mnemonic::parse(s) {
        Ok(m) => Some(m.to_seed("")),
        Err(_) => None,
    }
}

/// Relies on sha2's `Sha256::digest`.
#[verifier::external_body]
fn sha256_digest(data: &Vec<u8>) -> (r: [u8; 32])
    ensures
        r@ == sha256_of(data@),
{
    <sha2::Sha256 as sha2::Digest>::digest(data.as_slice()).into()
}

/// Relies on ed25519-dalek's `SigningKey::from_bytes` and `verifying_key`: the public key of a
/// secret key.
#[verifier::external_body]
fn ed25519_public_key(secret: &[u8; 32]) -> (r: [u8; 32])
    ensures
        r@ == ed25519_public_of(secret@),
{
    ed25519_dalek::SigningKey::from_bytes(secret).verifying_key().to_bytes()
}

/// Relies on bs58's `encode(..).into_string()`.
#[verifier::external_body]
fn base58_encode(b: &[u8; 32]) -> (r: String)
    ensures
        r@ == base58_of(b@),
{
    bs58::encode(b).into_string()
}

/// Relies on hex's `encode`: two lower-case digits per byte.
#[verifier::external_body]
fn hex_encode(b: &[u8; 32]) -> (r: String)
    ensures
        r@ == hex_of(b@),
{
    hex::encode(b)
}

/// Relies on `u32::to_string`: the decimal digits.
#[verifier::external_body]
fn decimal_string(n: u32) -> (r: String)
    ensures
        r@ == decimal_of(n as nat),
{
    n.to_string()
}

/// Whether `phrase` is a valid mnemonic: every word in the list and the checksum right.
pub fn validate_seed_phrase(phrase: &str) -> (r: bool)
    ensures
        r == mnemonic_accepted(phrase@),
{
    mnemonic_parses(phrase)
}

/// The message hashed into the secret key.
fn derivation_message(seed: &[u8; 64], account: u32) -> (r: Vec<u8>)
    ensures
        r@ == derivation_tag() + seed@ + le_bytes(account),
{
    let mut msg: Vec<u8> = vec![
        115u8, 111, 108, 97, 110, 97, 45, 98, 105, 112, 52, 52, 45, 100, 101, 114, 105, 118, 97,
        116, 105, 111, 110,
    ];
    assert(msg@ =~= derivation_tag());
    let mut i: usize = 0;
    while i < 64
        invariant
            0 <= i <= 64,
            seed@.len() == 64,
            msg@ == derivation_tag() + seed@.subrange(0, i as int),
        decreases 64 - i,
    {
        msg.push(seed[i]);
        assert(seed@.subrange(0, i + 1) =~= seed@.subrange(0, i as int).push(seed@[i as int]));
        i = i + 1;
    }
    assert(seed@.subrange(0, 64) =~= seed@);
    msg.push((account % 256) as u8);
    msg.push((account / 256 % 256) as u8);
    msg.push((account / 65536 % 256) as u8);
    msg.push((account / 16777216) as u8);
    assert(msg@ =~= derivation_tag() + seed@ + le_bytes(account));
    msg
}

/// The path label of an account.
fn derivation_path_label(account: u32) -> (r: String)
    ensures
        r@ == derivation_path_of(account),
{
    let mut path = String::from_str("m/44'/501'/");
    let digits = decimal_string(account);
    path.append(digits.as_str());
    path.append("'/0'");
    path
}

/// The key of account `account_index` of `seed_phrase`, or `InvalidPhrase` where bip39 does not
/// accept the phrase.
pub fn derive_phantom_compatible_key(seed_phrase: &str, account_index: u32) -> (r: Result<
    KeyData,
    KeyGenError,
>)
    ensures
        r is Ok <==> mnemonic_accepted(seed_phrase@),
        r matches Ok(kd) ==> kd.index == account_index && is_derived(
            kd,
            seed_phrase@,
            account_index,
        ),
        r matches Err(e) ==> e is InvalidPhrase,
{
    let seed = match mnemonic_seed(seed_phrase) {
        Some(s) => s,
        None => {
            return Err(KeyGenError::InvalidPhrase);
        },
    };
    let msg = derivation_message(&seed, account_index);
    let secret = sha256_digest(&msg);
    let public = ed25519_public_key(&secret);
    Ok(
        KeyData {
            index: account_index,
            address: base58_encode(&public),
            private_key_hex: hex_encode(&secret),
            private_key_base58: base58_encode(&secret),
            derivation_path: derivation_path_label(account_index),
            seed_hex: hex_encode(&secret),
            seed_phrase: seed_phrase.to_owned(),
        },
    )
}

} // verus!
