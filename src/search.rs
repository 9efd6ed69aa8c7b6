use vstd::prelude::*;
use crate::codec::{encoded_phrase, index_to_seed_phrase};
use crate::derive::{
    address_of, base58_of, derive_phantom_compatible_key, derivation_path_of, is_derived,
    mnemonic_accepted, secret_key_of, KeyData,
};
use crate::error::KeyGenError;

verus! {

/// Account `account` of `phrase` derives and has the address `target`.
pub open spec fn address_matches(phrase: Seq<char>, account: u32, target: Seq<char>) -> bool {
    mnemonic_accepted(phrase) && address_of(phrase, account) == target
}

/// Account `account` of `phrase` derives and has the Base58 private key `target`.
pub open spec fn private_key_matches(phrase: Seq<char>, account: u32, target: Seq<char>) -> bool {
    mnemonic_accepted(phrase) && base58_of(secret_key_of(phrase, account)) == target
}

/// The key of account `account_index` of `seed_phrase`.
pub fn generate_single_key_for_seed(seed_phrase: &str, account_index: u32) -> (r: Result<
    KeyData,
    KeyGenError,
>)
    ensures
        r is Ok <==> mnemonic_accepted(seed_phrase@),
        r matches Ok(kd) ==> kd.index == account_index && is_derived(
            kd,
            seed_phrase@,
            account_index,
        ),
        r matches Err(e) ==> e is InvalidPhrase,
{
    derive_phantom_compatible_key(seed_phrase, account_index)
}

/// The lowest account below `max_search` whose Base58 private key is `target`, or -1.
pub fn find_private_key(seed_phrase: &str, target: &str, max_search: u32) -> (r: i32)
    requires
        max_search <= 0x8000_0000,
    ensures
        -1 <= r < max_search,
        r == -1 <==> forall|i: u32| i < max_search ==> !private_key_matches(seed_phrase@, i, target@),
        r >= 0 ==> private_key_matches(seed_phrase@, r as u32, target@),
        r >= 0 ==> forall|i: u32| i < r ==> !private_key_matches(seed_phrase@, i, target@),
{
    let t = target.to_owned();
    let mut i: u32 = 0;
    while i < max_search
        invariant
            i <= max_search <= 0x8000_0000,
            t@ == target@,
            forall|j: u32| j < i ==> !private_key_matches(seed_phrase@, j, target@),
        decreases max_search - i,
    {
        if let Ok(kd) = generate_single_key_for_seed(seed_phrase, i) {
            if kd.private_key_base58 == t {
                assert(private_key_matches(seed_phrase@, i, target@));
                return i as i32;
            }
        }
        i = i + 1;
    }
    -1
}

/// The lowest account below `max_search` whose address is `target`, or -1.
pub fn find_address_index(seed_phrase: &str, target: &str, max_search: u32) -> (r: i32)
    requires
        max_search <= 0x8000_0000,
    ensures
        -1 <= r < max_search,
        r == -1 <==> forall|i: u32| i < max_search ==> !address_matches(seed_phrase@, i, target@),
        r >= 0 ==> address_matches(seed_phrase@, r as u32, target@),
        r >= 0 ==> forall|i: u32| i < r ==> !address_matches(seed_phrase@, i, target@),
{
    let t = target.to_owned();
    let mut i: u32 = 0;
    while i < max_search
        invariant
            i <= max_search <= 0x8000_0000,
            t@ == target@,
            forall|j: u32| j < i ==> !address_matches(seed_phrase@, j, target@),
        decreases max_search - i,
    {
        if let Ok(kd) = generate_single_key_for_seed(seed_phrase, i) {
            if kd.address == t {
                assert(address_matches(seed_phrase@, i, target@));
                return i as i32;
            }
        }
        i = i + 1;
    }
    -1
}

/// The keys of account 0 of the phrases of the global indices `start_index .. start_index + count`,
/// each tagged with its global index; all or nothing.
pub fn generate_key_batch(_ignored: &str, start_index: u32, count: u32) -> (r: Result<
    Vec<KeyData>,
    KeyGenError,
>)
    requires
        start_index + count <= 0x1_0000_0000,
    ensures
        r is Ok <==> forall|k: int|
            0 <= k < count ==> mnemonic_accepted(#[trigger] encoded_phrase((start_index + k) as u128)),
        r matches Ok(v) ==> v@.len() == count && forall|k: int|
            0 <= k < count ==> (#[trigger] v@[k]).index == start_index + k && is_derived(
                v@[k],
                encoded_phrase((start_index + k) as u128),
                0,
            ),
        r matches Err(e) ==> e is InvalidPhrase,
{
    let mut results: Vec<KeyData> = Vec::new();
    let mut i: u32 = 0;
    while i < count
        invariant
            i <= count,
            start_index + count <= 0x1_0000_0000,
            results@.len() == i,
            forall|k: int|
                0 <= k < i ==> mnemonic_accepted(#[trigger] encoded_phrase((start_index + k) as u128)),
            forall|k: int|
                0 <= k < i ==> (#[trigger] results@[k]).index == start_index + k && is_derived(
                    results@[k],
                    encoded_phrase((start_index + k) as u128),
                    0,
                ),
        decreases count - i,
    {
        let idx = start_index + i;
        let seed_phrase = index_to_seed_phrase(idx as u128);
        assert(seed_phrase@ == encoded_phrase((start_index + i as int) as u128));
        let mut kd = match derive_phantom_compatible_key(seed_phrase.as_str(), 0) {
            Ok(kd) => kd,
            Err(e) => {
                assert(!mnemonic_accepted(encoded_phrase((start_index + i as int) as u128)));
                return Err(e);
            },
        };
        kd.index = idx;
        results.push(kd);
        i = i + 1;
    }
    Ok(results)
}

/// Deriving twice from the same phrase and account gives the same address, private keys and
/// path label.
pub proof fn lemma_derivation_deterministic(phrase: Seq<char>, account: u32, a: KeyData, b: KeyData)
    requires
        is_derived(a, phrase, account),
        is_derived(b, phrase, account),
    ensures
        a.address@ == b.address@,
        a.private_key_hex@ == b.private_key_hex@,
        a.private_key_base58@ == b.private_key_base58@,
        a.derivation_path@ == b.derivation_path@,
        a.seed_hex@ == b.seed_hex@,
        a.derivation_path@ == derivation_path_of(account),
{
}

} // verus!
