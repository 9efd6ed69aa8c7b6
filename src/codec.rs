use vstd::prelude::*;
use crate::error::KeyGenError;
use crate::text::{is_plain_word, join_words, lemma_split_join, split_words, words_of};
use vstd::arithmetic::div_mod::lemma_hoist_over_denominator;

verus! {

/// Number of words in the English list.
pub const LIST_LEN: u16 = 2048;

/// Number of words in a full phrase.
pub const PHRASE_WORDS: usize = 12;

/// The word at position `i` of bip39's English list.
pub uninterp spec fn english_word(i: int) -> Seq<char>;

/// The four checksum bits that bip39 appends to the 16 bytes of `entropy` (big-endian).
pub uninterp spec fn mnemonic_checksum(entropy: u128) -> int;

/// Whether `w` is in the English list.
pub open spec fn in_list(w: Seq<char>) -> bool {
    exists|i: int| 0 <= i < LIST_LEN && english_word(i) == w
}

/// The position of `w` in the English list (meaningful where `in_list(w)`).
pub open spec fn word_position(w: Seq<char>) -> u16 {
    (choose|i: int| 0 <= i < LIST_LEN && english_word(i) == w) as u16
}

/// The positions of the words `ws`.
pub open spec fn positions(ws: Seq<Seq<char>>) -> Seq<u16> {
    ws.map_values(|w: Seq<char>| word_position(w))
}

/// `2048` to the power `n`.
pub open spec fn pow2048(n: nat) -> nat
    decreases n,
{
    if n == 0 {
        1
    } else {
        2048 * pow2048((n - 1) as nat)
    }
}

/// The integer whose base-2048 digits, most significant first, are `idx`.
pub open spec fn pack(idx: Seq<u16>) -> nat
    decreases idx.len(),
{
    if idx.len() == 0 {
        0
    } else {
        pack(idx.drop_last()) * 2048 + idx.last() as nat
    }
}

/// The lowest `n` base-2048 digits of `v`, most significant first.
pub open spec fn digits(v: nat, n: nat) -> Seq<u16>
    decreases n,
{
    if n == 0 {
        seq![]
    } else {
        digits(v / 2048, (n - 1) as nat).push((v % 2048) as u16)
    }
}

/// `idx` completed with position 0 up to a full phrase.
pub open spec fn pad_to_phrase(idx: Seq<u16>) -> Seq<u16> {
    idx + Seq::new((PHRASE_WORDS - idx.len()) as nat, |i: int| 0u16)
}

/// The entropy of the smallest full phrase that starts with the positions `idx`:
/// the 132 packed bits without the 4 checksum bits.
pub open spec fn entropy_of(idx: Seq<u16>) -> nat {
    pack(pad_to_phrase(idx)) / 16
}

/// The phrase spelled by the word positions `idx`.
pub open spec fn phrase_of(idx: Seq<u16>) -> Seq<char> {
    join_words(idx.map_values(|i: u16| english_word(i as int)))
}

/// The phrase that bip39 makes of `entropy`.
pub open spec fn encoded_phrase(entropy: u128) -> Seq<char> {
    phrase_of(digits((entropy as nat * 16 + mnemonic_checksum(entropy)) as nat, PHRASE_WORDS as nat))
}

/// `s` is the phrase of `entropy` with checksum bits `c`: twelve words of eleven bits each over
/// the entropy followed by the checksum, each word plain and found only at its own position.
pub open spec fn phrase_with_checksum(entropy: u128, c: int, s: Seq<char>) -> bool {
    let idx = digits((entropy as nat * 16 + c) as nat, PHRASE_WORDS as nat);
    &&& 0 <= c < 16
    &&& s == phrase_of(idx)
    &&& forall|k: int|
        0 <= k < PHRASE_WORDS ==> is_plain_word(english_word(#[trigger] idx[k] as int))
    &&& forall|k: int, j: int|
        #![trigger idx[k], english_word(j)]
        0 <= k < PHRASE_WORDS && 0 <= j < LIST_LEN && english_word(j) == english_word(
            idx[k] as int,
        ) ==> j == idx[k]
}

/// `s` is the phrase that bip39 makes of `entropy`.
pub open spec fn phrase_encodes(entropy: u128, s: Seq<char>) -> bool {
    phrase_with_checksum(entropy, mnemonic_checksum(entropy), s)
}

/// Every word is in the list.
pub open spec fn all_in_list(ws: Seq<Seq<char>>) -> bool {
    forall|k: int| 0 <= k < ws.len() ==> in_list(#[trigger] ws[k])
}

/// `w` is the first word of `ws` that is not in the list.
pub open spec fn first_unknown(ws: Seq<Seq<char>>, w: Seq<char>) -> bool {
    exists|k: int|
        0 <= k < ws.len() && !in_list(#[trigger] ws[k]) && ws[k] == w && all_in_list(
            ws.subrange(0, k),
        )
}

/// Relies on bip39's `Language::find_word` for English: a binary search of the sorted list of
/// distinct words, which finds `w` exactly at the position where it stands.
#[verifier::external_body]
fn find_word(w: &str) -> (r: Option<u16>)
    ensures
        r matches Some(i) ==> i < LIST_LEN,
        forall|i: int| 0 <= i < LIST_LEN ==> (r == Some(i as u16) <==> english_word(i) == w@),
{
    bip39::Language::English.find_word(w)
}

/// Relies on bip39's `Mnemonic::from_entropy` on the 16 big-endian bytes of `entropy`, shown
/// as its words joined by single spaces. English words are lower-case letters, all distinct.
#[verifier::external_body]
fn mnemonic_of_entropy(entropy: u128) -> (r: String)
    ensures
        phrase_with_checksum(entropy, mnemonic_checksum(entropy), r@),
{
    let m = bip39::Mnemonic::from_entropy(&entropy.to_be_bytes()).expect("16 bytes of entropy");
    m.to_string()
}

/// The 12-word phrase of a global index.
pub fn index_to_seed_phrase(global_index: u128) -> (r: String)
    ensures
        phrase_encodes(global_index, r@),
{
    mnemonic_of_entropy(global_index)
}

/// The phrase of a global index that fits in 32 bits.
pub fn generate_deterministic_seed(index: u32) -> (r: String)
    ensures
        phrase_encodes(index as u128, r@),
{
    index_to_seed_phrase(index as u128)
}

/// The phrase of the fixed entropy `0x123456789abcdef01122334455667788`.
pub fn generate_random_seed() -> (r: String)
    ensures
        phrase_encodes(0x123456789abcdef01122334455667788u128, r@),
{
    index_to_seed_phrase(0x123456789abcdef01122334455667788u128)
}

/// The views of a list of strings.
pub open spec fn views(v: Seq<String>) -> Seq<Seq<char>> {
    v.map_values(|w: String| w@)
}

/// Every position is below the list's length.
pub open spec fn all_positions(idx: Seq<u16>) -> bool {
    forall|k: int| 0 <= k < idx.len() ==> #[trigger] idx[k] < LIST_LEN
}

proof fn lemma_pow2048_121()
    ensures
        pow2048(11) == 0x2000000000000000000000000000000,
{
    reveal_with_fuel(pow2048, 12);
}

/// The positions of the words, or the first word that is not in the list.
fn lookup_words(words: &Vec<String>) -> (r: Result<Vec<u16>, KeyGenError>)
    ensures
        match r {
            Ok(idx) => all_in_list(views(words@)) && idx@ == positions(views(words@))
                && all_positions(idx@),
            Err(e) => e matches KeyGenError::UnknownWord(w) && first_unknown(views(words@), w@),
        },
{
    let ghost ws = views(words@);
    let mut idx: Vec<u16> = Vec::new();
    let mut i: usize = 0;
    while i < words.len()
        invariant
            0 <= i <= words.len(),
            ws == views(words@),
            all_in_list(ws.subrange(0, i as int)),
            idx@ == positions(ws.subrange(0, i as int)),
            all_positions(idx@),
        decreases words.len() - i,
    {
        let w = words[i].as_str();
        assert(w@ == ws[i as int]);
        match find_word(w) {
            Some(p) => {
                proof {
                    assert(english_word(p as int) == w@);
                    assert(in_list(w@));
                    let j = choose|j: int| 0 <= j < LIST_LEN && english_word(j) == w@;
                    assert(Some(j as u16) == Some(p));
                    assert(word_position(w@) == p);
                    assert(ws.subrange(0, i + 1) =~= ws.subrange(0, i as int).push(w@));
                    assert(positions(ws.subrange(0, i + 1)) =~= positions(
                        ws.subrange(0, i as int),
                    ).push(p));
                }
                idx.push(p);
                i = i + 1;
            },
            None => {
                proof {
                    assert(!in_list(ws[i as int]));
                }
                return Err(KeyGenError::UnknownWord(words[i].clone()));
            },
        }
    }
    proof {
        assert(ws.subrange(0, i as int) =~= ws);
    }
    Ok(idx)
}

/// The entropy of the smallest full phrase that starts with the word positions `idx`.
fn entropy_from_positions(idx: &Vec<u16>) -> (r: u128)
    requires
        1 <= idx@.len() <= PHRASE_WORDS,
        all_positions(idx@),
    ensures
        r == entropy_of(idx@),
{
    let ghost full = pad_to_phrase(idx@);
    let mut p: u128 = 0;
    let mut j: usize = 0;
    while j < PHRASE_WORDS - 1
        invariant
            0 <= j <= PHRASE_WORDS - 1,
            1 <= idx@.len() <= PHRASE_WORDS,
            all_positions(idx@),
            full == pad_to_phrase(idx@),
            p == pack(full.subrange(0, j as int)),
            p < pow2048(j as nat),
        decreases PHRASE_WORDS - 1 - j,
    {
        let d: u16 = if j < idx.len() {
            idx[j]
        } else {
            0
        };
        proof {
            assert(full[j as int] == d);
            assert(full.subrange(0, j + 1).drop_last() =~= full.subrange(0, j as int));
            let q = pow2048(j as nat);
            assert(p * 2048 + d < q * 2048) by (nonlinear_arith)
                requires
                    p < q,
                    d < 2048,
            ;
            lemma_pow2048_121();
            assert(pow2048((j + 1) as nat) <= pow2048(11)) by {
                lemma_pow2048_mono((j + 1) as nat, 11);
            }
        }
        p = p * 2048 + d as u128;
        j = j + 1;
    }
    let last: u16 = if idx.len() == PHRASE_WORDS {
        idx[PHRASE_WORDS - 1]
    } else {
        0
    };
    proof {
        lemma_pow2048_121();
        assert(full[11] == last);
        assert(full.subrange(0, 12) =~= full);
        assert(full.drop_last() =~= full.subrange(0, 11));
        assert(pack(full) == p * 2048 + last);
        lemma_hoist_over_denominator(last as int, p as int * 128, 16);
        assert(p as int * 128 * 16 == p * 2048);
        assert(p * 128 + last / 16 < 0x100000000000000000000000000000000) by (nonlinear_arith)
            requires
                p < 0x2000000000000000000000000000000,
                last < 2048,
        ;
    }
    p * 128 + (last / 16) as u128
}

proof fn lemma_pow2048_mono(a: nat, b: nat)
    requires
        a <= b,
    ensures
        pow2048(a) <= pow2048(b),
    decreases b,
{
    if a < b {
        lemma_pow2048_mono(a, (b - 1) as nat);
    }
}

/// The global index of a 12-word phrase: the packed word positions without the checksum bits,
/// which are not checked.
pub fn mnemonic_to_index(mnemonic: &str) -> (r: Result<u128, KeyGenError>)
    ensures
        ({
            let ws = words_of(mnemonic@);
            &&& ws.len() != PHRASE_WORDS ==> (r matches Err(KeyGenError::InvalidWordCount))
            &&& ws.len() == PHRASE_WORDS && all_in_list(ws) ==> r == Ok::<u128, KeyGenError>(
                entropy_of(positions(ws)) as u128,
            )
            &&& ws.len() == PHRASE_WORDS && !all_in_list(ws) ==> (r matches Err(
                KeyGenError::UnknownWord(w),
            ) && first_unknown(ws, w@))
        }),
{
    let words = split_words(mnemonic);
    if words.len() != PHRASE_WORDS {
        return Err(KeyGenError::InvalidWordCount);
    }
    match lookup_words(&words) {
        Ok(idx) => Ok(entropy_from_positions(&idx)),
        Err(e) => Err(e),
    }
}

/// The global index of the smallest full phrase that starts with the 1 to 12 words of `prefix`.
pub fn prefix_to_index(prefix: &str) -> (r: Result<u128, KeyGenError>)
    ensures
        ({
            let ws = words_of(prefix@);
            &&& (ws.len() == 0 || ws.len() > PHRASE_WORDS) ==> (r matches Err(
                KeyGenError::InvalidWordCount,
            ))
            &&& 1 <= ws.len() <= PHRASE_WORDS && all_in_list(ws) ==> r == Ok::<u128, KeyGenError>(
                entropy_of(positions(ws)) as u128,
            )
            &&& 1 <= ws.len() <= PHRASE_WORDS && !all_in_list(ws) ==> (r matches Err(
                KeyGenError::UnknownWord(w),
            ) && first_unknown(ws, w@))
        }),
{
    let words = split_words(prefix);
    let k = words.len();
    if k == 0 || k > PHRASE_WORDS {
        return Err(KeyGenError::InvalidWordCount);
    }
    match lookup_words(&words) {
        Ok(idx) => Ok(entropy_from_positions(&idx)),
        Err(e) => Err(e),
    }
}

proof fn lemma_digits_shape(v: nat, n: nat)
    ensures
        digits(v, n).len() == n,
        all_positions(digits(v, n)),
    decreases n,
{
    if n > 0 {
        lemma_digits_shape(v / 2048, (n - 1) as nat);
        let d = digits(v, n);
        assert forall|k: int| 0 <= k < d.len() implies #[trigger] d[k] < LIST_LEN by {
            if k < n - 1 {
                assert(d[k] == digits(v / 2048, (n - 1) as nat)[k]);
            }
        }
    }
}

proof fn lemma_pack_digits(v: nat, n: nat)
    requires
        v < pow2048(n),
    ensures
        pack(digits(v, n)) == v,
    decreases n,
{
    if n > 0 {
        let q = pow2048((n - 1) as nat);
        assert(v / 2048 < q) by (nonlinear_arith)
            requires
                v < 2048 * q,
        ;
        lemma_pack_digits(v / 2048, (n - 1) as nat);
        let d = digits(v, n);
        assert(d.drop_last() =~= digits(v / 2048, (n - 1) as nat));
        assert(v == (v / 2048) * 2048 + v % 2048) by (nonlinear_arith);
    }
}

proof fn lemma_pack_zeros(idx: Seq<u16>, m: nat)
    ensures
        pack(idx + Seq::new(m, |i: int| 0u16)) == pack(idx) * pow2048(m),
    decreases m,
{
    let s = idx + Seq::new(m, |i: int| 0u16);
    if m == 0 {
        assert(s =~= idx);
        assert(pow2048(0) == 1);
    } else {
        lemma_pack_zeros(idx, (m - 1) as nat);
        assert(s.drop_last() =~= idx + Seq::new((m - 1) as nat, |i: int| 0u16));
        assert(s.last() == 0u16);
        assert(pack(s) == pack(s.drop_last()) * 2048);
        assert(pack(idx) * pow2048((m - 1) as nat) * 2048 == pack(idx) * pow2048(m))
            by (nonlinear_arith)
            requires
                pow2048(m) == 2048 * pow2048((m - 1) as nat),
        ;
    }
}

/// Decoding any phrase that encoding gives for an index yields that index: the phrase has
/// twelve words, all in the list, and their positions carry the index's 128 bits.
pub proof fn lemma_round_trip(i: u128, phrase: Seq<char>)
    requires
        phrase_encodes(i, phrase),
    ensures
        words_of(phrase).len() == PHRASE_WORDS,
        all_in_list(words_of(phrase)),
        entropy_of(positions(words_of(phrase))) == i,
{
    let c = mnemonic_checksum(i);
    let v = (i as nat * 16 + c) as nat;
    let idx = digits(v, PHRASE_WORDS as nat);
    let ws = idx.map_values(|k: u16| english_word(k as int));
    lemma_digits_shape(v, PHRASE_WORDS as nat);
    assert forall|k: int| 0 <= k < ws.len() implies is_plain_word(#[trigger] ws[k]) by {
        assert(is_plain_word(english_word(idx[k] as int)));
    }
    lemma_split_join(ws);
    assert(words_of(phrase) == ws);
    assert forall|k: int| 0 <= k < ws.len() implies in_list(#[trigger] ws[k]) by {
        assert(english_word(idx[k] as int) == ws[k]);
    }
    assert forall|k: int| 0 <= k < ws.len() implies #[trigger] positions(ws)[k] == idx[k] by {
        let w = ws[k];
        assert(english_word(idx[k] as int) == w);
        let j = choose|j: int| 0 <= j < LIST_LEN && english_word(j) == w;
        assert(english_word(j) == english_word(idx[k] as int));
    }
    assert(positions(ws) =~= idx);
    assert(pad_to_phrase(idx) =~= idx);
    reveal_with_fuel(pow2048, 13);
    assert(v < pow2048(12));
    lemma_pack_digits(v, PHRASE_WORDS as nat);
    lemma_hoist_over_denominator(c, i as int, 16);
    assert(c / 16 == 0);
}

/// A prefix decodes to the index of its smallest completion: the prefix's word positions
/// followed by position 0, that is the packed prefix shifted left by eleven bits per missing
/// word, without the 4 checksum bits.
pub proof fn lemma_prefix_completion(idx: Seq<u16>)
    requires
        1 <= idx.len() <= PHRASE_WORDS,
    ensures
        entropy_of(idx) == entropy_of(pad_to_phrase(idx)),
        entropy_of(idx) == pack(idx) * pow2048((PHRASE_WORDS - idx.len()) as nat) / 16,
{
    assert(pad_to_phrase(pad_to_phrase(idx)) =~= pad_to_phrase(idx));
    lemma_pack_zeros(idx, (PHRASE_WORDS - idx.len()) as nat);
}

} // verus!
