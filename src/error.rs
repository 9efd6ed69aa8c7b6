use vstd::prelude::*;

verus! {

/// Why a phrase could not be turned into an index or a key.
#[derive(Debug)]
pub enum KeyGenError {
    /// The phrase or prefix has a number of words that the operation does not take.
    InvalidWordCount,
    /// This word is not in the English word list.
    UnknownWord(String),
    /// The phrase is not a valid mnemonic (words or checksum).
    InvalidPhrase,
}

impl KeyGenError {
    /// A human-readable message for the error.
    pub fn message(&self) -> (r: String)
        ensures
            self is InvalidWordCount ==> r@ == "Wrong number of words: a phrase has 12, a prefix 1 to 12"@,
            self matches KeyGenError::UnknownWord(w) ==> r@ == "Unknown word: "@ + w@,
            self is InvalidPhrase ==> r@ == "Invalid seed phrase"@,
    {
        match self {
            KeyGenError::InvalidWordCount => String::from_str(
                "Wrong number of words: a phrase has 12, a prefix 1 to 12",
            ),
            KeyGenError::UnknownWord(w) => {
                let mut m = String::from_str("Unknown word: ");
                m.append(w.as_str());
                m
            },
            KeyGenError::InvalidPhrase => String::from_str("Invalid seed phrase"),
        }
    }
}

} // verus!
