use vstd::prelude::*;

verus! {

/// The error kinds reported by the key-derivation pipeline.
///
/// Every fallible stage returns one of these; the pipeline short-circuits on
/// the first failure and performs no partial derivation.
#[derive(Clone, Copy, Debug, PartialEq, Eq, Structural)]
pub enum KeyError {
    /// The requested entropy size is not one of the supported sizes.
    InvalidEntropyLength,
    /// A word of a mnemonic phrase does not occur in the wordlist.
    UnknownWordError,
    /// The checksum embedded in a mnemonic phrase does not match the entropy.
    ChecksumMismatchError,
    /// A derivation path string is malformed.
    InvalidPathSyntax,
    /// A child-key derivation step produced a scalar outside the valid range.
    DerivationArithmeticError,
    /// Raw key bytes do not form a valid curve scalar.
    InvalidKeyMaterialError,
    /// A textual encoding could not be produced or read back.
    EncodingError,
    /// The operating system's entropy source failed.
    EntropySourceError,
}

impl KeyError {
    /// A short diagnostic name for this error kind.
    pub fn name(&self) -> (r: &'static str)
        ensures
            r@.len() > 0,
    {
        proof {
            reveal_strlit("invalid entropy length");
            reveal_strlit("unknown word");
            reveal_strlit("checksum mismatch");
            reveal_strlit("invalid path syntax");
            reveal_strlit("derivation arithmetic failure");
            reveal_strlit("invalid key material");
            reveal_strlit("encoding failure");
            reveal_strlit("entropy source failure");
        }
        match self {
            KeyError::InvalidEntropyLength => "invalid entropy length",
            KeyError::UnknownWordError => "unknown word",
            KeyError::ChecksumMismatchError => "checksum mismatch",
            KeyError::InvalidPathSyntax => "invalid path syntax",
            KeyError::DerivationArithmeticError => "derivation arithmetic failure",
            KeyError::InvalidKeyMaterialError => "invalid key material",
            KeyError::EncodingError => "encoding failure",
            KeyError::EntropySourceError => "entropy source failure",
        }
    }
}

} // verus!
