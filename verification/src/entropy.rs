//! Entropy for a mnemonic: a block of bytes from the system's secure random
//! source, of one of the five sizes that a mnemonic can carry.

use crate::hex::{hex_string, to_hex};
use vstd::prelude::*;

verus! {

/// `getrandom::Error`, the error of the random source. It is carried
/// through as it comes; nothing is read from it.
#[verifier::external_type_specification]
#[verifier::external_body]
pub struct ExGetrandomError(getrandom::Error);

/// `getrandom::getrandom` fills the slice from the system's random source or
/// fails; either way the slice keeps its length. Of the bytes themselves
/// nothing is claimed: on success they are random, on failure unspecified.
pub assume_specification[ getrandom::getrandom ](dest: &mut [u8]) -> (outcome: Result<
    (),
    getrandom::Error,
>)
    ensures
        final(dest)@.len() == old(dest)@.len(),
;

/// Whether entropy may have `len` bytes: 128 to 256 bits in steps of 32.
pub open spec fn valid_entropy_len(len: nat) -> bool {
    len == 16 || len == 20 || len == 24 || len == 28 || len == 32
}

/// Random bytes from which a mnemonic is derived.
#[derive(Debug)]
pub struct Entropy {
    pub bytes: Vec<u8>,
}

/// Why no entropy was made.
#[derive(Debug, Clone, Copy, PartialEq, Eq, Structural)]
pub enum EntropyError {
    /// The system's random source failed. Nothing is retried and no weaker
    /// source takes its place.
    GenerationError,
    /// The size asked for is not one of 16, 20, 24, 28 and 32 bytes.
    WrongSize,
}

impl Entropy {
    /// Whether the entropy has one of the sizes that a mnemonic can carry.
    pub open spec fn is_valid(&self) -> bool {
        valid_entropy_len(self.bytes@.len())
    }

    /// Makes entropy of a buffer and of what the random source answered
    /// when asked to fill it. A buffer of a wrong size is refused whatever
    /// the answer was; a failure of the source is passed on as
    /// [`EntropyError::GenerationError`].
    pub fn from_filled(bytes: Vec<u8>, outcome: Result<(), getrandom::Error>) -> (made: Result<
        Entropy,
        EntropyError,
    >)
        ensures
            made == if !valid_entropy_len(bytes@.len()) {
                Err::<Entropy, EntropyError>(EntropyError::WrongSize)
            } else if outcome is Err {
                Err::<Entropy, EntropyError>(EntropyError::GenerationError)
            } else {
                Ok::<Entropy, EntropyError>(Entropy { bytes })
            },
    {
        let len = bytes.len();
        if !(len == 16 || len == 20 || len == 24 || len == 28 || len == 32) {
            return Err(EntropyError::WrongSize);
        }
        match outcome {
            Ok(_) => Ok(Entropy { bytes }),
            Err(_) => Err(EntropyError::GenerationError),
        }
    }

    /// Draws `num_bytes` bytes of entropy from the system's secure random
    /// source. A size that is not supported is refused before the source is
    /// asked for anything.
    pub fn generate(num_bytes: usize) -> (made: Result<Entropy, EntropyError>)
        ensures
            !valid_entropy_len(num_bytes as nat) ==> made == Err::<Entropy, EntropyError>(
                EntropyError::WrongSize,
            ),
            valid_entropy_len(num_bytes as nat) ==> match made {
                Ok(entropy) => entropy.is_valid() && entropy.bytes@.len() == num_bytes,
                Err(error) => error == EntropyError::GenerationError,
            },
    {
        match num_bytes {
            16 | 20 | 24 | 28 | 32 => {
                let mut bytes = vec![0u8; num_bytes];
                let outcome = getrandom::getrandom(bytes.as_mut_slice());
                Entropy::from_filled(bytes, outcome)
            },
            _ => Err(EntropyError::WrongSize),
        }
    }

    /// The bytes as lowercase hexadecimal text.
    pub fn display_hex(&self) -> (text: String)
        ensures
            text@ == hex_string(self.bytes@),
    {
        to_hex(self.bytes.as_slice())
    }
}

} // verus!
