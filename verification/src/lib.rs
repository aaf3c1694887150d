//! Mnemonic recovery phrases from secure random entropy.
//!
//! Entropy is drawn from the system's random source, followed by a checksum
//! taken from its SHA-256 digest, read as a stream of 11-bit indices, and
//! spelled out with the words that the indices select from a list of 2048
//! words. The hash engine is written here and proved against the definition
//! of SHA-256; the bit handling is proved against a model of the stream as a
//! sequence of bits.

pub mod bip_39;
pub mod bits;
pub mod entropy;
pub mod hex;
pub mod sha256;
pub mod sha256_lemmas;
pub mod sha256_spec;

pub use bip_39::{append_checksum, extract_11bit_chunks, indices_to_mnemonic, MnemonicError};
pub use bits::BitCursor;
pub use entropy::{Entropy, EntropyError};
pub use hex::to_hex;
pub use sha256::{sha256, Sha256};
