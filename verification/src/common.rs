//! Values that every module shares.

use vstd::prelude::*;

verus! {

/// The number of bytes in a digest.
pub const HASH_BYTE_SIZE: usize = 32;

/// A digest of `HASH_BYTE_SIZE` bytes.
pub type HashOutput = [u8; HASH_BYTE_SIZE];

/// The number of bytes in two digests.
pub const DOUBLE_SIZE: usize = 64;

/// Where random bytes come from.
///
/// Nothing is known of the bytes that an implementation gives. A contract can say that bytes were
/// drawn, and not how often it was drawn: an implementation shows no state that would change.
pub trait Rng {
    /// Gives `N` random bytes.
    fn random_bytes<const N: usize>(&self) -> [u8; N];
}

} // verus!
