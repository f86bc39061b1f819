//! The private half of a content-addressed file system: hash nibbles and keys,
//! name accumulators, node headers, and the directory tree that they hold together.

pub mod common;
pub mod error;
pub mod framing;
pub mod hamt;
pub mod hash;
pub mod ipld;
pub mod private;
pub mod ratchet;
pub mod text;
pub mod uint256_serde_le;
