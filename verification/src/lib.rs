//! An authenticated key-value commitment client over a sparse Merkle tree.
//!
//! Domain records pair a 20-byte account identifier with an unsigned 128-bit
//! amount. The codec maps them injectively into the 32-byte key/value space of
//! the tree; the workflow commits a batch of records, reads the root, produces
//! a membership proof for chosen accounts, and verifies claimed pairs against
//! a root.

pub mod codec;
pub mod store;
pub mod workflow;
