//! Stateless verification of Merkle-Patricia trie lookups.
//!
//! A state root commits to a keyed set of values. Given the serialized trie
//! nodes on the way from the root to a key, this crate answers what value the
//! root holds for that key, either from a store of nodes indexed by their
//! digest or from an ordered list of nodes that is authenticated link by link.

pub mod account;
pub mod blockdata;
pub mod bytes;
pub mod chain;
pub mod error;
pub mod field;
pub mod keccak_hasher;
pub mod rlp;
pub mod trie;
pub mod tx;
pub mod zk;
