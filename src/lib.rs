//! Verified state storage and commitment engine of a Starknet full node.
//!
//! The crate keeps per-block chain state in versioned maps over a columnar
//! key-value store, indexes node blocks against chain blocks, and computes the
//! Merkle-Patricia commitments that a block header carries.
//!
//! - `felt`: 256-bit words.
//! - `codec`: the byte encoding of stored keys and values.
//! - `store`: the columnar store and its atomic write batches.
//! - `mapping`: the index between node blocks, chain blocks and transactions.
//! - `versioned`: maps whose entries carry the block they took effect at.
//! - `hasher`: the hash capability, with the Pedersen hash.
//! - `trie`: Merkle-Patricia tries and their roots.
//! - `commitment`: block and state commitments.
//! - `pipeline`: applying a block's state diff to the versioned maps.
//! - `rpc`: what the query interface decides over the stored state.
//! - `errors`: the query interface's errors.

pub mod felt;
pub mod codec;
pub mod store;
pub mod errors;
pub mod mapping;
pub mod versioned;
pub mod hasher;
pub mod trie;
pub mod commitment;
pub mod pipeline;
pub mod rpc;
