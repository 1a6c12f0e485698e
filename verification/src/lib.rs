//! A single-node, append-only ledger: transactions that spend earlier
//! outputs, blocks sealed by proof of work and linked by their hashes, a
//! chain kept in a key-value store, and the index of unspent outputs
//! derived from it.
//!
//! - `tx`, `transaction`: inputs, outputs and transactions; ids, signing
//!   and verification; coinbase transactions and transfers.
//! - `block`: blocks and their sealing.
//! - `store`, `blockchain`: the key-value store and the chain in it.
//! - `utxoset`: the index of unspent outputs.
//! - `hashing`, `signing`, `address`, `encoding`: digests, signatures,
//!   addresses and canonical bytes, each taken from the crate that provides
//!   it.
//! - `assoc`, `order`: lists of pairs read as maps, and the order of texts.

pub mod address;
pub mod assoc;
pub mod block;
pub mod blockchain;
pub mod encoding;
pub mod errors;
pub mod hashing;
pub mod order;
pub mod signing;
pub mod store;
pub mod transaction;
pub mod tx;
pub mod utxoset;
