//! A single-process ledger: signed transfers are pooled, committed into a
//! Merkle tree, sealed into blocks by proof-of-work and chained by header
//! hashes.
//!
//! Each function states in its contract what it returns and changes, over a
//! mathematical view of its data, and Verus proves the bodies against the
//! contracts. Three things are taken on trust and marked where they stand:
//! SHA-256 and hexadecimal text (`digest`), ECDSA over P-256 (`signing`), and
//! the clock (`utils`). The digests, keys and signatures of those crates are
//! named, not modelled: the contracts say which bytes are hashed, signed and
//! compared, and leave the cryptography to the crates.
//!
//! No function panics, and every mutation goes through `&mut self`, so a
//! ledger shared between threads needs one lock around it and no more.
//!
//! Policy decisions that callers rely on:
//!
//! * Admission (`BlockChain::validate_transaction`) is the caller's step before
//!   a transaction is pooled; `BlockChain::add_block` seals whatever batch it
//!   is handed and does not re-validate it.
//! * Balances move only in `BlockChain::apply_block`, which the caller invokes
//!   for a block once it is appended. A block either applies in full or not
//!   at all.
//! * The signing digest leaves the fee out, and the header hash leaves the
//!   difficulty out. Both are kept as they are so that digests and addresses
//!   stay compatible; neither field is protected by a signature or a hash.
//! * Merkle levels of odd length repeat their last node. Batches crafted around
//!   that padding can share a root; the scheme is kept for compatibility.

pub mod error;
pub mod utils;
pub mod digest;
pub mod signing;
pub mod transaction;
pub mod merkle_tree;
pub mod wallet;
pub mod accounts;
pub mod blockchain;
pub mod smart_contract;

