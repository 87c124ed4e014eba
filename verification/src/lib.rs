//! A single-node ledger: blocks of transactions secured by proof of work,
//! with balances derived from unspent transaction outputs.
//!
//! The chain lives in a key-value store of bytes. A block holds transactions,
//! names the block before it, and carries the hash and the nonce that the
//! proof of work found. What an address owns is what the chain paid to it and
//! no later transaction has spent.

pub mod block;
pub mod block_chain;
pub mod codec;
pub mod digest;
pub mod pow;
pub mod store;
pub mod tools;
pub mod transaction;
pub mod utxo;
pub mod wallet;
