//! A minimal proof-of-work blockchain.
//!
//! A chain is a growing list of blocks. Every block names the hash of the
//! block before it, and carries a nonce that makes its own SHA-256 digest
//! begin with as many `'0'` characters as the chain's difficulty asks for.

pub mod hashing;
pub mod clock;
pub mod block;
pub mod blockchain;
pub mod cli;
