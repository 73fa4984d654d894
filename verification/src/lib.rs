//! A small proof-of-work blockchain: blocks mined over a Merkle root of their
//! transactions, transaction outputs locked to public-key hashes, a set of
//! unspent outputs, and wallets of ed25519 keys addressed in Base58.
pub mod digest;
pub mod codec;
pub mod address;
pub mod merkle;
pub mod bytes;
pub mod error;
pub mod wallet;
pub mod tx;
pub mod transaction;
pub mod clock;
pub mod block;
pub mod keyorder;
pub mod utxoset;
pub mod cli;
