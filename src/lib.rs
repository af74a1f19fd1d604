//! A minimal append-only ledger: blocks linked by SHA-256 hashes, sealed by a
//! proof-of-work nonce search, with balances derived by replaying every transfer.

pub mod encoding;
pub mod block;
pub mod ledger;
pub mod supply;
