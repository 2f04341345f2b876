//! A tamper-evident journal: an append-only chain of blocks linked by
//! cryptographic hash, with longest-valid-chain replacement, a deterministic
//! byte encoding for persistence, and the decision logic of peer
//! synchronization.

pub mod codec;
pub mod digest;
pub mod laws;
pub mod models;
pub mod storage;
pub mod sync;
