//! A shielded asset vault: deposits register commitments in an incremental
//! Merkle tree of depth 20, withdrawals present a nullifier, a historical root
//! and a proof bound to the recipient, token and amount.
pub mod bytes;
pub mod error;
pub mod host;
pub mod laws;
pub mod merkle;
pub mod vault;
pub mod zk_verifier;
