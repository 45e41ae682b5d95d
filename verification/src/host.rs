//! The points where the library reaches into the Soroban host.
//!
//! Only hashing goes through the host: SHA-256 of a byte string, computed by
//! `soroban_sdk::crypto::Crypto::sha256`.
use vstd::prelude::*;

verus! {

/// The Soroban environment; an opaque handle on the host that does the hashing.
#[verifier::external_type_specification]
#[verifier::external_body]
pub struct ExEnv(soroban_sdk::Env);

/// The SHA-256 digest of `data`, as the Soroban host computes it.
pub uninterp spec fn sha256_digest(data: Seq<u8>) -> Seq<u8>;

/// Calls `soroban_sdk::crypto::Crypto::sha256` on `data` (copied into a host
/// `Bytes` object with `Bytes::from_slice`) and returns the 32 digest bytes.
///
/// Trusted: the result is the named SHA-256 digest of the argument bytes; the
/// digest is a function of the bytes alone. Not stated: the host charges the
/// call to the environment's resource budget and panics when that budget is
/// exhausted, which depends on the environment's history, not on `data`.
#[verifier::external_body]
pub(crate) fn sha256(env: &soroban_sdk::Env, data: &[u8]) -> (digest: [u8; 32])
    ensures
        digest@ == sha256_digest(data@),
{
    env.crypto().sha256(&soroban_sdk::Bytes::from_slice(env, data)).to_array()
}

} // verus!
