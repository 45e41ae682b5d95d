//! The proof check that guards withdrawals.
//!
//! A proof is accepted when it equals the SHA-256 digest of the public inputs
//! laid end to end. A verifier in test mode, for unit tests, also accepts the
//! fixed test proof `ZK_PASS_MOCK_PROOF` whatever the inputs. An empty proof
//! is never accepted.
use vstd::prelude::*;

use crate::bytes::{append_bytes, bytes_equal, hash_views};
use crate::host::{sha256, sha256_digest};

verus! {

/// The bytes of the ASCII string `ZK_PASS_MOCK_PROOF`, the proof that a
/// verifier in test mode accepts whatever the public inputs.
pub open spec fn mock_proof() -> Seq<u8> {
    seq![
        0x5Au8, 0x4Bu8, 0x5Fu8, 0x50u8, 0x41u8, 0x53u8, 0x53u8, 0x5Fu8, 0x4Du8,
        0x4Fu8, 0x43u8, 0x4Bu8, 0x5Fu8, 0x50u8, 0x52u8, 0x4Fu8, 0x4Fu8, 0x46u8,
    ]
}

/// The public inputs laid end to end, first input first.
pub open spec fn concat_inputs(inputs: Seq<Seq<u8>>) -> Seq<u8>
    decreases inputs.len(),
{
    if inputs.len() == 0 {
        Seq::empty()
    } else {
        concat_inputs(inputs.drop_last()) + inputs.last()
    }
}

/// Whether `proof` is accepted for `public_inputs`, by a verifier that
/// accepts the fixed test proof exactly when `test_mode` holds.
pub open spec fn proof_accepted(proof: Seq<u8>, public_inputs: Seq<Seq<u8>>, test_mode: bool) -> bool {
    &&& proof.len() != 0
    &&& ((test_mode && proof == mock_proof()) || proof == sha256_digest(concat_inputs(public_inputs)))
}

/// The proof `ZK_PASS_MOCK_PROOF`.
pub fn mock_proof_bytes() -> (bytes: Vec<u8>)
    ensures
        bytes@ == mock_proof(),
{
    let bytes = vec![
        0x5Au8, 0x4Bu8, 0x5Fu8, 0x50u8, 0x41u8, 0x53u8, 0x53u8, 0x5Fu8, 0x4Du8,
        0x4Fu8, 0x43u8, 0x4Bu8, 0x5Fu8, 0x50u8, 0x52u8, 0x4Fu8, 0x4Fu8, 0x46u8,
    ];
    assert(bytes@ =~= mock_proof());
    bytes
}

/// The verifier of withdrawal proofs.
pub struct ZkVerifier;

impl ZkVerifier {
    /// The digest of the public inputs laid end to end: the proof that the
    /// verifier accepts for them (besides the fixed test proof in test mode).
    pub fn public_inputs_digest(env: &soroban_sdk::Env, public_inputs: &Vec<[u8; 32]>) -> (digest: [u8; 32])
        ensures
            digest@ == sha256_digest(concat_inputs(hash_views(public_inputs@))),
    {
        let ghost inputs = hash_views(public_inputs@);
        let mut input_bytes: Vec<u8> = Vec::new();
        for k in 0..public_inputs.len()
            invariant
                inputs == hash_views(public_inputs@),
                input_bytes@ == concat_inputs(inputs.take(k as int)),
        {
            let input = &public_inputs[k];
            append_bytes(&mut input_bytes, input);
            assert(inputs.take(k + 1).drop_last() == inputs.take(k as int));
        }
        assert(inputs.take(public_inputs@.len() as int) == inputs);
        sha256(env, input_bytes.as_slice())
    }

    /// Checks `proof` against `public_inputs`; the fixed test proof passes
    /// only in `test_mode`.
    pub fn verify_proof(
        env: &soroban_sdk::Env,
        proof: &[u8],
        public_inputs: &Vec<[u8; 32]>,
        test_mode: bool,
    ) -> (valid: bool)
        ensures
            valid == proof_accepted(proof@, hash_views(public_inputs@), test_mode),
    {
        if proof.len() == 0 {
            return false;
        }
        if test_mode {
            let mock = mock_proof_bytes();
            if bytes_equal(proof, mock.as_slice()) {
                return true;
            }
        }
        let expected = Self::public_inputs_digest(env, public_inputs);
        bytes_equal(&expected, proof)
    }
}

} // verus!
