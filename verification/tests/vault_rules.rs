use soroban_sdk::Env;
use zkstash::bytes::u128_be_bytes;
use zkstash::error::ZkStashError;
use zkstash::merkle::MerkleTree;
use zkstash::vault::{withdrawal_public_inputs, Address, DataKey, WithdrawReceipt, ZkStashVault};
use zkstash::zk_verifier::ZkVerifier;

fn account(seed: u8) -> Address {
    let mut xdr = vec![0u8, 0, 0, 18, 0, 0, 0, 0, 0, 0, 0, 0];
    xdr.extend_from_slice(&[seed; 32]);
    Address::from_xdr(xdr).unwrap()
}

fn contract(seed: u8) -> Address {
    let mut xdr = vec![0u8, 0, 0, 18, 0, 0, 0, 1];
    xdr.extend_from_slice(&[seed; 32]);
    Address::from_xdr(xdr).unwrap()
}

fn hex32(s: &str) -> [u8; 32] {
    let mut out = [0u8; 32];
    for i in 0..32 {
        out[i] = u8::from_str_radix(&s[2 * i..2 * i + 2], 16).unwrap();
    }
    out
}

const MOCK: &[u8] = b"ZK_PASS_MOCK_PROOF";

fn funded_vault(env: &Env, fee_bps: u32) -> (ZkStashVault, Address, [u8; 32]) {
    let mut vault = ZkStashVault::new_test_mode();
    let admin = account(10);
    vault.initialize(admin.clone(), fee_bps).unwrap();
    let root = vault.deposit(env, [1u8; 32], 1000).unwrap();
    (vault, admin, root)
}

#[test]
fn initialize_only_once_and_fee_capped() {
    let mut vault = ZkStashVault::new_test_mode();
    assert_eq!(vault.initialize(account(1), 1001), Err(ZkStashError::FeeTooHigh));
    assert_eq!(vault.initialize(account(1), 1000), Ok(()));
    assert_eq!(vault.initialize(account(2), 10), Err(ZkStashError::AlreadyInitialized));
    assert_eq!(ZkStashError::AlreadyInitialized.message(), "Already initialized");
    assert_eq!(ZkStashError::FeeTooHigh.message(), "Fee cannot exceed 10%");
}

#[test]
fn amounts_must_be_positive() {
    let env = Env::default();
    let (mut vault, _admin, root) = funded_vault(&env, 0);
    assert_eq!(vault.deposit(&env, [4u8; 32], 0), Err(ZkStashError::AmountNotPositive));
    assert_eq!(vault.deposit(&env, [4u8; 32], -5), Err(ZkStashError::AmountNotPositive));
    assert_eq!(vault.get_commitment_count(), 1);
    assert_eq!(
        vault.withdraw(&env, &contract(20), &account(40), -5, [2u8; 32], root, MOCK),
        Err(ZkStashError::AmountNotPositive)
    );
    assert_eq!(ZkStashError::AmountNotPositive.message(), "Amount must be positive");
}

#[test]
fn deposits_work_before_initialization() {
    let env = Env::default();
    let mut vault = ZkStashVault::new_test_mode();
    assert_eq!(vault.is_paused(), false);
    let root = vault.deposit(&env, [1u8; 32], 10).unwrap();
    assert_eq!(
        root,
        hex32("32fda0577aed68c184536c80f66155ad02a055795c58a9dfead941807cd56041")
    );
    assert_eq!(vault.get_root(&env), root);
    // No fee rate is set, so the whole amount goes out.
    let receipt = vault
        .withdraw(&env, &contract(20), &account(40), 10, [2u8; 32], root, MOCK)
        .unwrap();
    assert_eq!(receipt, WithdrawReceipt { withdraw_amount: 10, fee_amount: 0 });
}

#[test]
fn fee_is_rounded_down_and_accrues() {
    let env = Env::default();
    let (mut vault, admin, root) = funded_vault(&env, 1000);
    let receipt = vault
        .withdraw(&env, &contract(20), &account(40), 12345, [2u8; 32], root, MOCK)
        .unwrap();
    assert_eq!(receipt, WithdrawReceipt { withdraw_amount: 11111, fee_amount: 1234 });
    vault.update_fee_bps(&admin, 30).unwrap();
    // 99 * 30 / 10000 rounds down to nothing.
    let receipt = vault
        .withdraw(&env, &contract(20), &account(40), 99, [3u8; 32], root, MOCK)
        .unwrap();
    assert_eq!(receipt, WithdrawReceipt { withdraw_amount: 99, fee_amount: 0 });
    assert_eq!(vault.claim_fees(&admin), Ok(1234));
    assert_eq!(vault.claim_fees(&admin), Err(ZkStashError::NoFeesAccrued));
    assert_eq!(ZkStashError::NoFeesAccrued.message(), "No fees accrued");
}

#[test]
fn fee_overflow_is_refused_without_spending() {
    let env = Env::default();
    let (mut vault, _admin, root) = funded_vault(&env, 50);
    assert_eq!(
        vault.withdraw(&env, &contract(20), &account(40), i128::MAX, [2u8; 32], root, MOCK),
        Err(ZkStashError::ArithmeticOverflow)
    );
    // The nullifier was not spent by the refused request.
    assert!(vault
        .withdraw(&env, &contract(20), &account(40), 100, [2u8; 32], root, MOCK)
        .is_ok());
}

#[test]
fn paused_vault_refuses_withdrawals() {
    let env = Env::default();
    let (mut vault, admin, root) = funded_vault(&env, 0);
    vault.set_paused(&admin, true).unwrap();
    assert_eq!(
        vault.withdraw(&env, &contract(20), &account(40), 10, [2u8; 32], root, MOCK),
        Err(ZkStashError::ContractPaused)
    );
    assert_eq!(vault.deposit(&env, [4u8; 32], 10), Err(ZkStashError::ContractPaused));
    assert_eq!(ZkStashError::ContractPaused.message(), "Contract is paused");
    vault.set_paused(&admin, false).unwrap();
    assert!(vault
        .withdraw(&env, &contract(20), &account(40), 10, [2u8; 32], root, MOCK)
        .is_ok());
}

#[test]
fn admin_only_requests() {
    let mut vault = ZkStashVault::new_test_mode();
    let admin = account(10);
    let stranger = account(11);
    assert_eq!(vault.set_paused(&admin, true), Err(ZkStashError::NotInitialized));
    assert_eq!(ZkStashError::NotInitialized.message(), "Not initialized");
    vault.initialize(admin.clone(), 0).unwrap();
    assert_eq!(vault.set_paused(&stranger, true), Err(ZkStashError::Unauthorized));
    assert_eq!(vault.claim_fees(&stranger), Err(ZkStashError::Unauthorized));
    assert_eq!(vault.update_fee_bps(&stranger, 10), Err(ZkStashError::Unauthorized));
    assert_eq!(vault.change_admin(&stranger, stranger.clone()), Err(ZkStashError::Unauthorized));
    assert_eq!(vault.upgrade(&stranger, [5u8; 32]), Err(ZkStashError::Unauthorized));
    assert_eq!(ZkStashError::Unauthorized.message(), "Unauthorized");
    assert_eq!(vault.is_paused(), false);

    assert_eq!(vault.update_fee_bps(&admin, 1001), Err(ZkStashError::FeeTooHigh));
    assert_eq!(vault.upgrade(&admin, [5u8; 32]), Ok([5u8; 32]));

    vault.change_admin(&admin, stranger.clone()).unwrap();
    assert_eq!(vault.set_paused(&admin, true), Err(ZkStashError::Unauthorized));
    assert_eq!(vault.set_paused(&stranger, true), Ok(()));
    assert_eq!(vault.is_paused(), true);
}

#[test]
fn older_roots_stay_valid() {
    let env = Env::default();
    let (mut vault, _admin, first_root) = funded_vault(&env, 0);
    let second_root = vault.deposit(&env, [3u8; 32], 1000).unwrap();
    assert_eq!(
        second_root,
        hex32("4bc7ce77afd39d3c1a21a1d69c1bb03c3d841046d3bed77bc2220dfe3b77701d")
    );
    assert_eq!(vault.get_commitment_count(), 2);
    assert!(vault
        .withdraw(&env, &contract(20), &account(40), 10, [2u8; 32], first_root, MOCK)
        .is_ok());
    assert!(vault
        .withdraw(&env, &contract(20), &account(40), 10, [6u8; 32], second_root, MOCK)
        .is_ok());
    // The empty tree's root was never the root after a deposit.
    let empty_root = ZkStashVault::new_test_mode().get_root(&env);
    assert_eq!(
        vault.withdraw(&env, &contract(20), &account(40), 10, [7u8; 32], empty_root, MOCK),
        Err(ZkStashError::InvalidMerkleRoot)
    );
}

#[test]
fn proof_binds_recipient_token_and_amount() {
    let env = Env::default();
    let (mut vault, _admin, root) = funded_vault(&env, 0);
    let recipient = account(40);
    let token = contract(20);
    let nullifier = [2u8; 32];
    let inputs = withdrawal_public_inputs(&env, root, nullifier, &recipient, &token, 1000);
    assert_eq!(inputs.len(), 3);
    assert_eq!(inputs[0], root);
    assert_eq!(inputs[1], nullifier);
    assert_eq!(
        inputs[2],
        hex32("1ef974708f9d5acdc2ee297e4bcbf079ebcb2a4cb1e46fee6b1068d98d18ec3a")
    );
    let proof = ZkVerifier::public_inputs_digest(&env, &inputs);

    // The proof does not carry over to another recipient, token or amount.
    assert_eq!(
        vault.withdraw(&env, &token, &account(41), 1000, nullifier, root, &proof),
        Err(ZkStashError::InvalidProof)
    );
    assert_eq!(
        vault.withdraw(&env, &contract(21), &recipient, 1000, nullifier, root, &proof),
        Err(ZkStashError::InvalidProof)
    );
    assert_eq!(
        vault.withdraw(&env, &token, &recipient, 999, nullifier, root, &proof),
        Err(ZkStashError::InvalidProof)
    );
    assert_eq!(
        vault.withdraw(&env, &token, &recipient, 1000, nullifier, root, b""),
        Err(ZkStashError::InvalidProof)
    );
    assert_eq!(ZkStashError::InvalidProof.message(), "Invalid ZK proof");
    assert_eq!(
        vault.withdraw(&env, &token, &recipient, 1000, nullifier, root, &proof),
        Ok(WithdrawReceipt { withdraw_amount: 1000, fee_amount: 0 })
    );
    assert_eq!(
        vault.withdraw(&env, &token, &recipient, 1000, nullifier, root, &proof),
        Err(ZkStashError::NullifierAlreadySpent)
    );
    assert_eq!(ZkStashError::NullifierAlreadySpent.message(), "Nullifier already spent");
}

#[test]
fn deployed_vault_refuses_test_proof() {
    let env = Env::default();
    let mut vault = ZkStashVault::new();
    vault.initialize(account(10), 0).unwrap();
    let root = vault.deposit(&env, [1u8; 32], 1000).unwrap();
    assert_eq!(
        vault.withdraw(&env, &contract(20), &account(40), 1000, [2u8; 32], root, MOCK),
        Err(ZkStashError::InvalidProof)
    );
    let inputs = withdrawal_public_inputs(&env, root, [2u8; 32], &account(40), &contract(20), 1000);
    let proof = ZkVerifier::public_inputs_digest(&env, &inputs);
    assert_eq!(
        vault.withdraw(&env, &contract(20), &account(40), 1000, [2u8; 32], root, &proof),
        Ok(WithdrawReceipt { withdraw_amount: 1000, fee_amount: 0 })
    );
}

#[test]
fn address_must_be_an_address_encoding() {
    assert!(Address::from_xdr(vec![1u8]).is_none());
    assert!(Address::from_xdr(vec![0u8; 44]).is_none());
    let mut wrong_type = vec![0u8, 0, 0, 18, 0, 0, 0, 2];
    wrong_type.extend_from_slice(&[3u8; 32]);
    assert!(Address::from_xdr(wrong_type).is_none());
    let mut short = vec![0u8, 0, 0, 18, 0, 0, 0, 1];
    short.extend_from_slice(&[3u8; 31]);
    assert!(Address::from_xdr(short).is_none());
    assert_eq!(account(1).xdr().len(), 44);
    assert_eq!(contract(1).xdr().len(), 40);
}

#[test]
fn amount_is_encoded_big_endian() {
    assert_eq!(
        u128_be_bytes(0x0102, 16),
        vec![0u8, 0, 0, 0, 0, 0, 0, 0, 0, 0, 0, 0, 0, 0, 1, 2]
    );
    assert_eq!(u128_be_bytes(1000, 2), vec![3u8, 232]);
    assert_eq!(u128_be_bytes(u128::MAX, 16), vec![255u8; 16]);
}

#[test]
fn addresses_compare_by_encoding() {
    let a = account(1);
    let b = a.clone();
    assert!(a.same_as(&b));
    assert_eq!(b.xdr(), a.xdr());
    assert!(!a.same_as(&account(2)));
    assert!(!account(1).same_as(&contract(1)));
    assert_eq!(ZkStashError::InvalidMerkleRoot.message(), "Invalid Merkle root");
    assert_eq!(DataKey::FeeBps, DataKey::FeeBps);
    assert_ne!(DataKey::Admin, DataKey::Paused);
}

#[test]
fn restore_resumes_from_stored_parts() {
    let env = Env::default();
    let admin = account(10);
    let mut live = ZkStashVault::new_test_mode();
    live.initialize(admin.clone(), 50).unwrap();
    let first_root = live.deposit(&env, [1u8; 32], 1000).unwrap();
    let second_root = live.deposit(&env, [3u8; 32], 1000).unwrap();
    live.withdraw(&env, &contract(20), &account(40), 1000, [2u8; 32], first_root, MOCK)
        .unwrap();
    assert_eq!(live.accrued_fees(), 5);

    // Only the stored parts of the tree are carried over.
    let stored = live.tree();
    assert!(stored.is_initialized());
    assert_eq!(stored.filled_subtrees().len(), 20);
    assert_eq!(stored.stored_root(), second_root);
    let tree = MerkleTree::from_stored(
        stored.get_next_index(),
        stored.filled_subtrees().clone(),
        stored.stored_root(),
    )
    .unwrap();
    let mut restored = ZkStashVault::restore(
        Some(admin.clone()),
        false,
        50,
        5,
        tree,
        vec![first_root],
        vec![[2u8; 32]],
    )
    .unwrap();
    assert_eq!(restored.get_root(&env), live.get_root(&env));
    assert_eq!(restored.get_commitment_count(), 2);
    assert_eq!(restored.accrued_fees(), 5);
    assert_eq!(
        restored.withdraw(&env, &contract(20), &account(40), 1000, [2u8; 32], first_root, MOCK),
        Err(ZkStashError::NullifierAlreadySpent)
    );
    // A restored vault is not in test mode: it wants a real proof.
    assert_eq!(
        restored.withdraw(&env, &contract(20), &account(40), 1000, [9u8; 32], first_root, MOCK),
        Err(ZkStashError::InvalidProof)
    );
    let inputs =
        withdrawal_public_inputs(&env, first_root, [9u8; 32], &account(40), &contract(20), 1000);
    let proof = ZkVerifier::public_inputs_digest(&env, &inputs);
    assert!(restored
        .withdraw(&env, &contract(20), &account(40), 1000, [9u8; 32], first_root, &proof)
        .is_ok());
    assert_eq!(restored.claim_fees(&admin), Ok(10));

    // The resumed tree goes on exactly as the live one.
    let live_next = live.deposit(&env, [5u8; 32], 1000).unwrap();
    let restored_next = restored.deposit(&env, [5u8; 32], 1000).unwrap();
    assert_eq!(live_next, restored_next);
    assert_eq!(
        restored_next,
        hex32("9d5c9c1545ea75df68861af9fde779ae4eaab7c0079865ee43076ff84c12004d")
    );
    assert_eq!(live.tree().filled_subtrees(), restored.tree().filled_subtrees());

    // Stored parts of the wrong shape are refused.
    assert!(MerkleTree::from_stored(1, vec![[0u8; 32]; 19], [0u8; 32]).is_none());
    assert!(MerkleTree::from_stored(1048577, vec![[0u8; 32]; 20], [0u8; 32]).is_none());

    // Settings out of bounds are refused.
    assert!(ZkStashVault::restore(None, false, 1001, 0, MerkleTree::new(), vec![], vec![]).is_none());
    assert!(ZkStashVault::restore(None, false, 0, -1, MerkleTree::new(), vec![], vec![]).is_none());
}
