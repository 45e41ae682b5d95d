use soroban_sdk::Env;
use zkstash::error::ZkStashError;
use zkstash::vault::{Address, ZkStashVault};

/// The XDR encoding of an account address whose key is 32 copies of `seed`.
fn account(seed: u8) -> Address {
    let mut xdr = vec![0u8, 0, 0, 18, 0, 0, 0, 0, 0, 0, 0, 0];
    xdr.extend_from_slice(&[seed; 32]);
    Address::from_xdr(xdr).unwrap()
}

/// The XDR encoding of a contract address whose hash is 32 copies of `seed`.
fn contract(seed: u8) -> Address {
    let mut xdr = vec![0u8, 0, 0, 18, 0, 0, 0, 1];
    xdr.extend_from_slice(&[seed; 32]);
    Address::from_xdr(xdr).unwrap()
}

#[test]
fn test_deposit_and_withdrawal_flow() {
    let env = Env::default();
    let mut vault = ZkStashVault::new_test_mode();

    let admin = account(10);
    let token_id = contract(20);

    // Initialize the contract with a 50 bps withdrawal fee (0.5%)
    vault.initialize(admin.clone(), 50).unwrap();

    let depositor = account(30);
    let recipient = account(40);
    let amount = 1000i128;

    // Token balances: the depositor was minted 10000; the contract collects
    // `amount` on a successful deposit and pays out what the receipts say.
    let minted = 10000i128;
    assert!(!depositor.same_as(&recipient));

    assert_eq!(vault.get_commitment_count(), 0);

    let commitment = [1u8; 32];
    let collected = match vault.deposit(&env, commitment, amount) {
        Ok(_) => amount,
        Err(_) => 0,
    };

    assert_eq!(vault.get_commitment_count(), 1);
    assert_eq!(minted - collected, 9000i128);
    assert_eq!(collected, 1000i128);

    let root = vault.get_root(&env);
    assert_ne!(root, [0u8; 32]);

    let nullifier = [2u8; 32];
    let proof = b"ZK_PASS_MOCK_PROOF";
    let receipt = vault
        .withdraw(&env, &token_id, &recipient, amount, nullifier, root, proof)
        .unwrap();

    // 50 bps of 1000 = 5 tokens deducted as fee; they stay in the contract.
    assert_eq!(collected - receipt.withdraw_amount, 5i128);
    assert_eq!(vault.accrued_fees(), 5i128);
    assert_eq!(receipt.withdraw_amount, 995i128);
    assert_eq!(receipt.fee_amount, 5i128);

    let claimed = vault.claim_fees(&admin).unwrap();
    assert_eq!(claimed, 5i128);
    assert_eq!(collected - receipt.withdraw_amount - claimed, 0i128);
    assert_eq!(vault.accrued_fees(), 0i128);

    let res = vault.withdraw(&env, &token_id, &recipient, amount, nullifier, root, proof);
    assert!(res.is_err(), "Expected double-spending to fail");
    assert_eq!(res, Err(ZkStashError::NullifierAlreadySpent));
}

#[test]
#[should_panic(expected = "Invalid Merkle root")]
fn test_withdraw_invalid_root() {
    let env = Env::default();
    let mut vault = ZkStashVault::new_test_mode();

    let admin = account(10);
    vault.initialize(admin, 0).unwrap();

    let token_id = contract(20);
    let recipient = account(40);
    let amount = 100i128;
    let nullifier = [2u8; 32];
    let root = [99u8; 32]; // Fake/unused root
    let proof = b"ZK_PASS_MOCK_PROOF";

    if let Err(e) = vault.withdraw(&env, &token_id, &recipient, amount, nullifier, root, proof) {
        panic!("{}", e.message());
    }
}

#[test]
fn test_emergency_pause() {
    let env = Env::default();
    let mut vault = ZkStashVault::new_test_mode();

    let admin = account(10);
    vault.initialize(admin.clone(), 0).unwrap();

    assert_eq!(vault.is_paused(), false);

    vault.set_paused(&admin, true).unwrap();
    assert_eq!(vault.is_paused(), true);

    let commitment = [1u8; 32];
    let res = vault.deposit(&env, commitment, 100i128);
    assert!(res.is_err(), "Deposit should have failed when paused");

    vault.set_paused(&admin, false).unwrap();
    assert_eq!(vault.is_paused(), false);
}
