//! What holds of the vault across requests.
use vstd::prelude::*;

use crate::bytes::{be_bytes, lemma_be_bytes_roundtrip, lemma_pow256_16};
use crate::error::ZkStashError;
use crate::host::sha256_digest;
use crate::merkle::{tree_after, lemma_node_empty, merkle_root, zero_value, MAX_LEAVES, TREE_DEPTH};
use crate::vault::{
    admin_check, change_admin_result, claim_fees_result, deposit_result, fee_for,
    initialize_result, set_paused_result, update_fee_bps_result, withdraw_result,
    historical_roots, is_address_xdr, lemma_historical_roots_push, withdrawal_inputs, withdrawal_params, within_bounds, VaultView,
    WithdrawReceipt,
};
use crate::zk_verifier::{concat_inputs, mock_proof, proof_accepted};

verus! {

/// A request to the vault, with its arguments as plain values.
pub enum Request {
    Initialize { admin: Seq<u8>, fee_bps: u32 },
    Deposit { commitment: Seq<u8>, amount: i128 },
    Withdraw {
        token: Seq<u8>,
        recipient: Seq<u8>,
        amount: i128,
        nullifier: Seq<u8>,
        root: Seq<u8>,
        proof: Seq<u8>,
    },
    SetPaused { admin: Seq<u8>, paused: bool },
    ClaimFees { admin: Seq<u8> },
    ChangeAdmin { admin: Seq<u8>, new_admin: Seq<u8> },
    UpdateFeeBps { admin: Seq<u8>, new_fee_bps: u32 },
}

/// The state after `request`, or why it is refused. Requests that change
/// nothing (reading, authorizing an upgrade) are left out.
pub open spec fn step(v: VaultView, request: Request) -> Result<VaultView, ZkStashError> {
    match request {
        Request::Initialize { admin, fee_bps } => initialize_result(v, admin, fee_bps),
        Request::Deposit { commitment, amount } => deposit_result(v, commitment, amount),
        Request::Withdraw { token, recipient, amount, nullifier, root, proof } => match withdraw_result(
            v,
            token,
            recipient,
            amount,
            nullifier,
            root,
            proof,
        ) {
            Ok((after, _)) => Ok(after),
            Err(e) => Err(e),
        },
        Request::SetPaused { admin, paused } => set_paused_result(v, admin, paused),
        Request::ClaimFees { admin } => match claim_fees_result(v, admin) {
            Ok((after, _)) => Ok(after),
            Err(e) => Err(e),
        },
        Request::ChangeAdmin { admin, new_admin } => change_admin_result(v, admin, new_admin),
        Request::UpdateFeeBps { admin, new_fee_bps } => update_fee_bps_result(v, admin, new_fee_bps),
    }
}

/// The state after the requests in order; a refused request changes nothing.
pub open spec fn run(v: VaultView, requests: Seq<Request>) -> VaultView
    decreases requests.len(),
{
    if requests.len() == 0 {
        v
    } else {
        let before = run(v, requests.drop_last());
        match step(before, requests.last()) {
            Ok(after) => after,
            Err(_) => before,
        }
    }
}

/// Every request keeps the fee rate at most 10%, the accrued fees
/// non-negative and the tree within its capacity.
pub proof fn lemma_step_within_bounds(v: VaultView, request: Request)
    requires
        within_bounds(v),
    ensures
        step(v, request) matches Ok(after) ==> within_bounds(after),
{
}

/// Every request keeps the deposited commitments, the historical roots and
/// the spent nullifiers: it may add to them, never take away.
pub proof fn lemma_step_keeps_history(v: VaultView, request: Request)
    ensures
        step(v, request) matches Ok(after) ==> {
            &&& v.roots.subset_of(after.roots)
            &&& v.spent.subset_of(after.spent)
            &&& after.tree.leaves.len() >= v.tree.leaves.len()
            &&& after.tree.leaves.subrange(0, v.tree.leaves.len() as int) == v.tree.leaves
        },
{
    if let Ok(after) = step(v, request) {
        assert(after.tree.leaves.subrange(0, v.tree.leaves.len() as int) =~= v.tree.leaves);
    }
}

/// Any sequence of requests keeps the historical roots and the spent
/// nullifiers.
pub proof fn lemma_run_keeps_history(v: VaultView, requests: Seq<Request>)
    ensures
        v.roots.subset_of(run(v, requests).roots),
        v.spent.subset_of(run(v, requests).spent),
    decreases requests.len(),
{
    if requests.len() > 0 {
        lemma_run_keeps_history(v, requests.drop_last());
        lemma_step_keeps_history(run(v, requests.drop_last()), requests.last());
    }
}

/// The roots a withdrawal may name are exactly the roots the tree has had
/// after some deposit; every request keeps it so.
pub proof fn lemma_step_roots_are_history(v: VaultView, request: Request)
    requires
        v.roots == historical_roots(v.tree.leaves),
    ensures
        step(v, request) matches Ok(after) ==> after.roots == historical_roots(after.tree.leaves),
{
    if let Ok(after) = step(v, request) {
        if let Request::Deposit { commitment, amount } = request {
            lemma_historical_roots_push(v.tree.leaves, commitment);
        }
    }
}

/// Starting from a vault whose roots are its history (such as the empty
/// vault), every sequence of requests keeps them so.
pub proof fn lemma_run_roots_are_history(v: VaultView, requests: Seq<Request>)
    requires
        v.roots == historical_roots(v.tree.leaves),
    ensures
        run(v, requests).roots == historical_roots(run(v, requests).tree.leaves),
    decreases requests.len(),
{
    if requests.len() > 0 {
        lemma_run_roots_are_history(v, requests.drop_last());
        lemma_step_roots_are_history(run(v, requests.drop_last()), requests.last());
    }
}

/// The empty vault's roots are its (empty) history.
pub proof fn lemma_empty_history()
    ensures
        historical_roots(Seq::<Seq<u8>>::empty()) == Set::<Seq<u8>>::empty(),
{
    assert(historical_roots(Seq::<Seq<u8>>::empty()) =~= Set::<Seq<u8>>::empty());
}

/// How many of `requests`, run from `v`, are deposits that succeed.
pub open spec fn successful_deposits(v: VaultView, requests: Seq<Request>) -> nat
    decreases requests.len(),
{
    if requests.len() == 0 {
        0
    } else {
        let prior = successful_deposits(v, requests.drop_last());
        match requests.last() {
            Request::Deposit { commitment, amount } => if deposit_result(
                run(v, requests.drop_last()),
                commitment,
                amount,
            ) is Ok {
                prior + 1
            } else {
                prior
            },
            _ => prior,
        }
    }
}

/// The commitment count grows by one with each successful deposit, and by
/// nothing else.
pub proof fn lemma_run_counts_deposits(v: VaultView, requests: Seq<Request>)
    ensures
        run(v, requests).tree.leaves.len() == v.tree.leaves.len() + successful_deposits(v, requests),
    decreases requests.len(),
{
    if requests.len() > 0 {
        lemma_run_counts_deposits(v, requests.drop_last());
    }
}

/// The fees that the successful withdrawals among `requests`, run from `v`,
/// withheld since the last successful claim or initialization; the fees
/// already accrued in `v` count while there was none.
pub open spec fn fees_since_claim(v: VaultView, requests: Seq<Request>) -> int
    decreases requests.len(),
{
    if requests.len() == 0 {
        v.accrued_fees as int
    } else {
        let before = run(v, requests.drop_last());
        let prior = fees_since_claim(v, requests.drop_last());
        match requests.last() {
            Request::Withdraw { token, recipient, amount, nullifier, root, proof } => match withdraw_result(
                before,
                token,
                recipient,
                amount,
                nullifier,
                root,
                proof,
            ) {
                Ok((_, receipt)) => prior + receipt.fee_amount,
                Err(_) => prior,
            },
            Request::ClaimFees { admin } => if claim_fees_result(before, admin) is Ok {
                0
            } else {
                prior
            },
            Request::Initialize { admin, fee_bps } => if initialize_result(before, admin, fee_bps) is Ok {
                0
            } else {
                prior
            },
            _ => prior,
        }
    }
}

/// The accrued fees are always the fees withheld since the last claim (or
/// initialization).
pub proof fn lemma_run_accrues_withheld_fees(v: VaultView, requests: Seq<Request>)
    ensures
        run(v, requests).accrued_fees == fees_since_claim(v, requests),
    decreases requests.len(),
{
    if requests.len() > 0 {
        lemma_run_accrues_withheld_fees(v, requests.drop_last());
    }
}

/// A successful claim after any requests pays out exactly the fees withheld
/// since the last claim (or initialization).
pub proof fn lemma_claim_pays_withheld_fees(
    v: VaultView,
    requests: Seq<Request>,
    admin: Seq<u8>,
    after: VaultView,
    claimed: i128,
)
    requires
        claim_fees_result(run(v, requests), admin) == Ok::<(VaultView, i128), ZkStashError>((after, claimed)),
    ensures
        claimed == fees_since_claim(v, requests),
        claimed > 0,
        after.accrued_fees == 0,
{
    lemma_run_accrues_withheld_fees(v, requests);
}

/// Any sequence of requests keeps a vault within bounds.
pub proof fn lemma_run_within_bounds(v: VaultView, requests: Seq<Request>)
    requires
        within_bounds(v),
    ensures
        within_bounds(run(v, requests)),
    decreases requests.len(),
{
    if requests.len() > 0 {
        lemma_run_within_bounds(v, requests.drop_last());
        lemma_step_within_bounds(run(v, requests.drop_last()), requests.last());
    }
}

/// A nullifier can be spent once: after a withdrawal with `nullifier`
/// succeeds, every later withdrawal with the same nullifier is refused,
/// whatever requests come in between.
pub proof fn lemma_no_double_spend(
    v: VaultView,
    token: Seq<u8>,
    recipient: Seq<u8>,
    amount: i128,
    nullifier: Seq<u8>,
    root: Seq<u8>,
    proof: Seq<u8>,
    after: VaultView,
    receipt: WithdrawReceipt,
    requests: Seq<Request>,
    token2: Seq<u8>,
    recipient2: Seq<u8>,
    amount2: i128,
    root2: Seq<u8>,
    proof2: Seq<u8>,
)
    requires
        withdraw_result(v, token, recipient, amount, nullifier, root, proof) == Ok::<
            (VaultView, WithdrawReceipt),
            ZkStashError,
        >((after, receipt)),
    ensures
        withdraw_result(run(after, requests), token2, recipient2, amount2, nullifier, root2, proof2) is Err,
{
    lemma_run_keeps_history(after, requests);
    assert(after.spent.contains(nullifier));
    assert(run(after, requests).spent.contains(nullifier));
}

/// The roots that deposits produce stay valid: after a deposit succeeds, a
/// withdrawal against the new root is not refused for its root, whatever
/// requests come in between.
pub proof fn lemma_deposit_root_stays_valid(
    v: VaultView,
    commitment: Seq<u8>,
    amount: i128,
    after: VaultView,
    requests: Seq<Request>,
    token: Seq<u8>,
    recipient: Seq<u8>,
    amount2: i128,
    nullifier: Seq<u8>,
    proof: Seq<u8>,
)
    requires
        deposit_result(v, commitment, amount) == Ok::<VaultView, ZkStashError>(after),
    ensures
        run(after, requests).roots.contains(merkle_root(after.tree.leaves)),
        withdraw_result(run(after, requests), token, recipient, amount2, nullifier, merkle_root(after.tree.leaves), proof)
            != Err::<(VaultView, WithdrawReceipt), ZkStashError>(ZkStashError::InvalidMerkleRoot),
{
    lemma_run_keeps_history(after, requests);
}

/// A deposit appends its commitment as the next leaf, so the commitment count
/// grows by one.
pub proof fn lemma_deposit_appends(v: VaultView, commitment: Seq<u8>, amount: i128, after: VaultView)
    requires
        deposit_result(v, commitment, amount) == Ok::<VaultView, ZkStashError>(after),
    ensures
        after.tree == tree_after(v.tree.leaves.push(commitment)),
        after.tree.leaves == v.tree.leaves.push(commitment),
        after.tree.leaves.len() == v.tree.leaves.len() + 1,
        after.roots.contains(merkle_root(after.tree.leaves)),
{
}

/// The tree holds at most `MAX_LEAVES` commitments: a full tree refuses every
/// deposit that is otherwise acceptable.
pub proof fn lemma_full_tree_refuses(v: VaultView, commitment: Seq<u8>, amount: i128)
    requires
        v.tree.leaves.len() >= MAX_LEAVES,
        amount > 0,
        !v.paused,
    ensures
        deposit_result(v, commitment, amount) == Err::<VaultView, ZkStashError>(ZkStashError::MerkleTreeFull),
{
}

/// Only positive amounts move: a deposit or withdrawal of zero or less is
/// refused.
pub proof fn lemma_amount_must_be_positive(
    v: VaultView,
    commitment: Seq<u8>,
    token: Seq<u8>,
    recipient: Seq<u8>,
    amount: i128,
    nullifier: Seq<u8>,
    root: Seq<u8>,
    proof: Seq<u8>,
)
    requires
        amount <= 0,
    ensures
        deposit_result(v, commitment, amount) == Err::<VaultView, ZkStashError>(ZkStashError::AmountNotPositive),
        withdraw_result(v, token, recipient, amount, nullifier, root, proof) == Err::<
            (VaultView, WithdrawReceipt),
            ZkStashError,
        >(ZkStashError::AmountNotPositive),
{
}

/// A paused vault refuses deposits and withdrawals of positive amounts.
pub proof fn lemma_paused_refuses(
    v: VaultView,
    commitment: Seq<u8>,
    token: Seq<u8>,
    recipient: Seq<u8>,
    amount: i128,
    nullifier: Seq<u8>,
    root: Seq<u8>,
    proof: Seq<u8>,
)
    requires
        v.paused,
        amount > 0,
    ensures
        deposit_result(v, commitment, amount) == Err::<VaultView, ZkStashError>(ZkStashError::ContractPaused),
        withdraw_result(v, token, recipient, amount, nullifier, root, proof) == Err::<
            (VaultView, WithdrawReceipt),
            ZkStashError,
        >(ZkStashError::ContractPaused),
{
}

/// Pausing and then unpausing, both by the admin, gives back the vault as it
/// was, except that it is unpaused.
pub proof fn lemma_pause_unpause(v: VaultView, admin: Seq<u8>, paused_vault: VaultView)
    requires
        set_paused_result(v, admin, true) == Ok::<VaultView, ZkStashError>(paused_vault),
    ensures
        paused_vault.paused,
        set_paused_result(paused_vault, admin, false) == Ok::<VaultView, ZkStashError>(
            VaultView { paused: false, ..v },
        ),
{
}

/// Requests reserved to the admin are refused, with the same reason, to
/// anyone who is not the admin and to everyone before initialization; the
/// vault is then unchanged.
pub proof fn lemma_admin_only(
    v: VaultView,
    caller: Seq<u8>,
    paused: bool,
    new_admin: Seq<u8>,
    new_fee_bps: u32,
)
    requires
        admin_check(v, caller) is Err,
    ensures
        v.admin is None ==> admin_check(v, caller) == Err::<(), ZkStashError>(ZkStashError::NotInitialized),
        v.admin is Some ==> admin_check(v, caller) == Err::<(), ZkStashError>(ZkStashError::Unauthorized),
        set_paused_result(v, caller, paused) == Err::<VaultView, ZkStashError>(admin_check(v, caller)->Err_0),
        change_admin_result(v, caller, new_admin) == Err::<VaultView, ZkStashError>(admin_check(v, caller)->Err_0),
        update_fee_bps_result(v, caller, new_fee_bps) == Err::<VaultView, ZkStashError>(admin_check(v, caller)->Err_0),
        claim_fees_result(v, caller) == Err::<(VaultView, i128), ZkStashError>(admin_check(v, caller)->Err_0),
{
}

/// A vault is initialized once: a second initialization is refused.
pub proof fn lemma_initialize_once(v: VaultView, admin: Seq<u8>, fee_bps: u32, after: VaultView, admin2: Seq<u8>, fee_bps2: u32)
    requires
        initialize_result(v, admin, fee_bps) == Ok::<VaultView, ZkStashError>(after),
    ensures
        after.admin == Some(admin),
        initialize_result(after, admin2, fee_bps2) == Err::<VaultView, ZkStashError>(ZkStashError::AlreadyInitialized),
{
}

/// A successful withdrawal splits the amount between the recipient and the
/// fee: the fee is the amount times the fee rate over 10000, rounded down, at
/// most a tenth of the amount, and it is added to the accrued fees.
pub proof fn lemma_withdraw_fee_split(
    v: VaultView,
    token: Seq<u8>,
    recipient: Seq<u8>,
    amount: i128,
    nullifier: Seq<u8>,
    root: Seq<u8>,
    proof: Seq<u8>,
    after: VaultView,
    receipt: WithdrawReceipt,
)
    requires
        within_bounds(v),
        withdraw_result(v, token, recipient, amount, nullifier, root, proof) == Ok::<
            (VaultView, WithdrawReceipt),
            ZkStashError,
        >((after, receipt)),
    ensures
        receipt.withdraw_amount + receipt.fee_amount == amount,
        receipt.fee_amount == fee_for(amount as int, v.fee_bps as int),
        0 <= receipt.fee_amount <= amount / 10,
        receipt.withdraw_amount > 0,
        after.accrued_fees == v.accrued_fees + receipt.fee_amount,
        after.spent == v.spent.insert(nullifier),
        after.tree == v.tree,
        after.roots == v.roots,
{
    let fee = fee_for(amount as int, v.fee_bps as int);
    assert(0 <= amount * v.fee_bps <= amount * 1000) by (nonlinear_arith)
        requires
            amount > 0,
            v.fee_bps <= 1000,
    ;
    assert(0 <= fee <= amount / 10) by (nonlinear_arith)
        requires
            fee == amount * v.fee_bps / 10000,
            0 <= amount * v.fee_bps <= amount * 1000,
            amount > 0,
    ;
}

/// Claiming pays out exactly the fees accrued, and leaves none.
pub proof fn lemma_claim_pays_accrued(v: VaultView, admin: Seq<u8>, after: VaultView, claimed: i128)
    requires
        claim_fees_result(v, admin) == Ok::<(VaultView, i128), ZkStashError>((after, claimed)),
    ensures
        claimed == v.accrued_fees,
        claimed > 0,
        after.accrued_fees == 0,
        after.spent == v.spent,
        after.roots == v.roots,
        after.tree == v.tree,
{
}

/// A withdrawal is bound to its recipient, token and amount: it is accepted
/// only with the digest of the root, the nullifier and the digest of the
/// recipient, token and amount (a vault in test mode also takes the fixed
/// test proof).
pub proof fn lemma_withdraw_binds_parameters(
    v: VaultView,
    token: Seq<u8>,
    recipient: Seq<u8>,
    amount: i128,
    nullifier: Seq<u8>,
    root: Seq<u8>,
    proof: Seq<u8>,
)
    requires
        withdraw_result(v, token, recipient, amount, nullifier, root, proof) is Ok,
        !v.test_mode || proof != mock_proof(),
    ensures
        proof == sha256_digest(concat_inputs(withdrawal_inputs(root, nullifier, recipient, token, amount))),
        v.roots.contains(root),
        !v.spent.contains(nullifier),
{
}

/// The bytes that bind a withdrawal determine its recipient, token and
/// amount, when both addresses are address encodings.
pub proof fn lemma_withdrawal_params_injective(
    recipient: Seq<u8>,
    token: Seq<u8>,
    amount: i128,
    recipient2: Seq<u8>,
    token2: Seq<u8>,
    amount2: i128,
)
    requires
        is_address_xdr(recipient),
        is_address_xdr(token),
        is_address_xdr(recipient2),
        is_address_xdr(token2),
        amount > 0,
        amount2 > 0,
        withdrawal_params(recipient, token, amount) == withdrawal_params(recipient2, token2, amount2),
    ensures
        recipient == recipient2,
        token == token2,
        amount == amount2,
{
    lemma_pow256_16();
    lemma_be_bytes_roundtrip(amount as nat, 16);
    lemma_be_bytes_roundtrip(amount2 as nat, 16);
    let p = withdrawal_params(recipient, token, amount);
    let a1 = be_bytes(amount as nat, 16);
    let a2 = be_bytes(amount2 as nat, 16);
    // The address type byte of an encoding gives its length.
    assert(recipient[7] == recipient.take(12)[7] || recipient[7] == recipient.take(8)[7]);
    assert(p[7] == recipient[7]);
    assert(p[7] == recipient2[7]);
    assert(recipient.len() == recipient2.len()) by {
        if recipient.len() == 44 {
            assert(recipient.take(12)[7] == 0);
        } else {
            assert(recipient.take(8)[7] == 1);
        }
        if recipient2.len() == 44 {
            assert(recipient2.take(12)[7] == 0);
        } else {
            assert(recipient2.take(8)[7] == 1);
        }
    }
    let rl = recipient.len() as int;
    assert(recipient =~= p.take(rl));
    assert(recipient2 =~= p.take(rl));
    let rest = p.skip(rl);
    assert(rest =~= token + a1);
    assert(rest =~= token2 + a2);
    assert(rest[7] == token[7]);
    assert(rest[7] == token2[7]);
    assert(token.len() == token2.len()) by {
        if token.len() == 44 {
            assert(token.take(12)[7] == 0);
        } else {
            assert(token.take(8)[7] == 1);
        }
        if token2.len() == 44 {
            assert(token2.take(12)[7] == 0);
        } else {
            assert(token2.take(8)[7] == 1);
        }
    }
    let tl = token.len() as int;
    assert(token =~= rest.take(tl));
    assert(token2 =~= rest.take(tl));
    assert(a1 =~= rest.skip(tl));
    assert(a2 =~= rest.skip(tl));
}

/// A proof cannot be redirected: when a withdrawal would be accepted, the
/// same proof for another recipient, token or amount is refused as invalid,
/// provided SHA-256 has no collision on the inputs involved. The addresses are
/// address encodings, as every `Address` is (its type invariant, which
/// `ZkStashVault::withdraw` reports). In test mode the fixed test proof is
/// left out, since it proves any withdrawal there.
pub proof fn lemma_proof_not_transferable(
    v: VaultView,
    token: Seq<u8>,
    recipient: Seq<u8>,
    amount: i128,
    nullifier: Seq<u8>,
    root: Seq<u8>,
    proof: Seq<u8>,
    token2: Seq<u8>,
    recipient2: Seq<u8>,
    amount2: i128,
)
    requires
        withdraw_result(v, token, recipient, amount, nullifier, root, proof) is Ok,
        !v.test_mode || proof != mock_proof(),
        is_address_xdr(token),
        is_address_xdr(recipient),
        is_address_xdr(token2),
        is_address_xdr(recipient2),
        amount2 > 0,
        token2 != token || recipient2 != recipient || amount2 != amount,
        withdrawal_params(recipient2, token2, amount2) != withdrawal_params(recipient, token, amount)
            ==> sha256_digest(withdrawal_params(recipient2, token2, amount2)) != sha256_digest(
            withdrawal_params(recipient, token, amount),
        ),
        concat_inputs(withdrawal_inputs(root, nullifier, recipient2, token2, amount2)) != concat_inputs(
            withdrawal_inputs(root, nullifier, recipient, token, amount),
        ) ==> sha256_digest(concat_inputs(withdrawal_inputs(root, nullifier, recipient2, token2, amount2)))
            != sha256_digest(concat_inputs(withdrawal_inputs(root, nullifier, recipient, token, amount))),
    ensures
        withdraw_result(v, token2, recipient2, amount2, nullifier, root, proof) == Err::<
            (VaultView, WithdrawReceipt),
            ZkStashError,
        >(ZkStashError::InvalidProof),
{
    if withdrawal_params(recipient2, token2, amount2) == withdrawal_params(recipient, token, amount) {
        lemma_withdrawal_params_injective(recipient, token, amount, recipient2, token2, amount2);
    }
    let d1 = sha256_digest(withdrawal_params(recipient, token, amount));
    let d2 = sha256_digest(withdrawal_params(recipient2, token2, amount2));
    let i1 = withdrawal_inputs(root, nullifier, recipient, token, amount);
    let i2 = withdrawal_inputs(root, nullifier, recipient2, token2, amount2);
    reveal_with_fuel(concat_inputs, 4);
    assert(i1.drop_last().drop_last().drop_last() =~= Seq::<Seq<u8>>::empty());
    assert(i2.drop_last().drop_last().drop_last() =~= Seq::<Seq<u8>>::empty());
    assert(i1.drop_last().drop_last() =~= seq![root]);
    assert(i2.drop_last().drop_last() =~= seq![root]);
    assert(i1.drop_last() =~= seq![root, nullifier]);
    assert(i2.drop_last() =~= seq![root, nullifier]);
    assert(concat_inputs(i1) == root + nullifier + d1);
    assert(concat_inputs(i2) == root + nullifier + d2);
    let k = (root.len() + nullifier.len()) as int;
    assert((root + nullifier + d1).skip(k) =~= d1);
    assert((root + nullifier + d2).skip(k) =~= d2);
}

/// A withdrawal that passes every check succeeds, whatever the size of the
/// amount, as long as the fee arithmetic fits in 128 bits: it spends the
/// nullifier, withholds `amount * fee_bps / 10000` as accrued fees and pays
/// out the rest; nothing else changes.
pub proof fn lemma_withdraw_succeeds(
    v: VaultView,
    token: Seq<u8>,
    recipient: Seq<u8>,
    amount: i128,
    nullifier: Seq<u8>,
    root: Seq<u8>,
    proof: Seq<u8>,
)
    requires
        amount > 0,
        !v.paused,
        !v.spent.contains(nullifier),
        v.roots.contains(root),
        proof_accepted(proof, withdrawal_inputs(root, nullifier, recipient, token, amount), v.test_mode),
        amount * v.fee_bps <= i128::MAX,
        v.accrued_fees + amount * v.fee_bps / 10000 <= i128::MAX,
    ensures
        withdraw_result(v, token, recipient, amount, nullifier, root, proof) == Ok::<
            (VaultView, WithdrawReceipt),
            ZkStashError,
        >(
            (
                VaultView {
                    spent: v.spent.insert(nullifier),
                    accrued_fees: (v.accrued_fees + amount * v.fee_bps / 10000) as i128,
                    ..v
                },
                WithdrawReceipt {
                    withdraw_amount: (amount - amount * v.fee_bps / 10000) as i128,
                    fee_amount: (amount * v.fee_bps / 10000) as i128,
                },
            ),
        ),
{
    let fee = amount * v.fee_bps / 10000;
    assert(fee >= 0) by (nonlinear_arith)
        requires
            amount > 0,
            fee == amount * v.fee_bps / 10000,
    ;
    if fee == 0 {
        assert(v.accrued_fees == (v.accrued_fees + fee) as i128);
    }
}

/// A deposit of a positive amount into an unpaused vault whose tree has room
/// succeeds, whatever the size of the amount: the commitment becomes the next
/// leaf, the tree stores what inserting it gives, and the new root is
/// recorded; nothing else changes.
pub proof fn lemma_deposit_succeeds(v: VaultView, commitment: Seq<u8>, amount: i128)
    requires
        amount > 0,
        !v.paused,
        v.tree.leaves.len() < MAX_LEAVES,
    ensures
        deposit_result(v, commitment, amount) == Ok::<VaultView, ZkStashError>(
            VaultView {
                tree: tree_after(v.tree.leaves.push(commitment)),
                roots: v.roots.insert(merkle_root(v.tree.leaves.push(commitment))),
                ..v
            },
        ),
{
}

/// The admin can always claim accrued fees while there are any, paused or
/// not: the claim pays out all of them and leaves none; nothing else
/// changes.
pub proof fn lemma_claim_fees_succeeds(v: VaultView, admin: Seq<u8>)
    requires
        v.admin == Some(admin),
        v.accrued_fees > 0,
    ensures
        claim_fees_result(v, admin) == Ok::<(VaultView, i128), ZkStashError>(
            (VaultView { accrued_fees: 0, ..v }, v.accrued_fees),
        ),
{
}

/// The admin can set any fee rate up to 1000 basis points, paused or not;
/// only the rate changes.
pub proof fn lemma_update_fee_bps_succeeds(v: VaultView, admin: Seq<u8>, new_fee_bps: u32)
    requires
        v.admin == Some(admin),
        new_fee_bps <= 1000,
    ensures
        update_fee_bps_result(v, admin, new_fee_bps) == Ok::<VaultView, ZkStashError>(
            VaultView { fee_bps: new_fee_bps, ..v },
        ),
{
}

/// A fee rate above 1000 basis points is refused, even to the admin.
pub proof fn lemma_update_fee_bps_capped(v: VaultView, admin: Seq<u8>, new_fee_bps: u32)
    requires
        new_fee_bps > 1000,
    ensures
        update_fee_bps_result(v, admin, new_fee_bps) is Err,
{
}

/// The admin can hand administration to any address, paused or not; only
/// the admin changes, and the old admin is then refused.
pub proof fn lemma_change_admin_succeeds(v: VaultView, admin: Seq<u8>, new_admin: Seq<u8>)
    requires
        v.admin == Some(admin),
    ensures
        change_admin_result(v, admin, new_admin) == Ok::<VaultView, ZkStashError>(
            VaultView { admin: Some(new_admin), ..v },
        ),
        admin != new_admin ==> admin_check(VaultView { admin: Some(new_admin), ..v }, admin) == Err::<
            (),
            ZkStashError,
        >(ZkStashError::Unauthorized),
        admin_check(VaultView { admin: Some(new_admin), ..v }, new_admin) == Ok::<(), ZkStashError>(()),
{
}

/// The admin can pause or unpause at any time; only the pause flag changes.
pub proof fn lemma_set_paused_succeeds(v: VaultView, admin: Seq<u8>, paused: bool)
    requires
        v.admin == Some(admin),
    ensures
        set_paused_result(v, admin, paused) == Ok::<VaultView, ZkStashError>(VaultView { paused, ..v }),
{
}

/// A vault without an admin can be initialized with any fee rate up to 1000
/// basis points: it gets the admin and the rate, is unpaused and has no
/// accrued fees; nothing else changes.
pub proof fn lemma_initialize_succeeds(v: VaultView, admin: Seq<u8>, fee_bps: u32)
    requires
        v.admin is None,
        fee_bps <= 1000,
    ensures
        initialize_result(v, admin, fee_bps) == Ok::<VaultView, ZkStashError>(
            VaultView { admin: Some(admin), paused: false, fee_bps, accrued_fees: 0, ..v },
        ),
{
}

/// The root of the tree with no commitments is the empty subtree's root of
/// height `TREE_DEPTH`.
pub proof fn lemma_empty_root()
    ensures
        merkle_root(Seq::<Seq<u8>>::empty()) == zero_value(TREE_DEPTH as nat),
{
    lemma_node_empty(TREE_DEPTH as nat, 0);
}

/// An empty proof is never accepted. The fixed test proof is accepted in test
/// mode, and otherwise only if it happens to be the digest of the inputs.
pub proof fn lemma_proof_acceptance(public_inputs: Seq<Seq<u8>>, test_mode: bool)
    ensures
        !proof_accepted(Seq::<u8>::empty(), public_inputs, test_mode),
        proof_accepted(mock_proof(), public_inputs, true),
        mock_proof() != sha256_digest(concat_inputs(public_inputs)) ==> !proof_accepted(
            mock_proof(),
            public_inputs,
            false,
        ),
{
}

/// A vault not in test mode refuses the fixed test proof as invalid for a
/// withdrawal that passes the earlier checks, unless the test proof happens
/// to be the digest of that withdrawal's inputs.
pub proof fn lemma_deployed_vault_refuses_test_proof(
    v: VaultView,
    token: Seq<u8>,
    recipient: Seq<u8>,
    amount: i128,
    nullifier: Seq<u8>,
    root: Seq<u8>,
)
    requires
        !v.test_mode,
        amount > 0,
        !v.paused,
        !v.spent.contains(nullifier),
        v.roots.contains(root),
        mock_proof() != sha256_digest(concat_inputs(withdrawal_inputs(root, nullifier, recipient, token, amount))),
    ensures
        withdraw_result(v, token, recipient, amount, nullifier, root, mock_proof()) == Err::<
            (VaultView, WithdrawReceipt),
            ZkStashError,
        >(ZkStashError::InvalidProof),
{
}

} // verus!
