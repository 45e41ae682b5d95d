//! The vault: its state, and what each request does to it.
//!
//! The vault holds the admin, the pause flag, the withdrawal fee rate, the
//! fees accrued so far, the commitment tree, every root the tree has had after
//! a deposit, and every nullifier spent by a withdrawal. Each request is
//! described twice: by a spec function from the state before to the outcome
//! (the refusal, or the state after and what the caller must pay out), and by
//! the executable method, whose contract says it computes exactly that.
//! Authentication, token transfers, events and code upgrades are carried out by
//! whoever runs the vault, from what the methods return.
use vstd::prelude::*;

use crate::bytes::{
    append_bytes, be_bytes, bytes_equal, contains_hash, hash_set, hash_views, lemma_hash_set_push,
    u128_be_bytes,
};
use crate::error::ZkStashError;
use crate::host::{sha256, sha256_digest};
use crate::merkle::{zero_leaf, merkle_root, stored_state_agrees, tree_after, MerkleTree, MerkleTreeView, MAX_LEAVES};
use crate::zk_verifier::{proof_accepted, ZkVerifier};

verus! {

/// The largest withdrawal fee rate, in basis points (10%).
pub const MAX_FEE_BPS: u32 = 1000;

/// Basis points in a whole.
pub const BPS_DENOMINATOR: i128 = 10000;

/// The storage keys under which the contract keeps its settings.
#[derive(Debug, Clone, Copy, PartialEq, Eq, Structural)]
pub enum DataKey {
    Admin,
    Paused,
    FeeBps,
    AccruedFees,
}

/// Whether `xdr` is the XDR encoding of an address value: an account (value
/// tag 18, address type 0, key type 0, then a 32-byte key) or a contract
/// (value tag 18, address type 1, then a 32-byte hash).
pub open spec fn is_address_xdr(xdr: Seq<u8>) -> bool {
    ||| xdr.len() == 44 && xdr.take(12) == seq![0u8, 0, 0, 18, 0, 0, 0, 0, 0, 0, 0, 0]
    ||| xdr.len() == 40 && xdr.take(8) == seq![0u8, 0, 0, 18, 0, 0, 0, 1]
}

/// Whether `bytes` starts with `prefix`.
pub fn starts_with(bytes: &[u8], prefix: &[u8]) -> (found: bool)
    ensures
        found == (prefix@.len() <= bytes@.len() && bytes@.take(prefix@.len() as int) == prefix@),
{
    if prefix.len() > bytes.len() {
        return false;
    }
    let mut i: usize = 0;
    while i < prefix.len()
        invariant
            prefix@.len() <= bytes@.len(),
            0 <= i <= prefix@.len(),
            forall|j: int| 0 <= j < i ==> bytes@[j] == prefix@[j],
        decreases prefix@.len() - i,
    {
        if bytes[i] != prefix[i] {
            assert(bytes@.take(prefix@.len() as int)[i as int] != prefix@[i as int]);
            return false;
        }
        i = i + 1;
    }
    assert(bytes@.take(prefix@.len() as int) =~= prefix@);
    true
}

/// Whether `xdr` is the XDR encoding of an address value.
pub fn is_address_encoding(xdr: &[u8]) -> (valid: bool)
    ensures
        valid == is_address_xdr(xdr@),
{
    let account_prefix: [u8; 12] = [0u8, 0, 0, 18, 0, 0, 0, 0, 0, 0, 0, 0];
    let contract_prefix: [u8; 8] = [0u8, 0, 0, 18, 0, 0, 0, 1];
    proof {
        assert(account_prefix@ =~= seq![0u8, 0, 0, 18, 0, 0, 0, 0, 0, 0, 0, 0]);
        assert(contract_prefix@ =~= seq![0u8, 0, 0, 18, 0, 0, 0, 1]);
    }
    if xdr.len() == 44 {
        starts_with(xdr, &account_prefix)
    } else if xdr.len() == 40 {
        starts_with(xdr, &contract_prefix)
    } else {
        false
    }
}

/// An account or contract address, held as its XDR encoding, which is
/// always an address encoding. Two addresses are the same address exactly
/// when their encodings are equal.
pub struct Address {
    xdr: Vec<u8>,
}

impl View for Address {
    type V = Seq<u8>;

    closed spec fn view(&self) -> Seq<u8> {
        self.xdr@
    }
}

impl Address {
    /// An address holds an address encoding.
    #[verifier::type_invariant]
    spec fn encoding_is_valid(self) -> bool {
        is_address_xdr(self.xdr@)
    }

    /// The address whose XDR encoding is `xdr`; none when `xdr` is not an
    /// address encoding.
    pub fn from_xdr(xdr: Vec<u8>) -> (address: Option<Address>)
        ensures
            address is Some <==> is_address_xdr(xdr@),
            address matches Some(a) ==> a@ == xdr@,
    {
        if is_address_encoding(xdr.as_slice()) {
            Some(Address { xdr })
        } else {
            None
        }
    }

    /// The XDR encoding of the address.
    pub fn xdr(&self) -> (bytes: &[u8])
        ensures
            bytes@ == self@,
            is_address_xdr(self@),
    {
        proof {
            use_type_invariant(self);
        }
        self.xdr.as_slice()
    }

    /// Whether `self` and `other` are the same address.
    pub fn same_as(&self, other: &Address) -> (same: bool)
        ensures
            same == (self@ == other@),
    {
        bytes_equal(self.xdr.as_slice(), other.xdr.as_slice())
    }
}

impl Clone for Address {
    fn clone(&self) -> (copy: Self)
        ensures
            copy@ == self@,
    {
        proof {
            use_type_invariant(self);
        }
        let mut xdr: Vec<u8> = Vec::new();
        append_bytes(&mut xdr, self.xdr.as_slice());
        assert(xdr@ =~= self.xdr@);
        Address { xdr }
    }
}

/// What a successful withdrawal pays out: `withdraw_amount` to the recipient,
/// while `fee_amount` stays in the vault as accrued fees.
#[derive(Debug, Clone, Copy, PartialEq, Eq, Structural)]
pub struct WithdrawReceipt {
    pub withdraw_amount: i128,
    pub fee_amount: i128,
}

/// What the vault holds.
pub struct VaultView {
    /// The admin's address, once the vault is initialized.
    pub admin: Option<Seq<u8>>,
    pub paused: bool,
    /// The withdrawal fee rate in basis points.
    pub fee_bps: u32,
    /// Fees withheld from withdrawals and not yet claimed.
    pub accrued_fees: i128,
    /// The commitment tree as stored, with the deposited commitments.
    pub tree: MerkleTreeView,
    /// The roots the tree has had after each deposit.
    pub roots: Set<Seq<u8>>,
    /// The nullifiers spent by withdrawals.
    pub spent: Set<Seq<u8>>,
    /// Whether the vault runs for unit tests and so also accepts the fixed
    /// test proof.
    pub test_mode: bool,
}

/// The fee withheld from a withdrawal of `amount` at `fee_bps` basis points,
/// rounded down.
pub open spec fn fee_for(amount: int, fee_bps: int) -> int {
    amount * fee_bps / 10000
}

/// Whether `caller` may act as the admin of `v`.
pub open spec fn admin_check(v: VaultView, caller: Seq<u8>) -> Result<(), ZkStashError> {
    match v.admin {
        None => Err(ZkStashError::NotInitialized),
        Some(admin) => if admin == caller {
            Ok(())
        } else {
            Err(ZkStashError::Unauthorized)
        },
    }
}

/// `initialize(admin, fee_bps)`.
pub open spec fn initialize_result(v: VaultView, admin: Seq<u8>, fee_bps: u32) -> Result<VaultView, ZkStashError> {
    if v.admin is Some {
        Err(ZkStashError::AlreadyInitialized)
    } else if fee_bps > MAX_FEE_BPS {
        Err(ZkStashError::FeeTooHigh)
    } else {
        Ok(VaultView { admin: Some(admin), paused: false, fee_bps, accrued_fees: 0, ..v })
    }
}

/// `deposit(commitment, amount)`: the commitment becomes the next leaf and the
/// new root is recorded.
pub open spec fn deposit_result(v: VaultView, commitment: Seq<u8>, amount: i128) -> Result<VaultView, ZkStashError> {
    if amount <= 0 {
        Err(ZkStashError::AmountNotPositive)
    } else if v.paused {
        Err(ZkStashError::ContractPaused)
    } else if v.tree.leaves.len() >= MAX_LEAVES {
        Err(ZkStashError::MerkleTreeFull)
    } else {
        let leaves = v.tree.leaves.push(commitment);
        Ok(VaultView { tree: tree_after(leaves), roots: v.roots.insert(merkle_root(leaves)), ..v })
    }
}

/// The bytes that bind a withdrawal to its recipient, token and amount: the
/// recipient's and the token's XDR encodings and the amount as 16 big-endian
/// bytes.
pub open spec fn withdrawal_params(recipient: Seq<u8>, token: Seq<u8>, amount: i128) -> Seq<u8> {
    recipient + token + be_bytes(amount as nat, 16)
}

/// The public inputs of a withdrawal proof: the root, the nullifier and the
/// digest of the withdrawal parameters.
pub open spec fn withdrawal_inputs(
    root: Seq<u8>,
    nullifier: Seq<u8>,
    recipient: Seq<u8>,
    token: Seq<u8>,
    amount: i128,
) -> Seq<Seq<u8>> {
    seq![root, nullifier, sha256_digest(withdrawal_params(recipient, token, amount))]
}

/// `withdraw(token, recipient, amount, nullifier, root, proof)`.
pub open spec fn withdraw_result(
    v: VaultView,
    token: Seq<u8>,
    recipient: Seq<u8>,
    amount: i128,
    nullifier: Seq<u8>,
    root: Seq<u8>,
    proof: Seq<u8>,
) -> Result<(VaultView, WithdrawReceipt), ZkStashError> {
    if amount <= 0 {
        Err(ZkStashError::AmountNotPositive)
    } else if v.paused {
        Err(ZkStashError::ContractPaused)
    } else if v.spent.contains(nullifier) {
        Err(ZkStashError::NullifierAlreadySpent)
    } else if !v.roots.contains(root) {
        Err(ZkStashError::InvalidMerkleRoot)
    } else if !proof_accepted(proof, withdrawal_inputs(root, nullifier, recipient, token, amount), v.test_mode) {
        Err(ZkStashError::InvalidProof)
    } else if amount * v.fee_bps > i128::MAX {
        Err(ZkStashError::ArithmeticOverflow)
    } else {
        let fee = fee_for(amount as int, v.fee_bps as int);
        if fee > 0 && v.accrued_fees + fee > i128::MAX {
            Err(ZkStashError::ArithmeticOverflow)
        } else {
            let accrued_fees = if fee > 0 {
                (v.accrued_fees + fee) as i128
            } else {
                v.accrued_fees
            };
            Ok(
                (
                    VaultView { spent: v.spent.insert(nullifier), accrued_fees, ..v },
                    WithdrawReceipt { withdraw_amount: (amount - fee) as i128, fee_amount: fee as i128 },
                ),
            )
        }
    }
}

/// `set_paused(admin, paused)`.
pub open spec fn set_paused_result(v: VaultView, admin: Seq<u8>, paused: bool) -> Result<VaultView, ZkStashError> {
    match admin_check(v, admin) {
        Err(e) => Err(e),
        Ok(_) => Ok(VaultView { paused, ..v }),
    }
}

/// `claim_fees(admin)`: all accrued fees are paid out.
pub open spec fn claim_fees_result(v: VaultView, admin: Seq<u8>) -> Result<(VaultView, i128), ZkStashError> {
    match admin_check(v, admin) {
        Err(e) => Err(e),
        Ok(_) => if v.accrued_fees <= 0 {
            Err(ZkStashError::NoFeesAccrued)
        } else {
            Ok((VaultView { accrued_fees: 0, ..v }, v.accrued_fees))
        },
    }
}

/// `change_admin(admin, new_admin)`.
pub open spec fn change_admin_result(v: VaultView, admin: Seq<u8>, new_admin: Seq<u8>) -> Result<VaultView, ZkStashError> {
    match admin_check(v, admin) {
        Err(e) => Err(e),
        Ok(_) => Ok(VaultView { admin: Some(new_admin), ..v }),
    }
}

/// `update_fee_bps(admin, new_fee_bps)`.
pub open spec fn update_fee_bps_result(v: VaultView, admin: Seq<u8>, new_fee_bps: u32) -> Result<VaultView, ZkStashError> {
    match admin_check(v, admin) {
        Err(e) => Err(e),
        Ok(_) => if new_fee_bps > MAX_FEE_BPS {
            Err(ZkStashError::FeeTooHigh)
        } else {
            Ok(VaultView { fee_bps: new_fee_bps, ..v })
        },
    }
}

/// The bounds every reachable vault keeps: the fee rate is at most 10%, the
/// accrued fees are not negative, and the stored tree agrees with its leaves,
/// of which there are at most `MAX_LEAVES`.
pub open spec fn within_bounds(v: VaultView) -> bool {
    &&& v.fee_bps <= MAX_FEE_BPS
    &&& v.accrued_fees >= 0
    &&& stored_state_agrees(v.tree)
}

/// The public inputs of a proof for withdrawing `amount` (positive) of `token`
/// to `recipient` with `nullifier` against `root`.
pub fn withdrawal_public_inputs(
    env: &soroban_sdk::Env,
    root: [u8; 32],
    nullifier: [u8; 32],
    recipient: &Address,
    token: &Address,
    amount: i128,
) -> (inputs: Vec<[u8; 32]>)
    requires
        amount > 0,
    ensures
        hash_views(inputs@) == withdrawal_inputs(root@, nullifier@, recipient@, token@, amount),
{
    let mut params: Vec<u8> = Vec::new();
    append_bytes(&mut params, recipient.xdr());
    append_bytes(&mut params, token.xdr());
    let amount_bytes = u128_be_bytes(amount as u128, 16);
    append_bytes(&mut params, amount_bytes.as_slice());
    let param_hash = sha256(env, params.as_slice());
    let inputs: Vec<[u8; 32]> = vec![root, nullifier, param_hash];
    assert(hash_views(inputs@) =~= withdrawal_inputs(root@, nullifier@, recipient@, token@, amount));
    inputs
}

/// The roots the tree has had after each of the first deposits: the root over
/// the first `k` commitments, for every `k` from 1 to the number deposited.
pub open spec fn historical_roots(leaves: Seq<Seq<u8>>) -> Set<Seq<u8>> {
    Set::new(
        |r: Seq<u8>| exists|k: int| 1 <= k <= leaves.len() && r == #[trigger] merkle_root(leaves.take(k)),
    )
}

/// One more commitment adds the root over all commitments to the history.
pub proof fn lemma_historical_roots_push(leaves: Seq<Seq<u8>>, commitment: Seq<u8>)
    ensures
        historical_roots(leaves.push(commitment)) == historical_roots(leaves).insert(
            merkle_root(leaves.push(commitment)),
        ),
{
    let new_leaves = leaves.push(commitment);
    let n = leaves.len() as int;
    let grown = historical_roots(leaves).insert(merkle_root(new_leaves));
    assert forall|r: Seq<u8>| #[trigger] grown.contains(r) <==> historical_roots(new_leaves).contains(r) by {
        if historical_roots(leaves).contains(r) {
            let k = choose|k: int| 1 <= k <= leaves.len() && r == #[trigger] merkle_root(leaves.take(k));
            assert(new_leaves.take(k) =~= leaves.take(k));
        }
        if r == merkle_root(new_leaves) {
            assert(new_leaves.take(n + 1) =~= new_leaves);
        }
        if historical_roots(new_leaves).contains(r) {
            let k = choose|k: int| 1 <= k <= new_leaves.len() && r == #[trigger] merkle_root(new_leaves.take(k));
            if k <= n {
                assert(new_leaves.take(k) =~= leaves.take(k));
            } else {
                assert(new_leaves.take(k) =~= new_leaves);
            }
        }
    }
    assert(grown =~= historical_roots(new_leaves));
}

/// A vault whose storage is empty, in test mode or not.
pub open spec fn empty_vault(test_mode: bool) -> VaultView {
    VaultView {
        admin: None,
        paused: false,
        fee_bps: 0,
        accrued_fees: 0,
        tree: MerkleTreeView {
            initialized: false,
            next_index: 0,
            filled_subtrees: Seq::empty(),
            root: zero_leaf(),
            leaves: Seq::empty(),
        },
        roots: Set::empty(),
        spent: Set::empty(),
        test_mode,
    }
}

/// The state of the vault contract.
pub struct ZkStashVault {
    admin: Option<Address>,
    paused: bool,
    fee_bps: u32,
    accrued_fees: i128,
    tree: MerkleTree,
    roots: Vec<[u8; 32]>,
    nullifiers: Vec<[u8; 32]>,
    test_mode: bool,
}

impl View for ZkStashVault {
    type V = VaultView;

    closed spec fn view(&self) -> VaultView {
        VaultView {
            admin: match self.admin {
                Some(a) => Some(a@),
                None => None,
            },
            paused: self.paused,
            fee_bps: self.fee_bps,
            accrued_fees: self.accrued_fees,
            tree: self.tree@,
            roots: hash_set(self.roots@),
            spent: hash_set(self.nullifiers@),
            test_mode: self.test_mode,
        }
    }
}

impl ZkStashVault {
    /// The vault's parts agree with each other and stay within bounds.
    pub closed spec fn wf(&self) -> bool {
        within_bounds(self@)
    }

    /// A well-formed vault is within bounds.
    pub proof fn lemma_wf_within_bounds(&self)
        requires
            self.wf(),
        ensures
            within_bounds(self@),
    {
    }

    /// A vault whose storage is empty: no admin, not paused, no fee, no
    /// deposits, no spent nullifiers; it accepts only proofs that check.
    pub fn new() -> (vault: ZkStashVault)
        ensures
            vault.wf(),
            vault@ == empty_vault(false),
    {
        Self::with_mode(false)
    }

    /// A vault for unit tests: as `new`, but it also accepts the fixed test
    /// proof.
    pub fn new_test_mode() -> (vault: ZkStashVault)
        ensures
            vault.wf(),
            vault@ == empty_vault(true),
    {
        Self::with_mode(true)
    }

    fn with_mode(test_mode: bool) -> (vault: ZkStashVault)
        ensures
            vault.wf(),
            vault@ == empty_vault(test_mode),
    {
        let vault = ZkStashVault {
            admin: None,
            paused: false,
            fee_bps: 0,
            accrued_fees: 0,
            tree: MerkleTree::new(),
            roots: Vec::new(),
            nullifiers: Vec::new(),
            test_mode,
        };
        assert(vault@.roots =~= Set::<Seq<u8>>::empty());
        assert(vault@.spent =~= Set::<Seq<u8>>::empty());
        vault
    }

    /// The vault with the given settings and tree that knows the historical
    /// roots in `roots` and the spent nullifiers in `nullifiers`. A runner
    /// that keeps roots and nullifiers one by one passes those its request asks
    /// about. There is none when the fee rate is above 10% or the accrued fees
    /// are negative.
    pub fn restore(
        admin: Option<Address>,
        paused: bool,
        fee_bps: u32,
        accrued_fees: i128,
        tree: MerkleTree,
        roots: Vec<[u8; 32]>,
        nullifiers: Vec<[u8; 32]>,
    ) -> (vault: Option<ZkStashVault>)
        requires
            tree.wf(),
        ensures
            vault is Some <==> fee_bps <= MAX_FEE_BPS && accrued_fees >= 0,
            vault matches Some(v) ==> {
                &&& v.wf()
                &&& v@.admin == match admin {
                    Some(a) => Some(a@),
                    None => None::<Seq<u8>>,
                }
                &&& v@.paused == paused
                &&& v@.fee_bps == fee_bps
                &&& v@.accrued_fees == accrued_fees
                &&& v@.tree == tree@
                &&& v@.roots == hash_set(roots@)
                &&& v@.spent == hash_set(nullifiers@)
                &&& !v@.test_mode
            },
    {
        if fee_bps > MAX_FEE_BPS || accrued_fees < 0 {
            return None;
        }
        Some(ZkStashVault { admin, paused, fee_bps, accrued_fees, tree, roots, nullifiers, test_mode: false })
    }

    /// The commitment tree.
    pub fn tree(&self) -> (tree: &MerkleTree)
        requires
            self.wf(),
        ensures
            tree@ == self@.tree,
            tree.wf(),
    {
        &self.tree
    }

    /// Sets the admin and the withdrawal fee rate of a vault that has no admin
    /// yet; the vault starts unpaused with no accrued fees.
    pub fn initialize(&mut self, admin: Address, fee_bps: u32) -> (result: Result<(), ZkStashError>)
        requires
            old(self).wf(),
        ensures
            final(self).wf(),
            match result {
                Ok(_) => initialize_result(old(self)@, admin@, fee_bps) == Ok::<VaultView, ZkStashError>(final(self)@),
                Err(e) => initialize_result(old(self)@, admin@, fee_bps) == Err::<VaultView, ZkStashError>(e)
                    && final(self)@ == old(self)@,
            },
    {
        if self.admin.is_some() {
            return Err(ZkStashError::AlreadyInitialized);
        }
        if fee_bps > MAX_FEE_BPS {
            return Err(ZkStashError::FeeTooHigh);
        }
        self.admin = Some(admin);
        self.paused = false;
        self.fee_bps = fee_bps;
        self.accrued_fees = 0;
        Ok(())
    }

    /// The fees accrued and not yet claimed.
    pub fn accrued_fees(&self) -> (accrued: i128)
        ensures
            accrued == self@.accrued_fees,
    {
        self.accrued_fees
    }

    /// Whether deposits and withdrawals are suspended.
    pub fn is_paused(&self) -> (paused: bool)
        ensures
            paused == self@.paused,
    {
        self.paused
    }

    /// Registers `commitment` as the next leaf of the tree and records the new
    /// root, which it returns. The caller collects `amount` tokens from the
    /// depositor.
    pub fn deposit(&mut self, env: &soroban_sdk::Env, commitment: [u8; 32], amount: i128) -> (result: Result<[u8; 32], ZkStashError>)
        requires
            old(self).wf(),
        ensures
            final(self).wf(),
            match result {
                Ok(root) => deposit_result(old(self)@, commitment@, amount) == Ok::<VaultView, ZkStashError>(final(self)@)
                    && root@ == final(self)@.tree.root,
                Err(e) => deposit_result(old(self)@, commitment@, amount) == Err::<VaultView, ZkStashError>(e)
                    && final(self)@ == old(self)@,
            },
    {
        if amount <= 0 {
            return Err(ZkStashError::AmountNotPositive);
        }
        if self.paused {
            return Err(ZkStashError::ContractPaused);
        }
        let new_root = match self.tree.insert(env, commitment) {
            Ok(root) => root,
            Err(e) => {
                return Err(e);
            },
        };
        proof {
            lemma_hash_set_push(self.roots@, new_root);
        }
        self.roots.push(new_root);
        Ok(new_root)
    }

    /// Spends `nullifier` against the historical root `root`, if `proof`
    /// checks against the root, the nullifier and the digest of the recipient,
    /// token and amount. The fee is withheld and accrued; the caller pays the
    /// rest to the recipient.
    pub fn withdraw(
        &mut self,
        env: &soroban_sdk::Env,
        token: &Address,
        recipient: &Address,
        amount: i128,
        nullifier: [u8; 32],
        root: [u8; 32],
        proof: &[u8],
    ) -> (result: Result<WithdrawReceipt, ZkStashError>)
        requires
            old(self).wf(),
        ensures
            final(self).wf(),
            is_address_xdr(token@),
            is_address_xdr(recipient@),
            match result {
                Ok(receipt) => withdraw_result(old(self)@, token@, recipient@, amount, nullifier@, root@, proof@)
                    == Ok::<(VaultView, WithdrawReceipt), ZkStashError>((final(self)@, receipt)),
                Err(e) => withdraw_result(old(self)@, token@, recipient@, amount, nullifier@, root@, proof@)
                    == Err::<(VaultView, WithdrawReceipt), ZkStashError>(e)
                    && final(self)@ == old(self)@,
            },
    {
        proof {
            use_type_invariant(token);
            use_type_invariant(recipient);
        }
        if amount <= 0 {
            return Err(ZkStashError::AmountNotPositive);
        }
        if self.paused {
            return Err(ZkStashError::ContractPaused);
        }
        if contains_hash(&self.nullifiers, &nullifier) {
            return Err(ZkStashError::NullifierAlreadySpent);
        }
        if !contains_hash(&self.roots, &root) {
            return Err(ZkStashError::InvalidMerkleRoot);
        }
        let public_inputs = withdrawal_public_inputs(env, root, nullifier, recipient, token, amount);
        if !ZkVerifier::verify_proof(env, proof, &public_inputs, self.test_mode) {
            return Err(ZkStashError::InvalidProof);
        }
        let product = match amount.checked_mul(self.fee_bps as i128) {
            Some(p) => p,
            None => {
                return Err(ZkStashError::ArithmeticOverflow);
            },
        };
        let fee_amount = product / BPS_DENOMINATOR;
        let withdraw_amount = amount - fee_amount;
        if fee_amount > 0 {
            let accrued = match self.accrued_fees.checked_add(fee_amount) {
                Some(a) => a,
                None => {
                    return Err(ZkStashError::ArithmeticOverflow);
                },
            };
            self.accrued_fees = accrued;
        }
        proof {
            lemma_hash_set_push(self.nullifiers@, nullifier);
        }
        self.nullifiers.push(nullifier);
        Ok(WithdrawReceipt { withdraw_amount, fee_amount })
    }

    /// Checks that `caller` is the admin.
    fn require_admin(&self, caller: &Address) -> (result: Result<(), ZkStashError>)
        ensures
            result == admin_check(self@, caller@),
    {
        match &self.admin {
            None => Err(ZkStashError::NotInitialized),
            Some(admin) => if caller.same_as(admin) {
                Ok(())
            } else {
                Err(ZkStashError::Unauthorized)
            },
        }
    }

    /// Suspends or resumes deposits and withdrawals (admin only).
    pub fn set_paused(&mut self, admin: &Address, paused: bool) -> (result: Result<(), ZkStashError>)
        requires
            old(self).wf(),
        ensures
            final(self).wf(),
            match result {
                Ok(_) => set_paused_result(old(self)@, admin@, paused) == Ok::<VaultView, ZkStashError>(final(self)@),
                Err(e) => set_paused_result(old(self)@, admin@, paused) == Err::<VaultView, ZkStashError>(e)
                    && final(self)@ == old(self)@,
            },
    {
        self.require_admin(admin)?;
        self.paused = paused;
        Ok(())
    }

    /// Resets the accrued fees to zero and returns them, for the caller to
    /// pay to the fee recipient (admin only).
    pub fn claim_fees(&mut self, admin: &Address) -> (result: Result<i128, ZkStashError>)
        requires
            old(self).wf(),
        ensures
            final(self).wf(),
            match result {
                Ok(claimed) => claim_fees_result(old(self)@, admin@) == Ok::<(VaultView, i128), ZkStashError>((final(self)@, claimed)),
                Err(e) => claim_fees_result(old(self)@, admin@) == Err::<(VaultView, i128), ZkStashError>(e)
                    && final(self)@ == old(self)@,
            },
    {
        self.require_admin(admin)?;
        let accrued = self.accrued_fees;
        if accrued <= 0 {
            return Err(ZkStashError::NoFeesAccrued);
        }
        self.accrued_fees = 0;
        Ok(accrued)
    }

    /// The current root of the commitment tree.
    pub fn get_root(&self, env: &soroban_sdk::Env) -> (root: [u8; 32])
        requires
            self.wf(),
        ensures
            root@ == merkle_root(self@.tree.leaves),
    {
        self.tree.get_current_root(env)
    }

    /// The number of commitments deposited so far.
    pub fn get_commitment_count(&self) -> (count: u32)
        requires
            self.wf(),
        ensures
            count == self@.tree.leaves.len(),
    {
        self.tree.get_next_index()
    }

    /// Authorizes replacing the contract code by `new_wasm_hash` (admin only),
    /// and returns the hash to install.
    pub fn upgrade(&self, admin: &Address, new_wasm_hash: [u8; 32]) -> (result: Result<[u8; 32], ZkStashError>)
        ensures
            match result {
                Ok(hash) => admin_check(self@, admin@) == Ok::<(), ZkStashError>(()) && hash == new_wasm_hash,
                Err(e) => admin_check(self@, admin@) == Err::<(), ZkStashError>(e),
            },
    {
        self.require_admin(admin)?;
        Ok(new_wasm_hash)
    }

    /// Hands the administration to `new_admin` (admin only).
    pub fn change_admin(&mut self, admin: &Address, new_admin: Address) -> (result: Result<(), ZkStashError>)
        requires
            old(self).wf(),
        ensures
            final(self).wf(),
            match result {
                Ok(_) => change_admin_result(old(self)@, admin@, new_admin@) == Ok::<VaultView, ZkStashError>(final(self)@),
                Err(e) => change_admin_result(old(self)@, admin@, new_admin@) == Err::<VaultView, ZkStashError>(e)
                    && final(self)@ == old(self)@,
            },
    {
        self.require_admin(admin)?;
        self.admin = Some(new_admin);
        Ok(())
    }

    /// Sets the withdrawal fee rate, at most 1000 basis points (admin only).
    pub fn update_fee_bps(&mut self, admin: &Address, new_fee_bps: u32) -> (result: Result<(), ZkStashError>)
        requires
            old(self).wf(),
        ensures
            final(self).wf(),
            match result {
                Ok(_) => update_fee_bps_result(old(self)@, admin@, new_fee_bps) == Ok::<VaultView, ZkStashError>(final(self)@),
                Err(e) => update_fee_bps_result(old(self)@, admin@, new_fee_bps) == Err::<VaultView, ZkStashError>(e)
                    && final(self)@ == old(self)@,
            },
    {
        self.require_admin(admin)?;
        if new_fee_bps > MAX_FEE_BPS {
            return Err(ZkStashError::FeeTooHigh);
        }
        self.fee_bps = new_fee_bps;
        Ok(())
    }
}

} // verus!
