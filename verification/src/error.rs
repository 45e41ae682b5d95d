//! The reasons for which the vault refuses a request.
use vstd::prelude::*;

verus! {

/// Why a request to the vault or its tree was refused. A refused request
/// leaves the state as it was.
#[derive(Debug, Clone, Copy, PartialEq, Eq, Structural)]
pub enum ZkStashError {
    /// `initialize` was called on a vault that already has an admin.
    AlreadyInitialized,
    /// A fee rate above 1000 basis points was requested.
    FeeTooHigh,
    /// A deposit or withdrawal of zero or a negative amount.
    AmountNotPositive,
    /// A deposit or withdrawal while the vault is paused.
    ContractPaused,
    /// A withdrawal with a nullifier that was spent before.
    NullifierAlreadySpent,
    /// A withdrawal against a root that no deposit produced.
    InvalidMerkleRoot,
    /// A withdrawal whose proof does not check against its public inputs.
    InvalidProof,
    /// A fee claim while no fees have accrued.
    NoFeesAccrued,
    /// An admin-only request to a vault that has no admin yet.
    NotInitialized,
    /// An admin-only request from someone who is not the admin.
    Unauthorized,
    /// A deposit into a tree whose leaves are all taken.
    MerkleTreeFull,
    /// A fee computation that does not fit in 128 bits.
    ArithmeticOverflow,
}

impl ZkStashError {
    /// The text with which the contract aborts on this refusal.
    pub fn message(&self) -> (text: &'static str)
        ensures
            text@ == match *self {
                ZkStashError::AlreadyInitialized => "Already initialized"@,
                ZkStashError::FeeTooHigh => "Fee cannot exceed 10%"@,
                ZkStashError::AmountNotPositive => "Amount must be positive"@,
                ZkStashError::ContractPaused => "Contract is paused"@,
                ZkStashError::NullifierAlreadySpent => "Nullifier already spent"@,
                ZkStashError::InvalidMerkleRoot => "Invalid Merkle root"@,
                ZkStashError::InvalidProof => "Invalid ZK proof"@,
                ZkStashError::NoFeesAccrued => "No fees accrued"@,
                ZkStashError::NotInitialized => "Not initialized"@,
                ZkStashError::Unauthorized => "Unauthorized"@,
                ZkStashError::MerkleTreeFull => "Merkle Tree is full"@,
                ZkStashError::ArithmeticOverflow => "Arithmetic overflow"@,
            },
    {
        match self {
            ZkStashError::AlreadyInitialized => "Already initialized",
            ZkStashError::FeeTooHigh => "Fee cannot exceed 10%",
            ZkStashError::AmountNotPositive => "Amount must be positive",
            ZkStashError::ContractPaused => "Contract is paused",
            ZkStashError::NullifierAlreadySpent => "Nullifier already spent",
            ZkStashError::InvalidMerkleRoot => "Invalid Merkle root",
            ZkStashError::InvalidProof => "Invalid ZK proof",
            ZkStashError::NoFeesAccrued => "No fees accrued",
            ZkStashError::NotInitialized => "Not initialized",
            ZkStashError::Unauthorized => "Unauthorized",
            ZkStashError::MerkleTreeFull => "Merkle Tree is full",
            ZkStashError::ArithmeticOverflow => "Arithmetic overflow",
        }
    }
}

} // verus!
