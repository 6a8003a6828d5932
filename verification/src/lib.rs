//! Usage accounting and settlement: receipts for generated tokens, Merkle
//! trees over them, payments, escrow, royalties, and the hand-over of batches
//! of receipts to a settlement contract.
pub mod blockchain;
pub mod client;
pub mod external;
pub mod json;
pub mod laws;
pub mod merkle;
pub mod rewards;
pub mod royalty;
pub mod text;
pub mod types;

pub use blockchain::{
    AddedReceipt, OnChainSettlement, OnChainSettlementConfig, OnChainSettlementStatus,
    PendingReceipt, SettlementRequest, SettlementStep, SettlementSubmission,
    SettlementSubmissionStatus,
};
pub use client::{
    EscrowAccount, Payment, PaymentStatus, SettlementClient, SettlementConfig, SettlementReceipt,
};
pub use merkle::MerkleProof;
pub use types::{
    AuriaError, AuriaResult, ExpertId, PublicKey, RequestId, Signature, UsageReceipt, UsageStats,
};

use types::same_bytes;
use vstd::prelude::*;

verus! {

/// A 32-byte digest.
#[derive(Clone, Copy, Debug)]
pub struct Hash(pub [u8; 32]);

impl Eq for Hash {

}

impl PartialEq for Hash {
    fn eq(&self, other: &Self) -> (same: bool) {
        let same = same_bytes(self.0.as_slice(), other.0.as_slice());
        proof {
            if same {
                crate::types::lemma_same_view(self.0, other.0);
            }
        }
        same
    }
}

impl vstd::std_specs::cmp::PartialEqSpecImpl for Hash {
    open spec fn obeys_eq_spec() -> bool {
        true
    }

    open spec fn eq_spec(&self, other: &Self) -> bool {
        *self == *other
    }
}

} // verus!
