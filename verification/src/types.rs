//! Identifiers, receipts and errors shared by the settlement modules.
use vstd::prelude::*;

verus! {

/// The identifier of one inference request.
#[derive(Clone, Copy, Debug, PartialEq, Eq)]
pub struct RequestId(pub [u8; 16]);

/// The identifier of an expert that took part in a request.
#[derive(Clone, Copy, Debug, Hash)]
pub struct ExpertId(pub [u8; 32]);

/// The key that a payment or an escrow account belongs to.
#[derive(Clone, Copy, Debug, PartialEq, Eq)]
pub struct PublicKey(pub [u8; 32]);

/// A node's signature over a receipt.
#[derive(Clone, Copy, Debug, PartialEq, Eq)]
pub struct Signature(pub [u8; 64]);

/// An array of zero bytes.
pub open spec fn zeros<const N: usize>() -> [u8; N] {
    vstd::array::spec_array_fill_for_copy_type::<u8, N>(0u8)
}

/// Whether two byte slices hold the same bytes.
pub fn same_bytes(a: &[u8], b: &[u8]) -> (same: bool)
    ensures
        same == (a@ == b@),
{
    if a.len() != b.len() {
        return false;
    }
    let mut i: usize = 0;
    while i < a.len()
        invariant
            i <= a@.len(),
            a@.len() == b@.len(),
            forall|j: int| 0 <= j < i ==> a@[j] == b@[j],
        decreases a@.len() - i,
    {
        if a[i] != b[i] {
            return false;
        }
        i += 1;
    }
    assert(a@ =~= b@);
    true
}

/// Arrays with the same bytes are equal.
pub proof fn lemma_same_view<const N: usize>(a: [u8; N], b: [u8; N])
    requires
        a@ == b@,
    ensures
        a == b,
{
    assert forall|i: int| 0 <= i < N implies a[i] == b[i] by {
        assert(a@[i] == b@[i]);
    }
    assert(a =~= b);
}

impl Eq for ExpertId {

}

impl PartialEq for ExpertId {
    fn eq(&self, other: &Self) -> (same: bool) {
        let same = same_bytes(self.0.as_slice(), other.0.as_slice());
        proof {
            if same {
                lemma_same_view(self.0, other.0);
            }
        }
        same
    }
}

impl vstd::std_specs::cmp::PartialEqSpecImpl for ExpertId {
    open spec fn obeys_eq_spec() -> bool {
        true
    }

    open spec fn eq_spec(&self, other: &Self) -> bool {
        *self == *other
    }
}

/// Tokens that a request consumed and produced.
#[derive(Clone, Copy, Debug, PartialEq, Eq)]
pub struct UsageStats {
    pub tokens_generated: u64,
    pub tokens_processed: u64,
}

/// A node's record of the tokens generated for one request.
#[derive(Debug)]
pub struct UsageReceipt {
    pub request_id: RequestId,
    pub expert_ids: Vec<ExpertId>,
    pub token_count: u64,
    pub timestamp: u64,
    pub node_signature: Signature,
}

/// What a [`UsageReceipt`] records.
#[verifier::ext_equal]
pub struct ReceiptView {
    pub request_id: RequestId,
    pub expert_ids: Seq<ExpertId>,
    pub token_count: u64,
    pub timestamp: u64,
    pub node_signature: Signature,
}

impl View for UsageReceipt {
    type V = ReceiptView;

    open spec fn view(&self) -> ReceiptView {
        ReceiptView {
            request_id: self.request_id,
            expert_ids: self.expert_ids@,
            token_count: self.token_count,
            timestamp: self.timestamp,
            node_signature: self.node_signature,
        }
    }
}

/// What each receipt of a list records.
pub open spec fn receipt_views(receipts: Seq<UsageReceipt>) -> Seq<ReceiptView> {
    receipts.map_values(|r: UsageReceipt| r@)
}

/// Copies a list of expert identifiers.
pub fn copy_expert_ids(ids: &Vec<ExpertId>) -> (copy: Vec<ExpertId>)
    ensures
        copy@ == ids@,
{
    let mut copy: Vec<ExpertId> = Vec::new();
    let mut i: usize = 0;
    while i < ids.len()
        invariant
            i <= ids@.len(),
            copy@ =~= ids@.take(i as int),
        decreases ids@.len() - i,
    {
        copy.push(ids[i]);
        i += 1;
    }
    assert(ids@.take(i as int) =~= ids@);
    copy
}

impl Clone for UsageReceipt {
    fn clone(&self) -> (copy: Self)
        ensures
            copy@ == self@,
    {
        UsageReceipt {
            request_id: self.request_id,
            expert_ids: copy_expert_ids(&self.expert_ids),
            token_count: self.token_count,
            timestamp: self.timestamp,
            node_signature: self.node_signature,
        }
    }
}

/// Why an operation was refused.
#[derive(Debug, PartialEq, Eq)]
pub enum AuriaError {
    /// The request does not fit the present state; the text says how.
    ExecutionError(String),
    /// The system clock stands before the Unix epoch.
    ClockBeforeEpoch,
    /// Settlement periods of zero seconds are configured.
    ZeroSettlementInterval,
}

impl Clone for AuriaError {
    fn clone(&self) -> (copy: Self)
        ensures
            copy == *self,
    {
        match self {
            AuriaError::ExecutionError(text) => AuriaError::ExecutionError(text.clone()),
            AuriaError::ClockBeforeEpoch => AuriaError::ClockBeforeEpoch,
            AuriaError::ZeroSettlementInterval => AuriaError::ZeroSettlementInterval,
        }
    }
}

pub type AuriaResult<T> = Result<T, AuriaError>;

/// `result` is the refusal with the given text.
pub open spec fn refused<T>(result: AuriaResult<T>, text: Seq<char>) -> bool {
    result matches Err(AuriaError::ExecutionError(message)) && message@ == text
}

/// Makes the refusal with the given text.
pub fn refusal<T>(text: &str) -> (result: AuriaResult<T>)
    ensures
        refused(result, text@),
{
    Err(AuriaError::ExecutionError(text.to_owned()))
}

} // verus!
