//! Batches of receipts on their way to a settlement contract.
use crate::external::{hex_encode, keccak256_digest, random_uuid, unix_seconds};
use crate::merkle::merkle_root;
use crate::text::{decimal_text, parse_quantity, prefixed};
use crate::types::{copy_expert_ids, refusal, AuriaError, AuriaResult, ExpertId, RequestId, UsageStats};
use vstd::bytes::u64_to_le_bytes;
use vstd::prelude::*;
use vstd::slice::slice_subrange;

verus! {

/// Which chain and contract receipts are settled on, and when.
#[derive(Debug)]
pub struct OnChainSettlementConfig {
    pub rpc_url: String,
    pub settlement_contract_address: String,
    pub wallet_mnemonic: Option<String>,
    pub chain_id: u64,
    pub settlement_interval_seconds: u64,
    pub min_receipts_for_settlement: u32,
    pub auto_settle: bool,
    pub settle_on_threshold: bool,
    pub threshold_receipts: u32,
}

impl Default for OnChainSettlementConfig {
    fn default() -> (config: Self)
        ensures
            config.rpc_url@ == "http://localhost:8545"@,
            config.settlement_contract_address@ == "0x0000000000000000000000000000000000000000"@,
            config.wallet_mnemonic is None,
            config.chain_id == 1,
            config.settlement_interval_seconds == 3600,
            config.min_receipts_for_settlement == 10,
            !config.auto_settle,
            config.settle_on_threshold,
            config.threshold_receipts == 100,
    {
        OnChainSettlementConfig {
            rpc_url: "http://localhost:8545".to_owned(),
            settlement_contract_address: "0x0000000000000000000000000000000000000000".to_owned(),
            wallet_mnemonic: None,
            chain_id: 1,
            settlement_interval_seconds: 3600,
            min_receipts_for_settlement: 10,
            auto_settle: false,
            settle_on_threshold: true,
            threshold_receipts: 100,
        }
    }
}

impl Clone for OnChainSettlementConfig {
    fn clone(&self) -> (copy: Self)
        ensures
            copy == *self,
    {
        OnChainSettlementConfig {
            rpc_url: self.rpc_url.clone(),
            settlement_contract_address: self.settlement_contract_address.clone(),
            wallet_mnemonic: match &self.wallet_mnemonic {
                Some(mnemonic) => Some(mnemonic.clone()),
                None => None,
            },
            chain_id: self.chain_id,
            settlement_interval_seconds: self.settlement_interval_seconds,
            min_receipts_for_settlement: self.min_receipts_for_settlement,
            auto_settle: self.auto_settle,
            settle_on_threshold: self.settle_on_threshold,
            threshold_receipts: self.threshold_receipts,
        }
    }
}

/// Where settlement stands.
#[derive(Debug)]
pub struct OnChainSettlementStatus {
    pub is_connected: bool,
    pub chain_id: u64,
    pub wallet_address: String,
    pub contract_address: String,
    pub pending_receipts: u32,
    pub total_settled: u64,
    pub last_settlement_block: Option<u64>,
    pub last_settlement_time: Option<u64>,
    pub pending_rewards: u64,
}

impl Clone for OnChainSettlementStatus {
    fn clone(&self) -> (copy: Self)
        ensures
            copy == *self,
    {
        OnChainSettlementStatus {
            is_connected: self.is_connected,
            chain_id: self.chain_id,
            wallet_address: self.wallet_address.clone(),
            contract_address: self.contract_address.clone(),
            pending_receipts: self.pending_receipts,
            total_settled: self.total_settled,
            last_settlement_block: self.last_settlement_block,
            last_settlement_time: self.last_settlement_time,
            pending_rewards: self.pending_rewards,
        }
    }
}

/// How far a submission has come.
#[derive(Debug, PartialEq, Eq)]
pub enum SettlementSubmissionStatus {
    Pending,
    Submitted,
    Confirmed,
    Failed(String),
}

impl Clone for SettlementSubmissionStatus {
    fn clone(&self) -> (copy: Self)
        ensures
            copy == *self,
    {
        match self {
            SettlementSubmissionStatus::Pending => SettlementSubmissionStatus::Pending,
            SettlementSubmissionStatus::Submitted => SettlementSubmissionStatus::Submitted,
            SettlementSubmissionStatus::Confirmed => SettlementSubmissionStatus::Confirmed,
            SettlementSubmissionStatus::Failed(reason) => SettlementSubmissionStatus::Failed(
                reason.clone(),
            ),
        }
    }
}

/// One batch handed to the settlement contract.
#[derive(Debug)]
pub struct SettlementSubmission {
    pub submission_id: String,
    pub tx_hash: String,
    pub receipt_count: u32,
    pub merkle_root: String,
    pub status: SettlementSubmissionStatus,
    pub submitted_at: u64,
    pub confirmed_at: Option<u64>,
    pub gas_used: Option<u64>,
}

impl Clone for SettlementSubmission {
    fn clone(&self) -> (copy: Self)
        ensures
            copy == *self,
    {
        SettlementSubmission {
            submission_id: self.submission_id.clone(),
            tx_hash: self.tx_hash.clone(),
            receipt_count: self.receipt_count,
            merkle_root: self.merkle_root.clone(),
            status: self.status.clone(),
            submitted_at: self.submitted_at,
            confirmed_at: self.confirmed_at,
            gas_used: self.gas_used,
        }
    }
}

impl SettlementSubmission {
    /// The submission was made at `submitted_at` for `receipts`, and nothing
    /// happened to it since.
    pub open spec fn is_opened(
        self,
        uuid: Seq<char>,
        receipts: Seq<PendingView>,
        submitted_at: u64,
    ) -> bool {
        &&& self.submission_id@ == "sub_"@ + uuid
        &&& self.tx_hash@ == Seq::<char>::empty()
        &&& self.receipt_count == low_u32(receipts.len())
        &&& self.merkle_root@ == batch_root(receipts)
        &&& self.status == SettlementSubmissionStatus::Pending
        &&& self.submitted_at == submitted_at
        &&& self.confirmed_at == None::<u64>
        &&& self.gas_used == None::<u64>
    }

    /// The submission once the contract has taken it.
    pub open spec fn as_submitted(self, tx_hash: String) -> SettlementSubmission {
        SettlementSubmission { tx_hash, status: SettlementSubmissionStatus::Submitted, ..self }
    }

    /// The submission once the contract has refused it.
    pub open spec fn as_failed(self, reason: String) -> SettlementSubmission {
        SettlementSubmission { status: SettlementSubmissionStatus::Failed(reason), ..self }
    }

    /// The submission once its transaction was mined.
    pub open spec fn as_confirmed(self, gas_used: u64, confirmed_at: u64) -> SettlementSubmission {
        SettlementSubmission {
            status: SettlementSubmissionStatus::Confirmed,
            confirmed_at: Some(confirmed_at),
            gas_used: Some(gas_used),
            ..self
        }
    }
}

/// A receipt that waits for settlement.
#[derive(Debug)]
pub struct PendingReceipt {
    pub request_id: RequestId,
    pub expert_ids: Vec<ExpertId>,
    pub token_count: u64,
    pub timestamp: u64,
}

/// What a [`PendingReceipt`] records.
#[verifier::ext_equal]
pub struct PendingView {
    pub request_id: RequestId,
    pub expert_ids: Seq<ExpertId>,
    pub token_count: u64,
    pub timestamp: u64,
}

impl View for PendingReceipt {
    type V = PendingView;

    open spec fn view(&self) -> PendingView {
        PendingView {
            request_id: self.request_id,
            expert_ids: self.expert_ids@,
            token_count: self.token_count,
            timestamp: self.timestamp,
        }
    }
}

impl Clone for PendingReceipt {
    fn clone(&self) -> (copy: Self)
        ensures
            copy@ == self@,
    {
        PendingReceipt {
            request_id: self.request_id,
            expert_ids: copy_expert_ids(&self.expert_ids),
            token_count: self.token_count,
            timestamp: self.timestamp,
        }
    }
}

/// What each receipt of a list records.
pub open spec fn pending_views(receipts: Seq<PendingReceipt>) -> Seq<PendingView> {
    receipts.map_values(|r: PendingReceipt| r@)
}

/// The waiting receipt for a request that `usage` was measured for.
pub open spec fn new_pending(
    request_id: RequestId,
    expert_ids: Seq<ExpertId>,
    usage: UsageStats,
    timestamp: u64,
) -> PendingView {
    PendingView { request_id, expert_ids, token_count: usage.tokens_generated, timestamp }
}

/// The low 32 bits of a count.
pub open spec fn low_u32(count: nat) -> u32 {
    (count % 0x1_0000_0000) as u32
}

/// The eight bytes of a number, the lowest first.
pub open spec fn le_bytes(n: u64) -> Seq<u8> {
    vstd::bytes::spec_u64_to_le_bytes(n)
}

/// The bytes of a receipt that its leaf is the digest of.
pub open spec fn leaf_bytes(receipt: PendingView) -> Seq<u8> {
    receipt.request_id.0@ + le_bytes(receipt.token_count) + le_bytes(receipt.timestamp)
}

/// The Merkle leaves of a batch, in order.
pub open spec fn batch_leaves(receipts: Seq<PendingView>) -> Seq<crate::Hash> {
    receipts.map_values(
        |r: PendingView| crate::Hash(crate::external::keccak256(leaf_bytes(r))),
    )
}

/// The Merkle root of a batch as text; only the prefix for an empty batch.
pub open spec fn batch_root(receipts: Seq<PendingView>) -> Seq<char> {
    if receipts.len() == 0 {
        "0x"@
    } else {
        "0x"@ + crate::text::hex_text(crate::merkle::tree_root(batch_leaves(receipts)).0@)
    }
}

/// The bytes of a batch that its signature is over.
pub open spec fn signed_bytes(receipts: Seq<PendingView>) -> Seq<u8>
    decreases receipts.len(),
{
    if receipts.len() == 0 {
        Seq::empty()
    } else {
        signed_bytes(receipts.drop_last()) + (receipts.last().request_id.0@ + le_bytes(
            receipts.last().token_count,
        ))
    }
}

/// The identifier given at `timestamp` to the receipt of a request: half a
/// digest, as text.
pub open spec fn receipt_id_at(request_id: RequestId, timestamp: u64) -> Seq<char> {
    "0x"@ + crate::text::hex_text(
        crate::external::keccak256(request_id.0@ + le_bytes(timestamp))@.take(16),
    )
}

/// The identifier given at `timestamp` to the receipt of a request.
pub fn generate_receipt_id_at(request_id: &RequestId, timestamp: u64) -> (receipt_id: String)
    ensures
        receipt_id@ == receipt_id_at(*request_id, timestamp),
{
    let mut data: Vec<u8> = Vec::new();
    data.extend_from_slice(request_id.0.as_slice());
    data.extend_from_slice(u64_to_le_bytes(timestamp).as_slice());
    assert(data@ =~= request_id.0@ + le_bytes(timestamp));
    let digest = keccak256_digest(data.as_slice());
    let half = slice_subrange(digest.as_slice(), 0, 16);
    assert(half@ =~= digest@.take(16));
    prefixed("0x", hex_encode(half).as_str())
}

/// The Merkle root of a batch, as text.
pub fn compute_merkle_root(receipts: &[PendingReceipt]) -> (root: String)
    ensures
        root@ == batch_root(pending_views(receipts@)),
{
    if receipts.len() == 0 {
        return "0x".to_owned();
    }
    let ghost views = pending_views(receipts@);
    let mut hashes: Vec<crate::Hash> = Vec::new();
    let mut i: usize = 0;
    while i < receipts.len()
        invariant
            i <= receipts@.len(),
            views == pending_views(receipts@),
            hashes@ =~= batch_leaves(views).take(i as int),
        decreases receipts@.len() - i,
    {
        let receipt = &receipts[i];
        let mut data: Vec<u8> = Vec::new();
        data.extend_from_slice(receipt.request_id.0.as_slice());
        data.extend_from_slice(u64_to_le_bytes(receipt.token_count).as_slice());
        data.extend_from_slice(u64_to_le_bytes(receipt.timestamp).as_slice());
        assert(data@ =~= leaf_bytes(views[i as int]));
        hashes.push(crate::Hash(keccak256_digest(data.as_slice())));
        i += 1;
    }
    assert(batch_leaves(views).take(i as int) =~= batch_leaves(views));
    let root = merkle_root(hashes);
    prefixed("0x", hex_encode(root.0.as_slice()).as_str())
}

/// The bytes of a batch to sign.
pub fn signing_payload(receipts: &[PendingReceipt]) -> (payload: Vec<u8>)
    ensures
        payload@ == signed_bytes(pending_views(receipts@)),
{
    let ghost views = pending_views(receipts@);
    let mut payload: Vec<u8> = Vec::new();
    let mut i: usize = 0;
    while i < receipts.len()
        invariant
            i <= receipts@.len(),
            views == pending_views(receipts@),
            payload@ == signed_bytes(views.take(i as int)),
        decreases receipts@.len() - i,
    {
        let receipt = &receipts[i];
        let ghost before = payload@;
        payload.extend_from_slice(receipt.request_id.0.as_slice());
        payload.extend_from_slice(u64_to_le_bytes(receipt.token_count).as_slice());
        proof {
            let next = views.take(i + 1);
            assert(next.drop_last() =~= views.take(i as int));
            assert(next.last() == receipt@);
            assert(payload@ =~= before + (receipt.request_id.0@ + le_bytes(receipt.token_count)));
        }
        i += 1;
    }
    assert(views.take(i as int) =~= views);
    payload
}

/// A signature as the contract takes it: with the `0x` prefix.
pub fn signature_text(signature_hex: &str) -> (text: String)
    ensures
        text@ == "0x"@ + signature_hex@,
{
    prefixed("0x", signature_hex)
}

/// What the contract is asked to settle. The signature over `payload` is the
/// wallet's part.
#[derive(Debug)]
pub struct SettlementRequest {
    pub receipt_id: String,
    pub event_ids: Vec<String>,
    pub node_identity: String,
    pub timestamp: u64,
    pub payload: Vec<u8>,
}

/// The identifiers of the receipts of a batch, each given at its own time.
pub open spec fn event_ids_at(receipts: Seq<PendingView>, times: Seq<u64>) -> Seq<Seq<char>> {
    Seq::new(receipts.len(), |i: int| receipt_id_at(receipts[i].request_id, times[i]))
}

impl SettlementRequest {
    /// The request for `receipts` under the submission named by `uuid`.
    pub open spec fn is_for(
        self,
        receipts: Seq<PendingView>,
        node_identity: String,
        uuid: Seq<char>,
        event_times: Seq<u64>,
        requested_at: u64,
    ) -> bool {
        &&& self.receipt_id@ == "sub_"@ + uuid
        &&& self.event_ids@.map_values(|id: String| id@) == event_ids_at(receipts, event_times)
        &&& self.node_identity == node_identity
        &&& self.timestamp == requested_at
        &&& self.payload@ == signed_bytes(receipts)
    }
}

/// What is left to do once the contract has taken a batch.
#[derive(Debug)]
pub enum SettlementStep {
    /// Wait for the transaction, then report it.
    AwaitTransaction { submission_idx: usize, tx_hash: String, timeout_seconds: u64 },
    /// Nothing: the batch is settled.
    Settled { tx_hash: String },
}

/// A receipt was taken up; `threshold_reached` says that settlement is due.
#[derive(Debug)]
pub struct AddedReceipt {
    pub receipt_id: String,
    pub threshold_reached: bool,
}

/// Why no settlement can begin; `None` where it can.
pub open spec fn trigger_refusal(connected: bool, pending: nat, required: u32) -> Option<
    Seq<char>,
> {
    if !connected {
        Some("Not connected to blockchain"@)
    } else if pending < required {
        Some(
            "Not enough receipts for settlement (have "@ + crate::text::decimal(pending)
                + ", need "@ + crate::text::decimal(required as nat) + ")"@,
        )
    } else {
        None
    }
}

/// The receipts of all confirmed submissions together.
pub open spec fn confirmed_receipts(submissions: Seq<SettlementSubmission>) -> nat
    decreases submissions.len(),
{
    if submissions.len() == 0 {
        0
    } else {
        confirmed_receipts(submissions.drop_last()) + if submissions.last().status
            == SettlementSubmissionStatus::Confirmed {
            submissions.last().receipt_count as nat
        } else {
            0
        }
    }
}

/// Receipts that wait for settlement, and the submissions made so far.
pub struct OnChainSettlement {
    config: OnChainSettlementConfig,
    pending_receipts: Vec<PendingReceipt>,
    submissions: Vec<SettlementSubmission>,
    connected: bool,
}

impl OnChainSettlement {
    /// The configuration.
    pub closed spec fn config(&self) -> OnChainSettlementConfig {
        self.config
    }

    /// What the waiting receipts record, oldest first.
    pub closed spec fn pending(&self) -> Seq<PendingView> {
        pending_views(self.pending_receipts@)
    }

    /// The submissions, oldest first.
    pub closed spec fn submissions(&self) -> Seq<SettlementSubmission> {
        self.submissions@
    }

    /// Whether the chain was reached.
    pub closed spec fn connected(&self) -> bool {
        self.connected
    }

    /// `status` says where settlement stands, given what the chain answered.
    pub open spec fn is_status(
        &self,
        status: OnChainSettlementStatus,
        wallet_address: String,
        block_number: Option<u64>,
        reward: Option<String>,
    ) -> bool {
        let submissions = self.submissions();
        &&& status.is_connected == self.connected()
        &&& status.chain_id == self.config().chain_id
        &&& status.wallet_address == wallet_address
        &&& status.contract_address == self.config().settlement_contract_address
        &&& status.pending_receipts == low_u32(self.pending().len())
        &&& status.total_settled == confirmed_receipts(submissions)
        &&& status.last_settlement_block == if submissions.len() > 0 {
            block_number
        } else {
            None
        }
        &&& status.last_settlement_time == if submissions.len() > 0 {
            Some(submissions.last().submitted_at)
        } else {
            None
        }
        &&& status.pending_rewards == match reward {
            Some(text) => if self.connected() {
                crate::text::quantity(text@)
            } else {
                0
            },
            None => 0,
        }
    }

    /// A settlement without receipts or submissions; `connected` says whether
    /// the chain answered.
    pub fn new(config: OnChainSettlementConfig, connected: bool) -> (settlement: Self)
        ensures
            settlement.config() == config,
            settlement.pending() == Seq::<PendingView>::empty(),
            settlement.submissions() == Seq::<SettlementSubmission>::empty(),
            settlement.connected() == connected,
    {
        let settlement = OnChainSettlement {
            config,
            pending_receipts: Vec::new(),
            submissions: Vec::new(),
            connected,
        };
        assert(settlement.pending() =~= Seq::<PendingView>::empty());
        settlement
    }

    /// Takes note of whether the chain answered. An answer connects; silence
    /// does not disconnect.
    pub fn connect(&mut self, answered: bool) -> (result: AuriaResult<bool>)
        ensures
            result == Ok::<bool, AuriaError>(answered),
            final(self).connected() == (old(self).connected() || answered),
            final(self).config() == old(self).config(),
            final(self).pending() == old(self).pending(),
            final(self).submissions() == old(self).submissions(),
    {
        if answered {
            self.connected = true;
        }
        Ok(answered)
    }

    /// Whether the chain was reached.
    pub fn is_connected(&self) -> (connected: bool)
        ensures
            connected == self.connected(),
    {
        self.connected
    }

    /// Refuses where the chain was not reached: nothing may be asked of it then.
    pub fn ensure_connected(&self) -> (result: AuriaResult<()>)
        ensures
            self.connected() ==> result == Ok::<(), AuriaError>(()),
            !self.connected() ==> crate::types::refused(result, "Not connected to blockchain"@),
    {
        if self.connected {
            Ok(())
        } else {
            refusal("Not connected to blockchain")
        }
    }

    /// The number of waiting receipts.
    pub fn get_pending_receipt_count(&self) -> (count: usize)
        ensures
            count == self.pending().len(),
    {
        self.pending_receipts.len()
    }

    /// The submissions made so far, oldest first.
    pub fn get_submission_history(&self) -> (history: Vec<SettlementSubmission>)
        ensures
            history@ == self.submissions(),
    {
        let mut history: Vec<SettlementSubmission> = Vec::new();
        let mut i: usize = 0;
        while i < self.submissions.len()
            invariant
                i <= self.submissions@.len(),
                history@ =~= self.submissions@.take(i as int),
            decreases self.submissions@.len() - i,
        {
            history.push(self.submissions[i].clone());
            i += 1;
        }
        assert(self.submissions@.take(i as int) =~= self.submissions@);
        history
    }

    /// The identifier given now to the receipt of a request.
    pub fn generate_receipt_id(&self, request_id: &RequestId) -> (result: AuriaResult<String>)
        ensures
            match result {
                Ok(receipt_id) => exists|timestamp: u64|
                    receipt_id@ == #[trigger] receipt_id_at(*request_id, timestamp),
                Err(error) => error == AuriaError::ClockBeforeEpoch,
            },
    {
        match unix_seconds() {
            Some(timestamp) => Ok(generate_receipt_id_at(request_id, timestamp)),
            None => Err(AuriaError::ClockBeforeEpoch),
        }
    }

    /// Takes up a receipt as of `timestamp`. Says whether enough receipts wait
    /// that settlement is due.
    pub fn add_receipt_at(
        &mut self,
        request_id: RequestId,
        expert_ids: Vec<ExpertId>,
        usage: UsageStats,
        timestamp: u64,
    ) -> (threshold_reached: bool)
        ensures
            final(self).pending() == old(self).pending().push(
                new_pending(request_id, expert_ids@, usage, timestamp),
            ),
            final(self).pending().len() == old(self).pending().len() + 1,
            final(self).pending().drop_last() == old(self).pending(),
            final(self).pending().last().request_id == request_id,
            final(self).pending().last().expert_ids == expert_ids@,
            final(self).pending().last().token_count == usage.tokens_generated,
            final(self).pending().last().timestamp == timestamp,
            threshold_reached == (old(self).config().settle_on_threshold && low_u32(
                old(self).pending().len() + 1,
            ) >= old(self).config().threshold_receipts),
            old(self).pending().len() < u32::MAX ==> threshold_reached == (old(
                self,
            ).config().settle_on_threshold && old(self).pending().len() + 1 >= old(
                self,
            ).config().threshold_receipts),
            final(self).config() == old(self).config(),
            final(self).submissions() == old(self).submissions(),
            final(self).connected() == old(self).connected(),
    {
        let receipt = PendingReceipt {
            request_id,
            expert_ids,
            token_count: usage.tokens_generated,
            timestamp,
        };
        let ghost added = receipt@;
        self.pending_receipts.push(receipt);
        assert(self.pending() =~= old(self).pending().push(added));
        assert(self.pending().drop_last() =~= old(self).pending());
        self.config.settle_on_threshold && low_32_bits(self.pending_receipts.len())
            >= self.config.threshold_receipts
    }

    /// Takes up a receipt as of now, under an identifier given now.
    pub fn add_receipt(
        &mut self,
        request_id: RequestId,
        expert_ids: Vec<ExpertId>,
        usage: UsageStats,
    ) -> (result: AuriaResult<AddedReceipt>)
        ensures
            match result {
                Ok(added) => {
                    &&& exists|timestamp: u64|
                        added.receipt_id@ == #[trigger] receipt_id_at(request_id, timestamp)
                    &&& exists|timestamp: u64|
                        final(self).pending() == old(self).pending().push(
                            #[trigger] new_pending(request_id, expert_ids@, usage, timestamp),
                        )
                    &&& final(self).pending().len() == old(self).pending().len() + 1
                    &&& final(self).pending().drop_last() == old(self).pending()
                    &&& final(self).pending().last().request_id == request_id
                    &&& final(self).pending().last().expert_ids == expert_ids@
                    &&& final(self).pending().last().token_count == usage.tokens_generated
                    &&& old(self).pending().len() < u32::MAX ==> added.threshold_reached == (old(
                        self,
                    ).config().settle_on_threshold && old(self).pending().len() + 1 >= old(
                        self,
                    ).config().threshold_receipts)
                    &&& added.threshold_reached == (old(self).config().settle_on_threshold
                        && low_u32(old(self).pending().len() + 1) >= old(
                        self,
                    ).config().threshold_receipts)
                    &&& final(self).config() == old(self).config()
                    &&& final(self).submissions() == old(self).submissions()
                    &&& final(self).connected() == old(self).connected()
                },
                Err(error) => error == AuriaError::ClockBeforeEpoch && *final(self) == *old(self),
            },
    {
        let receipt_id = match self.generate_receipt_id(&request_id) {
            Ok(receipt_id) => receipt_id,
            Err(error) => {
                return Err(error);
            },
        };
        match unix_seconds() {
            Some(timestamp) => {
                let threshold_reached = self.add_receipt_at(
                    request_id,
                    expert_ids,
                    usage,
                    timestamp,
                );
                Ok(AddedReceipt { receipt_id, threshold_reached })
            },
            None => Err(AuriaError::ClockBeforeEpoch),
        }
    }

    /// Refuses where no settlement can begin.
    fn ensure_settleable(&self) -> (result: AuriaResult<()>)
        ensures
            match trigger_refusal(
                self.connected(),
                self.pending().len(),
                self.config().min_receipts_for_settlement,
            ) {
                Some(text) => crate::types::refused(result, text),
                None => result == Ok::<(), AuriaError>(()),
            },
            !self.connected() ==> crate::types::refused(result, "Not connected to blockchain"@),
            result is Ok <==> self.connected() && self.pending().len()
                >= self.config().min_receipts_for_settlement,
    {
        if !self.connected {
            return refusal("Not connected to blockchain");
        }
        let pending: usize = self.pending_receipts.len();
        let required: u32 = self.config.min_receipts_for_settlement;
        if (pending as u64) < required as u64 {
            let mut text = prefixed(
                "Not enough receipts for settlement (have ",
                decimal_text(pending as u64).as_str(),
            );
            text.append(", need ");
            text.append(decimal_text(required as u64).as_str());
            text.append(")");
            return refusal(text.as_str());
        }
        Ok(())
    }

    /// Begins the settlement of the waiting receipts: a submission is opened as
    /// of `submitted_at`, and the request to the contract is made out.
    /// `event_times` are the times at which the receipts' identifiers are given.
    pub fn begin_settlement(
        &mut self,
        node_identity: String,
        uuid: &str,
        event_times: &[u64],
        submitted_at: u64,
        requested_at: u64,
    ) -> (result: AuriaResult<SettlementRequest>)
        requires
            event_times@.len() == old(self).pending().len(),
        ensures
            final(self).config() == old(self).config(),
            final(self).pending() == old(self).pending(),
            final(self).connected() == old(self).connected(),
            match trigger_refusal(
                old(self).connected(),
                old(self).pending().len(),
                old(self).config().min_receipts_for_settlement,
            ) {
                Some(text) => crate::types::refused(result, text) && *final(self) == *old(self),
                None => {
                    &&& result matches Ok(request) && request.is_for(
                        old(self).pending(),
                        node_identity,
                        uuid@,
                        event_times@,
                        requested_at,
                    )
                    &&& final(self).submissions().len() == old(self).submissions().len() + 1
                    &&& final(self).submissions().drop_last() == old(self).submissions()
                    &&& final(self).submissions().last().is_opened(
                        uuid@,
                        old(self).pending(),
                        submitted_at,
                    )
                },
            },
            !old(self).connected() ==> crate::types::refused(
                result,
                "Not connected to blockchain"@,
            ) && *final(self) == *old(self),
            old(self).pending().len() < old(self).config().min_receipts_for_settlement
                ==> result is Err && *final(self) == *old(self),
            old(self).connected() && old(self).pending().len() >= old(
                self,
            ).config().min_receipts_for_settlement ==> result is Ok,
            result matches Ok(request) ==> {
                let opened = final(self).submissions().last();
                &&& old(self).connected()
                &&& final(self).submissions().len() == old(self).submissions().len() + 1
                &&& final(self).submissions().drop_last() == old(self).submissions()
                &&& request.receipt_id@ == opened.submission_id@
                &&& request.receipt_id@ == "sub_"@ + uuid@
                &&& request.timestamp == requested_at
                &&& opened.submitted_at == submitted_at
                &&& request.node_identity == node_identity
                &&& request.event_ids@.len() == old(self).pending().len()
                &&& request.payload@ == signed_bytes(old(self).pending())
                &&& opened.tx_hash@.len() == 0
                &&& opened.merkle_root@ == batch_root(old(self).pending())
                &&& opened.status is Pending
                &&& opened.confirmed_at is None
                &&& opened.gas_used is None
                &&& old(self).pending().len() <= u32::MAX ==> opened.receipt_count == old(
                    self,
                ).pending().len()
            },
    {
        match self.ensure_settleable() {
            Ok(_) => {},
            Err(error) => {
                return Err(error);
            },
        }
        let merkle_root = compute_merkle_root(self.pending_receipts.as_slice());
        let event_ids = event_ids(self.pending_receipts.as_slice(), event_times);
        assert(event_ids@.map_values(|id: String| id@).len() == self.pending().len());
        let submission_id = prefixed("sub_", uuid);
        let submission = SettlementSubmission {
            submission_id: submission_id.clone(),
            tx_hash: String::new(),
            receipt_count: low_32_bits(self.pending_receipts.len()),
            merkle_root,
            status: SettlementSubmissionStatus::Pending,
            submitted_at,
            confirmed_at: None,
            gas_used: None,
        };
        self.submissions.push(submission);
        assert(self.submissions().drop_last() =~= old(self).submissions());
        Ok(
            SettlementRequest {
                receipt_id: submission_id,
                event_ids,
                node_identity,
                timestamp: requested_at,
                payload: signing_payload(self.pending_receipts.as_slice()),
            },
        )
    }

    /// Begins the settlement of the waiting receipts now, under an identifier
    /// drawn at random.
    pub fn trigger_settlement(&mut self, node_identity: String) -> (result: AuriaResult<
        SettlementRequest,
    >)
        ensures
            final(self).config() == old(self).config(),
            final(self).pending() == old(self).pending(),
            final(self).connected() == old(self).connected(),
            match trigger_refusal(
                old(self).connected(),
                old(self).pending().len(),
                old(self).config().min_receipts_for_settlement,
            ) {
                Some(text) => crate::types::refused(result, text) && *final(self) == *old(self),
                None => match result {
                    Ok(request) => {
                        &&& exists|uuid: Seq<char>, event_times: Seq<u64>|
                            {
                                &&& crate::external::is_uuid_v4(uuid)
                                &&& event_times.len() == old(self).pending().len()
                                &&& #[trigger] request.is_for(
                                    old(self).pending(),
                                    node_identity,
                                    uuid,
                                    event_times,
                                    request.timestamp,
                                )
                                &&& final(self).submissions().last().is_opened(
                                    uuid,
                                    old(self).pending(),
                                    final(self).submissions().last().submitted_at,
                                )
                            }
                        &&& final(self).submissions().len() == old(self).submissions().len() + 1
                        &&& final(self).submissions().drop_last() == old(self).submissions()
                    },
                    Err(error) => error == AuriaError::ClockBeforeEpoch && *final(self) == *old(
                        self,
                    ),
                },
            },
            !old(self).connected() ==> crate::types::refused(
                result,
                "Not connected to blockchain"@,
            ) && *final(self) == *old(self),
            old(self).pending().len() < old(self).config().min_receipts_for_settlement
                ==> result is Err && *final(self) == *old(self),
            result matches Ok(request) ==> {
                let opened = final(self).submissions().last();
                &&& old(self).connected()
                &&& final(self).submissions().len() == old(self).submissions().len() + 1
                &&& final(self).submissions().drop_last() == old(self).submissions()
                &&& request.receipt_id@ == opened.submission_id@
                &&& request.node_identity == node_identity
                &&& request.event_ids@.len() == old(self).pending().len()
                &&& request.payload@ == signed_bytes(old(self).pending())
                &&& opened.tx_hash@.len() == 0
                &&& opened.merkle_root@ == batch_root(old(self).pending())
                &&& opened.status is Pending
                &&& opened.confirmed_at is None
                &&& opened.gas_used is None
                &&& old(self).pending().len() <= u32::MAX ==> opened.receipt_count == old(
                    self,
                ).pending().len()
            },
    {
        match self.ensure_settleable() {
            Ok(_) => {},
            Err(error) => {
                return Err(error);
            },
        }
        let event_times = match read_clock(self.pending_receipts.len()) {
            Some(times) => times,
            None => {
                return Err(AuriaError::ClockBeforeEpoch);
            },
        };
        let uuid = random_uuid();
        let submitted_at = match unix_seconds() {
            Some(seconds) => seconds,
            None => {
                return Err(AuriaError::ClockBeforeEpoch);
            },
        };
        let requested_at = match unix_seconds() {
            Some(seconds) => seconds,
            None => {
                return Err(AuriaError::ClockBeforeEpoch);
            },
        };
        self.begin_settlement(
            node_identity,
            uuid.as_str(),
            event_times.as_slice(),
            submitted_at,
            requested_at,
        )
    }

    /// The contract took the last submission as transaction `tx_hash`. A
    /// transaction that has a name is waited for; without one the batch counts
    /// as settled, and the waiting receipts are dropped.
    pub fn submission_accepted(&mut self, tx_hash: String) -> (step: SettlementStep)
        requires
            old(self).submissions().len() > 0,
        ensures
            final(self).config() == old(self).config(),
            final(self).connected() == old(self).connected(),
            final(self).submissions() == old(self).submissions().update(
                old(self).submissions().len() - 1,
                old(self).submissions().last().as_submitted(tx_hash),
            ),
            tx_hash@.len() > 0 ==> {
                &&& step matches SettlementStep::AwaitTransaction {
                    submission_idx,
                    tx_hash: awaited,
                    timeout_seconds,
                }
                &&& submission_idx == old(self).submissions().len() - 1
                &&& awaited == tx_hash
                &&& timeout_seconds == 120
                &&& final(self).pending() == old(self).pending()
            },
            tx_hash@.len() == 0 ==> {
                &&& step == (SettlementStep::Settled { tx_hash })
                &&& final(self).pending() == Seq::<PendingView>::empty()
            },
    {
        let submission_idx: usize = self.submissions.len() - 1;
        let mut submission = self.submissions[submission_idx].clone();
        submission.tx_hash = tx_hash.clone();
        submission.status = SettlementSubmissionStatus::Submitted;
        self.submissions[submission_idx] = submission;
        if tx_hash.as_str().is_empty() {
            self.pending_receipts.clear();
            assert(self.pending() =~= Seq::<PendingView>::empty());
            SettlementStep::Settled { tx_hash }
        } else {
            SettlementStep::AwaitTransaction { submission_idx, tx_hash, timeout_seconds: 120 }
        }
    }

    /// The contract refused the last submission; the receipts keep waiting.
    pub fn submission_rejected(&mut self, reason: String)
        ensures
            final(self).config() == old(self).config(),
            final(self).connected() == old(self).connected(),
            final(self).pending() == old(self).pending(),
            old(self).submissions().len() == 0 ==> final(self).submissions() == old(
                self,
            ).submissions(),
            old(self).submissions().len() > 0 ==> final(self).submissions() == old(
                self,
            ).submissions().update(
                old(self).submissions().len() - 1,
                old(self).submissions().last().as_failed(reason),
            ),
    {
        if self.submissions.len() > 0 {
            let last: usize = self.submissions.len() - 1;
            let mut submission = self.submissions[last].clone();
            submission.status = SettlementSubmissionStatus::Failed(reason);
            self.submissions[last] = submission;
        }
    }

    /// The transaction of a submission was mined, as of `confirmed_at`: the
    /// submission is confirmed, and the waiting receipts are dropped.
    pub fn transaction_mined_at(
        &mut self,
        submission_idx: usize,
        gas_used: &str,
        confirmed_at: u64,
    )
        ensures
            final(self).config() == old(self).config(),
            final(self).connected() == old(self).connected(),
            final(self).pending() == Seq::<PendingView>::empty(),
            submission_idx >= old(self).submissions().len() ==> final(self).submissions() == old(
                self,
            ).submissions(),
            submission_idx < old(self).submissions().len() ==> final(self).submissions() == old(
                self,
            ).submissions().update(
                submission_idx as int,
                old(self).submissions()[submission_idx as int].as_confirmed(
                    crate::text::quantity(gas_used@),
                    confirmed_at,
                ),
            ),
    {
        if submission_idx < self.submissions.len() {
            let mut submission = self.submissions[submission_idx].clone();
            submission.status = SettlementSubmissionStatus::Confirmed;
            submission.confirmed_at = Some(confirmed_at);
            submission.gas_used = Some(parse_quantity(gas_used));
            self.submissions[submission_idx] = submission;
        }
        self.pending_receipts.clear();
        assert(self.pending() =~= Seq::<PendingView>::empty());
    }

    /// The transaction of a submission was mined, as of now.
    pub fn transaction_mined(&mut self, submission_idx: usize, gas_used: &str) -> (result:
        AuriaResult<()>)
        ensures
            match result {
                Ok(_) => {
                    &&& final(self).config() == old(self).config()
                    &&& final(self).connected() == old(self).connected()
                    &&& final(self).pending() == Seq::<PendingView>::empty()
                    &&& submission_idx >= old(self).submissions().len()
                        ==> final(self).submissions() == old(self).submissions()
                    &&& submission_idx < old(self).submissions().len() ==> exists|
                        confirmed_at: u64,
                    |
                        final(self).submissions() == old(self).submissions().update(
                            submission_idx as int,
                            #[trigger] old(
                                self,
                            ).submissions()[submission_idx as int].as_confirmed(
                                crate::text::quantity(gas_used@),
                                confirmed_at,
                            ),
                        )
                },
                Err(error) => error == AuriaError::ClockBeforeEpoch && *final(self) == *old(self),
            },
    {
        match unix_seconds() {
            Some(confirmed_at) => {
                self.transaction_mined_at(submission_idx, gas_used, confirmed_at);
                Ok(())
            },
            None => Err(AuriaError::ClockBeforeEpoch),
        }
    }

    /// The receipts of all confirmed submissions together; `None` where the
    /// number is too large.
    pub fn total_settled(&self) -> (total: Option<u64>)
        ensures
            match total {
                Some(total) => total == confirmed_receipts(self.submissions()),
                None => confirmed_receipts(self.submissions()) > u64::MAX,
            },
    {
        let mut total: u64 = 0;
        let mut i: usize = 0;
        while i < self.submissions.len()
            invariant
                i <= self.submissions@.len(),
                total == confirmed_receipts(self.submissions@.take(i as int)),
            decreases self.submissions@.len() - i,
        {
            proof {
                assert(self.submissions@.take(i + 1).drop_last() =~= self.submissions@.take(
                    i as int,
                ));
                lemma_confirmed_receipts_grow(self.submissions@, i + 1);
            }
            let submission = &self.submissions[i];
            if let SettlementSubmissionStatus::Confirmed = submission.status {
                total = match total.checked_add(submission.receipt_count as u64) {
                    Some(sum) => sum,
                    None => {
                        return None;
                    },
                };
            }
            i += 1;
        }
        assert(self.submissions@.take(i as int) =~= self.submissions@);
        Some(total)
    }

    /// Where settlement stands. `block_number` and `reward` are what the chain
    /// answered, if it did; the reward counts only where the chain was reached.
    pub fn get_status(
        &self,
        wallet_address: String,
        block_number: Option<u64>,
        reward: Option<String>,
    ) -> (result: AuriaResult<OnChainSettlementStatus>)
        requires
            confirmed_receipts(self.submissions()) <= u64::MAX,
        ensures
            result matches Ok(status) && self.is_status(
                status,
                wallet_address,
                block_number,
                reward,
            ),
    {
        let total_settled: u64 = self.total_settled().unwrap();
        let submitted = self.submissions.len() > 0;
        let pending_rewards: u64 = match &reward {
            Some(text) => if self.connected {
                parse_quantity(text.as_str())
            } else {
                0
            },
            None => 0,
        };
        Ok(OnChainSettlementStatus {
            is_connected: self.connected,
            chain_id: self.config.chain_id,
            wallet_address,
            contract_address: self.config.settlement_contract_address.clone(),
            pending_receipts: low_32_bits(self.pending_receipts.len()),
            total_settled,
            last_settlement_block: if submitted {
                block_number
            } else {
                None
            },
            last_settlement_time: if submitted {
                Some(self.submissions[self.submissions.len() - 1].submitted_at)
            } else {
                None
            },
            pending_rewards,
        })
    }
}

/// More submissions make no smaller total.
proof fn lemma_confirmed_receipts_grow(submissions: Seq<SettlementSubmission>, n: int)
    requires
        0 <= n <= submissions.len(),
    ensures
        confirmed_receipts(submissions.take(n)) <= confirmed_receipts(submissions),
    decreases submissions.len() - n,
{
    if n < submissions.len() {
        lemma_confirmed_receipts_grow(submissions, n + 1);
        assert(submissions.take(n + 1).drop_last() =~= submissions.take(n));
    } else {
        assert(submissions.take(n) =~= submissions);
    }
}

/// The identifiers of the receipts of a batch, each given at its own time.
pub fn event_ids(receipts: &[PendingReceipt], times: &[u64]) -> (ids: Vec<String>)
    requires
        times@.len() == receipts@.len(),
    ensures
        ids@.map_values(|id: String| id@) == event_ids_at(pending_views(receipts@), times@),
{
    let ghost expected = event_ids_at(pending_views(receipts@), times@);
    let mut ids: Vec<String> = Vec::new();
    let mut i: usize = 0;
    while i < receipts.len()
        invariant
            i <= receipts@.len(),
            times@.len() == receipts@.len(),
            expected == event_ids_at(pending_views(receipts@), times@),
            ids@.len() == i,
            forall|j: int| 0 <= j < i ==> (#[trigger] ids@[j])@ == expected[j],
        decreases receipts@.len() - i,
    {
        ids.push(generate_receipt_id_at(&receipts[i].request_id, times[i]));
        i += 1;
    }
    assert(ids@.map_values(|id: String| id@) =~= expected);
    ids
}

/// Reads the clock `count` times; `None` where a reading fails, so never where
/// none is made. Nothing is promised of the readings.
fn read_clock(count: usize) -> (times: Option<Vec<u64>>)
    ensures
        match times {
            Some(times) => times@.len() == count,
            None => count > 0,
        },
{
    let mut times: Vec<u64> = Vec::new();
    while times.len() < count
        invariant
            times@.len() <= count,
        decreases count - times@.len(),
    {
        match unix_seconds() {
            Some(seconds) => times.push(seconds),
            None => {
                return None;
            },
        }
    }
    Some(times)
}

/// The low 32 bits of a count.
fn low_32_bits(count: usize) -> (low: u32)
    ensures
        low == low_u32(count as nat),
{
    (count as u64 % 0x1_0000_0000) as u32
}

} // verus!
