//! What batches, their submissions and the reported status hold, in terms of
//! what was asked for and answered.
use crate::blockchain::{
    OnChainSettlement, OnChainSettlementStatus, PendingReceipt, PendingView, SettlementRequest,
    SettlementSubmission,
};
use crate::types::{ExpertId, RequestId, UsageStats};
use vstd::prelude::*;

verus! {

/// The view of a waiting receipt leaves nothing out.
pub proof fn law_pending_view_is_whole(receipts: Seq<PendingReceipt>, i: int)
    requires
        0 <= i < receipts.len(),
    ensures
        crate::blockchain::pending_views(receipts).len() == receipts.len(),
        ({
            let view = crate::blockchain::pending_views(receipts)[i];
            &&& view.request_id == receipts[i].request_id
            &&& view.expert_ids == receipts[i].expert_ids@
            &&& view.token_count == receipts[i].token_count
            &&& view.timestamp == receipts[i].timestamp
        }),
{
}

/// A receipt that is taken up counts the generated tokens and nothing else.
pub proof fn law_pending_counts_generated_tokens(
    request_id: RequestId,
    expert_ids: Seq<ExpertId>,
    usage: UsageStats,
    timestamp: u64,
)
    ensures
        ({
            let receipt = crate::blockchain::new_pending(request_id, expert_ids, usage, timestamp);
            &&& receipt.token_count == usage.tokens_generated
            &&& receipt.request_id == request_id
            &&& receipt.expert_ids == expert_ids
            &&& receipt.timestamp == timestamp
        }),
{
}

/// Tokens that were only processed change nothing of a batch: not the waiting
/// receipts, not their root and not what is signed.
pub proof fn law_processed_tokens_change_no_batch(
    waiting: Seq<PendingView>,
    request_id: RequestId,
    expert_ids: Seq<ExpertId>,
    a: UsageStats,
    b: UsageStats,
    timestamp: u64,
)
    requires
        a.tokens_generated == b.tokens_generated,
    ensures
        ({
            let with_a = waiting.push(
                crate::blockchain::new_pending(request_id, expert_ids, a, timestamp),
            );
            let with_b = waiting.push(
                crate::blockchain::new_pending(request_id, expert_ids, b, timestamp),
            );
            &&& with_a == with_b
            &&& crate::blockchain::batch_root(with_a) == crate::blockchain::batch_root(with_b)
            &&& crate::blockchain::signed_bytes(with_a) == crate::blockchain::signed_bytes(with_b)
        }),
{
}

/// Settlement never begins while the chain is not reached, however many
/// receipts wait and however many are required.
pub proof fn law_no_settlement_without_connection(pending: nat, required: u32)
    ensures
        crate::blockchain::trigger_refusal(false, pending, required) == Some(
            "Not connected to blockchain"@,
        ),
{
}

/// Where the chain is reached, settlement begins exactly where as many receipts
/// wait as are required; the refusal says how many there are and how many are
/// needed.
pub proof fn law_settlement_needs_required_receipts(pending: nat, required: u32)
    ensures
        pending >= required ==> crate::blockchain::trigger_refusal(true, pending, required)
            is None,
        pending < required ==> crate::blockchain::trigger_refusal(true, pending, required) == Some(
            "Not enough receipts for settlement (have "@ + crate::text::decimal(pending)
                + ", need "@ + crate::text::decimal(required as nat) + ")"@,
        ),
{
}

/// A count below 2^32 is kept; of a larger one the low 32 bits are.
pub proof fn law_low_bits_of_count(count: nat)
    ensures
        count <= u32::MAX ==> crate::blockchain::low_u32(count) == count,
        crate::blockchain::low_u32(count + 0x1_0000_0000) == crate::blockchain::low_u32(count),
{
}

/// A number's bytes, the lowest first, stand for the number.
pub proof fn law_le_bytes_stand_for_number(n: u64)
    ensures
        crate::blockchain::le_bytes(n).len() == 8,
        ({
            let b = crate::blockchain::le_bytes(n);
            n == b[0] + 0x100 * b[1] + 0x1_0000 * b[2] + 0x100_0000 * b[3] + 0x1_0000_0000 * b[4]
                + 0x100_0000_0000 * b[5] + 0x1_0000_0000_0000 * b[6] + 0x100_0000_0000_0000 * b[7]
        }),
{
    vstd::bytes::spec_u64_to_le_bytes_to_open(n);
    assert(n == (n & 0xff) as u8 + 0x100 * ((n >> 8) & 0xff) as u8 + 0x1_0000 * ((n >> 16)
        & 0xff) as u8 + 0x100_0000 * ((n >> 24) & 0xff) as u8 + 0x1_0000_0000 * ((n >> 32)
        & 0xff) as u8 + 0x100_0000_0000 * ((n >> 40) & 0xff) as u8 + 0x1_0000_0000_0000 * ((n
        >> 48) & 0xff) as u8 + 0x100_0000_0000_0000 * ((n >> 56) & 0xff) as u8) by (bit_vector);
}

/// What a leaf is hashed from: the request, then the token count, then the time.
pub proof fn law_leaf_bytes_hold_receipt(receipt: PendingView)
    ensures
        ({
            let bytes = crate::blockchain::leaf_bytes(receipt);
            &&& bytes.len() == 32
            &&& bytes.subrange(0, 16) == receipt.request_id.0@
            &&& bytes.subrange(16, 24) == crate::blockchain::le_bytes(receipt.token_count)
            &&& bytes.subrange(24, 32) == crate::blockchain::le_bytes(receipt.timestamp)
        }),
{
    law_le_bytes_stand_for_number(receipt.token_count);
    law_le_bytes_stand_for_number(receipt.timestamp);
    let bytes = crate::blockchain::leaf_bytes(receipt);
    assert(bytes.subrange(0, 16) =~= receipt.request_id.0@);
    assert(bytes.subrange(16, 24) =~= crate::blockchain::le_bytes(receipt.token_count));
    assert(bytes.subrange(24, 32) =~= crate::blockchain::le_bytes(receipt.timestamp));
}

/// A batch's root is `0x` and the hexadecimal root over the digests of its
/// receipts in order; for an empty batch it is `0x` alone.
pub proof fn law_batch_root_is_over_digests(receipts: Seq<PendingView>, leaves: Seq<crate::Hash>)
    requires
        leaves.len() == receipts.len(),
        forall|i: int|
            0 <= i < receipts.len() ==> (#[trigger] leaves[i]).0 == crate::external::keccak256(
                crate::blockchain::leaf_bytes(receipts[i]),
            ),
    ensures
        receipts.len() > 0 ==> crate::blockchain::batch_root(receipts) == "0x"@
            + crate::text::hex_text(crate::merkle::tree_root(leaves).0@),
        receipts.len() == 0 ==> crate::blockchain::batch_root(receipts) == "0x"@,
{
    assert(crate::blockchain::batch_leaves(receipts) =~= leaves);
}

/// What is signed adds up over the parts of a batch; for one receipt it is the
/// request and then the token count.
pub proof fn law_signed_bytes_add_up(
    a: Seq<PendingView>,
    b: Seq<PendingView>,
    receipt: PendingView,
)
    ensures
        crate::blockchain::signed_bytes(Seq::empty()) == Seq::<u8>::empty(),
        crate::blockchain::signed_bytes(seq![receipt]) == receipt.request_id.0@
            + crate::blockchain::le_bytes(receipt.token_count),
        crate::blockchain::signed_bytes(a + b) == crate::blockchain::signed_bytes(a)
            + crate::blockchain::signed_bytes(b),
    decreases b.len(),
{
    let single = seq![receipt];
    assert(single.drop_last() =~= Seq::empty());
    assert(crate::blockchain::signed_bytes(single.drop_last()) == Seq::<u8>::empty());
    assert(crate::blockchain::signed_bytes(single) =~= receipt.request_id.0@
        + crate::blockchain::le_bytes(receipt.token_count));
    if b.len() == 0 {
        assert(a + b =~= a);
        assert(crate::blockchain::signed_bytes(a) + crate::blockchain::signed_bytes(b)
            =~= crate::blockchain::signed_bytes(a));
    } else {
        assert((a + b).drop_last() =~= a + b.drop_last());
        law_signed_bytes_add_up(a, b.drop_last(), receipt);
        assert(crate::blockchain::signed_bytes(a + b) =~= crate::blockchain::signed_bytes(a)
            + crate::blockchain::signed_bytes(b));
    }
}

/// A receipt's identifier is `0x` and then the first sixteen bytes, in
/// hexadecimal, of the digest of the request and the time.
pub proof fn law_receipt_id_is_half_a_digest(
    request_id: RequestId,
    timestamp: u64,
    hashed: Seq<u8>,
    i: int,
)
    requires
        hashed == request_id.0@ + crate::blockchain::le_bytes(timestamp),
        0 <= i < 16,
    ensures
        ({
            let id = crate::blockchain::receipt_id_at(request_id, timestamp);
            &&& id.len() == 34
            &&& id[0] == '0' && id[1] == 'x'
            &&& 16 * crate::text::hex_digit_value(id[2 + 2 * i]) + crate::text::hex_digit_value(
                id[3 + 2 * i],
            ) == crate::external::keccak256(hashed)@[i]
        }),
{
    reveal_strlit("0x");
    let half = crate::external::keccak256(hashed)@.take(16);
    crate::text::law_hex_text_reads_back(half, i);
    let id = crate::blockchain::receipt_id_at(request_id, timestamp);
    assert(id[2 + 2 * i] == crate::text::hex_text(half)[2 * i]);
    assert(id[3 + 2 * i] == crate::text::hex_text(half)[2 * i + 1]);
}

/// Each receipt of a batch has the identifier of its own request and time.
pub proof fn law_event_ids_follow_receipts(receipts: Seq<PendingView>, times: Seq<u64>, i: int)
    requires
        0 <= i < receipts.len(),
    ensures
        crate::blockchain::event_ids_at(receipts, times).len() == receipts.len(),
        crate::blockchain::event_ids_at(receipts, times)[i] == crate::blockchain::receipt_id_at(
            receipts[i].request_id,
            times[i],
        ),
{
}

/// The request to the contract names the submission, the node and the time, and
/// holds an identifier for each receipt and what is to be signed.
pub proof fn law_request_is_made_out_for_batch(
    request: SettlementRequest,
    receipts: Seq<PendingView>,
    node_identity: String,
    uuid: Seq<char>,
    event_times: Seq<u64>,
    requested_at: u64,
)
    requires
        request.is_for(receipts, node_identity, uuid, event_times, requested_at),
    ensures
        request.receipt_id@ == "sub_"@ + uuid,
        request.node_identity == node_identity,
        request.timestamp == requested_at,
        request.payload@ == crate::blockchain::signed_bytes(receipts),
        request.event_ids@.len() == receipts.len(),
        forall|i: int|
            0 <= i < receipts.len() ==> (#[trigger] request.event_ids@[i])@
                == crate::blockchain::receipt_id_at(receipts[i].request_id, event_times[i]),
{
    let ids = request.event_ids@.map_values(|id: String| id@);
    assert(ids.len() == request.event_ids@.len());
    assert forall|i: int| 0 <= i < receipts.len() implies (#[trigger] request.event_ids@[i])@
        == crate::blockchain::receipt_id_at(receipts[i].request_id, event_times[i]) by {
        assert(ids[i] == request.event_ids@[i]@);
    }
}

/// A submission that was opened names its batch's root and size, and nothing
/// has become of it yet.
pub proof fn law_opened_submission_holds_batch(
    opened: SettlementSubmission,
    uuid: Seq<char>,
    receipts: Seq<PendingView>,
    submitted_at: u64,
)
    requires
        opened.is_opened(uuid, receipts, submitted_at),
    ensures
        opened.submission_id@ == "sub_"@ + uuid,
        opened.tx_hash@.len() == 0,
        receipts.len() <= u32::MAX ==> opened.receipt_count == receipts.len(),
        opened.merkle_root@ == crate::blockchain::batch_root(receipts),
        opened.status is Pending,
        opened.submitted_at == submitted_at,
        opened.confirmed_at is None,
        opened.gas_used is None,
{
}

/// What was submitted stays as it is, whatever becomes of it.
pub open spec fn same_batch(a: SettlementSubmission, b: SettlementSubmission) -> bool {
    &&& a.submission_id == b.submission_id
    &&& a.receipt_count == b.receipt_count
    &&& a.merkle_root == b.merkle_root
    &&& a.submitted_at == b.submitted_at
}

/// Taking a submission records the transaction, refusing it the reason, and
/// mining it the time and the gas; nothing else of the submission changes.
pub proof fn law_steps_record_their_event(
    submission: SettlementSubmission,
    tx_hash: String,
    reason: String,
    gas_used: u64,
    confirmed_at: u64,
)
    ensures
        ({
            let taken = submission.as_submitted(tx_hash);
            &&& taken.status is Submitted
            &&& taken.tx_hash == tx_hash
            &&& taken.confirmed_at == submission.confirmed_at
            &&& taken.gas_used == submission.gas_used
            &&& same_batch(taken, submission)
        }),
        ({
            let failed = submission.as_failed(reason);
            &&& failed.status == crate::blockchain::SettlementSubmissionStatus::Failed(reason)
            &&& failed.tx_hash == submission.tx_hash
            &&& failed.confirmed_at == submission.confirmed_at
            &&& failed.gas_used == submission.gas_used
            &&& same_batch(failed, submission)
        }),
        ({
            let mined = submission.as_confirmed(gas_used, confirmed_at);
            &&& mined.status is Confirmed
            &&& mined.tx_hash == submission.tx_hash
            &&& mined.confirmed_at == Some(confirmed_at)
            &&& mined.gas_used == Some(gas_used)
            &&& same_batch(mined, submission)
        }),
{
}

/// The settled receipts add up over the history; a submission counts with its
/// receipts where it is confirmed, and not at all elsewhere.
pub proof fn law_confirmed_receipts_add_up(
    a: Seq<SettlementSubmission>,
    b: Seq<SettlementSubmission>,
    submission: SettlementSubmission,
)
    ensures
        crate::blockchain::confirmed_receipts(Seq::empty()) == 0,
        submission.status is Confirmed ==> crate::blockchain::confirmed_receipts(seq![submission])
            == submission.receipt_count,
        !(submission.status is Confirmed) ==> crate::blockchain::confirmed_receipts(
            seq![submission],
        ) == 0,
        crate::blockchain::confirmed_receipts(a + b) == crate::blockchain::confirmed_receipts(a)
            + crate::blockchain::confirmed_receipts(b),
    decreases b.len(),
{
    let single = seq![submission];
    assert(single.drop_last() =~= Seq::empty());
    assert(crate::blockchain::confirmed_receipts(single.drop_last()) == 0);
    if b.len() == 0 {
        assert(a + b =~= a);
    } else {
        assert((a + b).drop_last() =~= a + b.drop_last());
        law_confirmed_receipts_add_up(a, b.drop_last(), submission);
    }
}

/// The status reports the connection, the configuration, the counts, the last
/// submission and the block that the chain answered; the reward counts only
/// where the chain was reached.
pub proof fn law_status_reports_state(
    settlement: OnChainSettlement,
    status: OnChainSettlementStatus,
    wallet_address: String,
    block_number: Option<u64>,
    reward: Option<String>,
)
    requires
        settlement.is_status(status, wallet_address, block_number, reward),
    ensures
        status.is_connected == settlement.connected(),
        status.chain_id == settlement.config().chain_id,
        status.wallet_address == wallet_address,
        status.contract_address == settlement.config().settlement_contract_address,
        settlement.pending().len() <= u32::MAX ==> status.pending_receipts
            == settlement.pending().len(),
        status.total_settled == crate::blockchain::confirmed_receipts(settlement.submissions()),
        settlement.submissions().len() == 0 ==> status.last_settlement_block is None
            && status.last_settlement_time is None,
        settlement.submissions().len() > 0 ==> status.last_settlement_block == block_number
            && status.last_settlement_time == Some(settlement.submissions().last().submitted_at),
        !settlement.connected() || reward is None ==> status.pending_rewards == 0,
        settlement.connected() && reward is Some ==> status.pending_rewards
            == crate::text::quantity(reward->0@),
{
}

/// A version 4 UUID has hyphens after its first four groups, hexadecimal digits
/// elsewhere, the version at the head of the third group and the variant at that
/// of the fourth.
pub proof fn law_uuid_has_its_form(text: Seq<char>, i: int)
    requires
        crate::external::is_uuid_v4(text),
        0 <= i < 36,
    ensures
        text.len() == 36,
        text[8] == '-' && text[13] == '-' && text[18] == '-' && text[23] == '-',
        i != 8 && i != 13 && i != 18 && i != 23 ==> crate::text::hex_digit_value(text[i]) < 16,
        text[14] == '4',
        8 <= crate::text::hex_digit_value(text[19]) < 12,
{
    assert(text[8] == '-' && text[13] == '-' && text[18] == '-' && text[23] == '-');
}

} // verus!
