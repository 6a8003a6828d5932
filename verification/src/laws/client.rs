//! What receipts, settlements, payments and accounts hold, in terms of what was
//! asked for.
use crate::client::{EscrowAccount, FundsRequest, Payment, SettlementClient};
use crate::types::{
    AuriaError, AuriaResult, ExpertId, PublicKey, ReceiptView, RequestId, UsageReceipt, UsageStats,
};
use vstd::prelude::*;

verus! {

/// A refusal is an error that carries its text, and no other text.
pub proof fn law_refusal_carries_its_text<T>(result: AuriaResult<T>, a: Seq<char>, b: Seq<char>)
    requires
        crate::types::refused(result, a),
    ensures
        result is Err,
        result->Err_0 is ExecutionError,
        crate::types::refused(result, b) <==> a == b,
{
}

/// The view of a receipt leaves nothing out.
pub proof fn law_receipt_view_is_whole(receipts: Seq<UsageReceipt>, i: int)
    requires
        0 <= i < receipts.len(),
    ensures
        crate::types::receipt_views(receipts).len() == receipts.len(),
        ({
            let view = crate::types::receipt_views(receipts)[i];
            &&& view.request_id == receipts[i].request_id
            &&& view.expert_ids == receipts[i].expert_ids@
            &&& view.token_count == receipts[i].token_count
            &&& view.timestamp == receipts[i].timestamp
            &&& view.node_signature == receipts[i].node_signature
        }),
{
}

/// A new receipt counts the generated tokens and nothing else, and is not signed
/// yet.
pub proof fn law_receipt_counts_generated_tokens(
    request_id: RequestId,
    expert_ids: Seq<ExpertId>,
    usage: UsageStats,
    timestamp: u64,
)
    ensures
        ({
            let receipt = crate::client::new_receipt(request_id, expert_ids, usage, timestamp);
            &&& receipt.token_count == usage.tokens_generated
            &&& receipt.request_id == request_id
            &&& receipt.expert_ids == expert_ids
            &&& receipt.timestamp == timestamp
            &&& forall|i: int| 0 <= i < 64 ==> #[trigger] receipt.node_signature.0@[i] == 0
        }),
{
}

/// Tokens that were only processed change no receipt, and so no leaf.
pub proof fn law_processed_tokens_change_no_receipt(
    request_id: RequestId,
    expert_ids: Seq<ExpertId>,
    a: UsageStats,
    b: UsageStats,
    timestamp: u64,
)
    requires
        a.tokens_generated == b.tokens_generated,
    ensures
        crate::client::new_receipt(request_id, expert_ids, a, timestamp)
            == crate::client::new_receipt(request_id, expert_ids, b, timestamp),
{
}

/// A leaf is the digest of the receipt's JSON form, and a settlement root is the
/// root over the receipts' leaves in order; without receipts it is zeros.
pub proof fn law_settlement_root_is_over_digests(
    receipts: Seq<ReceiptView>,
    leaves: Seq<crate::Hash>,
)
    requires
        leaves.len() == receipts.len(),
        forall|i: int|
            0 <= i < receipts.len() ==> (#[trigger] leaves[i]).0 == crate::external::keccak256(
                crate::json::receipt_json(receipts[i]),
            ),
    ensures
        forall|i: int|
            0 <= i < receipts.len() ==> leaves[i] == crate::client::receipt_leaf(
                #[trigger] receipts[i],
            ),
        receipts.len() > 0 ==> crate::client::receipts_root(receipts) == crate::merkle::tree_root(
            leaves,
        ),
        receipts.len() == 0 ==> forall|i: int|
            0 <= i < 32 ==> #[trigger] crate::client::receipts_root(receipts).0@[i] == 0,
{
    assert(crate::client::receipt_leaves(receipts) =~= leaves);
}

/// Why a settlement is refused: there is no receipt, or the root is another.
pub proof fn law_settlement_refusals(receipts: Seq<ReceiptView>, root: crate::Hash)
    ensures
        receipts.len() == 0 ==> crate::client::settlement_refusal(receipts, root) == Some(
            "No receipts to settle"@,
        ),
        receipts.len() > 0 && root != crate::client::receipts_root(receipts)
            ==> crate::client::settlement_refusal(receipts, root) == Some("Merkle root mismatch"@),
        receipts.len() > 0 && root == crate::client::receipts_root(receipts)
            ==> crate::client::settlement_refusal(receipts, root) == None::<Seq<char>>,
{
}

/// A settlement states the root, the number of receipts and the time; its
/// period is the number of whole intervals before that time.
pub proof fn law_period_counts_whole_intervals(
    receipts: Seq<ReceiptView>,
    interval: u64,
    timestamp: u64,
)
    requires
        interval > 0,
        receipts.len() <= u64::MAX,
    ensures
        ({
            let settlement = crate::client::settlement_at(receipts, interval, timestamp);
            &&& settlement.settlement_period * interval <= timestamp
            &&& timestamp < (settlement.settlement_period + 1) * interval
            &&& settlement.root_hash == crate::client::receipts_root(receipts)
            &&& settlement.receipt_count == receipts.len()
            &&& settlement.timestamp == timestamp
        }),
{
    crate::client::lemma_whole_intervals(timestamp, interval);
}

/// Settlements, of whatever receipts, have the same period exactly when their
/// times fall into the same interval: `k` is the period of every time in the
/// `k`th interval, and of no other.
pub proof fn law_same_interval_is_same_period(
    receipts: Seq<ReceiptView>,
    interval: u64,
    timestamp: u64,
    k: nat,
)
    requires
        interval > 0,
    ensures
        crate::client::settlement_at(receipts, interval, timestamp).settlement_period == k <==> k
            * interval <= timestamp < (k + 1) * interval,
{
    let period = crate::client::settlement_at(receipts, interval, timestamp).settlement_period;
    crate::client::lemma_whole_intervals(timestamp, interval);
    if k * interval <= timestamp < (k + 1) * interval {
        if period < k {
            assert((period + 1) * interval <= k * interval) by (nonlinear_arith)
                requires
                    period + 1 <= k,
            ;
        } else if period > k {
            assert((k + 1) * interval <= period * interval) by (nonlinear_arith)
                requires
                    k + 1 <= period,
            ;
        }
    }
}

/// A payment that was opened holds what was asked for, is pending and not
/// settled, and is named by its second: `pay_` and the decimal digits of it.
pub proof fn law_opened_payment_holds_what_was_asked(
    payment: Payment,
    recipient: PublicKey,
    token_count: u32,
    amount: u64,
    timestamp: u64,
)
    requires
        payment.is_opened(recipient, token_count, amount, timestamp),
    ensures
        payment.recipient == recipient,
        payment.token_count == token_count,
        payment.amount == amount,
        payment.created_at == timestamp,
        payment.status is Pending,
        payment.settled_at is None,
        payment.payment_id@.take(4) == "pay_"@,
        crate::text::decimal_value(payment.payment_id@.skip(4)) == timestamp,
        payment.payment_id@.skip(4) == crate::text::decimal(timestamp as nat),
{
    reveal_strlit("pay_");
    crate::text::law_decimal_reads_back(timestamp as nat);
    assert(payment.payment_id@.take(4) =~= "pay_"@);
    assert(payment.payment_id@.skip(4) =~= crate::text::decimal(timestamp as nat));
}

/// Settling completes a payment, records when, and changes nothing else of it.
pub proof fn law_settled_payment_is_otherwise_the_same(payment: Payment, timestamp: u64)
    ensures
        ({
            let settled = payment.as_settled(timestamp);
            &&& settled.status is Completed
            &&& settled.settled_at == Some(timestamp)
            &&& settled.payment_id == payment.payment_id
            &&& settled.recipient == payment.recipient
            &&& settled.amount == payment.amount
            &&& settled.token_count == payment.token_count
            &&& settled.created_at == payment.created_at
        }),
{
}

/// An account that was opened holds the initial balance, nothing of it locked,
/// and is named by its second: `escrow_` and the decimal digits of it.
pub proof fn law_opened_account_holds_what_was_asked(
    account: EscrowAccount,
    owner: PublicKey,
    initial_balance: u64,
    timestamp: u64,
)
    requires
        account.is_opened(owner, initial_balance, timestamp),
    ensures
        account.owner == owner,
        account.balance == initial_balance,
        account.locked_amount == 0,
        account.created_at == timestamp,
        account.funds() == initial_balance,
        account.account_id@.take(7) == "escrow_"@,
        crate::text::decimal_value(account.account_id@.skip(7)) == timestamp,
        account.account_id@.skip(7) == crate::text::decimal(timestamp as nat),
{
    reveal_strlit("escrow_");
    crate::text::law_decimal_reads_back(timestamp as nat);
    assert(account.account_id@.take(7) =~= "escrow_"@);
    assert(account.account_id@.skip(7) =~= crate::text::decimal(timestamp as nat));
}

/// The funds of an account are its balance and what is locked.
pub proof fn law_funds_are_balance_and_locked(account: EscrowAccount)
    ensures
        account.funds() == account.balance + account.locked_amount,
{
}

/// A request that there are funds for moves exactly the amount, whatever is
/// locked already, and changes nothing else of the account; a request for more
/// changes nothing.
pub proof fn law_request_moves_exactly_the_amount(account: EscrowAccount, amount: u64)
    requires
        account.balance + account.locked_amount <= u64::MAX,
    ensures
        ({
            let locked = crate::client::account_after(account, FundsRequest::Lock(amount));
            &&& amount <= account.balance ==> locked.balance == account.balance - amount
                && locked.locked_amount == account.locked_amount + amount
            &&& amount > account.balance ==> locked == account
            &&& locked.account_id == account.account_id && locked.owner == account.owner
                && locked.created_at == account.created_at
        }),
        ({
            let released = crate::client::account_after(account, FundsRequest::Release(amount));
            &&& amount <= account.locked_amount ==> released.balance == account.balance + amount
                && released.locked_amount == account.locked_amount - amount
            &&& amount > account.locked_amount ==> released == account
            &&& released.account_id == account.account_id && released.owner == account.owner
                && released.created_at == account.created_at
        }),
{
}

/// Locks add up: two locks that there are funds for lock what one lock of both
/// amounts locks. So do releases.
pub proof fn law_requests_add_up(account: EscrowAccount, a: u64, b: u64, both: u64)
    requires
        account.balance + account.locked_amount <= u64::MAX,
        both == a + b,
    ensures
        both <= account.balance ==> crate::client::account_after(
            crate::client::account_after(account, FundsRequest::Lock(a)),
            FundsRequest::Lock(b),
        ) == crate::client::account_after(account, FundsRequest::Lock(both)),
        both <= account.locked_amount ==> crate::client::account_after(
            crate::client::account_after(account, FundsRequest::Release(a)),
            FundsRequest::Release(b),
        ) == crate::client::account_after(account, FundsRequest::Release(both)),
{
}

/// A request reaches the account that it names and no other, and opens none.
pub proof fn law_request_reaches_only_its_account(
    accounts: Map<Seq<char>, EscrowAccount>,
    account_id: Seq<char>,
    request: FundsRequest,
    id: Seq<char>,
)
    ensures
        ({
            let after = crate::client::accounts_after(accounts, account_id, request);
            &&& after.contains_key(id) == accounts.contains_key(id)
            &&& id != account_id && accounts.contains_key(id) ==> after[id] == accounts[id]
            &&& id == account_id && accounts.contains_key(id) ==> after[id]
                == crate::client::account_after(accounts[id], request)
        }),
{
}

/// A client is in order exactly where payments and accounts stand under their
/// own identifiers and the funds of each account are below 2^64.
pub proof fn law_client_is_in_order(client: SettlementClient)
    ensures
        client.wf() <==> (forall|id: Seq<char>| #[trigger]
            client.payments().contains_key(id) ==> client.payments()[id].payment_id@ == id) && (
        forall|id: Seq<char>| #[trigger]
            client.accounts().contains_key(id) ==> client.accounts()[id].account_id@ == id
                && client.accounts()[id].balance + client.accounts()[id].locked_amount <= u64::MAX),
{
}

} // verus!
