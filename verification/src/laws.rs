//! What holds of receipts, roots, payments and accounts across operations.
pub mod batch;
pub mod client;

use crate::blockchain::{PendingView, SettlementSubmission, SettlementSubmissionStatus};
use crate::client::{EscrowAccount, FundsRequest, Payment};
use crate::types::{PublicKey, ReceiptView, RequestId};
use vstd::prelude::*;

verus! {

/// A settlement is accepted under the root that is built from the receipts
/// held, and under no other; without receipts there is none.
pub proof fn law_built_root_is_accepted(receipts: Seq<ReceiptView>, root: crate::Hash)
    ensures
        crate::client::settlement_refusal(receipts, root) is None <==> receipts.len() > 0 && root
            == crate::client::receipts_root(receipts),
{
}

/// The siblings of a receipt's leaf prove that the receipt is among those that
/// the root was built from.
pub proof fn law_receipt_is_provable(receipts: Seq<ReceiptView>, i: int)
    requires
        0 <= i < receipts.len(),
    ensures
        crate::merkle::climb(
            crate::client::receipt_leaf(receipts[i]),
            crate::merkle::sibling_path(crate::client::receipt_leaves(receipts), i),
            i as nat,
        ) == crate::client::receipts_root(receipts),
{
    crate::merkle::law_sibling_path_leads_to_root(crate::client::receipt_leaves(receipts), i);
}

/// Receipts with the same leaf are the same, unless their JSON forms collide
/// under Keccak-256.
pub proof fn law_leaf_binds_receipt(a: ReceiptView, b: ReceiptView)
    requires
        crate::client::receipt_leaf(a) == crate::client::receipt_leaf(b),
    ensures
        a == b || crate::merkle::collide(
            crate::json::receipt_json(a),
            crate::json::receipt_json(b),
        ),
{
    if crate::json::receipt_json(a) == crate::json::receipt_json(b) {
        crate::json::law_receipt_json_is_injective(a, b);
    }
}

/// All that is hashed to get from receipts to their settlement root.
pub open spec fn settlement_inputs(receipts: Seq<ReceiptView>) -> Set<Seq<u8>> {
    crate::merkle::tree_inputs(crate::client::receipt_leaves(receipts)).union(
        Set::new(
            |input: Seq<u8>|
                exists|i: int|
                    0 <= i < receipts.len() && input == #[trigger] crate::json::receipt_json(
                        receipts[i],
                    ),
        ),
    )
}

/// A root stands for the receipts that it was built from: equally many receipts
/// with the same root are the same, unless something that is hashed for the one
/// collides under Keccak-256 with something that is hashed for the other.
pub proof fn law_root_binds_receipts(a: Seq<ReceiptView>, b: Seq<ReceiptView>)
    requires
        a.len() == b.len(),
        crate::client::receipts_root(a) == crate::client::receipts_root(b),
    ensures
        a == b || crate::merkle::collision_between(settlement_inputs(a), settlement_inputs(b)),
{
    let inputs_a = settlement_inputs(a);
    let inputs_b = settlement_inputs(b);
    if a.len() > 0 {
        let leaves_a = crate::client::receipt_leaves(a);
        let leaves_b = crate::client::receipt_leaves(b);
        crate::merkle::law_root_binds_leaves(leaves_a, leaves_b);
        if leaves_a != leaves_b {
            crate::merkle::lemma_collision_stays(
                crate::merkle::tree_inputs(leaves_a),
                crate::merkle::tree_inputs(leaves_b),
                inputs_a,
                inputs_b,
            );
        } else if !crate::merkle::collision_between(inputs_a, inputs_b) {
            assert forall|i: int| 0 <= i < a.len() implies a[i] == b[i] by {
                assert(leaves_a[i] == leaves_b[i]);
                law_leaf_binds_receipt(a[i], b[i]);
                let json_a = crate::json::receipt_json(a[i]);
                let json_b = crate::json::receipt_json(b[i]);
                assert(inputs_a.contains(json_a) && inputs_b.contains(json_b));
                assert(!crate::merkle::collide(json_a, json_b));
            }
            assert(a =~= b);
        }
    } else {
        assert(a =~= b);
    }
}

/// A valid proof of the tree's height for a receipt at position `i` shows that
/// this receipt stands there, unless something that is hashed to follow it
/// collides under Keccak-256 with something that is hashed for the root.
pub proof fn law_proven_receipt_is_held(
    receipts: Seq<ReceiptView>,
    i: int,
    receipt: ReceiptView,
    path: Seq<crate::Hash>,
)
    requires
        0 <= i < receipts.len(),
        path.len() == crate::merkle::sibling_path(
            crate::client::receipt_leaves(receipts),
            i,
        ).len(),
        crate::merkle::climb(crate::client::receipt_leaf(receipt), path, i as nat)
            == crate::client::receipts_root(receipts),
    ensures
        receipt == receipts[i] || crate::merkle::collision_between(
            crate::merkle::path_inputs(
                crate::client::receipt_leaf(receipt),
                path,
                i as nat,
            ).insert(crate::json::receipt_json(receipt)),
            settlement_inputs(receipts),
        ),
{
    let leaves = crate::client::receipt_leaves(receipts);
    let leaf = crate::client::receipt_leaf(receipt);
    let json = crate::json::receipt_json(receipt);
    let held = crate::json::receipt_json(receipts[i]);
    let followed = crate::merkle::path_inputs(leaf, path, i as nat);
    crate::merkle::law_valid_proof_shows_leaf(leaves, i, leaf, path);
    if leaf == leaves[i] {
        law_leaf_binds_receipt(receipt, receipts[i]);
        assert(settlement_inputs(receipts).contains(held));
        assert(followed.insert(json).contains(json));
        assert(receipt == receipts[i] || crate::merkle::collide(json, held));
    } else {
        crate::merkle::lemma_collision_stays(
            followed,
            crate::merkle::tree_inputs(leaves),
            followed.insert(json),
            settlement_inputs(receipts),
        );
    }
}

/// Payments and accounts opened in different seconds have different
/// identifiers.
pub proof fn law_identifiers_tell_seconds_apart(t1: u64, t2: u64)
    requires
        t1 != t2,
    ensures
        crate::client::payment_id_at(t1) != crate::client::payment_id_at(t2),
        crate::client::escrow_id_at(t1) != crate::client::escrow_id_at(t2),
{
    let d1 = crate::text::decimal(t1 as nat);
    let d2 = crate::text::decimal(t2 as nat);
    crate::json::lemma_decimal_is_injective(t1 as nat, t2 as nat);
    assert(("pay_"@ + d1).skip("pay_"@.len() as int) =~= d1);
    assert(("pay_"@ + d2).skip("pay_"@.len() as int) =~= d2);
    assert(("escrow_"@ + d1).skip("escrow_"@.len() as int) =~= d1);
    assert(("escrow_"@ + d2).skip("escrow_"@.len() as int) =~= d2);
}

/// A payment is found under the identifier that it was opened with.
pub proof fn law_opened_payment_is_found(
    payments: Map<Seq<char>, Payment>,
    payment: Payment,
    recipient: PublicKey,
    token_count: u32,
    amount: u64,
    timestamp: u64,
)
    requires
        payment.is_opened(recipient, token_count, amount, timestamp),
    ensures
        ({
            let after = payments.insert(crate::client::payment_id_at(timestamp), payment);
            after.contains_key(payment.payment_id@) && after[payment.payment_id@] == payment
        }),
{
}

/// An account is found under the identifier that it was opened with.
pub proof fn law_opened_account_is_found(
    accounts: Map<Seq<char>, EscrowAccount>,
    account: EscrowAccount,
    owner: PublicKey,
    initial_balance: u64,
    timestamp: u64,
)
    requires
        account.is_opened(owner, initial_balance, timestamp),
    ensures
        ({
            let after = accounts.insert(crate::client::escrow_id_at(timestamp), account);
            after.contains_key(account.account_id@) && after[account.account_id@] == account
        }),
{
}

/// Settling a payment again only moves the time at which it was settled.
pub proof fn law_settling_again_moves_the_time(payment: Payment, t1: u64, t2: u64)
    ensures
        payment.as_settled(t1).as_settled(t2) == payment.as_settled(t2),
{
}

/// Releasing what was just locked restores the account.
pub proof fn law_release_undoes_lock(account: EscrowAccount, amount: u64)
    requires
        account.funds() <= u64::MAX,
        amount <= account.balance,
    ensures
        amount <= account.with_locked(amount).locked_amount,
        account.with_locked(amount).with_released(amount) == account,
{
}

/// Locking what was just released restores the account.
pub proof fn law_lock_undoes_release(account: EscrowAccount, amount: u64)
    requires
        account.funds() <= u64::MAX,
        amount <= account.locked_amount,
    ensures
        amount <= account.with_released(amount).balance,
        account.with_released(amount).with_locked(amount) == account,
{
}

/// The accounts after requests one after another, each to the account that it
/// names.
pub open spec fn accounts_after_all(
    accounts: Map<Seq<char>, EscrowAccount>,
    requests: Seq<(Seq<char>, FundsRequest)>,
) -> Map<Seq<char>, EscrowAccount>
    decreases requests.len(),
{
    if requests.len() == 0 {
        accounts
    } else {
        crate::client::accounts_after(
            accounts_after_all(accounts, requests.drop_last()),
            requests.last().0,
            requests.last().1,
        )
    }
}

/// No sequence of locks and releases, refused or not, opens or closes an
/// account, creates or destroys funds, or changes whose they are.
pub proof fn law_funds_are_conserved(
    accounts: Map<Seq<char>, EscrowAccount>,
    requests: Seq<(Seq<char>, FundsRequest)>,
    id: Seq<char>,
)
    requires
        accounts.contains_key(id) ==> accounts[id].funds() <= u64::MAX,
    ensures
        ({
            let after = accounts_after_all(accounts, requests);
            &&& after.contains_key(id) == accounts.contains_key(id)
            &&& accounts.contains_key(id) ==> {
                &&& after[id].funds() == accounts[id].funds()
                &&& after[id].owner == accounts[id].owner
                &&& after[id].account_id == accounts[id].account_id
                &&& after[id].created_at == accounts[id].created_at
            }
        }),
    decreases requests.len(),
{
    if requests.len() > 0 {
        law_funds_are_conserved(accounts, requests.drop_last(), id);
    }
}

/// Rewards of different requests are added up apart.
pub proof fn law_reward_keys_tell_requests_apart(a: ReceiptView, b: ReceiptView)
    requires
        a.request_id != b.request_id,
    ensures
        crate::rewards::node_key(a) != crate::rewards::node_key(b),
{
    if crate::rewards::node_key(a) == crate::rewards::node_key(b) {
        crate::text::lemma_hex_text_is_injective(a.request_id.0@, b.request_id.0@);
        crate::types::lemma_same_view(a.request_id.0, b.request_id.0);
    }
}

/// A receipt's identifier is `0x` and 32 hexadecimal digits.
pub proof fn law_receipt_id_has_34_characters(request_id: RequestId, timestamp: u64)
    ensures
        crate::blockchain::receipt_id_at(request_id, timestamp).len() == 34,
{
    reveal_strlit("0x");
}

/// All that is hashed to get from a batch to its root.
pub open spec fn batch_inputs(receipts: Seq<PendingView>) -> Set<Seq<u8>> {
    crate::merkle::tree_inputs(crate::blockchain::batch_leaves(receipts)).union(
        Set::new(
            |input: Seq<u8>|
                exists|i: int|
                    0 <= i < receipts.len() && input == #[trigger] crate::blockchain::leaf_bytes(
                        receipts[i],
                    ),
        ),
    )
}

/// Two waiting receipts agree in request, token count and time.
pub open spec fn agree(a: PendingView, b: PendingView) -> bool {
    a.request_id == b.request_id && a.token_count == b.token_count && a.timestamp == b.timestamp
}

/// What a leaf is hashed from stands for the request, the token count and the
/// time of its receipt.
proof fn lemma_leaf_bytes_bind(a: PendingView, b: PendingView)
    requires
        crate::blockchain::leaf_bytes(a) == crate::blockchain::leaf_bytes(b),
    ensures
        agree(a, b),
{
    let bytes_a = crate::blockchain::leaf_bytes(a);
    let bytes_b = crate::blockchain::leaf_bytes(b);
    lemma_le_bytes_binds(a.token_count, b.token_count);
    lemma_le_bytes_binds(a.timestamp, b.timestamp);
    assert(a.request_id.0@ =~= bytes_a.subrange(0, 16));
    assert(b.request_id.0@ =~= bytes_b.subrange(0, 16));
    assert(crate::blockchain::le_bytes(a.token_count) =~= bytes_a.subrange(16, 24));
    assert(crate::blockchain::le_bytes(b.token_count) =~= bytes_b.subrange(16, 24));
    assert(crate::blockchain::le_bytes(a.timestamp) =~= bytes_a.subrange(24, 32));
    assert(crate::blockchain::le_bytes(b.timestamp) =~= bytes_b.subrange(24, 32));
    crate::types::lemma_same_view(a.request_id.0, b.request_id.0);
}

/// A batch's root stands for the requests, token counts and times of its
/// receipts: batches of the same size with the same root agree in them, unless
/// something that is hashed for the one collides under Keccak-256 with
/// something that is hashed for the other. The experts are not part of the root.
pub proof fn law_batch_root_binds_receipts(a: Seq<PendingView>, b: Seq<PendingView>)
    requires
        a.len() == b.len(),
        crate::blockchain::batch_root(a) == crate::blockchain::batch_root(b),
    ensures
        (forall|i: int| #![trigger a[i], b[i]] 0 <= i < a.len() ==> agree(a[i], b[i]))
            || crate::merkle::collision_between(batch_inputs(a), batch_inputs(b)),
{
    if a.len() > 0 {
        let leaves_a = crate::blockchain::batch_leaves(a);
        let leaves_b = crate::blockchain::batch_leaves(b);
        let root_a = crate::merkle::tree_root(leaves_a);
        let root_b = crate::merkle::tree_root(leaves_b);
        let text_a = crate::text::hex_text(root_a.0@);
        let text_b = crate::text::hex_text(root_b.0@);
        assert(("0x"@ + text_a).skip("0x"@.len() as int) =~= text_a);
        assert(("0x"@ + text_b).skip("0x"@.len() as int) =~= text_b);
        crate::text::lemma_hex_text_is_injective(root_a.0@, root_b.0@);
        crate::types::lemma_same_view(root_a.0, root_b.0);
        crate::merkle::law_root_binds_leaves(leaves_a, leaves_b);
        if leaves_a != leaves_b {
            crate::merkle::lemma_collision_stays(
                crate::merkle::tree_inputs(leaves_a),
                crate::merkle::tree_inputs(leaves_b),
                batch_inputs(a),
                batch_inputs(b),
            );
        } else if !crate::merkle::collision_between(batch_inputs(a), batch_inputs(b)) {
            assert forall|i: int| #![trigger a[i], b[i]] 0 <= i < a.len() implies agree(
                a[i],
                b[i],
            ) by {
                assert(leaves_a[i] == leaves_b[i]);
                let bytes_a = crate::blockchain::leaf_bytes(a[i]);
                let bytes_b = crate::blockchain::leaf_bytes(b[i]);
                assert(batch_inputs(a).contains(bytes_a) && batch_inputs(b).contains(bytes_b));
                assert(!crate::merkle::collide(bytes_a, bytes_b));
                lemma_leaf_bytes_bind(a[i], b[i]);
            }
        }
    }
}

proof fn lemma_le_bytes_binds(a: u64, b: u64)
    ensures
        crate::blockchain::le_bytes(a).len() == 8,
        crate::blockchain::le_bytes(b).len() == 8,
        crate::blockchain::le_bytes(a) == crate::blockchain::le_bytes(b) ==> a == b,
{
    vstd::bytes::lemma_auto_spec_u64_to_from_le_bytes();
}

proof fn lemma_signed_bytes_len(receipts: Seq<PendingView>)
    ensures
        crate::blockchain::signed_bytes(receipts).len() == 24 * receipts.len(),
    decreases receipts.len(),
{
    if receipts.len() > 0 {
        lemma_signed_bytes_len(receipts.drop_last());
        lemma_le_bytes_binds(receipts.last().token_count, receipts.last().token_count);
    }
}

/// What is signed stands for how many receipts a batch has and for their
/// requests and token counts.
pub proof fn law_signed_bytes_bind_receipts(a: Seq<PendingView>, b: Seq<PendingView>)
    requires
        crate::blockchain::signed_bytes(a) == crate::blockchain::signed_bytes(b),
    ensures
        a.len() == b.len(),
        forall|i: int|
            #![trigger a[i], b[i]]
            0 <= i < a.len() ==> a[i].request_id == b[i].request_id && a[i].token_count
                == b[i].token_count,
    decreases a.len(),
{
    lemma_signed_bytes_len(a);
    lemma_signed_bytes_len(b);
    if a.len() > 0 {
        let whole = crate::blockchain::signed_bytes(a);
        let rest_a = a.drop_last();
        let rest_b = b.drop_last();
        let n = 24 * rest_a.len() as int;
        lemma_signed_bytes_len(rest_a);
        lemma_signed_bytes_len(rest_b);
        lemma_le_bytes_binds(a.last().token_count, b.last().token_count);
        assert(crate::blockchain::signed_bytes(rest_a) =~= whole.take(n));
        assert(crate::blockchain::signed_bytes(rest_b) =~= whole.take(n));
        assert(a.last().request_id.0@ =~= whole.subrange(n, n + 16));
        assert(b.last().request_id.0@ =~= whole.subrange(n, n + 16));
        assert(crate::blockchain::le_bytes(a.last().token_count) =~= whole.subrange(n + 16, n + 24));
        assert(crate::blockchain::le_bytes(b.last().token_count) =~= whole.subrange(n + 16, n + 24));
        crate::types::lemma_same_view(a.last().request_id.0, b.last().request_id.0);
        law_signed_bytes_bind_receipts(rest_a, rest_b);
        assert forall|i: int|
            #![trigger a[i], b[i]]
            0 <= i < a.len() implies a[i].request_id == b[i].request_id && a[i].token_count
            == b[i].token_count by {
            if i < rest_a.len() {
                assert(rest_a[i] == a[i] && rest_b[i] == b[i]);
            }
        }
    }
}

/// A batch counts as settled once its transaction is mined, and not before: the
/// total is the same after it was opened, after the contract took it, and after
/// the contract refused it, and it grows by the batch's receipts when the
/// transaction is mined.
pub proof fn law_only_mined_batches_count(
    submissions: Seq<SettlementSubmission>,
    opened: SettlementSubmission,
    tx_hash: String,
    reason: String,
    gas_used: u64,
    confirmed_at: u64,
)
    requires
        opened.status == SettlementSubmissionStatus::Pending,
    ensures
        ({
            let total = crate::blockchain::confirmed_receipts(submissions);
            let pending = submissions.push(opened);
            let last = submissions.len() as int;
            let submitted = pending.update(last, opened.as_submitted(tx_hash));
            let failed = pending.update(last, opened.as_failed(reason));
            let mined = submitted.update(
                last,
                submitted[last].as_confirmed(gas_used, confirmed_at),
            );
            &&& crate::blockchain::confirmed_receipts(pending) == total
            &&& crate::blockchain::confirmed_receipts(submitted) == total
            &&& crate::blockchain::confirmed_receipts(failed) == total
            &&& crate::blockchain::confirmed_receipts(mined) == total + opened.receipt_count
        }),
{
    let pending = submissions.push(opened);
    let last = submissions.len() as int;
    let submitted = pending.update(last, opened.as_submitted(tx_hash));
    let failed = pending.update(last, opened.as_failed(reason));
    let mined = submitted.update(last, submitted[last].as_confirmed(gas_used, confirmed_at));
    assert(pending.drop_last() =~= submissions);
    assert(submitted.drop_last() =~= submissions);
    assert(failed.drop_last() =~= submissions);
    assert(mined.drop_last() =~= submissions);
}

/// Confirming a submission again changes no total.
pub proof fn law_confirming_again_counts_once(
    submissions: Seq<SettlementSubmission>,
    i: int,
    gas_used: u64,
    confirmed_at: u64,
)
    requires
        0 <= i < submissions.len(),
        submissions[i].status == SettlementSubmissionStatus::Confirmed,
    ensures
        crate::blockchain::confirmed_receipts(
            submissions.update(i, submissions[i].as_confirmed(gas_used, confirmed_at)),
        ) == crate::blockchain::confirmed_receipts(submissions),
    decreases submissions.len(),
{
    let again = submissions[i].as_confirmed(gas_used, confirmed_at);
    let updated = submissions.update(i, again);
    if i == submissions.len() - 1 {
        assert(updated.drop_last() =~= submissions.drop_last());
    } else {
        assert(updated.drop_last() =~= submissions.drop_last().update(i, again));
        law_confirming_again_counts_once(submissions.drop_last(), i, gas_used, confirmed_at);
    }
}

/// What a submission records fits its status: the time and the gas of a
/// confirmation are there together and only where it is confirmed, a confirmed
/// one has a transaction, and a failed one has none.
pub open spec fn consistent(s: SettlementSubmission) -> bool {
    &&& s.status is Confirmed <==> s.confirmed_at is Some
    &&& s.confirmed_at is Some <==> s.gas_used is Some
    &&& s.status is Confirmed ==> s.tx_hash@.len() > 0
    &&& s.status is Failed ==> s.tx_hash@.len() == 0
}

/// A submission is consistent when it is opened, and stays so when the contract
/// refuses it, when the contract takes it, and when the transaction that it was
/// taken as is mined.
pub proof fn law_submission_stays_consistent(
    opened: SettlementSubmission,
    uuid: Seq<char>,
    receipts: Seq<PendingView>,
    submitted_at: u64,
    tx_hash: String,
    reason: String,
    gas_used: u64,
    confirmed_at: u64,
)
    requires
        opened.is_opened(uuid, receipts, submitted_at),
    ensures
        consistent(opened),
        consistent(opened.as_failed(reason)),
        consistent(opened.as_submitted(tx_hash)),
        tx_hash@.len() > 0 ==> consistent(
            opened.as_submitted(tx_hash).as_confirmed(gas_used, confirmed_at),
        ),
{
}

/// How a settlement that was begun came to its end.
pub enum SettlementEnd {
    /// The contract refused the batch.
    Refused { reason: String },
    /// The contract took the batch, and no mined transaction was reported.
    Taken { tx_hash: String },
    /// The contract took the batch, and its transaction was mined.
    Mined { tx_hash: String, gas_used: u64, confirmed_at: u64 },
}

/// A settlement from its begin to its end: the submission that was opened for
/// `receipts`, and what became of it.
pub struct SettlementRun {
    pub uuid: Seq<char>,
    pub receipts: Seq<PendingView>,
    pub opened: SettlementSubmission,
    pub end: SettlementEnd,
}

impl SettlementRun {
    /// The settlement could begin where `required` receipts are, its
    /// submission was opened for its receipts, and only a transaction that has
    /// a name was waited for.
    pub open spec fn possible(self, required: u32) -> bool {
        &&& crate::blockchain::trigger_refusal(true, self.receipts.len(), required) is None
        &&& self.opened.is_opened(self.uuid, self.receipts, self.opened.submitted_at)
        &&& match self.end {
            SettlementEnd::Mined { tx_hash, .. } => tx_hash@.len() > 0,
            _ => true,
        }
    }
}

/// The submissions after one more settlement, step by step.
pub open spec fn history_after(
    submissions: Seq<SettlementSubmission>,
    run: SettlementRun,
) -> Seq<SettlementSubmission> {
    let begun = submissions.push(run.opened);
    let last = begun.len() - 1;
    match run.end {
        SettlementEnd::Refused { reason } => begun.update(last, begun[last].as_failed(reason)),
        SettlementEnd::Taken { tx_hash } => begun.update(last, begun[last].as_submitted(tx_hash)),
        SettlementEnd::Mined { tx_hash, gas_used, confirmed_at } => {
            let taken = begun.update(last, begun[last].as_submitted(tx_hash));
            taken.update(last, taken[last].as_confirmed(gas_used, confirmed_at))
        },
    }
}

/// The submissions after settlements one after another, each to its end.
pub open spec fn history_of(runs: Seq<SettlementRun>) -> Seq<SettlementSubmission>
    decreases runs.len(),
{
    if runs.len() == 0 {
        Seq::empty()
    } else {
        history_after(history_of(runs.drop_last()), runs.last())
    }
}

/// After settlements one after another, each to its end, the submissions stand
/// oldest first; each is consistent, none is pending, and each has at least as
/// many receipts as settlement requires. The number of a batch's receipts is
/// kept in 32 bits, so the last holds of batches that can be counted in them.
pub proof fn law_history_is_consistent(runs: Seq<SettlementRun>, required: u32, i: int)
    requires
        0 <= i < runs.len(),
        forall|j: int| 0 <= j < runs.len() ==> (#[trigger] runs[j]).possible(required),
    ensures
        history_of(runs).len() == runs.len(),
        history_of(runs)[i].submission_id == runs[i].opened.submission_id,
        consistent(history_of(runs)[i]),
        !(history_of(runs)[i].status is Pending),
        runs[i].receipts.len() <= u32::MAX ==> history_of(runs)[i].receipt_count >= required,
    decreases runs.len(),
{
    let before = runs.drop_last();
    assert(runs[runs.len() - 1].possible(required));
    if before.len() > 0 {
        assert forall|j: int| 0 <= j < before.len() implies (#[trigger] before[j]).possible(
            required,
        ) by {
            assert(before[j] == runs[j]);
        }
        law_history_is_consistent(before, required, if i < before.len() {
            i
        } else {
            0
        });
    }
    assert(history_of(before).len() == before.len());
}

} // verus!
