//! Receipts of one node and their settlement, payments and escrow.
use crate::external::{keccak256_digest, receipt_to_json, unix_seconds};
use crate::merkle::merkle_root;
use crate::rewards::checked_node_rewards;
use crate::text::{decimal_text, prefixed};
use crate::types::{
    refusal, AuriaError, AuriaResult, ExpertId, PublicKey, ReceiptView, RequestId,
    Signature, UsageReceipt, UsageStats,
};
use vstd::hash_map::StringHashMap;
use vstd::prelude::*;

verus! {

/// How receipts are settled.
#[derive(Debug)]
pub struct SettlementConfig {
    pub settlement_interval_seconds: u64,
    pub min_receipts_for_settlement: u32,
    pub settlement_contract: Option<String>,
}

impl Default for SettlementConfig {
    fn default() -> (config: Self)
        ensures
            config.settlement_interval_seconds == 3600,
            config.min_receipts_for_settlement == 10,
            config.settlement_contract is None,
    {
        SettlementConfig {
            settlement_interval_seconds: 3600,
            min_receipts_for_settlement: 10,
            settlement_contract: None,
        }
    }
}

impl Clone for SettlementConfig {
    fn clone(&self) -> (copy: Self)
        ensures
            copy == *self,
    {
        SettlementConfig {
            settlement_interval_seconds: self.settlement_interval_seconds,
            min_receipts_for_settlement: self.min_receipts_for_settlement,
            settlement_contract: match &self.settlement_contract {
                Some(contract) => Some(contract.clone()),
                None => None,
            },
        }
    }
}

/// How far a payment has come.
#[derive(Debug, PartialEq, Eq)]
pub enum PaymentStatus {
    Pending,
    Processing,
    Completed,
    Failed(String),
}

impl Clone for PaymentStatus {
    fn clone(&self) -> (copy: Self)
        ensures
            copy == *self,
    {
        match self {
            PaymentStatus::Pending => PaymentStatus::Pending,
            PaymentStatus::Processing => PaymentStatus::Processing,
            PaymentStatus::Completed => PaymentStatus::Completed,
            PaymentStatus::Failed(reason) => PaymentStatus::Failed(reason.clone()),
        }
    }
}

/// A payment for generated tokens.
#[derive(Debug)]
pub struct Payment {
    pub payment_id: String,
    pub recipient: PublicKey,
    pub amount: u64,
    pub token_count: u32,
    pub status: PaymentStatus,
    pub created_at: u64,
    pub settled_at: Option<u64>,
}

impl Clone for Payment {
    fn clone(&self) -> (copy: Self)
        ensures
            copy == *self,
    {
        Payment {
            payment_id: self.payment_id.clone(),
            recipient: self.recipient,
            amount: self.amount,
            token_count: self.token_count,
            status: self.status.clone(),
            created_at: self.created_at,
            settled_at: self.settled_at,
        }
    }
}

impl Payment {
    /// The payment was opened at `timestamp` and nothing happened to it since.
    pub open spec fn is_opened(
        self,
        recipient: PublicKey,
        token_count: u32,
        amount: u64,
        timestamp: u64,
    ) -> bool {
        &&& self.payment_id@ == payment_id_at(timestamp)
        &&& self.recipient == recipient
        &&& self.amount == amount
        &&& self.token_count == token_count
        &&& self.status == PaymentStatus::Pending
        &&& self.created_at == timestamp
        &&& self.settled_at == None::<u64>
    }

    /// The payment once it is settled at `timestamp`.
    pub open spec fn as_settled(self, timestamp: u64) -> Payment {
        Payment { status: PaymentStatus::Completed, settled_at: Some(timestamp), ..self }
    }
}

/// Funds of one owner: what can be spent and what is locked.
#[derive(Debug)]
pub struct EscrowAccount {
    pub account_id: String,
    pub owner: PublicKey,
    pub balance: u64,
    pub locked_amount: u64,
    pub created_at: u64,
}

impl Clone for EscrowAccount {
    fn clone(&self) -> (copy: Self)
        ensures
            copy == *self,
    {
        EscrowAccount {
            account_id: self.account_id.clone(),
            owner: self.owner,
            balance: self.balance,
            locked_amount: self.locked_amount,
            created_at: self.created_at,
        }
    }
}

impl EscrowAccount {
    /// All funds of the account, locked or not.
    pub open spec fn funds(self) -> int {
        self.balance + self.locked_amount
    }

    /// The account was opened at `timestamp` and nothing happened to it since.
    pub open spec fn is_opened(self, owner: PublicKey, initial_balance: u64, timestamp: u64) -> bool {
        &&& self.account_id@ == escrow_id_at(timestamp)
        &&& self.owner == owner
        &&& self.balance == initial_balance
        &&& self.locked_amount == 0
        &&& self.created_at == timestamp
    }

    /// The account after `amount` of its balance was locked.
    pub open spec fn with_locked(self, amount: u64) -> EscrowAccount {
        EscrowAccount {
            balance: (self.balance - amount) as u64,
            locked_amount: (self.locked_amount + amount) as u64,
            ..self
        }
    }

    /// The account after `amount` of its locked funds was released.
    pub open spec fn with_released(self, amount: u64) -> EscrowAccount {
        EscrowAccount {
            balance: (self.balance + amount) as u64,
            locked_amount: (self.locked_amount - amount) as u64,
            ..self
        }
    }
}

/// A request to lock or to release funds of an account.
pub enum FundsRequest {
    Lock(u64),
    Release(u64),
}

/// An account after a request. One that asks for more than there is leaves the
/// account as it is.
pub open spec fn account_after(account: EscrowAccount, request: FundsRequest) -> EscrowAccount {
    match request {
        FundsRequest::Lock(amount) => if account.balance >= amount {
            account.with_locked(amount)
        } else {
            account
        },
        FundsRequest::Release(amount) => if account.locked_amount >= amount {
            account.with_released(amount)
        } else {
            account
        },
    }
}

/// The accounts after a request to the one named `account_id`, if there is one.
pub open spec fn accounts_after(
    accounts: Map<Seq<char>, EscrowAccount>,
    account_id: Seq<char>,
    request: FundsRequest,
) -> Map<Seq<char>, EscrowAccount> {
    if accounts.contains_key(account_id) {
        accounts.insert(account_id, account_after(accounts[account_id], request))
    } else {
        accounts
    }
}

/// The outcome of an accepted settlement.
#[derive(Clone, Copy, Debug)]
pub struct SettlementReceipt {
    pub root_hash: crate::Hash,
    pub receipt_count: u64,
    pub timestamp: u64,
    pub settlement_period: u64,
}

/// The Merkle leaf of a receipt: the Keccak-256 digest of its JSON form.
pub open spec fn receipt_leaf(receipt: ReceiptView) -> crate::Hash {
    crate::Hash(crate::external::keccak256(crate::json::receipt_json(receipt)))
}

/// The Merkle leaves of receipts, in order.
pub open spec fn receipt_leaves(receipts: Seq<ReceiptView>) -> Seq<crate::Hash> {
    receipts.map_values(|r: ReceiptView| receipt_leaf(r))
}

/// The settlement root of receipts: the root of the tree over their leaves, or
/// zeros where there is no receipt.
pub open spec fn receipts_root(receipts: Seq<ReceiptView>) -> crate::Hash {
    if receipts.len() == 0 {
        crate::Hash(crate::types::zeros())
    } else {
        crate::merkle::tree_root(receipt_leaves(receipts))
    }
}

/// Why `receipts` cannot be settled under `root_hash`; `None` where they can.
pub open spec fn settlement_refusal(
    receipts: Seq<ReceiptView>,
    root_hash: crate::Hash,
) -> Option<Seq<char>> {
    if receipts.len() == 0 {
        Some("No receipts to settle"@)
    } else if receipts_root(receipts) != root_hash {
        Some("Merkle root mismatch"@)
    } else {
        None
    }
}

/// The settlement of `receipts` at `timestamp`, where periods last
/// `interval` seconds.
pub open spec fn settlement_at(
    receipts: Seq<ReceiptView>,
    interval: u64,
    timestamp: u64,
) -> SettlementReceipt {
    SettlementReceipt {
        root_hash: receipts_root(receipts),
        receipt_count: receipts.len() as u64,
        timestamp,
        settlement_period: timestamp / interval,
    }
}

/// The receipt for a request that `usage` was measured for.
pub open spec fn new_receipt(
    request_id: RequestId,
    expert_ids: Seq<ExpertId>,
    usage: UsageStats,
    timestamp: u64,
) -> ReceiptView {
    ReceiptView {
        request_id,
        expert_ids,
        token_count: usage.tokens_generated,
        timestamp,
        node_signature: Signature(crate::types::zeros()),
    }
}

/// The identifier of a payment made at `timestamp`.
pub open spec fn payment_id_at(timestamp: u64) -> Seq<char> {
    "pay_"@ + crate::text::decimal(timestamp as nat)
}

/// The identifier of an escrow account opened at `timestamp`.
pub open spec fn escrow_id_at(timestamp: u64) -> Seq<char> {
    "escrow_"@ + crate::text::decimal(timestamp as nat)
}

/// A time lies at or after as many whole intervals as fit before it, and before
/// one more.
pub proof fn lemma_whole_intervals(timestamp: u64, interval: u64)
    requires
        interval > 0,
    ensures
        (timestamp / interval) * interval <= timestamp,
        timestamp < (timestamp / interval + 1) * interval,
{
    let t = timestamp as int;
    let d = interval as int;
    vstd::arithmetic::div_mod::lemma_fundamental_div_mod(t, d);
    assert((t / d) * d == d * (t / d)) by (nonlinear_arith);
    assert((t / d + 1) * d == d * (t / d) + d) by (nonlinear_arith);
}

/// The receipts, payments and escrow accounts of one node.
pub struct SettlementClient {
    receipts: Vec<UsageReceipt>,
    settlement_config: SettlementConfig,
    pending_payments: StringHashMap<Payment>,
    escrow_accounts: StringHashMap<EscrowAccount>,
}

impl SettlementClient {
    /// What the receipts that are not settled yet record, oldest first.
    pub closed spec fn receipts(&self) -> Seq<ReceiptView> {
        crate::types::receipt_views(self.receipts@)
    }

    /// The configuration.
    pub closed spec fn config(&self) -> SettlementConfig {
        self.settlement_config
    }

    /// The payments by identifier.
    pub closed spec fn payments(&self) -> Map<Seq<char>, Payment> {
        self.pending_payments@
    }

    /// The escrow accounts by identifier.
    pub closed spec fn accounts(&self) -> Map<Seq<char>, EscrowAccount> {
        self.escrow_accounts@
    }

    /// Payments and accounts stand under their own identifiers, and the funds
    /// of each account can be held in one number.
    pub open spec fn wf(&self) -> bool {
        &&& forall|id: Seq<char>| #[trigger]
            self.payments().contains_key(id) ==> self.payments()[id].payment_id@ == id
        &&& forall|id: Seq<char>| #[trigger]
            self.accounts().contains_key(id) ==> self.accounts()[id].account_id@ == id
                && self.accounts()[id].funds() <= u64::MAX
    }

    /// A client without receipts, payments or accounts.
    pub fn new(config: SettlementConfig) -> (client: Self)
        ensures
            client.wf(),
            client.receipts() == Seq::<ReceiptView>::empty(),
            client.config() == config,
            client.payments() == Map::<Seq<char>, Payment>::empty(),
            client.accounts() == Map::<Seq<char>, EscrowAccount>::empty(),
    {
        let client = SettlementClient {
            receipts: Vec::new(),
            settlement_config: config,
            pending_payments: StringHashMap::new(),
            escrow_accounts: StringHashMap::new(),
        };
        assert(client.receipts() =~= Seq::<ReceiptView>::empty());
        client
    }

    /// Records the usage of a request, as of `timestamp`.
    pub fn generate_receipt_at(
        &mut self,
        request_id: RequestId,
        expert_ids: Vec<ExpertId>,
        usage: UsageStats,
        timestamp: u64,
    ) -> (receipt: UsageReceipt)
        requires
            old(self).wf(),
        ensures
            final(self).wf(),
            receipt@ == new_receipt(request_id, expert_ids@, usage, timestamp),
            receipt.request_id == request_id,
            receipt.expert_ids@ == expert_ids@,
            receipt.token_count == usage.tokens_generated,
            receipt.timestamp == timestamp,
            forall|i: int| 0 <= i < 64 ==> #[trigger] receipt.node_signature.0@[i] == 0,
            final(self).receipts() == old(self).receipts().push(receipt@),
            final(self).config() == old(self).config(),
            final(self).payments() == old(self).payments(),
            final(self).accounts() == old(self).accounts(),
    {
        let receipt = UsageReceipt {
            request_id,
            expert_ids,
            token_count: usage.tokens_generated,
            timestamp,
            node_signature: Signature([0u8; 64]),
        };
        self.receipts.push(receipt.clone());
        assert(self.receipts() =~= old(self).receipts().push(receipt@));
        assert(self.payments() == old(self).payments());
        assert(self.accounts() == old(self).accounts());
        receipt
    }

    /// Records the usage of a request, as of now.
    pub fn generate_receipt(
        &mut self,
        request_id: RequestId,
        expert_ids: Vec<ExpertId>,
        usage: UsageStats,
    ) -> (result: AuriaResult<UsageReceipt>)
        requires
            old(self).wf(),
        ensures
            final(self).wf(),
            match result {
                Ok(receipt) => {
                    &&& receipt@ == new_receipt(request_id, expert_ids@, usage, receipt.timestamp)
                    &&& receipt.request_id == request_id
                    &&& receipt.expert_ids@ == expert_ids@
                    &&& receipt.token_count == usage.tokens_generated
                    &&& final(self).receipts() == old(self).receipts().push(receipt@)
                    &&& final(self).config() == old(self).config()
                    &&& final(self).payments() == old(self).payments()
                    &&& final(self).accounts() == old(self).accounts()
                },
                Err(error) => error == AuriaError::ClockBeforeEpoch && *final(self) == *old(self),
            },
    {
        match unix_seconds() {
            Some(timestamp) => Ok(
                self.generate_receipt_at(request_id, expert_ids, usage, timestamp),
            ),
            None => Err(AuriaError::ClockBeforeEpoch),
        }
    }

    /// The Merkle leaf of a receipt.
    pub fn compute_receipt_hash(receipt: &UsageReceipt) -> (hash: crate::Hash)
        ensures
            hash == receipt_leaf(receipt@),
            hash.0 == crate::external::keccak256(crate::json::receipt_json(receipt@)),
    {
        let data = receipt_to_json(receipt);
        crate::Hash(keccak256_digest(data.as_slice()))
    }

    /// The settlement root of `receipts`.
    pub fn build_merkle_tree_internal(&self, receipts: &[UsageReceipt]) -> (result: AuriaResult<
        crate::Hash,
    >)
        ensures
            result == Ok::<crate::Hash, AuriaError>(
                receipts_root(crate::types::receipt_views(receipts@)),
            ),
    {
        if receipts.len() == 0 {
            return Ok(crate::Hash([0u8; 32]));
        }
        let ghost leaves = receipt_leaves(crate::types::receipt_views(receipts@));
        let mut hashes: Vec<crate::Hash> = Vec::new();
        let mut i: usize = 0;
        while i < receipts.len()
            invariant
                i <= receipts@.len(),
                leaves == receipt_leaves(crate::types::receipt_views(receipts@)),
                hashes@ =~= leaves.take(i as int),
            decreases receipts@.len() - i,
        {
            hashes.push(Self::compute_receipt_hash(&receipts[i]));
            i += 1;
        }
        assert(leaves.take(i as int) =~= leaves);
        Ok(merkle_root(hashes))
    }

    /// The settlement root of the receipts held.
    pub fn build_merkle_tree(&self) -> (result: AuriaResult<crate::Hash>)
        ensures
            result == Ok::<crate::Hash, AuriaError>(receipts_root(self.receipts())),
    {
        self.build_merkle_tree_internal(self.receipts.as_slice())
    }

    /// The number of receipts held.
    pub fn get_receipt_count(&self) -> (count: usize)
        ensures
            count == self.receipts().len(),
    {
        self.receipts.len()
    }

    /// Drops all receipts.
    pub fn clear_receipts(&mut self)
        requires
            old(self).wf(),
        ensures
            final(self).wf(),
            final(self).receipts() == Seq::<ReceiptView>::empty(),
            final(self).config() == old(self).config(),
            final(self).payments() == old(self).payments(),
            final(self).accounts() == old(self).accounts(),
    {
        self.receipts.clear();
        assert(self.receipts() =~= Seq::<ReceiptView>::empty());
        assert(self.payments() == old(self).payments());
        assert(self.accounts() == old(self).accounts());
    }

    /// Whether there are receipts and `root_hash` is their settlement root.
    fn holds_root(&self, root_hash: &crate::Hash) -> (held: bool)
        ensures
            held == (settlement_refusal(self.receipts(), *root_hash) is None),
    {
        self.receipts.len() > 0 && match self.build_merkle_tree() {
            Ok(root) => root == *root_hash,
            Err(_) => false,
        }
    }

    /// Accepts the settlement of the receipts held under `root_hash`, as of
    /// `timestamp`.
    pub fn submit_settlement_at(&self, root_hash: crate::Hash, timestamp: u64) -> (result:
        AuriaResult<SettlementReceipt>)
        requires
            settlement_refusal(self.receipts(), root_hash) is None
                ==> self.config().settlement_interval_seconds > 0,
        ensures
            match settlement_refusal(self.receipts(), root_hash) {
                Some(text) => crate::types::refused(result, text),
                None => result == Ok::<SettlementReceipt, AuriaError>(
                    settlement_at(
                        self.receipts(),
                        self.config().settlement_interval_seconds,
                        timestamp,
                    ),
                ),
            },
            result is Ok <==> self.receipts().len() > 0 && root_hash == receipts_root(
                self.receipts(),
            ),
            result matches Ok(settlement) ==> {
                let interval = self.config().settlement_interval_seconds;
                &&& settlement.root_hash == root_hash
                &&& settlement.receipt_count == self.receipts().len()
                &&& settlement.timestamp == timestamp
                &&& settlement.settlement_period * interval <= timestamp
                &&& timestamp < (settlement.settlement_period + 1) * interval
            },
    {
        proof {
            if self.config().settlement_interval_seconds > 0 {
                lemma_whole_intervals(timestamp, self.config().settlement_interval_seconds);
            }
        }
        if self.receipts.len() == 0 {
            return refusal("No receipts to settle");
        }
        let merkle_root = match self.build_merkle_tree() {
            Ok(root) => root,
            Err(error) => {
                return Err(error);
            },
        };
        if !(merkle_root == root_hash) {
            return refusal("Merkle root mismatch");
        }
        Ok(
            SettlementReceipt {
                root_hash: merkle_root,
                receipt_count: self.receipts.len() as u64,
                timestamp,
                settlement_period: timestamp / self.settlement_config.settlement_interval_seconds,
            },
        )
    }

    /// Accepts the settlement of the receipts held under `root_hash`, as of now.
    pub fn submit_settlement(&self, root_hash: crate::Hash) -> (result: AuriaResult<
        SettlementReceipt,
    >)
        ensures
            match settlement_refusal(self.receipts(), root_hash) {
                Some(text) => crate::types::refused(result, text),
                None => if self.config().settlement_interval_seconds == 0 {
                    result == Err::<SettlementReceipt, AuriaError>(
                        AuriaError::ZeroSettlementInterval,
                    )
                } else {
                    match result {
                        Ok(settlement) => settlement == settlement_at(
                            self.receipts(),
                            self.config().settlement_interval_seconds,
                            settlement.timestamp,
                        ),
                        Err(error) => error == AuriaError::ClockBeforeEpoch,
                    }
                },
            },
            result matches Ok(settlement) ==> {
                let interval = self.config().settlement_interval_seconds;
                &&& self.receipts().len() > 0
                &&& root_hash == receipts_root(self.receipts())
                &&& settlement.root_hash == root_hash
                &&& settlement.receipt_count == self.receipts().len()
                &&& settlement.settlement_period * interval <= settlement.timestamp
                &&& settlement.timestamp < (settlement.settlement_period + 1) * interval
            },
    {
        if self.settlement_config.settlement_interval_seconds == 0 && self.holds_root(&root_hash) {
            return Err(AuriaError::ZeroSettlementInterval);
        }
        match unix_seconds() {
            Some(timestamp) => self.submit_settlement_at(root_hash, timestamp),
            None => match self.submit_settlement_at(root_hash, 0) {
                Ok(_) => Err(AuriaError::ClockBeforeEpoch),
                Err(error) => Err(error),
            },
        }
    }

    /// Opens a payment of `amount` for `token_count` tokens, as of `timestamp`.
    /// A payment opened at the same second before is replaced.
    pub fn create_payment_at(
        &mut self,
        recipient: PublicKey,
        token_count: u32,
        amount: u64,
        timestamp: u64,
    ) -> (payment: Payment)
        requires
            old(self).wf(),
        ensures
            final(self).wf(),
            payment.is_opened(recipient, token_count, amount, timestamp),
            payment.recipient == recipient,
            payment.amount == amount,
            payment.token_count == token_count,
            payment.status is Pending,
            payment.created_at == timestamp,
            payment.settled_at is None,
            final(self).payments() == old(self).payments().insert(
                payment_id_at(timestamp),
                payment,
            ),
            final(self).receipts() == old(self).receipts(),
            final(self).config() == old(self).config(),
            final(self).accounts() == old(self).accounts(),
    {
        let payment = Payment {
            payment_id: prefixed("pay_", decimal_text(timestamp).as_str()),
            recipient,
            amount,
            token_count,
            status: PaymentStatus::Pending,
            created_at: timestamp,
            settled_at: None,
        };
        self.pending_payments.insert(payment.payment_id.clone(), payment.clone());
        assert(self.payments() == old(self).payments().insert(payment.payment_id@, payment));
        assert(self.accounts() == old(self).accounts());
        payment
    }

    /// Opens a payment of `amount` for `token_count` tokens, as of now.
    pub fn create_payment(
        &mut self,
        recipient: PublicKey,
        token_count: u32,
        amount: u64,
    ) -> (result: AuriaResult<Payment>)
        requires
            old(self).wf(),
        ensures
            final(self).wf(),
            match result {
                Ok(payment) => {
                    &&& payment.is_opened(recipient, token_count, amount, payment.created_at)
                    &&& payment.recipient == recipient
                    &&& payment.amount == amount
                    &&& payment.token_count == token_count
                    &&& payment.status is Pending
                    &&& payment.settled_at is None
                    &&& final(self).payments() == old(self).payments().insert(
                        payment_id_at(payment.created_at),
                        payment,
                    )
                    &&& final(self).receipts() == old(self).receipts()
                    &&& final(self).config() == old(self).config()
                    &&& final(self).accounts() == old(self).accounts()
                },
                Err(error) => error == AuriaError::ClockBeforeEpoch && *final(self) == *old(self),
            },
    {
        match unix_seconds() {
            Some(timestamp) => Ok(
                self.create_payment_at(recipient, token_count, amount, timestamp),
            ),
            None => Err(AuriaError::ClockBeforeEpoch),
        }
    }

    /// Settles a payment, as of `timestamp`.
    pub fn process_payment_at(&mut self, payment_id: &str, timestamp: u64) -> (result: AuriaResult<
        Payment,
    >)
        requires
            old(self).wf(),
        ensures
            final(self).wf(),
            !old(self).payments().contains_key(payment_id@) ==> crate::types::refused(
                result,
                "Payment not found"@,
            ) && *final(self) == *old(self),
            old(self).payments().contains_key(payment_id@) ==> {
                let settled = old(self).payments()[payment_id@].as_settled(timestamp);
                &&& result == Ok::<Payment, AuriaError>(settled)
                &&& settled.status is Completed
                &&& settled.settled_at == Some(timestamp)
                &&& settled.payment_id@ == payment_id@
                &&& settled.amount == old(self).payments()[payment_id@].amount
                &&& settled.recipient == old(self).payments()[payment_id@].recipient
                &&& final(self).payments() == old(self).payments().insert(payment_id@, settled)
                &&& final(self).receipts() == old(self).receipts()
                &&& final(self).config() == old(self).config()
                &&& final(self).accounts() == old(self).accounts()
            },
    {
        let mut payment = match self.pending_payments.get(payment_id) {
            Some(payment) => payment.clone(),
            None => {
                return refusal("Payment not found");
            },
        };
        payment.status = PaymentStatus::Completed;
        payment.settled_at = Some(timestamp);
        self.pending_payments.insert(payment_id.to_owned(), payment.clone());
        assert(self.payments() == old(self).payments().insert(payment_id@, payment));
        assert(self.accounts() == old(self).accounts());
        Ok(payment)
    }

    /// Settles a payment, as of now.
    pub fn process_payment(&mut self, payment_id: &str) -> (result: AuriaResult<Payment>)
        requires
            old(self).wf(),
        ensures
            final(self).wf(),
            !old(self).payments().contains_key(payment_id@) ==> crate::types::refused(
                result,
                "Payment not found"@,
            ) && *final(self) == *old(self),
            old(self).payments().contains_key(payment_id@) ==> match result {
                Ok(payment) => {
                    &&& payment.settled_at matches Some(timestamp) && payment == old(
                        self,
                    ).payments()[payment_id@].as_settled(timestamp)
                    &&& payment.status is Completed
                    &&& payment.payment_id@ == payment_id@
                    &&& payment.amount == old(self).payments()[payment_id@].amount
                    &&& payment.recipient == old(self).payments()[payment_id@].recipient
                    &&& final(self).payments() == old(self).payments().insert(payment_id@, payment)
                    &&& final(self).receipts() == old(self).receipts()
                    &&& final(self).config() == old(self).config()
                    &&& final(self).accounts() == old(self).accounts()
                },
                Err(error) => error == AuriaError::ClockBeforeEpoch && *final(self) == *old(self),
            },
    {
        if !self.pending_payments.contains_key(payment_id) {
            return refusal("Payment not found");
        }
        match unix_seconds() {
            Some(timestamp) => self.process_payment_at(payment_id, timestamp),
            None => Err(AuriaError::ClockBeforeEpoch),
        }
    }

    /// The payment with the given identifier.
    pub fn get_payment(&self, payment_id: &str) -> (payment: Option<&Payment>)
        ensures
            match payment {
                Some(payment) => self.payments().contains_key(payment_id@) && *payment
                    == self.payments()[payment_id@],
                None => !self.payments().contains_key(payment_id@),
            },
    {
        self.pending_payments.get(payment_id)
    }

    /// Opens an account that holds `initial_balance`, as of `timestamp`. An
    /// account opened at the same second before is replaced.
    pub fn create_escrow_at(&mut self, owner: PublicKey, initial_balance: u64, timestamp: u64) -> (
    account: EscrowAccount)
        requires
            old(self).wf(),
        ensures
            final(self).wf(),
            account.is_opened(owner, initial_balance, timestamp),
            account.owner == owner,
            account.balance == initial_balance,
            account.locked_amount == 0,
            account.created_at == timestamp,
            final(self).accounts() == old(self).accounts().insert(
                escrow_id_at(timestamp),
                account,
            ),
            final(self).receipts() == old(self).receipts(),
            final(self).config() == old(self).config(),
            final(self).payments() == old(self).payments(),
    {
        let account = EscrowAccount {
            account_id: prefixed("escrow_", decimal_text(timestamp).as_str()),
            owner,
            balance: initial_balance,
            locked_amount: 0,
            created_at: timestamp,
        };
        self.escrow_accounts.insert(account.account_id.clone(), account.clone());
        assert(self.accounts() == old(self).accounts().insert(account.account_id@, account));
        assert(self.payments() == old(self).payments());
        account
    }

    /// Opens an account that holds `initial_balance`, as of now.
    pub fn create_escrow(&mut self, owner: PublicKey, initial_balance: u64) -> (result: AuriaResult<
        EscrowAccount,
    >)
        requires
            old(self).wf(),
        ensures
            final(self).wf(),
            match result {
                Ok(account) => {
                    &&& account.is_opened(owner, initial_balance, account.created_at)
                    &&& account.owner == owner
                    &&& account.balance == initial_balance
                    &&& account.locked_amount == 0
                    &&& final(self).accounts() == old(self).accounts().insert(
                        escrow_id_at(account.created_at),
                        account,
                    )
                    &&& final(self).receipts() == old(self).receipts()
                    &&& final(self).config() == old(self).config()
                    &&& final(self).payments() == old(self).payments()
                },
                Err(error) => error == AuriaError::ClockBeforeEpoch && *final(self) == *old(self),
            },
    {
        match unix_seconds() {
            Some(timestamp) => Ok(self.create_escrow_at(owner, initial_balance, timestamp)),
            None => Err(AuriaError::ClockBeforeEpoch),
        }
    }

    /// Puts `account` in place of the one that stands under its identifier.
    fn replace_account(&mut self, account_id: &str, account: EscrowAccount)
        requires
            old(self).wf(),
            account.account_id@ == account_id@,
            account.funds() <= u64::MAX,
        ensures
            final(self).wf(),
            final(self).accounts() == old(self).accounts().insert(account_id@, account),
            final(self).receipts() == old(self).receipts(),
            final(self).config() == old(self).config(),
            final(self).payments() == old(self).payments(),
    {
        self.escrow_accounts.insert(account_id.to_owned(), account);
        assert(self.accounts() == old(self).accounts().insert(account_id@, account));
        assert(self.payments() == old(self).payments());
    }

    /// Moves `amount` from an account's balance to its locked funds.
    pub fn lock_funds(&mut self, account_id: &str, amount: u64) -> (result: AuriaResult<()>)
        requires
            old(self).wf(),
        ensures
            final(self).wf(),
            !old(self).accounts().contains_key(account_id@) ==> crate::types::refused(
                result,
                "Account not found"@,
            ) && *final(self) == *old(self),
            old(self).accounts().contains_key(account_id@) && old(
                self,
            ).accounts()[account_id@].balance < amount ==> crate::types::refused(
                result,
                "Insufficient funds"@,
            ) && *final(self) == *old(self),
            old(self).accounts().contains_key(account_id@) && old(
                self,
            ).accounts()[account_id@].balance >= amount ==> result == Ok::<(), AuriaError>(()),
            final(self).accounts() == accounts_after(
                old(self).accounts(),
                account_id@,
                FundsRequest::Lock(amount),
            ),
            result is Ok ==> {
                let before = old(self).accounts()[account_id@];
                let after = final(self).accounts()[account_id@];
                &&& old(self).accounts().contains_key(account_id@)
                &&& final(self).accounts().contains_key(account_id@)
                &&& after.balance == before.balance - amount
                &&& after.locked_amount == before.locked_amount + amount
                &&& after.account_id@ == account_id@
                &&& after.owner == before.owner
                &&& after.created_at == before.created_at
            },
            forall|id: Seq<char>|
                id != account_id@ ==> (#[trigger] final(self).accounts().contains_key(id) == old(
                    self,
                ).accounts().contains_key(id)) && final(self).accounts()[id] == old(
                    self,
                ).accounts()[id],
            final(self).receipts() == old(self).receipts(),
            final(self).config() == old(self).config(),
            final(self).payments() == old(self).payments(),
    {
        let mut account = match self.escrow_accounts.get(account_id) {
            Some(account) => account.clone(),
            None => {
                return refusal("Account not found");
            },
        };
        assert(self.accounts().contains_key(account_id@));
        if account.balance < amount {
            assert(self.accounts() =~= accounts_after(
                self.accounts(),
                account_id@,
                FundsRequest::Lock(amount),
            ));
            return refusal("Insufficient funds");
        }
        account.balance = account.balance - amount;
        account.locked_amount = account.locked_amount + amount;
        self.replace_account(account_id, account);
        Ok(())
    }

    /// Moves `amount` from an account's locked funds back to its balance.
    pub fn release_funds(&mut self, account_id: &str, amount: u64) -> (result: AuriaResult<()>)
        requires
            old(self).wf(),
        ensures
            final(self).wf(),
            !old(self).accounts().contains_key(account_id@) ==> crate::types::refused(
                result,
                "Account not found"@,
            ) && *final(self) == *old(self),
            old(self).accounts().contains_key(account_id@) && old(
                self,
            ).accounts()[account_id@].locked_amount < amount ==> crate::types::refused(
                result,
                "Insufficient locked funds"@,
            ) && *final(self) == *old(self),
            old(self).accounts().contains_key(account_id@) && old(
                self,
            ).accounts()[account_id@].locked_amount >= amount ==> result == Ok::<(), AuriaError>(()),
            final(self).accounts() == accounts_after(
                old(self).accounts(),
                account_id@,
                FundsRequest::Release(amount),
            ),
            result is Ok ==> {
                let before = old(self).accounts()[account_id@];
                let after = final(self).accounts()[account_id@];
                &&& old(self).accounts().contains_key(account_id@)
                &&& final(self).accounts().contains_key(account_id@)
                &&& after.balance == before.balance + amount
                &&& after.locked_amount == before.locked_amount - amount
                &&& after.account_id@ == account_id@
                &&& after.owner == before.owner
                &&& after.created_at == before.created_at
            },
            forall|id: Seq<char>|
                id != account_id@ ==> (#[trigger] final(self).accounts().contains_key(id) == old(
                    self,
                ).accounts().contains_key(id)) && final(self).accounts()[id] == old(
                    self,
                ).accounts()[id],
            final(self).receipts() == old(self).receipts(),
            final(self).config() == old(self).config(),
            final(self).payments() == old(self).payments(),
    {
        let mut account = match self.escrow_accounts.get(account_id) {
            Some(account) => account.clone(),
            None => {
                return refusal("Account not found");
            },
        };
        assert(self.accounts().contains_key(account_id@));
        if account.locked_amount < amount {
            assert(self.accounts() =~= accounts_after(
                self.accounts(),
                account_id@,
                FundsRequest::Release(amount),
            ));
            return refusal("Insufficient locked funds");
        }
        account.locked_amount = account.locked_amount - amount;
        account.balance = account.balance + amount;
        self.replace_account(account_id, account);
        Ok(())
    }

    /// The escrow account with the given identifier.
    pub fn get_escrow(&self, account_id: &str) -> (account: Option<&EscrowAccount>)
        ensures
            match account {
                Some(account) => self.accounts().contains_key(account_id@) && *account
                    == self.accounts()[account_id@],
                None => !self.accounts().contains_key(account_id@),
            },
    {
        self.escrow_accounts.get(account_id)
    }

    /// The rewards for `receipts` at the given stake: for each request
    /// identifier, in hexadecimal, the sum of its receipts' rewards.
    pub fn calculate_node_rewards(&self, receipts: &[UsageReceipt], node_stake: u64) -> (rewards:
        Vec<(String, u64)>)
        requires
            crate::rewards::rewards_fit(crate::types::receipt_views(receipts@), node_stake),
        ensures
            crate::rewards::lists(
                rewards@,
                crate::rewards::node_rewards(
                    crate::types::receipt_views(receipts@),
                    node_stake,
                ),
            ),
            crate::rewards::entries_total(rewards@) == crate::rewards::total_reward(
                crate::types::receipt_views(receipts@),
                node_stake,
            ),
    {
        checked_node_rewards(receipts, node_stake).unwrap()
    }
}

} // verus!
