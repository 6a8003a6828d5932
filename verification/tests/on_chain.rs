use auria_settlement::blockchain::{
    compute_merkle_root, generate_receipt_id_at, signature_text, signing_payload,
};
use auria_settlement::text::parse_quantity;
use auria_settlement::{
    AuriaError, ExpertId, OnChainSettlement, OnChainSettlementConfig, PendingReceipt, RequestId,
    SettlementStep, SettlementSubmissionStatus, UsageStats,
};
use sha3::{Digest, Keccak256};

fn usage(tokens: u64) -> UsageStats {
    UsageStats { tokens_generated: tokens, tokens_processed: 0 }
}

fn settlement(connected: bool, required: u32) -> OnChainSettlement {
    let mut config = OnChainSettlementConfig::default();
    config.min_receipts_for_settlement = required;
    OnChainSettlement::new(config, connected)
}

fn refusal(text: &str) -> AuriaError {
    AuriaError::ExecutionError(text.to_string())
}

fn pending(id: u8, token_count: u64, timestamp: u64) -> PendingReceipt {
    PendingReceipt { request_id: RequestId([id; 16]), expert_ids: vec![], token_count, timestamp }
}

fn hashed(parts: &[&[u8]]) -> Vec<u8> {
    let mut hasher = Keccak256::new();
    for part in parts {
        hasher.update(part);
    }
    hasher.finalize().to_vec()
}

fn leaf(receipt: &PendingReceipt) -> Vec<u8> {
    hashed(&[
        &receipt.request_id.0,
        &receipt.token_count.to_le_bytes(),
        &receipt.timestamp.to_le_bytes(),
    ])
}

#[test]
fn test_on_chain_settlement_creation() {
    let config = OnChainSettlementConfig::default();
    let settlement = OnChainSettlement::new(config, false);
    assert!(!settlement.is_connected());
    assert_eq!(settlement.get_pending_receipt_count(), 0);
    assert!(settlement.get_submission_history().is_empty());
}

#[test]
fn test_receipt_id_generation() {
    let request_id = RequestId([1u8; 16]);
    let mut hasher = Keccak256::new();
    hasher.update(&request_id.0);
    let hash = hasher.finalize();
    assert_eq!(hash.len(), 32);

    let receipt_id = settlement(true, 1).generate_receipt_id(&request_id).unwrap();
    assert_eq!(receipt_id.len(), 34);
    assert!(receipt_id.starts_with("0x"));
}

#[test]
fn default_configuration() {
    let config = OnChainSettlementConfig::default();
    assert_eq!(config.rpc_url, "http://localhost:8545");
    assert_eq!(config.settlement_contract_address, "0x0000000000000000000000000000000000000000");
    assert!(config.wallet_mnemonic.is_none());
    assert_eq!(config.chain_id, 1);
    assert_eq!(config.settlement_interval_seconds, 3600);
    assert_eq!(config.min_receipts_for_settlement, 10);
    assert!(!config.auto_settle);
    assert!(config.settle_on_threshold);
    assert_eq!(config.threshold_receipts, 100);
}

#[test]
fn receipt_id_is_half_a_digest() {
    let expected = hashed(&[&[1u8; 16], &1700000000u64.to_le_bytes()]);
    let id = generate_receipt_id_at(&RequestId([1u8; 16]), 1700000000);
    assert_eq!(id, format!("0x{}", hex::encode(&expected[..16])));
}

#[test]
fn batch_root_is_that_of_the_tree() {
    assert_eq!(compute_merkle_root(&[]), "0x");
    let batch = [pending(1, 10, 100), pending(2, 20, 200), pending(3, 30, 300)];
    let ab = hashed(&[&leaf(&batch[0]), &leaf(&batch[1])]);
    let cc = hashed(&[&leaf(&batch[2]), &leaf(&batch[2])]);
    let root = hashed(&[&ab, &cc]);
    assert_eq!(compute_merkle_root(&batch), format!("0x{}", hex::encode(root)));
    assert_eq!(
        compute_merkle_root(&batch[..1]),
        format!("0x{}", hex::encode(leaf(&batch[0])))
    );
}

#[test]
fn batch_root_leaves_the_experts_out() {
    let mut other = pending(1, 10, 100);
    other.expert_ids = vec![ExpertId([9u8; 32])];
    let root = compute_merkle_root(&[pending(1, 10, 100)]);
    assert_eq!(compute_merkle_root(&[other]), root);
    assert_ne!(compute_merkle_root(&[pending(1, 10, 101)]), root);
    assert_ne!(compute_merkle_root(&[pending(1, 11, 100)]), root);
    assert_ne!(compute_merkle_root(&[pending(2, 10, 100)]), root);
}

#[test]
fn payload_holds_requests_and_token_counts() {
    let payload = signing_payload(&[pending(1, 258, 100), pending(2, 1, 200)]);
    let mut expected = vec![1u8; 16];
    expected.extend_from_slice(&[2, 1, 0, 0, 0, 0, 0, 0]);
    expected.extend_from_slice(&[2u8; 16]);
    expected.extend_from_slice(&[1, 0, 0, 0, 0, 0, 0, 0]);
    assert_eq!(payload, expected);
    assert_eq!(signature_text("beef"), "0xbeef");
}

#[test]
fn different_batches_are_signed_and_rooted_differently() {
    let one = [pending(1, 5, 100)];
    let two = [pending(1, 5, 100), pending(1, 5, 100)];
    let more_tokens = [pending(1, 6, 100)];
    let later = [pending(1, 5, 101)];
    assert_ne!(signing_payload(&one), signing_payload(&two));
    assert_ne!(signing_payload(&one), signing_payload(&more_tokens));
    assert_eq!(signing_payload(&one), signing_payload(&later));
    assert_ne!(compute_merkle_root(&one), compute_merkle_root(&two));
    assert_ne!(compute_merkle_root(&one), compute_merkle_root(&more_tokens));
    assert_ne!(compute_merkle_root(&one), compute_merkle_root(&later));
}

#[test]
fn quantities_are_hexadecimal() {
    assert_eq!(parse_quantity("0x5208"), 21000);
    assert_eq!(parse_quantity("5208"), 21000);
    assert_eq!(parse_quantity("0x0xFf"), 255);
    assert_eq!(parse_quantity("0x+a"), 10);
    assert_eq!(parse_quantity("0x0000000000000000000000001"), 1);
    assert_eq!(parse_quantity("0xffffffffffffffff"), 18446744073709551615);
    for text in ["", "0x", "0x+", "+0x1", "-1", "0x1g", " 1", "1_0", "0X1", "0x10000000000000000"] {
        assert_eq!(parse_quantity(text), 0);
    }
    // As std reads them.
    for text in ["0x5208", "+", "0x+a", "+-1", "0xAbC", "\u{661}", "0xfffffffffffffffff", "00x1"] {
        let read = u64::from_str_radix(text.trim_start_matches("0x"), 16).unwrap_or(0);
        assert_eq!(parse_quantity(text), read);
    }
}

#[test]
fn an_answer_connects_and_silence_does_not_disconnect() {
    let mut settlement = settlement(false, 1);
    assert_eq!(settlement.connect(false), Ok(false));
    assert!(!settlement.is_connected());
    assert_eq!(settlement.ensure_connected(), Err(refusal("Not connected to blockchain")));
    assert_eq!(settlement.connect(true), Ok(true));
    assert!(settlement.is_connected());
    assert_eq!(settlement.connect(false), Ok(false));
    assert!(settlement.is_connected());
    assert_eq!(settlement.ensure_connected(), Ok(()));
}

#[test]
fn the_threshold_makes_settlement_due() {
    let mut config = OnChainSettlementConfig::default();
    config.threshold_receipts = 2;
    let mut settlement = OnChainSettlement::new(config, true);
    let added = settlement.add_receipt(RequestId([1u8; 16]), vec![], usage(5)).unwrap();
    assert!(!added.threshold_reached);
    assert_eq!(added.receipt_id.len(), 34);
    assert!(settlement.add_receipt_at(RequestId([2u8; 16]), vec![], usage(5), 10));
    assert_eq!(settlement.get_pending_receipt_count(), 2);

    let mut config = OnChainSettlementConfig::default();
    config.threshold_receipts = 0;
    config.settle_on_threshold = false;
    let mut settlement = OnChainSettlement::new(config, true);
    assert!(!settlement.add_receipt_at(RequestId([2u8; 16]), vec![], usage(5), 10));
}

#[test]
fn settlement_is_refused_while_it_cannot_begin() {
    let mut apart = settlement(false, 0);
    assert_eq!(
        apart.trigger_settlement("0xnode".to_string()).unwrap_err(),
        refusal("Not connected to blockchain")
    );
    let mut few = settlement(true, 10);
    few.add_receipt_at(RequestId([1u8; 16]), vec![], usage(5), 10);
    assert_eq!(
        few.trigger_settlement("0xnode".to_string()).unwrap_err(),
        refusal("Not enough receipts for settlement (have 1, need 10)")
    );
    assert!(few.get_submission_history().is_empty());
    assert_eq!(few.get_pending_receipt_count(), 1);
}

#[test]
fn settlement_begins_with_a_pending_submission() {
    let mut settlement = settlement(true, 2);
    settlement.add_receipt_at(RequestId([1u8; 16]), vec![], usage(10), 100);
    settlement.add_receipt_at(RequestId([2u8; 16]), vec![], usage(20), 200);
    let request = settlement
        .begin_settlement("0xnode".to_string(), "some-uuid", &[7, 8], 300, 301)
        .unwrap();
    let batch = [pending(1, 10, 100), pending(2, 20, 200)];
    assert_eq!(request.receipt_id, "sub_some-uuid");
    assert_eq!(
        request.event_ids,
        vec![
            generate_receipt_id_at(&RequestId([1u8; 16]), 7),
            generate_receipt_id_at(&RequestId([2u8; 16]), 8),
        ]
    );
    assert_eq!(request.node_identity, "0xnode");
    assert_eq!(request.timestamp, 301);
    assert_eq!(request.payload, signing_payload(&batch));

    let history = settlement.get_submission_history();
    assert_eq!(history.len(), 1);
    assert_eq!(history[0].submission_id, "sub_some-uuid");
    assert_eq!(history[0].tx_hash, "");
    assert_eq!(history[0].receipt_count, 2);
    assert_eq!(history[0].merkle_root, compute_merkle_root(&batch));
    assert_eq!(history[0].status, SettlementSubmissionStatus::Pending);
    assert_eq!(history[0].submitted_at, 300);
    assert_eq!(history[0].confirmed_at, None);
    assert_eq!(history[0].gas_used, None);
    assert_eq!(settlement.get_pending_receipt_count(), 2);
}

#[test]
fn submissions_are_named_by_random_uuids() {
    let mut settlement = settlement(true, 1);
    settlement.add_receipt_at(RequestId([1u8; 16]), vec![], usage(10), 100);
    let first = settlement.trigger_settlement("0xnode".to_string()).unwrap();
    let second = settlement.trigger_settlement("0xnode".to_string()).unwrap();
    assert_ne!(first.receipt_id, second.receipt_id);
    let uuid = first.receipt_id.strip_prefix("sub_").unwrap();
    assert_eq!(uuid::Uuid::parse_str(uuid).unwrap().get_version_num(), 4);
    assert_eq!(uuid, uuid::Uuid::parse_str(uuid).unwrap().to_string());
    assert_eq!(first.event_ids.len(), 1);
    assert_eq!(settlement.get_submission_history()[0].submission_id, first.receipt_id);
}

#[test]
fn a_mined_batch_counts_and_clears_the_receipts() {
    let mut settlement = settlement(true, 1);
    settlement.add_receipt_at(RequestId([1u8; 16]), vec![], usage(10), 100);
    settlement.add_receipt_at(RequestId([2u8; 16]), vec![], usage(10), 100);
    settlement.trigger_settlement("0xnode".to_string()).unwrap();
    assert_eq!(settlement.total_settled(), Some(0));
    let step = settlement.submission_accepted("0xabc".to_string());
    match step {
        SettlementStep::AwaitTransaction { submission_idx, tx_hash, timeout_seconds } => {
            assert_eq!(submission_idx, 0);
            assert_eq!(tx_hash, "0xabc");
            assert_eq!(timeout_seconds, 120);
        }
        SettlementStep::Settled { .. } => panic!("the transaction is still to be mined"),
    }
    let history = settlement.get_submission_history();
    assert_eq!(history[0].status, SettlementSubmissionStatus::Submitted);
    assert_eq!(history[0].tx_hash, "0xabc");
    assert_eq!(settlement.total_settled(), Some(0));
    assert_eq!(settlement.get_pending_receipt_count(), 2);

    settlement.transaction_mined_at(0, "0x5208", 400);
    let history = settlement.get_submission_history();
    assert_eq!(history[0].status, SettlementSubmissionStatus::Confirmed);
    assert_eq!(history[0].gas_used, Some(21000));
    assert_eq!(history[0].confirmed_at, Some(400));
    assert_eq!(settlement.total_settled(), Some(2));
    assert_eq!(settlement.get_pending_receipt_count(), 0);

    settlement.transaction_mined(0, "nonsense").unwrap();
    assert_eq!(settlement.total_settled(), Some(2));
    assert_eq!(settlement.get_submission_history()[0].gas_used, Some(0));
    settlement.transaction_mined_at(5, "0x1", 500);
    assert_eq!(settlement.get_submission_history().len(), 1);
}

#[test]
fn a_batch_without_a_transaction_is_settled_at_once() {
    let mut settlement = settlement(true, 1);
    settlement.add_receipt_at(RequestId([1u8; 16]), vec![], usage(10), 100);
    settlement.trigger_settlement("0xnode".to_string()).unwrap();
    let step = settlement.submission_accepted(String::new());
    assert!(matches!(step, SettlementStep::Settled { tx_hash } if tx_hash.is_empty()));
    assert_eq!(settlement.get_pending_receipt_count(), 0);
    assert_eq!(
        settlement.get_submission_history()[0].status,
        SettlementSubmissionStatus::Submitted
    );
    assert_eq!(settlement.total_settled(), Some(0));
}

#[test]
fn a_refused_batch_keeps_the_receipts() {
    let mut settlement = settlement(true, 1);
    settlement.submission_rejected("nothing was submitted".to_string());
    assert!(settlement.get_submission_history().is_empty());
    settlement.add_receipt_at(RequestId([1u8; 16]), vec![], usage(10), 100);
    settlement.trigger_settlement("0xnode".to_string()).unwrap();
    settlement.submission_rejected("out of gas".to_string());
    assert_eq!(
        settlement.get_submission_history()[0].status,
        SettlementSubmissionStatus::Failed("out of gas".to_string())
    );
    assert_eq!(settlement.get_pending_receipt_count(), 1);
    assert_eq!(settlement.total_settled(), Some(0));
}

#[test]
fn status_reports_the_state_and_the_chain() {
    let mut settlement = settlement(false, 1);
    let status = settlement.get_status("0xw".to_string(), Some(5), Some("0xff".to_string())).unwrap();
    assert!(!status.is_connected);
    assert_eq!(status.chain_id, 1);
    assert_eq!(status.wallet_address, "0xw");
    assert_eq!(status.contract_address, "0x0000000000000000000000000000000000000000");
    assert_eq!(status.pending_receipts, 0);
    assert_eq!(status.total_settled, 0);
    assert_eq!(status.last_settlement_block, None);
    assert_eq!(status.last_settlement_time, None);
    assert_eq!(status.pending_rewards, 0);

    settlement.connect(true).unwrap();
    settlement.add_receipt_at(RequestId([1u8; 16]), vec![], usage(10), 100);
    settlement.begin_settlement("0xnode".to_string(), "u", &[1], 300, 301).unwrap();
    settlement.submission_accepted("0xabc".to_string());
    settlement.transaction_mined_at(0, "0x1", 400);
    settlement.add_receipt_at(RequestId([1u8; 16]), vec![], usage(10), 100);
    let status = settlement.get_status("0xw".to_string(), Some(5), Some("0xff".to_string())).unwrap();
    assert!(status.is_connected);
    assert_eq!(status.pending_receipts, 1);
    assert_eq!(status.total_settled, 1);
    assert_eq!(status.last_settlement_block, Some(5));
    assert_eq!(status.last_settlement_time, Some(300));
    assert_eq!(status.pending_rewards, 255);
    let status = settlement.get_status(String::new(), None, None).unwrap();
    assert_eq!(status.last_settlement_block, None);
    assert_eq!(status.pending_rewards, 0);
}

#[test]
fn history_is_consistent_whatever_became_of_the_batches() {
    let mut settlement = settlement(true, 1);
    settlement.add_receipt_at(RequestId([1u8; 16]), vec![], usage(10), 100);
    settlement.trigger_settlement("0xnode".to_string()).unwrap();
    settlement.submission_rejected("out of gas".to_string());

    settlement.trigger_settlement("0xnode".to_string()).unwrap();
    settlement.submission_accepted("0xa".to_string());

    settlement.trigger_settlement("0xnode".to_string()).unwrap();
    settlement.submission_accepted(String::new());

    settlement.add_receipt_at(RequestId([2u8; 16]), vec![], usage(10), 200);
    settlement.add_receipt_at(RequestId([3u8; 16]), vec![], usage(10), 200);
    settlement.trigger_settlement("0xnode".to_string()).unwrap();
    settlement.submission_accepted("0xb".to_string());
    settlement.transaction_mined_at(3, "0x5208", 300);

    let history = settlement.get_submission_history();
    let statuses: Vec<SettlementSubmissionStatus> =
        history.iter().map(|submission| submission.status.clone()).collect();
    assert_eq!(
        statuses,
        vec![
            SettlementSubmissionStatus::Failed("out of gas".to_string()),
            SettlementSubmissionStatus::Submitted,
            SettlementSubmissionStatus::Submitted,
            SettlementSubmissionStatus::Confirmed,
        ]
    );
    let transactions: Vec<&str> =
        history.iter().map(|submission| submission.tx_hash.as_str()).collect();
    assert_eq!(transactions, vec!["", "0xa", "", "0xb"]);
    let counts: Vec<u32> = history.iter().map(|submission| submission.receipt_count).collect();
    assert_eq!(counts, vec![1, 1, 1, 2]);
    for submission in &history[..3] {
        assert_eq!((submission.confirmed_at, submission.gas_used), (None, None));
    }
    assert_eq!((history[3].confirmed_at, history[3].gas_used), (Some(300), Some(21000)));
}
