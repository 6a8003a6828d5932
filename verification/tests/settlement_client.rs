use auria_settlement::{
    AuriaError, ExpertId, MerkleProof, PaymentStatus, PublicKey, RequestId, SettlementClient, SettlementConfig,
    Signature, UsageReceipt, UsageStats,
};
use sha3::{Digest, Keccak256};
use uuid::Uuid;

fn client() -> SettlementClient {
    SettlementClient::new(SettlementConfig::default())
}

fn refusal(text: &str) -> AuriaError {
    AuriaError::ExecutionError(text.to_string())
}

fn usage() -> UsageStats {
    UsageStats { tokens_generated: 100, tokens_processed: 50 }
}

fn receipt(id: u8, token_count: u64, timestamp: u64) -> UsageReceipt {
    UsageReceipt {
        request_id: RequestId([id; 16]),
        expert_ids: vec![],
        token_count,
        timestamp,
        node_signature: Signature([0u8; 64]),
    }
}

fn keccak(data: &[u8]) -> [u8; 32] {
    Keccak256::digest(data).into()
}

fn node(left: [u8; 32], right: [u8; 32]) -> [u8; 32] {
    let mut combined = left.to_vec();
    combined.extend_from_slice(&right);
    keccak(&combined)
}

#[test]
fn test_settlement_client_creation() {
    let config = SettlementConfig::default();
    let client = SettlementClient::new(config);

    let count = client.get_receipt_count();
    assert_eq!(count, 0);
}

#[test]
fn test_generate_receipt() {
    let mut client = client();

    let request_id = RequestId(Uuid::new_v4().into_bytes());
    let usage = UsageStats { tokens_generated: 100, tokens_processed: 50 };

    let result = client.generate_receipt(request_id, vec![], usage);

    assert!(result.is_ok());
    assert_eq!(result.unwrap().token_count, 100);

    let count = client.get_receipt_count();
    assert_eq!(count, 1);
}

#[test]
fn test_build_merkle_tree() {
    let client = client();

    let root = client.build_merkle_tree();
    assert!(root.is_ok());
    assert_eq!(root.unwrap().0, [0u8; 32]);
}

#[test]
fn test_clear_receipts() {
    let mut client = client();

    let request_id = RequestId(Uuid::new_v4().into_bytes());
    let usage = UsageStats { tokens_generated: 100, tokens_processed: 50 };

    client.generate_receipt(request_id, vec![], usage).unwrap();

    let count = client.get_receipt_count();
    assert_eq!(count, 1);

    client.clear_receipts();

    let count = client.get_receipt_count();
    assert_eq!(count, 0);
}

#[test]
fn lib_test_payment_creation() {
    let mut client = client();
    let recipient = PublicKey([0u8; 32]);

    let payment = client.create_payment(recipient, 100, 100_000).unwrap();

    assert_eq!(payment.token_count, 100);
    assert_eq!(payment.status, PaymentStatus::Pending);
}

#[test]
fn integration_test_payment_creation() {
    let mut client = client();

    let recipient = PublicKey([0u8; 32]);

    let payment = client.create_payment(recipient, 100, 100_000);
    assert!(payment.is_ok());

    let payment = payment.unwrap();
    assert_eq!(payment.token_count, 100);
    assert_eq!(payment.status, PaymentStatus::Pending);
}

#[test]
fn test_payment_processing() {
    let mut client = client();

    let recipient = PublicKey([0u8; 32]);

    let payment = client.create_payment(recipient, 100, 100_000).unwrap();

    let processed = client.process_payment(&payment.payment_id);
    assert!(processed.is_ok());

    let processed = processed.unwrap();
    assert_eq!(processed.status, PaymentStatus::Completed);
    assert!(processed.settled_at.is_some());
}

#[test]
fn lib_test_escrow_creation() {
    let mut client = client();
    let owner = PublicKey([0u8; 32]);

    let account = client.create_escrow(owner, 10_000).unwrap();

    assert_eq!(account.balance, 10_000);
    assert_eq!(account.locked_amount, 0);
}

#[test]
fn integration_test_escrow_creation() {
    let mut client = client();

    let owner = PublicKey([0u8; 32]);

    let account = client.create_escrow(owner, 10000);
    assert!(account.is_ok());

    let account = account.unwrap();
    assert_eq!(account.balance, 10000);
    assert_eq!(account.locked_amount, 0);
}

#[test]
fn test_escrow_lock_release() {
    let mut client = client();
    let owner = PublicKey([0u8; 32]);

    let account = client.create_escrow(owner, 10_000).unwrap();

    client.lock_funds(&account.account_id, 5_000).unwrap();

    let updated = client.get_escrow(&account.account_id).unwrap();

    assert_eq!(updated.balance, 5_000);
    assert_eq!(updated.locked_amount, 5_000);
}

#[test]
fn test_escrow_lock_funds() {
    let mut client = client();

    let owner = PublicKey([0u8; 32]);

    let account = client.create_escrow(owner, 10000).unwrap();

    let result = client.lock_funds(&account.account_id, 5000);
    assert!(result.is_ok());

    let updated = client.get_escrow(&account.account_id).unwrap();

    assert_eq!(updated.balance, 5000);
    assert_eq!(updated.locked_amount, 5000);
}

#[test]
fn test_escrow_release_funds() {
    let mut client = client();

    let owner = PublicKey([0u8; 32]);

    let account = client.create_escrow(owner, 10000).unwrap();

    client.lock_funds(&account.account_id, 5000).unwrap();
    client.release_funds(&account.account_id, 2000).unwrap();

    let updated = client.get_escrow(&account.account_id).unwrap();

    assert_eq!(updated.balance, 7000);
    assert_eq!(updated.locked_amount, 3000);
}

#[test]
fn test_insufficient_funds() {
    let mut client = client();

    let owner = PublicKey([0u8; 32]);

    let account = client.create_escrow(owner, 1000).unwrap();

    let result = client.lock_funds(&account.account_id, 2000);
    assert!(result.is_err());
    assert_eq!(result, Err(refusal("Insufficient funds")));
}

#[test]
fn test_merkle_proof() {
    let receipts = vec![
        UsageReceipt {
            request_id: RequestId([1u8; 16]),
            expert_ids: vec![],
            token_count: 100,
            timestamp: 1000,
            node_signature: Signature([0u8; 64]),
        },
        UsageReceipt {
            request_id: RequestId([2u8; 16]),
            expert_ids: vec![],
            token_count: 200,
            timestamp: 2000,
            node_signature: Signature([0u8; 64]),
        },
    ];

    let client = SettlementClient::new(SettlementConfig::default());
    let root = client.build_merkle_tree_internal(&receipts).unwrap();

    assert_ne!(root.0, [0u8; 32]);
}

#[test]
fn receipt_is_hashed_in_its_json_form() {
    let mut receipt = receipt(7, 18446744073709551615, 1000);
    receipt.expert_ids = vec![ExpertId([255u8; 32]), ExpertId([10u8; 32])];
    let sevens = ["7"; 16].join(",");
    let first = ["255"; 32].join(",");
    let second = ["10"; 32].join(",");
    let zeros = ["0"; 64].join(",");
    let json = format!(
        "{{\"request_id\":[{}],\"expert_ids\":[[{}],[{}]],\"token_count\":18446744073709551615,\"timestamp\":1000,\"node_signature\":[{}]}}",
        sevens, first, second, zeros
    );
    assert_eq!(SettlementClient::compute_receipt_hash(&receipt).0, keccak(json.as_bytes()));
}

#[test]
fn receipt_without_experts_is_hashed_with_an_empty_array() {
    let zeros = ["0"; 64].join(",");
    let ones = ["1"; 16].join(",");
    let json = format!(
        "{{\"request_id\":[{}],\"expert_ids\":[],\"token_count\":0,\"timestamp\":10,\"node_signature\":[{}]}}",
        ones, zeros
    );
    assert_eq!(
        SettlementClient::compute_receipt_hash(&receipt(1, 0, 10)).0,
        keccak(json.as_bytes())
    );
}

#[test]
fn receipts_that_differ_in_one_field_have_different_leaves() {
    let base = SettlementClient::compute_receipt_hash(&receipt(1, 100, 1000));
    let mut signed = receipt(1, 100, 1000);
    signed.node_signature = Signature([1u8; 64]);
    let mut by_expert = receipt(1, 100, 1000);
    by_expert.expert_ids = vec![ExpertId([0u8; 32])];
    for other in [receipt(2, 100, 1000), receipt(1, 10, 1000), receipt(1, 100, 100), signed, by_expert] {
        assert_ne!(SettlementClient::compute_receipt_hash(&other), base);
    }
}

#[test]
fn root_of_three_receipts_repeats_the_last_leaf() {
    let receipts = vec![receipt(1, 1, 1), receipt(2, 2, 2), receipt(3, 3, 3)];
    let leaves: Vec<[u8; 32]> =
        receipts.iter().map(|r| SettlementClient::compute_receipt_hash(r).0).collect();
    let expected = node(node(leaves[0], leaves[1]), node(leaves[2], leaves[2]));
    let root = client().build_merkle_tree_internal(&receipts).unwrap();
    assert_eq!(root.0, expected);
}

#[test]
fn root_of_one_receipt_is_its_leaf() {
    let receipts = vec![receipt(1, 1, 1)];
    let root = client().build_merkle_tree_internal(&receipts).unwrap();
    assert_eq!(root, SettlementClient::compute_receipt_hash(&receipts[0]));
}

#[test]
fn generated_receipt_records_the_usage() {
    let mut client = client();
    let experts = vec![ExpertId([4u8; 32])];
    let receipt = client.generate_receipt_at(RequestId([9u8; 16]), experts, usage(), 77);
    assert_eq!(receipt.request_id, RequestId([9u8; 16]));
    assert_eq!(receipt.expert_ids, vec![ExpertId([4u8; 32])]);
    assert_eq!(receipt.token_count, 100);
    assert_eq!(receipt.timestamp, 77);
    assert_eq!(receipt.node_signature, Signature([0u8; 64]));
    assert_eq!(
        client.build_merkle_tree().unwrap(),
        SettlementClient::compute_receipt_hash(&receipt)
    );
}

#[test]
fn built_root_is_accepted() {
    let mut client = client();
    for id in 0..3u8 {
        client.generate_receipt_at(RequestId([id; 16]), vec![], usage(), 1000);
    }
    let root = client.build_merkle_tree().unwrap();
    let settlement = client.submit_settlement_at(root, 7300).unwrap();
    assert_eq!(settlement.root_hash, root);
    assert_eq!(settlement.receipt_count, 3);
    assert_eq!(settlement.timestamp, 7300);
    assert_eq!(settlement.settlement_period, 2);

    let settlement = client.submit_settlement(root).unwrap();
    assert_eq!(settlement.root_hash, root);
    assert_eq!(settlement.receipt_count, 3);
    assert_eq!(settlement.settlement_period, settlement.timestamp / 3600);
}

#[test]
fn other_roots_are_refused() {
    let mut client = client();
    client.generate_receipt_at(RequestId([1u8; 16]), vec![], usage(), 1000);
    let root = client.build_merkle_tree().unwrap();
    client.generate_receipt_at(RequestId([2u8; 16]), vec![], usage(), 1000);
    assert_eq!(client.submit_settlement(root).unwrap_err(), refusal("Merkle root mismatch"));
    assert_eq!(client.submit_settlement_at(root, 5).unwrap_err(), refusal("Merkle root mismatch"));
}

#[test]
fn no_receipts_are_no_settlement() {
    let client = client();
    let root = client.build_merkle_tree().unwrap();
    assert_eq!(client.submit_settlement(root).unwrap_err(), refusal("No receipts to settle"));
}

#[test]
fn settlement_periods_of_no_length_are_refused() {
    let mut client = SettlementClient::new(SettlementConfig {
        settlement_interval_seconds: 0,
        min_receipts_for_settlement: 10,
        settlement_contract: None,
    });
    let empty = client.build_merkle_tree().unwrap();
    assert_eq!(client.submit_settlement(empty).unwrap_err(), refusal("No receipts to settle"));
    client.generate_receipt_at(RequestId([1u8; 16]), vec![], usage(), 1000);
    assert_eq!(client.submit_settlement(empty).unwrap_err(), refusal("Merkle root mismatch"));
    let root = client.build_merkle_tree().unwrap();
    assert_eq!(client.submit_settlement(root).unwrap_err(), AuriaError::ZeroSettlementInterval);
}

#[test]
fn payment_is_stored_under_its_second() {
    let mut client = client();
    let payment = client.create_payment_at(PublicKey([3u8; 32]), 5, 5_000, 1700000000);
    assert_eq!(payment.payment_id, "pay_1700000000");
    assert_eq!(payment.recipient, PublicKey([3u8; 32]));
    assert_eq!(payment.amount, 5_000);
    assert_eq!(payment.created_at, 1700000000);
    assert_eq!(payment.settled_at, None);
    assert_eq!(client.get_payment("pay_1700000000").unwrap().amount, 5_000);
    assert!(client.get_payment("pay_1700000001").is_none());

    client.create_payment_at(PublicKey([4u8; 32]), 6, 6_000, 1700000000);
    assert_eq!(client.get_payment("pay_1700000000").unwrap().amount, 6_000);
}

#[test]
fn settling_again_moves_the_time() {
    let mut client = client();
    let payment = client.create_payment_at(PublicKey([3u8; 32]), 5, 5_000, 9);
    let first = client.process_payment_at(&payment.payment_id, 10).unwrap();
    assert_eq!(first.settled_at, Some(10));
    let second = client.process_payment_at(&payment.payment_id, 20).unwrap();
    assert_eq!(second.settled_at, Some(20));
    assert_eq!(second.status, PaymentStatus::Completed);
    assert_eq!(second.amount, 5_000);
    assert_eq!(client.get_payment("pay_9").unwrap().settled_at, Some(20));
}

#[test]
fn unknown_payment_is_refused() {
    let mut client = client();
    assert_eq!(client.process_payment("pay_1").unwrap_err(), refusal("Payment not found"));
    assert_eq!(client.process_payment_at("pay_1", 1).unwrap_err(), refusal("Payment not found"));
}

#[test]
fn escrow_refusals_change_nothing() {
    let mut client = client();
    let account = client.create_escrow_at(PublicKey([1u8; 32]), 100, 0);
    assert_eq!(account.account_id, "escrow_0");
    assert_eq!(client.lock_funds("escrow_1", 1), Err(refusal("Account not found")));
    assert_eq!(client.release_funds("escrow_1", 1), Err(refusal("Account not found")));
    assert_eq!(client.lock_funds("escrow_0", 101), Err(refusal("Insufficient funds")));
    assert_eq!(client.release_funds("escrow_0", 1), Err(refusal("Insufficient locked funds")));
    assert_eq!(client.get_escrow("escrow_0").unwrap().balance, 100);
    assert_eq!(client.get_escrow("escrow_0").unwrap().locked_amount, 0);
    assert!(client.get_escrow("escrow_1").is_none());
}

#[test]
fn lock_and_release_undo_each_other() {
    let mut client = client();
    client.create_escrow_at(PublicKey([1u8; 32]), 18446744073709551615, 5);
    client.lock_funds("escrow_5", 18446744073709551615).unwrap();
    assert_eq!(client.get_escrow("escrow_5").unwrap().balance, 0);
    assert_eq!(client.get_escrow("escrow_5").unwrap().locked_amount, 18446744073709551615);
    client.release_funds("escrow_5", 18446744073709551615).unwrap();
    assert_eq!(client.get_escrow("escrow_5").unwrap().balance, 18446744073709551615);
    assert_eq!(client.get_escrow("escrow_5").unwrap().locked_amount, 0);
    client.lock_funds("escrow_5", 0).unwrap();
    assert_eq!(client.get_escrow("escrow_5").unwrap().owner, PublicKey([1u8; 32]));
}

#[test]
fn rewards_are_added_up_by_request() {
    let receipts = vec![receipt(1, 2, 0), receipt(255, 3, 0), receipt(1, 4, 9)];
    let rewards = client().calculate_node_rewards(&receipts, 5_999);
    assert_eq!(
        rewards,
        vec![
            ("01010101010101010101010101010101".to_string(), 30_000),
            ("ffffffffffffffffffffffffffffffff".to_string(), 15_000),
        ]
    );
    assert_eq!(client().calculate_node_rewards(&receipts, 999)[0].1, 0);
    assert_eq!(client().calculate_node_rewards(&[], 5_000), vec![]);
}

#[test]
fn rewards_that_are_too_large_are_refused() {
    let max = 18446744073709551615;
    let stake = 1_000;
    assert!(auria_settlement::rewards::checked_node_rewards(&[receipt(1, max, 0)], 0).is_none());
    assert!(auria_settlement::rewards::checked_node_rewards(&[receipt(1, max / 1000, 0)], 2_000)
        .is_none());
    let large = max / 1000;
    let twice = [receipt(1, large, 0), receipt(1, large, 0)];
    assert!(auria_settlement::rewards::checked_node_rewards(&twice, stake).is_none());
    let apart = [receipt(1, large, 0), receipt(2, large, 0)];
    let rewards = auria_settlement::rewards::checked_node_rewards(&apart, stake).unwrap();
    assert_eq!(rewards[0].1, 18446744073709551000);
    assert_eq!(rewards[1].1, 18446744073709551000);
}

#[test]
fn a_receipt_is_proven_against_the_root() {
    let receipts = [receipt(1, 10, 100), receipt(2, 20, 200), receipt(3, 30, 300)];
    let root = client().build_merkle_tree_internal(&receipts).unwrap();
    let leaves: Vec<auria_settlement::Hash> =
        receipts.iter().map(SettlementClient::compute_receipt_hash).collect();
    let left = auria_settlement::Hash(node(leaves[0].0, leaves[1].0));
    let right = auria_settlement::Hash(node(leaves[2].0, leaves[2].0));
    let paths = [
        vec![leaves[1], right],
        vec![leaves[0], right],
        vec![leaves[2], left],
    ];
    for (i, path) in paths.iter().enumerate() {
        let proof = |leaf_hash| MerkleProof {
            leaf_hash,
            proof_hashes: path.clone(),
            leaf_index: i,
        };
        assert!(proof(leaves[i]).verify(&root));
        let other = SettlementClient::compute_receipt_hash(&receipt(4, 40, 400));
        assert!(!proof(other).verify(&root));
    }
}

#[test]
fn different_receipts_have_different_roots() {
    let root = |receipts: &[UsageReceipt]| client().build_merkle_tree_internal(receipts).unwrap();
    let held = root(&[receipt(1, 10, 100), receipt(2, 20, 200)]);
    assert_ne!(held, root(&[receipt(2, 20, 200), receipt(1, 10, 100)]));
    assert_ne!(held, root(&[receipt(1, 10, 100), receipt(2, 21, 200)]));
    assert_eq!(held, root(&[receipt(1, 10, 100), receipt(2, 20, 200)]));
}

#[test]
fn locks_and_releases_conserve_funds() {
    let mut client = client();
    client.create_escrow_at(PublicKey([1u8; 32]), 1_000, 1);
    client.create_escrow_at(PublicKey([2u8; 32]), 500, 2);
    let expected = [
        ("escrow_1", true, 700, Ok(()), 300, 700),
        ("escrow_1", true, 400, Err(refusal("Insufficient funds")), 300, 700),
        ("escrow_2", true, 500, Ok(()), 0, 500),
        ("escrow_1", false, 250, Ok(()), 550, 450),
        ("escrow_1", false, 451, Err(refusal("Insufficient locked funds")), 550, 450),
        ("escrow_2", false, 1, Ok(()), 1, 499),
    ];
    for (id, lock, amount, result, balance, locked_amount) in expected {
        let answer = if lock {
            client.lock_funds(id, amount)
        } else {
            client.release_funds(id, amount)
        };
        assert_eq!(answer, result);
        let account = client.get_escrow(id).unwrap();
        assert_eq!((account.balance, account.locked_amount), (balance, locked_amount));
        assert_eq!(account.account_id, id);
    }
    let first = client.get_escrow("escrow_1").unwrap();
    assert_eq!(first.balance + first.locked_amount, 1_000);
    assert_eq!(first.owner, PublicKey([1u8; 32]));
    let second = client.get_escrow("escrow_2").unwrap();
    assert_eq!(second.balance + second.locked_amount, 500);
    assert_eq!(second.owner, PublicKey([2u8; 32]));
}

#[test]
fn accounts_of_one_second_share_an_identifier() {
    let mut client = client();
    let first = client.create_escrow_at(PublicKey([1u8; 32]), 10, 7);
    let second = client.create_escrow_at(PublicKey([2u8; 32]), 20, 7);
    let third = client.create_escrow_at(PublicKey([3u8; 32]), 30, 8);
    assert_eq!(first.account_id, second.account_id);
    assert_ne!(second.account_id, third.account_id);
    assert_eq!(client.get_escrow("escrow_7").unwrap().balance, 20);
    assert_eq!(client.get_escrow("escrow_8").unwrap().balance, 30);
}
