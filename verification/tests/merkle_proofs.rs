use auria_settlement::merkle::{combine_hashes, merkle_root};
use auria_settlement::MerkleProof;
use sha3::{Digest, Keccak256};

fn leaf(n: u8) -> auria_settlement::Hash {
    auria_settlement::Hash([n; 32])
}

fn node(left: auria_settlement::Hash, right: auria_settlement::Hash) -> auria_settlement::Hash {
    let mut combined = left.0.to_vec();
    combined.extend_from_slice(&right.0);
    auria_settlement::Hash(Keccak256::digest(&combined).into())
}

#[test]
fn nodes_are_keccak_digests_of_their_children() {
    assert_eq!(combine_hashes(&leaf(1), &leaf(2)), node(leaf(1), leaf(2)));
    assert_ne!(combine_hashes(&leaf(1), &leaf(2)), combine_hashes(&leaf(2), &leaf(1)));
    // Keccak-256 of 64 zero bytes.
    assert_eq!(
        combine_hashes(&leaf(0), &leaf(0)).0[..8],
        [0xad, 0x32, 0x28, 0xb6, 0x76, 0xf7, 0xd3, 0xcd]
    );
}

#[test]
fn proofs_lead_from_each_leaf_to_the_root() {
    let leaves = vec![leaf(1), leaf(2), leaf(3), leaf(4), leaf(5)];
    let ab = node(leaf(1), leaf(2));
    let cd = node(leaf(3), leaf(4));
    let ee = node(leaf(5), leaf(5));
    let abcd = node(ab, cd);
    let eeee = node(ee, ee);
    let root = merkle_root(leaves);
    assert_eq!(root, node(abcd, eeee));

    let paths = [
        vec![leaf(2), cd, eeee],
        vec![leaf(1), cd, eeee],
        vec![leaf(4), ab, eeee],
        vec![leaf(3), ab, eeee],
        vec![leaf(5), ee, abcd],
    ];
    for (i, path) in paths.iter().enumerate() {
        let proof = MerkleProof {
            leaf_hash: leaf(i as u8 + 1),
            proof_hashes: path.clone(),
            leaf_index: i,
        };
        assert!(proof.verify(&root));
        let other_leaf = MerkleProof {
            leaf_hash: leaf(9),
            proof_hashes: path.clone(),
            leaf_index: i,
        };
        assert!(!other_leaf.verify(&root));
    }
    let wrong_place = MerkleProof {
        leaf_hash: leaf(1),
        proof_hashes: vec![leaf(2), cd, eeee],
        leaf_index: 1,
    };
    assert!(!wrong_place.verify(&root));
}

#[test]
fn an_empty_proof_shows_the_leaf_itself() {
    let proof = MerkleProof { leaf_hash: leaf(7), proof_hashes: vec![], leaf_index: 0 };
    assert!(proof.verify(&leaf(7)));
    assert!(!proof.verify(&leaf(8)));
}

#[test]
fn proofs_as_long_as_an_index_are_followed() {
    let mut expected = leaf(1);
    for _ in 0..63 {
        expected = node(expected, leaf(2));
    }
    expected = node(leaf(2), expected);
    let proof = MerkleProof {
        leaf_hash: leaf(1),
        proof_hashes: vec![leaf(2); 64],
        leaf_index: 0x8000_0000_0000_0000,
    };
    assert!(proof.verify(&expected));
}

#[test]
fn the_last_leaf_of_an_odd_tree_counts_twice() {
    assert_eq!(
        merkle_root(vec![leaf(1), leaf(2), leaf(3)]),
        merkle_root(vec![leaf(1), leaf(2), leaf(3), leaf(3)])
    );
    assert_ne!(merkle_root(vec![leaf(1)]), merkle_root(vec![leaf(1), leaf(1)]));
}

#[test]
fn different_leaves_have_different_roots() {
    let root = merkle_root(vec![leaf(1), leaf(2), leaf(3)]);
    assert_ne!(root, merkle_root(vec![leaf(1), leaf(3), leaf(2)]));
    assert_ne!(root, merkle_root(vec![leaf(1), leaf(2), leaf(4)]));
}

#[test]
fn high_bits_of_an_index_are_ignored() {
    let root = merkle_root(vec![leaf(1), leaf(2), leaf(3), leaf(4)]);
    let valid_at = |leaf_index: usize| {
        let proof_hashes = vec![leaf(1), node(leaf(3), leaf(4))];
        MerkleProof { leaf_hash: leaf(2), proof_hashes, leaf_index }.verify(&root)
    };
    assert!(valid_at(1));
    assert!(valid_at(5));
    assert!(valid_at(0xffff_0001));
    assert!(!valid_at(0));
    assert!(!valid_at(2));
    assert!(!valid_at(4));
    assert!(!valid_at(7));
}
