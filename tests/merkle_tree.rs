use merkle_claims::{
    compute_leaf_hash, compute_nullifier, generate_secret, hash_pair, leaf_hash_with,
    nullifier_with, poseidon_hash_2, secret_from_nanos, DemoHash, Digest, HashPrimitive,
    MerkleError, MerkleTree, Poseidon2Hash, MAX_LEAVES, TREE_DEPTH,
};

fn entries(n: usize) -> Vec<(String, u64, Digest)> {
    (0..n)
        .map(|i| (format!("wallet{}", i), (i as u64 + 1) * 1_000_000_000, secret_from_nanos(i as u128)))
        .collect()
}

#[test]
fn test_merkle_tree_basic() {
    let secret1 = generate_secret();
    let secret2 = generate_secret();

    let recipients = vec![
        ("wallet1".to_string(), 1_000_000_000u64, secret1),
        ("wallet2".to_string(), 2_000_000_000u64, secret2),
    ];

    let tree = MerkleTree::from_recipients(&recipients).unwrap();

    let root = tree.root();
    assert_ne!(root, [0u8; 32]);

    let proof = tree.get_proof("wallet1");
    assert!(proof.is_some());

    let proof = proof.unwrap();
    assert_eq!(proof.leaf_index, 0);
    assert_eq!(proof.siblings.len(), TREE_DEPTH);
}

#[test]
fn test_nullifier_uniqueness() {
    let secret = generate_secret();

    let null1 = compute_nullifier(&secret, 0);
    let null2 = compute_nullifier(&secret, 1);

    assert_ne!(null1, null2);
}

#[test]
fn build_is_deterministic() {
    let list = entries(5);
    let a = MerkleTree::from_recipients(&list).unwrap();
    let b = MerkleTree::from_recipients(&list).unwrap();
    assert_eq!(a.root(), b.root());
}

#[test]
fn different_amounts_change_the_root() {
    let mut list = entries(3);
    let a = MerkleTree::from_recipients(&list).unwrap();
    list[1].1 += 1;
    let b = MerkleTree::from_recipients(&list).unwrap();
    assert_ne!(a.root(), b.root());
}

#[test]
fn padding_is_the_zero_sentinel() {
    let list = entries(2);
    let tree = MerkleTree::from_recipients(&list).unwrap();
    let proof = tree.get_proof("wallet0").unwrap();
    assert_eq!(proof.siblings[0], compute_leaf_hash("wallet1", 2_000_000_000, &list[1].2));
    let zero = [0u8; 32];
    let empty1 = hash_pair(&zero, &zero);
    let empty2 = hash_pair(&empty1, &empty1);
    assert_eq!(proof.siblings[1], empty1);
    assert_eq!(proof.siblings[2], empty2);
}

#[test]
fn every_proof_leads_to_the_root() {
    let list = entries(7);
    let tree = MerkleTree::from_recipients(&list).unwrap();
    for (i, (wallet, amount, secret)) in list.iter().enumerate() {
        let proof = tree.get_proof(wallet).unwrap();
        assert_eq!(proof.leaf_index, i);
        assert_eq!(proof.leaf, compute_leaf_hash(wallet, *amount, secret));
        assert_eq!(proof.computed_root(&DemoHash), tree.root());
    }
}

#[test]
fn proof_of_last_leaf_has_depth_siblings() {
    let list = entries(MAX_LEAVES);
    let tree = MerkleTree::from_recipients(&list).unwrap();
    let proof = tree.get_proof("wallet255").unwrap();
    assert_eq!(proof.leaf_index, 255);
    assert_eq!(proof.siblings.len(), TREE_DEPTH);
    assert_eq!(proof.computed_root(&DemoHash), tree.root());
}

#[test]
fn capacity_boundary() {
    assert!(MerkleTree::from_recipients(&entries(MAX_LEAVES)).is_ok());
    let err = MerkleTree::from_recipients(&entries(MAX_LEAVES + 1)).unwrap_err();
    assert_eq!(err, MerkleError::TooManyRecipients { count: 257, capacity: 256 });
}

#[test]
fn scenario_two_wallets_depth_eight() {
    let secret_a = secret_from_nanos(11);
    let secret_b = secret_from_nanos(22);
    let list = vec![
        ("walletA".to_string(), 1_000_000_000u64, secret_a),
        ("walletB".to_string(), 2_000_000_000u64, secret_b),
    ];
    let tree = MerkleTree::from_recipients(&list).unwrap();
    let proof = tree.get_proof("walletA").unwrap();
    assert_eq!(proof.leaf_index, 0);
    assert_eq!(proof.siblings.len(), 8);
    assert_eq!(tree.get_leaf_index("walletB"), Some(1));
}

#[test]
fn scenario_nullifiers_of_one_secret_differ() {
    let secret_a = secret_from_nanos(11);
    assert_ne!(compute_nullifier(&secret_a, 0), compute_nullifier(&secret_a, 1));
}

#[test]
fn nullifier_hashes_secret_and_index_bytes() {
    let secret = secret_from_nanos(5);
    assert_eq!(compute_nullifier(&secret, 3), poseidon_hash_2(&secret, &3u64.to_le_bytes()));
}

#[test]
fn unknown_wallet_has_no_proof() {
    let tree = MerkleTree::from_recipients(&entries(3)).unwrap();
    assert!(tree.get_proof("nobody").is_none());
    assert_eq!(tree.get_leaf_index("nobody"), None);
}

#[test]
fn duplicate_wallet_resolves_to_last_entry() {
    let mut list = entries(3);
    list[2].0 = "wallet0".to_string();
    let tree = MerkleTree::from_recipients(&list).unwrap();
    assert_eq!(tree.get_leaf_index("wallet0"), Some(2));
}

#[test]
fn empty_list_builds_all_sentinel_tree() {
    let tree = MerkleTree::from_recipients(&[]).unwrap();
    let mut node = [0u8; 32];
    for _ in 0..TREE_DEPTH {
        node = hash_pair(&node, &node);
    }
    assert_eq!(tree.root(), node);
}

#[test]
fn secret_words_follow_the_clock_reading() {
    let secret = secret_from_nanos(0x0102);
    assert_eq!(&secret[0..8], &[2, 1, 0, 0, 0, 0, 0, 0]);
    assert_eq!(&secret[8..16], &[3, 1, 0, 0, 0, 0, 0, 0]);
    assert_eq!(&secret[16..24], &[4, 1, 0, 0, 0, 0, 0, 0]);
    assert_eq!(&secret[24..32], &[5, 1, 0, 0, 0, 0, 0, 0]);
    let wrapped = secret_from_nanos(u64::MAX as u128);
    assert_eq!(&wrapped[0..8], &[255; 8]);
    assert_eq!(&wrapped[8..16], &[0; 8]);
}

#[test]
fn leaf_hash_depends_on_every_field() {
    let s = secret_from_nanos(1);
    let base = compute_leaf_hash("w", 1, &s);
    assert_ne!(base, compute_leaf_hash("x", 1, &s));
    assert_ne!(base, compute_leaf_hash("w", 2, &s));
    assert_ne!(base, compute_leaf_hash("w", 1, &secret_from_nanos(2)));
}

#[test]
fn poseidon2_tree_proofs_lead_to_its_root() {
    let list = entries(4);
    let tree = MerkleTree::from_recipients_with(&Poseidon2Hash, &list).unwrap();
    let demo = MerkleTree::from_recipients(&list).unwrap();
    assert_ne!(tree.root(), demo.root());
    for (wallet, amount, secret) in list.iter() {
        let proof = tree.get_proof(wallet).unwrap();
        assert_eq!(proof.leaf, leaf_hash_with(&Poseidon2Hash, wallet, *amount, secret));
        assert_eq!(proof.computed_root(&Poseidon2Hash), tree.root());
        assert_ne!(proof.computed_root(&DemoHash), tree.root());
    }
}

#[test]
fn nullifier_under_each_primitive() {
    let secret = secret_from_nanos(9);
    assert_eq!(nullifier_with(&DemoHash, &secret, 4), compute_nullifier(&secret, 4));
    let a = nullifier_with(&Poseidon2Hash, &secret, 0);
    let b = nullifier_with(&Poseidon2Hash, &secret, 1);
    assert_ne!(a, b);
    assert_eq!(a, Poseidon2Hash.combine2(&secret, &0u64.to_le_bytes()));
}

#[test]
fn demo_primitive_is_the_demo_hash() {
    let a = [1u8; 32];
    let b = [2u8; 32];
    assert_eq!(DemoHash.combine2(&a, &b), hash_pair(&a, &b));
    assert_ne!(DemoHash.combine2(&a, &b), DemoHash.combine2(&b, &a));
}
