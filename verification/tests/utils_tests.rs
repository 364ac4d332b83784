use mpc_node::utils::{
    digest_eq, hash_bytes, hash_field_elements, hash_two, hash_u64, MerkleTree, Transcript,
};

#[test]
fn test_hash_bytes_deterministic() {
    let h1 = hash_bytes(b"hello");
    let h2 = hash_bytes(b"hello");
    assert_eq!(h1, h2);
}

#[test]
fn test_hash_bytes_different_inputs() {
    let h1 = hash_bytes(b"hello");
    let h2 = hash_bytes(b"world");
    assert_ne!(h1, h2);
}

#[test]
fn test_hash_u64_deterministic() {
    let h1 = hash_u64(42);
    let h2 = hash_u64(42);
    assert_eq!(h1, h2);
}

#[test]
fn test_hash_u64_different() {
    let h1 = hash_u64(1);
    let h2 = hash_u64(2);
    assert_ne!(h1, h2);
}

#[test]
fn test_hash_two_order_matters() {
    let a = hash_u64(1);
    let b = hash_u64(2);
    let h1 = hash_two(&a, &b);
    let h2 = hash_two(&b, &a);
    assert_ne!(h1, h2);
}

#[test]
fn test_hash_field_elements() {
    let elems = vec![1u64, 2, 3, 4];
    let h1 = hash_field_elements(&elems);
    let h2 = hash_field_elements(&elems);
    assert_eq!(h1, h2);
}

#[test]
fn test_merkle_tree_single_leaf() {
    let tree = MerkleTree::new(&[42]);
    assert!(!tree.root_hex().is_empty());
}

#[test]
fn test_merkle_tree_root_deterministic() {
    let t1 = MerkleTree::new(&[1, 2, 3, 4]);
    let t2 = MerkleTree::new(&[1, 2, 3, 4]);
    assert_eq!(t1.root(), t2.root());
}

#[test]
fn test_merkle_tree_different_leaves_different_root() {
    let t1 = MerkleTree::new(&[1, 2, 3, 4]);
    let t2 = MerkleTree::new(&[1, 2, 3, 5]);
    assert_ne!(t1.root(), t2.root());
}

#[test]
fn test_merkle_proof_verify() {
    let tree = MerkleTree::new(&[10, 20, 30, 40]);
    let proof = tree.membership_proof(0);
    assert!(MerkleTree::verify_proof(&proof));
}

#[test]
fn test_merkle_proof_all_leaves() {
    let values = vec![10u64, 20, 30, 40, 50, 60, 70, 80];
    let tree = MerkleTree::new(&values);
    for i in 0..values.len() {
        let proof = tree.membership_proof(i);
        assert!(MerkleTree::verify_proof(&proof), "Proof failed for leaf {}", i);
    }
}

#[test]
fn test_merkle_proof_tampered_fails() {
    let tree = MerkleTree::new(&[10, 20, 30, 40]);
    let mut proof = tree.membership_proof(0);
    proof.leaf = hash_u64(999);
    assert!(!MerkleTree::verify_proof(&proof));
}

#[test]
fn test_transcript_deterministic() {
    let mut t1 = Transcript::new("mpc");
    t1.absorb_u64(42);
    let mut t2 = Transcript::new("mpc");
    t2.absorb_u64(42);
    assert_eq!(t1.squeeze_challenge(), t2.squeeze_challenge());
}

#[test]
fn test_transcript_different_inputs() {
    let mut t1 = Transcript::new("mpc");
    t1.absorb_u64(42);
    let mut t2 = Transcript::new("mpc");
    t2.absorb_u64(43);
    assert_ne!(t1.squeeze_challenge(), t2.squeeze_challenge());
}

#[test]
fn test_transcript_squeeze_hash() {
    let mut t = Transcript::new("test");
    t.absorb_u64(100);
    let h = t.squeeze_hash();
    assert_eq!(h.len(), 32);
}

#[test]
fn utils_sha256_known_answer() {
    let h = hash_bytes(b"abc");
    assert_eq!(h[0], 0xba);
    assert_eq!(h[1], 0x78);
    assert_eq!(h[31], 0xad);
}

#[test]
fn utils_hash_two_is_hash_of_concatenation() {
    let a = hash_u64(1);
    let b = hash_u64(2);
    let mut cat = a.to_vec();
    cat.extend_from_slice(&b);
    assert_eq!(hash_two(&a, &b), hash_bytes(&cat));
}

#[test]
fn utils_hash_u64_is_hash_of_le_bytes() {
    assert_eq!(hash_u64(0x0102030405060708), hash_bytes(&[8, 7, 6, 5, 4, 3, 2, 1]));
    assert_eq!(hash_field_elements(&[7]), hash_u64(7));
}

#[test]
fn utils_transcript_absorb_orders_bytes() {
    let mut t1 = Transcript::new("ab");
    t1.absorb(b"cd");
    let t2 = Transcript::new("abcd");
    assert_eq!(t1.squeeze_hash(), t2.squeeze_hash());
    assert_eq!(t2.squeeze_hash(), hash_bytes(b"abcd"));
    let h = hash_bytes(b"abcd");
    assert_eq!(t2.squeeze_challenge(), u64::from_le_bytes([h[0], h[1], h[2], h[3], h[4], h[5], h[6], h[7]]));
}

#[test]
fn utils_merkle_shape() {
    let tree = MerkleTree::new(&[1, 2, 3]);
    assert_eq!(tree.depth, 2);
    assert_eq!(tree.leaves.len(), 3);
    assert_eq!(tree.nodes.len(), 7);
    assert_eq!(tree.nodes[3], [0u8; 32]);
    assert_eq!(tree.nodes[4], hash_two(&tree.nodes[0], &tree.nodes[1]));
    assert_eq!(tree.root(), tree.nodes[6]);
    assert_eq!(tree.root(), hash_two(&tree.nodes[4], &tree.nodes[5]));
}

#[test]
fn utils_merkle_single_leaf_root_is_leaf() {
    let tree = MerkleTree::new(&[42]);
    assert_eq!(tree.depth, 0);
    assert_eq!(tree.root(), hash_u64(42));
    let proof = tree.membership_proof(0);
    assert!(proof.siblings.is_empty());
    assert!(MerkleTree::verify_proof(&proof));
}

#[test]
fn utils_merkle_proof_contents() {
    let tree = MerkleTree::new(&[10, 20, 30, 40]);
    let proof = tree.membership_proof(2);
    assert_eq!(proof.index, 2);
    assert_eq!(proof.leaf, hash_u64(30));
    assert_eq!(proof.siblings.len(), 2);
    assert_eq!(proof.siblings[0], hash_u64(40));
    assert_eq!(proof.siblings[1], tree.nodes[4]);
    assert_eq!(proof.root, tree.root());
}

#[test]
fn utils_merkle_non_power_of_two_all_leaves() {
    let values = vec![5u64, 6, 7, 8, 9];
    let tree = MerkleTree::new(&values);
    for i in 0..values.len() {
        assert!(MerkleTree::verify_proof(&tree.membership_proof(i)));
    }
}

#[test]
fn utils_root_hex_is_lowercase_hex_of_root() {
    let tree = MerkleTree::new(&[1, 2]);
    let root = tree.root();
    let expected: String = root.iter().map(|b| format!("{:02x}", b)).collect();
    assert_eq!(tree.root_hex(), expected);
    assert_eq!(tree.root_hex().len(), 64);
}

#[test]
fn utils_digest_eq() {
    let a = hash_u64(1);
    let b = hash_u64(2);
    assert!(digest_eq(&a, &a));
    assert!(!digest_eq(&a, &b));
}
