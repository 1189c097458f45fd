use privl1_crypto::merkle::{BatchMerkleTree, MerkleProof, MerkleRoot};
use privl1_crypto::IncrementalMerkleTree;

#[test]
fn test_empty_tree() {
    let tree = IncrementalMerkleTree::new();
    assert!(tree.is_empty());
    assert_eq!(tree.num_leaves(), 0);

    let root = tree.root();
    // Empty tree should have a deterministic root
    assert_eq!(root, tree.root());
}

#[test]
fn test_single_leaf() {
    let mut tree = IncrementalMerkleTree::new();
    let leaf = [1u8; 32];

    let position = tree.append(leaf).unwrap();
    assert_eq!(position, 0);
    assert_eq!(tree.num_leaves(), 1);

    let root = tree.root();
    let proof = tree.prove(0).unwrap();
    assert!(proof.verify(&leaf, &root));
}

#[test]
fn test_multiple_leaves() {
    let mut tree = IncrementalMerkleTree::new();
    let leaves = vec![[1u8; 32], [2u8; 32], [3u8; 32], [4u8; 32]];

    for (i, leaf) in leaves.iter().enumerate() {
        let position = tree.append(*leaf).unwrap();
        assert_eq!(position, i as u64);
    }

    let root = tree.root();

    // Verify all leaves
    for (i, leaf) in leaves.iter().enumerate() {
        let proof = tree.prove(i as u64).unwrap();
        assert!(proof.verify(leaf, &root));
    }
}

#[test]
fn test_incremental_updates() {
    let mut tree = IncrementalMerkleTree::new();

    // Add leaves one by one and verify root changes
    let mut roots = Vec::new();

    for i in 0..10 {
        let leaf = [i as u8; 32];
        tree.append(leaf).unwrap();
        roots.push(tree.root());
    }

    // Each root should be different
    for i in 1..roots.len() {
        assert_ne!(roots[i - 1], roots[i]);
    }
}

#[test]
fn test_batch_merkle_tree() {
    let mut batch = BatchMerkleTree::new();

    // Stage multiple leaves
    for i in 0..5 {
        batch.stage([i as u8; 32]);
    }

    // Commit and get positions
    let positions = batch.commit().unwrap();
    assert_eq!(positions.len(), 5);

    for (i, &pos) in positions.iter().enumerate() {
        assert_eq!(pos, i as u64);
    }
}

#[test]
fn test_proof_verification_fails_with_wrong_leaf() {
    let mut tree = IncrementalMerkleTree::new();
    let leaf = [1u8; 32];
    tree.append(leaf).unwrap();

    let root = tree.root();
    let proof = tree.prove(0).unwrap();

    let wrong_leaf = [2u8; 32];
    assert!(!proof.verify(&wrong_leaf, &root));
}

#[test]
fn test_proof_verification_fails_with_wrong_root() {
    let mut tree = IncrementalMerkleTree::new();
    let leaf = [1u8; 32];
    tree.append(leaf).unwrap();

    let proof = tree.prove(0).unwrap();

    let wrong_root = MerkleRoot::from_bytes([99u8; 32]);
    assert!(!proof.verify(&leaf, &wrong_root));
}

#[test]
fn test_root_depends_on_leaf_order() {
    let a = [5u8; 32];
    let b = [6u8; 32];

    let mut t1 = IncrementalMerkleTree::new();
    t1.append(a).unwrap();
    t1.append(b).unwrap();

    let mut t2 = IncrementalMerkleTree::new();
    t2.append(b).unwrap();
    t2.append(a).unwrap();

    let mut t3 = IncrementalMerkleTree::new();
    t3.append(a).unwrap();
    t3.append(b).unwrap();

    assert_ne!(t1.root(), t2.root());
    assert_eq!(t1.root(), t3.root());
}

#[test]
fn test_proof_survives_later_appends() {
    let mut tree = IncrementalMerkleTree::new();
    for i in 0..3 {
        tree.append([i as u8; 32]).unwrap();
    }
    let old_root = tree.root();
    let old_proof = tree.prove(1).unwrap();
    assert!(old_proof.verify(&[1u8; 32], &old_root));

    // Append more leaves; a fresh proof for the old position verifies
    // against the new root, and the old proof still verifies against
    // the root it was produced under.
    for i in 3..9 {
        tree.append([i as u8; 32]).unwrap();
    }
    let new_root = tree.root();
    let new_proof = tree.prove(1).unwrap();
    assert!(new_proof.verify(&[1u8; 32], &new_root));
    assert!(old_proof.verify(&[1u8; 32], &old_root));
}

#[test]
fn test_merkle_proof_codec_roundtrip() {
    let mut tree = IncrementalMerkleTree::new();
    for i in 0..4 {
        tree.append([i as u8; 32]).unwrap();
    }
    let root = tree.root();
    let proof = tree.prove(2).unwrap();

    let bytes = proof.to_bytes();
    assert_eq!(bytes.len(), 1032);
    let recovered = MerkleProof::from_bytes(bytes.as_slice()).unwrap();
    assert_eq!(recovered.position, 2);
    assert!(recovered.verify(&[2u8; 32], &root));

    // A truncated encoding is rejected
    assert!(matches!(
        MerkleProof::from_bytes(&bytes.as_slice()[..1031]),
        Err(privl1_crypto::CryptoError::SerializationError)
    ));
}

#[test]
fn test_batch_root_matches_committed_root() {
    let mut batch = BatchMerkleTree::new();
    batch.stage([1u8; 32]);
    batch.stage([2u8; 32]);
    let provisional = batch.root();
    batch.commit().unwrap();
    assert_eq!(provisional, batch.root());
}

#[test]
fn test_end_to_end_membership() {
    // Build a tree over four arbitrary leaves, prove one, and check
    // that corrupting the proof's first sibling makes it fail.
    let mut tree = IncrementalMerkleTree::new();
    let leaves = [[10u8; 32], [20u8; 32], [30u8; 32], [40u8; 32]];
    for (i, leaf) in leaves.iter().enumerate() {
        let position = tree.append(*leaf).unwrap();
        assert_eq!(position, i as u64);
    }
    let root = tree.root();
    let mut proof = tree.prove(2).unwrap();
    assert!(proof.verify(&leaves[2], &root));

    proof.path[0][0] ^= 1;
    assert!(!proof.verify(&leaves[2], &root));
}

#[test]
fn test_prove_out_of_bounds() {
    let mut tree = IncrementalMerkleTree::new();
    tree.append([1u8; 32]).unwrap();
    assert!(tree.prove(5).is_err());
}
