use privl1_crypto::keys::FullKeys;
use privl1_crypto::CryptoError;
use privl1_crypto::nullifier::{NullifierSet, PersistentNullifierSet};
use privl1_crypto::{Note, Nullifier, NullifierDerivingKey, PedersenCommitment};

#[test]
fn test_nullifier_derivation() {
    let nk = NullifierDerivingKey::random();

    // Create a test note
    let pedersen = PedersenCommitment::new();
    let (commitment, _) = pedersen.commit(100);
    let note = Note::new(100, commitment, [1u8; 32]);

    // Derive nullifier
    let nullifier1 = nk.derive_nullifier(&note, 0);
    let nullifier2 = nk.derive_nullifier(&note, 0);

    // Should be deterministic
    assert_eq!(nullifier1, nullifier2);

    // Different position should give different nullifier
    let nullifier3 = nk.derive_nullifier(&note, 1);
    assert_ne!(nullifier1, nullifier3);
}

#[test]
fn test_nullifier_set() {
    let mut set = NullifierSet::new();
    assert!(set.is_empty());

    let nullifier1 = Nullifier::from_bytes([1u8; 32]);
    let nullifier2 = Nullifier::from_bytes([2u8; 32]);

    // Spend first nullifier
    assert!(set.spend(nullifier1).is_ok());
    assert!(set.is_spent(&nullifier1));
    assert!(!set.is_spent(&nullifier2));

    // Double spend should fail
    assert!(set.spend(nullifier1).is_err());

    // Spend second nullifier
    assert!(set.spend(nullifier2).is_ok());
    assert_eq!(set.len(), 2);
}

#[test]
fn test_batch_spend() {
    let mut set = NullifierSet::new();

    let nullifiers = vec![
        Nullifier::from_bytes([1u8; 32]),
        Nullifier::from_bytes([2u8; 32]),
        Nullifier::from_bytes([3u8; 32]),
    ];

    // Batch spend should succeed
    assert!(set.spend_batch(&nullifiers).is_ok());
    assert_eq!(set.len(), 3);

    // All should be marked as spent
    for n in &nullifiers {
        assert!(set.is_spent(n));
    }

    // Attempting to spend any of them again should fail
    let duplicate = vec![nullifiers[1]];
    assert!(set.spend_batch(&duplicate).is_err());

    // Original set should be unchanged after failed batch
    assert_eq!(set.len(), 3);
}

#[test]
fn test_nullifier_set_persistence() {
    let mut set = NullifierSet::new();

    let nullifiers = vec![
        Nullifier::from_bytes([1u8; 32]),
        Nullifier::from_bytes([2u8; 32]),
        Nullifier::from_bytes([3u8; 32]),
    ];

    set.spend_batch(&nullifiers).unwrap();

    // Save state
    let saved = set.all_nullifiers();

    // Create new set and restore
    let mut new_set = NullifierSet::new();
    new_set.restore(saved);

    // Should have same state
    assert_eq!(new_set.len(), 3);
    for n in &nullifiers {
        assert!(new_set.is_spent(n));
    }
}

#[test]
fn test_nullifier_from_seed() {
    let seed1 = [1u8; 32];
    let seed2 = [2u8; 32];

    let nk1 = NullifierDerivingKey::from_seed(&seed1);
    let nk2 = NullifierDerivingKey::from_seed(&seed1);
    let nk3 = NullifierDerivingKey::from_seed(&seed2);

    // Same seed should give same key (deterministic)
    assert_eq!(nk1.as_scalar(), nk2.as_scalar());

    // Different seed should give different key
    assert_ne!(nk1.as_scalar(), nk3.as_scalar());
}

#[test]
fn test_batch_spend_atomicity() {
    // A batch holding one already-spent nullifier among fresh ones must
    // change nothing.
    let mut set = NullifierSet::new();
    let spent = Nullifier::from_bytes([9u8; 32]);
    set.spend(spent).unwrap();
    assert_eq!(set.len(), 1);

    let fresh1 = Nullifier::from_bytes([10u8; 32]);
    let fresh2 = Nullifier::from_bytes([11u8; 32]);
    let batch = vec![fresh1, spent, fresh2];

    assert!(set.spend_batch(&batch).is_err());
    assert_eq!(set.len(), 1);
    assert!(!set.is_spent(&fresh1));
    assert!(!set.is_spent(&fresh2));

    // A batch repeating a nullifier within itself is rejected too.
    let doubled = vec![fresh1, fresh1];
    assert!(set.spend_batch(&doubled).is_err());
    assert_eq!(set.len(), 1);
}

#[test]
fn test_set_digest_order_independent() {
    let a = Nullifier::from_bytes([3u8; 32]);
    let b = Nullifier::from_bytes([1u8; 32]);
    let c = Nullifier::from_bytes([2u8; 32]);

    let mut s1 = PersistentNullifierSet::open("state-a".to_string()).unwrap();
    s1.spend(a).unwrap();
    s1.spend(b).unwrap();
    s1.spend(c).unwrap();

    let mut s2 = PersistentNullifierSet::open("state-b".to_string()).unwrap();
    s2.spend(c).unwrap();
    s2.spend(b).unwrap();
    s2.spend(a).unwrap();

    assert_eq!(s1.root_hash(), s2.root_hash());

    // And the digest reflects membership.
    let mut s3 = PersistentNullifierSet::open("state-c".to_string()).unwrap();
    s3.spend(a).unwrap();
    assert_ne!(s1.root_hash(), s3.root_hash());
}

#[test]
fn test_spend_flow_end_to_end() {
    // Derive keys from a fixed seed, build a note, derive its nullifier
    // at a position, spend it, and watch the second spend fail.
    let keys = FullKeys::from_seed(&[7u8; 32]);
    let nk = keys.nullifier;

    let note = Note::new_with_owner(
        100,
        keys.public,
        *privl1_crypto::note::AssetId::native().as_bytes(),
    );
    let nullifier = nk.derive_nullifier(&note, 5);

    let mut set = NullifierSet::new();
    assert!(set.spend(nullifier).is_ok());

    let second = set.spend(nullifier);
    assert!(matches!(second, Err(CryptoError::DoubleSpend)));
}

#[test]
fn test_nullifier_hex() {
    let n = Nullifier::from_bytes([0xabu8; 32]);
    let expected = "abababababababababababababababababababababababababababababababab";
    assert_eq!(n.to_hex(), expected.to_string());
    assert_eq!(n.as_bytes(), &[0xabu8; 32]);
}
