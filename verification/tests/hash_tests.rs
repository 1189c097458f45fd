use privl1_crypto::hash::{merkle_hash, Blake3Hash, DomainSeparatedHasher, PoseidonHash};

#[test]
fn test_blake3_hash() {
    let data = b"Hello, PRIVL1!";
    let hash1 = Blake3Hash::hash(data);
    let hash2 = Blake3Hash::hash(data);

    // Deterministic
    assert_eq!(hash1, hash2);

    // Different data produces different hash
    let hash3 = Blake3Hash::hash(b"Different data");
    assert_ne!(hash1, hash3);
}

#[test]
fn test_poseidon_hash() {
    let data = b"Test data";
    let hash1 = PoseidonHash::hash_bytes(data);
    let hash1b = PoseidonHash::hash_bytes(data);
    assert_eq!(hash1, hash1b);

    // Test field element hashing
    let field1 = PoseidonHash::from_u64(42);
    let field2 = PoseidonHash::from_u64(123);
    let hash2 = PoseidonHash::hash_two(field1, field2);

    // Should be deterministic
    let hash3 = PoseidonHash::hash_two(field1, field2);
    assert_eq!(hash2, hash3);

    // Different inputs produce different outputs
    let hash4 = PoseidonHash::hash_two(field2, field1);
    assert_ne!(hash2, hash4); // Order matters
}

#[test]
fn test_blake3_is_not_the_input() {
    // The digest of a 32-byte input is never that input itself.
    let data = [0u8; 32];
    assert_ne!(Blake3Hash::hash(&data), Blake3Hash::from_bytes(data));
}

#[test]
fn test_poseidon_exact_values() {
    // hash_two(a, b) cubes a + 2b in the field.
    let zero = PoseidonHash::from_u64(0);
    let one = PoseidonHash::from_u64(1);
    assert_eq!(PoseidonHash::hash_two(one, zero), PoseidonHash::from_u64(1));
    assert_eq!(PoseidonHash::hash_two(zero, one), PoseidonHash::from_u64(8));
    assert_eq!(PoseidonHash::hash_two(one, one), PoseidonHash::from_u64(27));
}

#[test]
fn test_domain_separated_hasher() {
    let data = b"sensitive data";

    let mut hasher1 = DomainSeparatedHasher::new("PRIVL1_NOTE");
    hasher1.update(data);
    let hash1 = hasher1.finalize();

    let mut hasher2 = DomainSeparatedHasher::new("PRIVL1_NULLIFIER");
    hasher2.update(data);
    let hash2 = hasher2.finalize();

    // Same data with different domains should produce different hashes
    assert_ne!(hash1, hash2);
}

#[test]
fn test_merkle_hash() {
    let left = [1u8; 32];
    let right = [2u8; 32];

    let hash1 = merkle_hash(&left, &right);
    let hash2 = merkle_hash(&left, &right);

    // Deterministic
    assert_eq!(hash1, hash2);

    // Order matters
    let hash3 = merkle_hash(&right, &left);
    assert_ne!(hash1, hash3);
}
