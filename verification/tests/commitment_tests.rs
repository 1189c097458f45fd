use privl1_crypto::commitment::{Commitment, PedersenCommitment, ValueCommitment};
use privl1_crypto::scalar::Scalar;

#[test]
fn test_pedersen_commitment_basic() {
    let pedersen = PedersenCommitment::new();

    // Commit to a value
    let value = 42u64;
    let (commitment, blinding) = pedersen.commit(value);

    // Verify the commitment
    assert!(pedersen.verify(&commitment, value, &blinding));

    // Wrong value should fail
    assert!(!pedersen.verify(&commitment, value + 1, &blinding));

    // Wrong blinding should fail
    let wrong_blinding = Scalar::random();
    assert!(!pedersen.verify(&commitment, value, &wrong_blinding));
}

#[test]
fn test_commitment_homomorphism() {
    let pedersen = PedersenCommitment::new();

    // Commit to two values
    let value1 = 30u64;
    let value2 = 12u64;
    let (comm1, blind1) = pedersen.commit(value1);
    let (comm2, blind2) = pedersen.commit(value2);

    // Add the commitments
    let sum_comm = comm1.add(&comm2);

    // Create a commitment to the sum
    let sum_value = value1 + value2;
    let sum_blinding = blind1.add(&blind2);
    let expected_sum = pedersen.commit_with_blinding(sum_value, &sum_blinding);

    // The homomorphic property should hold
    assert_eq!(sum_comm, expected_sum);
}

#[test]
fn test_zero_commitment() {
    let zero = PedersenCommitment::zero();
    assert!(zero.is_zero());

    // Adding zero should be identity
    let pedersen = PedersenCommitment::new();
    let (comm, _) = pedersen.commit(42);

    let sum = comm.add(&zero);
    assert_eq!(sum, comm);
}

#[test]
fn test_value_commitment() {
    let asset_id = [1u8; 32];
    let value = 100u64;

    let (value_comm, blinding) = ValueCommitment::new(value, asset_id);

    assert!(value_comm.verify(value, &blinding));
    assert!(!value_comm.verify(value + 1, &blinding));
}

#[test]
fn test_commitment_codec_roundtrip() {
    let pedersen = PedersenCommitment::new();
    let (comm, _) = pedersen.commit(7);

    let bytes = comm.to_bytes();
    let recovered = Commitment::from_bytes(&bytes).unwrap();
    assert_eq!(recovered, comm);
}

#[test]
fn test_commitment_decode_rejects_corrupt() {
    // A value with all high bits set is no canonical point encoding.
    let bad = [0xffu8; 32];
    assert!(Commitment::from_bytes(&bad).is_err());
}
