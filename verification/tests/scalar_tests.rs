use privl1_crypto::scalar::Scalar;

#[test]
fn test_scalar_serialization() {
    let scalar = Scalar::random();

    let bytes = scalar.to_bytes();
    let recovered = Scalar::from_bytes(&bytes).unwrap();

    assert_eq!(scalar, recovered);
}

#[test]
fn test_scalar_arithmetic() {
    let a = Scalar::random();
    let b = Scalar::random();

    let sum = a.add(&b);
    // Addition is commutative and subtraction undoes it.
    assert_eq!(sum, b.add(&a));
    assert_eq!(sum.sub(&b), a);
    assert_ne!(Scalar::one().add(&Scalar::one()), Scalar::one());
}

#[test]
fn test_scalar_decode_rejects_noncanonical() {
    // All bits set encodes a value far above the field order.
    let bad = [0xffu8; 32];
    assert!(Scalar::from_bytes(&bad).is_err());
}

#[test]
fn test_scalar_from_u64() {
    let five = Scalar::from_u64(5);
    let two = Scalar::from_u64(2);
    let three = Scalar::from_u64(3);
    assert_eq!(two.add(&three), five);
    assert_eq!(two.mul(&three), Scalar::from_u64(6));
}
