use privl1_crypto::point::Point;

#[test]
fn test_point_identity() {
    let id = Point::identity();
    assert!(id.is_identity());
}

#[test]
fn test_point_generator() {
    let g = Point::generator();
    assert!(!g.is_identity());
}

#[test]
fn test_point_arithmetic() {
    let g = Point::generator();
    let double_g = g.add(&g);
    let id = g.sub(&g);

    assert!(id.is_identity());
    assert!(!double_g.is_identity());
    assert_ne!(double_g, g);
}

#[test]
fn test_point_codec_roundtrip() {
    let g = Point::generator();
    let bytes = g.to_bytes();
    let recovered = Point::from_bytes(&bytes).unwrap();
    assert_eq!(recovered, g);

    // A value with all high bits set is no canonical encoding.
    let bad = [0xffu8; 32];
    assert!(Point::from_bytes(&bad).is_err());
}
