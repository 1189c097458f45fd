use privl1_crypto::primitives::{
    bytes_to_field, ct_eq, field_to_bytes, kdf, random_bytes, random_field, secure_erase,
    xor_bytes,
};

#[test]
fn test_random_field() {
    let f1 = random_field();
    let f2 = random_field();

    // Should produce different values
    assert_ne!(f1, f2);
}

#[test]
fn test_bytes_field_conversion() {
    let bytes = [42u8; 31];
    let field = bytes_to_field(&bytes);
    let recovered = field_to_bytes(&field);

    // First 31 bytes should match (32nd byte is 0 for padding)
    assert_eq!(&recovered[1..32], &bytes[..]);
}

#[test]
fn test_ct_eq() {
    let a = [1u8, 2, 3, 4];
    let b = [1u8, 2, 3, 4];
    let c = [1u8, 2, 3, 5];

    assert!(ct_eq(&a, &b));
    assert!(!ct_eq(&a, &c));
}

#[test]
fn test_xor_bytes() {
    let a = vec![0b11110000, 0b10101010];
    let b = vec![0b00001111, 0b01010101];
    let result = xor_bytes(&a, &b);

    assert_eq!(result, vec![0b11111111, 0b11111111]);
}

#[test]
fn test_kdf() {
    let master = b"master_secret";
    let domain1 = b"domain1";
    let domain2 = b"domain2";

    let key1 = kdf(master, domain1, 32);
    let key2 = kdf(master, domain2, 32);

    // Different domains should produce different keys
    assert_ne!(key1, key2);
    assert_eq!(key1.len(), 32);
}

#[test]
fn test_secure_erase() {
    let mut sensitive = vec![42u8; 32];
    secure_erase(&mut sensitive);

    assert_eq!(sensitive, vec![0u8; 32]);
}

#[test]
fn test_random_bytes_length() {
    let r = random_bytes(17);
    assert_eq!(r.len(), 17);
}
