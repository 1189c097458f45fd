use privl1_crypto::keys::{FullKeys, Signature};
use privl1_crypto::PublicKey;

#[test]
fn test_key_derivation() {
    let keys = FullKeys::random();

    // Verify keys are properly derived
    let public2 = keys.spending.public_key();
    assert_eq!(keys.public, public2);

    // Different spending keys should give different public keys
    let keys2 = FullKeys::random();
    assert_ne!(keys.public, keys2.public);
}

#[test]
fn test_deterministic_derivation() {
    let seed = [42u8; 32];

    let keys1 = FullKeys::from_seed(&seed);
    let keys2 = FullKeys::from_seed(&seed);

    // Same seed should give same keys
    assert_eq!(keys1.public, keys2.public);
    assert_eq!(keys1.spending.as_scalar(), keys2.spending.as_scalar());
}

#[test]
fn test_signature() {
    let keys = FullKeys::random();

    let message = b"Hello, PRIVL1!";
    let signature = keys.spending.sign(message);

    // Verify signature
    assert!(keys.public.verify(message, &signature));
}

#[test]
fn test_public_key_serialization() {
    let keys = FullKeys::random();

    let bytes = keys.public.to_bytes();
    let recovered = PublicKey::from_bytes(&bytes).unwrap();

    // Serialization should round-trip
    assert_eq!(bytes.len(), 32);
    assert_eq!(recovered, keys.public);
}

#[test]
fn test_signature_rejects_other_message() {
    let keys = FullKeys::random();
    let signature = keys.spending.sign(b"pay 5");
    assert!(!keys.public.verify(b"pay 500", &signature));
}

#[test]
fn test_signature_codec_roundtrip() {
    let keys = FullKeys::random();
    let signature = keys.spending.sign(b"round trip");
    let bytes = signature.to_bytes();
    assert_eq!(bytes.len(), 64);
    let recovered = Signature::from_bytes(bytes.as_slice()).unwrap();
    assert!(keys.public.verify(b"round trip", &recovered));

    // A truncated encoding is rejected
    assert!(Signature::from_bytes(&bytes.as_slice()[..63]).is_err());
}
