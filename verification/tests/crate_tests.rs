use privl1_crypto::merkle::MerkleRoot;
use privl1_crypto::CryptoError;

#[test]
fn test_crypto_module_imports() {
    // Basic smoke test to ensure module structure is correct
    assert_eq!(std::mem::size_of::<CryptoError>(), std::mem::size_of::<CryptoError>());
}

#[test]
fn test_error_messages() {
    assert_eq!(CryptoError::DoubleSpend.message(), "double spend detected");
    assert_eq!(CryptoError::TreeFull.message(), "tree is full");
}

#[test]
fn test_root_hex() {
    let root = MerkleRoot::from_bytes([0x0fu8; 32]);
    let expected = "0f0f0f0f0f0f0f0f0f0f0f0f0f0f0f0f0f0f0f0f0f0f0f0f0f0f0f0f0f0f0f0f";
    assert_eq!(root.to_hex(), expected.to_string());
}
