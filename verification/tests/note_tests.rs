use privl1_crypto::keys::FullKeys;
use privl1_crypto::note::AssetId;
use privl1_crypto::Note;

#[test]
fn test_note_creation() {
    let owner = FullKeys::random().public;

    let note = Note::new_with_owner(100, owner, *AssetId::native().as_bytes());

    assert_eq!(note.value(), 100);
    assert_eq!(note.asset_id(), AssetId::native().as_bytes());
    assert!(note.is_owned_by(&owner));
    assert!(!note.is_dummy());
}

#[test]
fn test_note_commitment() {
    let owner = FullKeys::random().public;

    let note1 = Note::new_with_owner(100, owner, *AssetId::native().as_bytes());
    let note2 = Note::new_with_owner(100, owner, *AssetId::native().as_bytes());

    // Different randomness should give different commitments
    let comm1 = note1.commitment();
    let comm2 = note2.commitment();
    assert_ne!(comm1, comm2);

    // Same note should give same commitment (deterministic)
    let comm1b = note1.commitment();
    assert_eq!(comm1, comm1b);
}

#[test]
fn test_dummy_note() {
    let dummy = Note::dummy();

    assert!(dummy.is_dummy());
    assert_eq!(dummy.value(), 0);
    assert_eq!(dummy.randomness(), &privl1_crypto::scalar::Scalar::zero());
}

#[test]
fn test_note_with_memo() {
    let owner = FullKeys::random().public;

    let memo = b"Payment for services".to_vec();
    let note = Note::new_with_owner(100, owner, *AssetId::native().as_bytes())
        .with_memo(memo.clone());

    assert_eq!(note.memo(), &Some(memo));
}

#[test]
fn test_asset_id() {
    let native = AssetId::native();
    assert_eq!(native.display_string(), "PRIV");

    let custom = AssetId::custom([1u8; 32]);
    assert_ne!(native, custom);

    let contract_addr = [42u8; 20];
    let contract_asset = AssetId::from_contract(&contract_addr);
    assert_eq!(contract_asset.as_bytes()[..20], contract_addr);
}

#[test]
fn test_note_commitment_serialization() {
    let owner = FullKeys::random().public;
    let note = Note::new_with_owner(100, owner, *AssetId::native().as_bytes());

    let commitment = note.commitment();
    let bytes = commitment.to_bytes();
    assert_eq!(bytes.len(), 64); // 32 for commitment + 32 for asset_id

    let hash1 = commitment.hash();
    let hash2 = commitment.hash();
    assert_eq!(hash1, hash2); // Hashing is deterministic
}

#[test]
fn test_note_encryption_roundtrip() {
    let keys = FullKeys::random();
    let transmission_key = keys.viewing.incoming_public();

    let note = Note::new_with_owner(1234, keys.public, *AssetId::native().as_bytes())
        .with_memo(b"thanks".to_vec());
    let encrypted = note.encrypt(&transmission_key);

    let decrypted = Note::decrypt(&encrypted, &keys.viewing).unwrap();
    assert_eq!(decrypted.value(), 1234);
    assert_eq!(decrypted.asset_id(), AssetId::native().as_bytes());
    assert_eq!(decrypted.memo(), &Some(b"thanks".to_vec()));
}

#[test]
fn test_note_decryption_fails_closed() {
    let keys = FullKeys::random();
    let transmission_key = keys.viewing.incoming_public();

    let note = Note::new_with_owner(7, keys.public, *AssetId::native().as_bytes());
    let mut encrypted = note.encrypt(&transmission_key);

    // Corrupt the authentication tag: decryption must fail, not return
    // garbage.
    encrypted.tag[0] ^= 1;
    assert!(matches!(
        Note::decrypt(&encrypted, &keys.viewing),
        Err(privl1_crypto::CryptoError::OperationFailed)
    ));

    // The wrong viewing key fails too.
    let encrypted2 = note.encrypt(&transmission_key);
    let other = FullKeys::random();
    assert!(Note::decrypt(&encrypted2, &other.viewing).is_err());
}
