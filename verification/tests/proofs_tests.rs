use privl1_crypto::proofs::{
    AggregatedProof, BindingSignature, Halo2Proof, ProofSystem, ProofVerifier, TransactionProof,
    VerificationKey,
};
use privl1_crypto::CryptoError;

#[test]
fn test_halo2_proof_creation() {
    let halo2 = Halo2Proof::new(vec![1, 2, 3], vec![vec![4, 5, 6]], [7u8; 32]);

    assert_eq!(halo2.size(), 3);
    assert_eq!(halo2.public_inputs.len(), 1);
}

#[test]
fn test_verification_key() {
    let vk = VerificationKey::new(ProofSystem::Halo2, vec![1, 2, 3, 4]);

    assert_eq!(vk.key_type as u8, ProofSystem::Halo2 as u8);
    assert_eq!(vk.key_data, vec![1, 2, 3, 4]);

    let id1 = vk.id();
    let id2 = vk.id();
    assert_eq!(id1, id2); // ID should be deterministic
}

#[test]
fn test_aggregated_proof() {
    let halo2 = Halo2Proof::new(vec![1, 2, 3], vec![], [0u8; 32]);
    let aggregated = AggregatedProof::new(halo2, 100);

    assert_eq!(aggregated.num_proofs, 100);
}

#[test]
fn test_proof_verifier() {
    let mut verifier = ProofVerifier::new();

    let vk = VerificationKey::new(ProofSystem::Halo2, vec![1, 2, 3]);
    let vk_id = vk.id();

    verifier.register_vk(vk);

    let halo2 = Halo2Proof::new(vec![1], vec![], vk_id);

    // Should verify successfully once its key is registered
    assert!(verifier.verify_halo2(&halo2).unwrap());
}

#[test]
fn test_unregistered_key_is_invalid() {
    let verifier = ProofVerifier::new();
    let halo2 = Halo2Proof::new(vec![1], vec![], [9u8; 32]);
    assert!(matches!(
        verifier.verify_halo2(&halo2),
        Err(CryptoError::InvalidProof)
    ));
}

#[test]
fn test_transaction_verification() {
    let verifier = ProofVerifier::new();
    let tx = TransactionProof {
        spend_proofs: vec![],
        output_proofs: vec![],
        binding_sig: BindingSignature { signature: vec![0u8; 64], value_balance: 0 },
    };
    // No per-note proofs; the binding declaration decides.
    assert!(verifier.verify_transaction(&tx).unwrap());

    let unbalanced = TransactionProof {
        spend_proofs: vec![],
        output_proofs: vec![],
        binding_sig: BindingSignature { signature: vec![0u8; 64], value_balance: 5 },
    };
    assert!(!verifier.verify_transaction(&unbalanced).unwrap());
}
