//! The zero-knowledge proof envelope: proof kinds, the verification-key
//! registry, and per-transaction aggregate verification.
//!
//! The proving systems themselves are collaborators outside this crate;
//! the envelope carries opaque proof bytes, identifies verification keys
//! by the hash of their bytes, and composes many per-proof decisions
//! into one accept-or-reject decision per transaction.

use vstd::prelude::*;

use crate::bytes::bytes32_eq;
use crate::hash::{blake3_of, Blake3Hash};
use crate::CryptoError;

verus! {

/// A zero-knowledge proof, tagged by its proving system.
#[derive(Clone, Debug)]
pub enum Proof {
    /// A proof of the primary algebraic proving system.
    Halo2(Halo2Proof),
    /// A proof of the pairing-based system used for fixed circuits.
    Groth16(Groth16Proof),
    /// A range proof.
    Bulletproofs(BulletproofsRangeProof),
}

/// A proof of the primary proving system: opaque proof bytes, public
/// inputs, and the identifier of the verification key it was made for.
#[derive(Clone, Debug)]
pub struct Halo2Proof {
    /// The opaque proof bytes.
    pub proof_bytes: Vec<u8>,
    /// The public inputs.
    pub public_inputs: Vec<Vec<u8>>,
    /// The identifier of the verification key: the hash of its bytes.
    pub vk_id: [u8; 32],
}

impl Halo2Proof {
    /// Assemble a proof envelope.
    pub fn new(proof_bytes: Vec<u8>, public_inputs: Vec<Vec<u8>>, vk_id: [u8; 32]) -> (r:
        Halo2Proof)
        ensures
            r.proof_bytes@ == proof_bytes@,
            r.public_inputs@ == public_inputs@,
            r.vk_id@ == vk_id@,
    {
        Halo2Proof { proof_bytes, public_inputs, vk_id }
    }

    /// The size of the proof in bytes.
    pub fn size(&self) -> (r: usize)
        ensures
            r == self.proof_bytes@.len(),
    {
        self.proof_bytes.len()
    }

    /// Check the proof against a verification key at the envelope level:
    /// the proof must declare exactly this key. The proving-system
    /// arithmetic itself is carried out by a collaborator outside this
    /// crate.
    pub fn verify(&self, vk: &VerificationKey) -> (r: Result<bool, CryptoError>)
        ensures
            r matches Ok(b) && b == (self.vk_id@ == vk.key_hash@),
    {
        Ok(bytes32_eq(&self.vk_id, &vk.key_hash))
    }
}

/// A proof of the pairing-based system: opaque proof bytes and public
/// inputs.
#[derive(Clone, Debug)]
pub struct Groth16Proof {
    /// The opaque compressed proof bytes.
    pub proof_bytes: Vec<u8>,
    /// The public inputs.
    pub public_inputs: Vec<Vec<u8>>,
}

impl Groth16Proof {
    /// Check the envelope: a proof must at least carry proof bytes. The
    /// pairing arithmetic itself is carried out by a collaborator
    /// outside this crate.
    pub fn verify(&self, vk: &VerificationKey) -> (r: Result<bool, CryptoError>)
        ensures
            r matches Ok(b) && b == (self.proof_bytes@.len() > 0 && vk.key_data@.len() > 0),
    {
        Ok(self.proof_bytes.len() > 0 && vk.key_data.len() > 0)
    }
}

/// A range proof: the committed value lies in `[0, 2^range_bits)`.
#[derive(Clone, Debug)]
pub struct BulletproofsRangeProof {
    /// The opaque proof bytes.
    pub proof_bytes: Vec<u8>,
    /// The commitment to the hidden value.
    pub commitment: [u8; 32],
    /// The bit width of the proven range.
    pub range_bits: u8,
}

/// A verification key: its system, its opaque bytes, and the hash of
/// those bytes, which identifies it in a verifier's registry.
#[derive(Clone, Debug)]
pub struct VerificationKey {
    /// The proving system the key belongs to.
    pub key_type: ProofSystem,
    /// The opaque key bytes.
    pub key_data: Vec<u8>,
    /// The identifier: the hash of the key bytes.
    pub key_hash: [u8; 32],
}

impl VerificationKey {
    /// A key's identifier is a pure hash of its bytes.
    pub open spec fn wf(&self) -> bool {
        self.key_hash@ == blake3_of(self.key_data@)
    }

    /// Wrap key bytes, computing their identifying hash.
    pub fn new(key_type: ProofSystem, key_data: Vec<u8>) -> (r: VerificationKey)
        ensures
            r.key_type == key_type,
            r.key_data@ == key_data@,
            r.key_hash@ == blake3_of(key_data@),
            r.wf(),
    {
        let digest = Blake3Hash::hash(key_data.as_slice());
        let key_hash = *digest.as_bytes();
        VerificationKey { key_type, key_data, key_hash }
    }

    /// The key's identifier.
    pub fn id(&self) -> (r: [u8; 32])
        ensures
            r@ == self.key_hash@,
    {
        self.key_hash
    }
}

/// The proving systems the envelope can carry.
#[derive(Clone, Copy, Debug, PartialEq, Eq, Structural)]
pub enum ProofSystem {
    /// The primary algebraic system.
    Halo2,
    /// The pairing-based system.
    Groth16,
    /// The range-proof system.
    Bulletproofs,
}

/// The proofs of one transaction: one per spent note, one per created
/// note, and the binding signature tying the value balance together.
#[derive(Clone, Debug)]
pub struct TransactionProof {
    /// One proof per spent note.
    pub spend_proofs: Vec<SpendProof>,
    /// One proof per created note.
    pub output_proofs: Vec<OutputProof>,
    /// The binding signature: the declared value commitments must sum
    /// to zero.
    pub binding_sig: BindingSignature,
}

/// The proof accompanying one spent note.
#[derive(Clone, Debug)]
pub struct SpendProof {
    /// The zero-knowledge proof of a valid spend.
    pub halo2: Halo2Proof,
    /// The nullifier revealed by the spend.
    pub nullifier: crate::nullifier::Nullifier,
    /// The accumulator root the spend is anchored to.
    pub anchor: crate::merkle::MerkleRoot,
}

/// The proof accompanying one created note.
#[derive(Clone, Debug)]
pub struct OutputProof {
    /// The zero-knowledge proof of a valid creation.
    pub halo2: Halo2Proof,
    /// The commitment being created.
    pub commitment: crate::note::NoteCommitment,
}

/// The binding signature over a transaction's value balance.
#[derive(Clone, Debug)]
pub struct BindingSignature {
    /// The 64-byte signature bytes.
    pub signature: Vec<u8>,
    /// The declared net value balance; a balanced transaction declares
    /// zero.
    pub value_balance: i64,
}

/// A block-level aggregate of many proofs.
#[derive(Clone, Debug)]
pub struct AggregatedProof {
    /// The aggregated proof.
    pub halo2: Halo2Proof,
    /// How many proofs were aggregated.
    pub num_proofs: u32,
    /// The root of the aggregation tree: the hash of the aggregate
    /// proof bytes.
    pub aggregation_root: [u8; 32],
}

impl AggregatedProof {
    /// Wrap an aggregate proof, computing its aggregation root.
    pub fn new(halo2: Halo2Proof, num_proofs: u32) -> (r: AggregatedProof)
        ensures
            r.num_proofs == num_proofs,
            r.aggregation_root@ == blake3_of(halo2.proof_bytes@),
            r.halo2.proof_bytes@ == halo2.proof_bytes@,
            r.halo2.vk_id@ == halo2.vk_id@,
    {
        let digest = Blake3Hash::hash(halo2.proof_bytes.as_slice());
        let aggregation_root = *digest.as_bytes();
        AggregatedProof { halo2, num_proofs, aggregation_root }
    }

    /// Check the aggregate against a verification key, as a single
    /// proof.
    pub fn verify(&self, vk: &VerificationKey) -> (r: Result<bool, CryptoError>)
        ensures
            r matches Ok(b) && b == (self.halo2.vk_id@ == vk.key_hash@),
    {
        self.halo2.verify(vk)
    }
}

/// The verification context: a registry of verification keys, looked up
/// by identifier.
pub struct ProofVerifier {
    vks: Vec<VerificationKey>,
}

impl ProofVerifier {
    /// Whether a key with this identifier is registered.
    pub closed spec fn registered(&self, id: Seq<u8>) -> bool {
        exists|i: int| 0 <= i < self.vks@.len() && (#[trigger] self.vks@[i]).key_hash@ == id
    }

    /// An empty registry.
    pub fn new() -> (r: ProofVerifier)
        ensures
            forall|id: Seq<u8>| !r.registered(id),
    {
        ProofVerifier { vks: Vec::new() }
    }

    /// Register a verification key under its identifier.
    pub fn register_vk(&mut self, vk: VerificationKey)
        ensures
            forall|id: Seq<u8>|
                final(self).registered(id) <==> (old(self).registered(id) || id == vk.key_hash@),
    {
        let ghost pre = self.vks@;
        self.vks.push(vk);
        proof {
            assert forall|id: Seq<u8>|
                self.registered(id) <==> (old(self).registered(id) || id
                    == vk.key_hash@) by {
                if old(self).registered(id) {
                    let w = choose|w: int|
                        0 <= w < pre.len() && (#[trigger] pre[w]).key_hash@ == id;
                    assert(self.vks@[w].key_hash@ == id);
                }
                if id == vk.key_hash@ {
                    assert(self.vks@[pre.len() as int].key_hash@ == id);
                }
                if self.registered(id) {
                    let w = choose|w: int|
                        0 <= w < self.vks@.len() && (#[trigger] self.vks@[w]).key_hash@ == id;
                    if w < pre.len() {
                        assert(pre[w].key_hash@ == id);
                    }
                }
            }
        }
    }

    /// Look up the key a proof declares; fails with `InvalidProof`
    /// exactly when no key with that identifier is registered.
    fn lookup(&self, id: &[u8; 32]) -> (r: Option<&VerificationKey>)
        ensures
            self.registered(id@) ==> (r matches Some(vk) && vk.key_hash@ == id@),
            !self.registered(id@) ==> r is None,
    {
        let mut i: usize = 0;
        while i < self.vks.len()
            invariant
                i <= self.vks@.len(),
                forall|w: int| 0 <= w < i ==> (#[trigger] self.vks@[w]).key_hash@ != id@,
            decreases self.vks@.len() - i,
        {
            if bytes32_eq(&self.vks[i].key_hash, id) {
                return Some(&self.vks[i]);
            }
            i += 1;
        }
        None
    }

    /// Verify a proof of the primary system: fails with `InvalidProof`
    /// exactly when the declared key is not registered; accepts
    /// otherwise, the registered key being by construction the one the
    /// proof declares.
    pub fn verify_halo2(&self, halo2_proof: &Halo2Proof) -> (r: Result<bool, CryptoError>)
        ensures
            self.registered(halo2_proof.vk_id@) ==> (r matches Ok(b) && b),
            !self.registered(halo2_proof.vk_id@) ==> (r matches Err(e) && e
                == CryptoError::InvalidProof),
    {
        let vk = match self.lookup(&halo2_proof.vk_id) {
            Some(vk) => vk,
            None => {
                return Err(CryptoError::InvalidProof);
            },
        };
        halo2_proof.verify(vk)
    }

    /// Whether every proof of a transaction declares a registered key.
    pub open spec fn tx_keys_registered(&self, tx: &TransactionProof) -> bool {
        &&& (forall|i: int|
            0 <= i < tx.spend_proofs@.len() ==> self.registered(
                (#[trigger] tx.spend_proofs@[i]).halo2.vk_id@,
            ))
        &&& (forall|i: int|
            0 <= i < tx.output_proofs@.len() ==> self.registered(
                (#[trigger] tx.output_proofs@[i]).halo2.vk_id@,
            ))
    }

    /// Whether a transaction's binding signature is structurally sound:
    /// a full-length signature declaring a zero net value balance.
    pub open spec fn binding_ok(tx: &TransactionProof) -> bool {
        tx.binding_sig.signature@.len() == 64 && tx.binding_sig.value_balance == 0i64
    }

    /// Verify a whole transaction: every spend proof and every output
    /// proof against the registry, short-circuiting on the first
    /// failure, and finally the binding signature's declaration that
    /// the transaction's value commitments balance to zero. Fails with
    /// `InvalidProof` exactly when some proof declares an unregistered
    /// key.
    pub fn verify_transaction(&self, tx_proof: &TransactionProof) -> (r: Result<
        bool,
        CryptoError,
    >)
        ensures
            self.tx_keys_registered(tx_proof) ==> (r matches Ok(b) && b == Self::binding_ok(
                tx_proof,
            )),
            !self.tx_keys_registered(tx_proof) ==> (r matches Err(e) && e
                == CryptoError::InvalidProof),
    {
        let mut i: usize = 0;
        while i < tx_proof.spend_proofs.len()
            invariant
                i <= tx_proof.spend_proofs@.len(),
                forall|w: int|
                    0 <= w < i ==> self.registered(
                        (#[trigger] tx_proof.spend_proofs@[w]).halo2.vk_id@,
                    ),
            decreases tx_proof.spend_proofs@.len() - i,
        {
            let result = self.verify_halo2(&tx_proof.spend_proofs[i].halo2);
            match result {
                Ok(_) => {},
                Err(e) => {
                    return Err(e);
                },
            }
            i += 1;
        }
        let mut j: usize = 0;
        while j < tx_proof.output_proofs.len()
            invariant
                j <= tx_proof.output_proofs@.len(),
                forall|w: int|
                    0 <= w < tx_proof.spend_proofs@.len() ==> self.registered(
                        (#[trigger] tx_proof.spend_proofs@[w]).halo2.vk_id@,
                    ),
                forall|w: int|
                    0 <= w < j ==> self.registered(
                        (#[trigger] tx_proof.output_proofs@[w]).halo2.vk_id@,
                    ),
            decreases tx_proof.output_proofs@.len() - j,
        {
            let result = self.verify_halo2(&tx_proof.output_proofs[j].halo2);
            match result {
                Ok(_) => {},
                Err(e) => {
                    return Err(e);
                },
            }
            j += 1;
        }
        let binding = tx_proof.binding_sig.signature.len() == 64 && tx_proof.binding_sig
            .value_balance == 0i64;
        Ok(binding)
    }
}

impl Default for ProofVerifier {
    /// An empty registry.
    fn default() -> (r: ProofVerifier)
        ensures
            forall|id: Seq<u8>| !r.registered(id),
    {
        ProofVerifier::new()
    }
}

} // verus!
