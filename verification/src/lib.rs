//! The cryptographic core of a privacy-preserving ledger.
//!
//! Transacted values hide inside homomorphic Pedersen commitments; an
//! append-only Merkle accumulator anchors every published commitment;
//! nullifiers mark hidden values as spent without revealing which, with
//! an atomic double-spend set; one spending key deterministically
//! derives the whole key hierarchy; and a proof envelope dispatches
//! opaque zero-knowledge proofs by verification-key identity.
//!
//! Every contract here speaks over views: byte strings as sequences,
//! scalars as their field values, and curve points through their
//! discrete logarithms, which the trusted curve wrappers relate to the
//! `pasta_curves` group operations.

pub mod bytes;
pub mod commitment;
pub mod hash;
pub mod keys;
pub mod merkle;
pub mod note;
pub mod nullifier;
pub mod point;
pub mod primitives;
pub mod proofs;
pub mod scalar;

pub use commitment::{Commitment, PedersenCommitment};
pub use hash::{Blake3Hash, Hasher, PoseidonHash};
pub use keys::{PublicKey, SpendingKey, ViewingKey};
pub use merkle::{IncrementalMerkleTree, MerkleProof, MerkleRoot};
pub use note::{Note, NoteCommitment};
pub use nullifier::{Nullifier, NullifierDerivingKey};

use vstd::prelude::*;

verus! {

/// Errors reported by the cryptographic core.
#[derive(Clone, Copy, Debug, PartialEq, Eq, Structural)]
pub enum CryptoError {
    /// Malformed key bytes or a failed canonical decode.
    InvalidKey,
    /// Malformed commitment bytes.
    InvalidCommitment,
    /// Unknown verification-key id or a failed proof verification.
    InvalidProof,
    /// The accumulator has reached its capacity.
    TreeFull,
    /// A membership proof was requested for a position that has no leaf.
    PositionOutOfBounds,
    /// The nullifier is already present in the spent set.
    DoubleSpend,
    /// A serialized form could not be decoded.
    SerializationError,
    /// A backend operation failed.
    OperationFailed,
}

impl CryptoError {
    /// A human-readable description of the error.
    pub fn message(&self) -> (r: &'static str)
        ensures r@.len() > 0,
    {
        let m = match self {
            CryptoError::InvalidKey => "invalid key material",
            CryptoError::InvalidCommitment => "invalid commitment",
            CryptoError::InvalidProof => "invalid proof",
            CryptoError::TreeFull => "tree is full",
            CryptoError::PositionOutOfBounds => "position out of bounds",
            CryptoError::DoubleSpend => "double spend detected",
            CryptoError::SerializationError => "serialization error",
            CryptoError::OperationFailed => "cryptographic operation failed",
        };
        proof {
            reveal_strlit("invalid key material");
            reveal_strlit("invalid commitment");
            reveal_strlit("invalid proof");
            reveal_strlit("tree is full");
            reveal_strlit("position out of bounds");
            reveal_strlit("double spend detected");
            reveal_strlit("serialization error");
            reveal_strlit("cryptographic operation failed");
        }
        m
    }
}

} // verus!
