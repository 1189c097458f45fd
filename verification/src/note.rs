//! Notes: the hidden units of value.
//!
//! A note carries a value, an asset id, an owner, and a blinding factor;
//! its commitment is published as an accumulator leaf and its plaintext
//! is encrypted to the owner's incoming viewing key.

use vstd::prelude::*;

use crate::bytes::{bytes32_eq, extend_bytes, extend_bytes32, u64_to_le};
use crate::commitment::{commit_log, Commitment, PedersenCommitment};
use crate::hash::{blake3_of, Blake3Hash};
use crate::keys::{
    encrypt_plaintext, note_plaintext, DecryptedNote, EncryptedNote, PublicKey, ViewingKey,
};
use crate::point::{canon_bytes, Point};
use crate::scalar::{fq_order, Scalar};
use crate::CryptoError;

verus! {

/// A note: a hidden unit of value.
#[derive(Clone, Debug)]
pub struct Note {
    value: u64,
    asset_id: [u8; 32],
    owner: PublicKey,
    randomness: Scalar,
    memo: Option<Vec<u8>>,
    cached_commitment: Option<Commitment>,
}

impl Note {
    /// The note's value.
    pub closed spec fn value_of(&self) -> u64 {
        self.value
    }

    /// The note's asset id bytes.
    pub closed spec fn asset(&self) -> Seq<u8> {
        self.asset_id@
    }

    /// The owner's public key encoding.
    pub closed spec fn owner_bytes(&self) -> Seq<u8> {
        self.owner@
    }

    /// The blinding factor's value.
    pub closed spec fn randomness_of(&self) -> nat {
        self.randomness@
    }

    /// The memo bytes, where one is attached.
    pub closed spec fn memo_of(&self) -> Option<Seq<u8>> {
        match self.memo {
            Some(m) => Some(m@),
            None => None,
        }
    }

    /// The memo bytes serialized into the plaintext: the memo, or
    /// nothing.
    pub open spec fn memo_bytes(&self) -> Seq<u8> {
        match self.memo_of() {
            Some(m) => m,
            None => Seq::empty(),
        }
    }

    /// The commitment the note publishes, where one was provided at
    /// construction.
    pub closed spec fn cached(&self) -> Option<Seq<u8>> {
        match self.cached_commitment {
            Some(c) => Some(c@),
            None => None,
        }
    }

    /// The note's structural validity.
    pub closed spec fn wf(&self) -> bool {
        &&& self.owner.wf()
        &&& self.randomness.wf()
        &&& (self.cached_commitment matches Some(c) ==> c.wf())
    }

    /// The canonical encoding of the note's commitment point: the cached
    /// one where present, otherwise the Pedersen commitment to the
    /// note's value under its blinding factor.
    pub open spec fn commitment_inner_bytes(&self) -> Seq<u8> {
        match self.cached() {
            Some(c) => c,
            None => canon_bytes(commit_log(self.value_of(), self.randomness_of())),
        }
    }

    /// The serialized form of the note's commitment record: the
    /// commitment encoding followed by the asset id.
    pub open spec fn commitment_serialized(&self) -> Seq<u8> {
        self.commitment_inner_bytes() + self.asset()
    }

    /// Wrap a precomputed commitment with a value and an asset id; the
    /// owner is left unset and the blinding factor is drawn fresh.
    pub fn new(value: u64, commitment: Commitment, asset_id: [u8; 32]) -> (r: Note)
        requires
            commitment.wf(),
        ensures
            r.wf(),
            r.value_of() == value,
            r.asset() == asset_id@,
            r.cached() == Some(commitment@),
            r.memo_of() == Option::<Seq<u8>>::None,
    {
        let owner = PublicKey::from_point(Point::identity());
        Note {
            value,
            asset_id,
            owner,
            randomness: Scalar::random(),
            memo: None,
            cached_commitment: Some(commitment),
        }
    }

    /// A new note owned by a recipient, with a fresh blinding factor.
    pub fn new_with_owner(value: u64, owner: PublicKey, asset_id: [u8; 32]) -> (r: Note)
        requires
            owner.wf(),
        ensures
            r.wf(),
            r.value_of() == value,
            r.asset() == asset_id@,
            r.owner_bytes() == owner@,
            r.cached() == Option::<Seq<u8>>::None,
            r.memo_of() == Option::<Seq<u8>>::None,
    {
        Note {
            value,
            asset_id,
            owner,
            randomness: Scalar::random(),
            memo: None,
            cached_commitment: None,
        }
    }

    /// A note with every component chosen by the caller.
    pub fn with_randomness(value: u64, owner: PublicKey, asset_id: [u8; 32], randomness: Scalar)
        -> (r: Note)
        requires
            owner.wf(),
            randomness.wf(),
        ensures
            r.wf(),
            r.value_of() == value,
            r.asset() == asset_id@,
            r.owner_bytes() == owner@,
            r.randomness_of() == randomness@,
            r.cached() == Option::<Seq<u8>>::None,
            r.memo_of() == Option::<Seq<u8>>::None,
    {
        Note { value, asset_id, owner, randomness, memo: None, cached_commitment: None }
    }

    /// Attach a memo.
    pub fn with_memo(self, memo: Vec<u8>) -> (r: Note)
        ensures
            r.wf() == self.wf(),
            r.value_of() == self.value_of(),
            r.asset() == self.asset(),
            r.owner_bytes() == self.owner_bytes(),
            r.randomness_of() == self.randomness_of(),
            r.cached() == self.cached(),
            r.memo_of() == Some(memo@),
    {
        Note { memo: Some(memo), ..self }
    }

    /// The note's value.
    pub fn value(&self) -> (r: u64)
        ensures
            r == self.value_of(),
    {
        self.value
    }

    /// The asset id.
    pub fn asset_id(&self) -> (r: &[u8; 32])
        ensures
            r@ == self.asset(),
    {
        &self.asset_id
    }

    /// The owner's public key.
    pub fn owner(&self) -> (r: &PublicKey)
        ensures
            r@ == self.owner_bytes(),
    {
        &self.owner
    }

    /// The blinding factor.
    pub fn randomness(&self) -> (r: &Scalar)
        ensures
            r@ == self.randomness_of(),
    {
        &self.randomness
    }

    /// The memo, where one is attached.
    pub fn memo(&self) -> (r: &Option<Vec<u8>>)
        ensures
            (r matches Some(m) ==> self.memo_of() == Some(m@)),
            (r is None) == (self.memo_of() is None),
    {
        &self.memo
    }

    /// The note's commitment record: deterministic in the note, the
    /// cached commitment where one was provided, otherwise the Pedersen
    /// commitment to `(value, randomness)`, paired with the asset id.
    pub fn commitment(&self) -> (r: NoteCommitment)
        requires
            self.wf(),
        ensures
            r@ == self.commitment_serialized(),
            r.inner_wf(),
    {
        let commitment = match &self.cached_commitment {
            Some(cached) => *cached,
            None => {
                let pedersen = PedersenCommitment::new();
                pedersen.commit_with_blinding(self.value, &self.randomness)
            },
        };
        NoteCommitment { inner: commitment, asset_id: self.asset_id }
    }

    /// Encrypt the note's plaintext — value, asset id, memo — to a
    /// recipient key with an ephemeral Diffie-Hellman agreement.
    pub fn encrypt(&self, recipient: &PublicKey) -> (r: EncryptedNote)
        requires
            recipient.wf(),
            self.memo_bytes().len() <= 8120,
        ensures
            r.epk.wf(),
            exists|esk: nat|
                {
                    let pt = note_plaintext(self.value_of(), self.asset(), self.memo_bytes());
                    let secret = canon_bytes(
                        (#[trigger] (crate::point::point_log(recipient@) * esk)) % fq_order(),
                    );
                    &&& esk < fq_order()
                    &&& r.epk@ == canon_bytes(esk)
                    &&& r.ciphertext@ == crate::primitives::xor_seq(
                        pt,
                        crate::keys::enc_key_stream(secret, pt.len()),
                    )
                    &&& r.tag@ == crate::keys::enc_tag(secret, r.ciphertext@)
                },
    {
        let mut plaintext = u64_to_le(self.value);
        extend_bytes32(&mut plaintext, &self.asset_id);
        match &self.memo {
            Some(memo) => {
                extend_bytes(&mut plaintext, memo.as_slice());
            },
            None => {},
        }
        proof {
            assert(plaintext@ =~= note_plaintext(self.value_of(), self.asset(), self.memo_bytes()));
        }
        encrypt_plaintext(recipient.as_point(), &plaintext)
    }

    /// Try to decrypt an encrypted note with a viewing key: fails closed
    /// on a tag mismatch, otherwise parses the plaintext back into a
    /// note whose owner and blinding factor are left unset.
    pub fn decrypt(encrypted: &EncryptedNote, vk: &ViewingKey) -> (r: Result<Note, CryptoError>)
        requires
            vk.wf(),
            encrypted.epk.wf(),
        ensures
            ({
                let secret = canon_bytes(
                    (crate::point::point_log(encrypted.epk@) * vk.ivk()) % fq_order(),
                );
                let ct = encrypted.ciphertext@;
                if ct.len() < 40 || ct.len() > 8160 {
                    r matches Err(e) && e == CryptoError::SerializationError
                } else if encrypted.tag@ != crate::keys::enc_tag(secret, ct) {
                    r matches Err(e) && e == CryptoError::OperationFailed
                } else {
                    let pt = crate::primitives::xor_seq(
                        ct,
                        crate::keys::enc_key_stream(secret, ct.len()),
                    );
                    r matches Ok(n) && n.value_of() == vstd::bytes::spec_u64_from_le_bytes(
                        pt.take(8),
                    ) && n.asset() == pt.subrange(8, 40) && n.memo_of() == Some(pt.skip(40))
                        && n.wf()
                }
            }),
    {
        let decrypted = vk.decrypt_note(encrypted)?;
        let owner = PublicKey::from_point(Point::identity());
        Ok(
            Note {
                value: decrypted.value,
                asset_id: decrypted.asset_id,
                owner,
                randomness: Scalar::zero(),
                memo: Some(decrypted.memo),
                cached_commitment: None,
            },
        )
    }

    /// Whether a public key owns this note.
    pub fn is_owned_by(&self, pubkey: &PublicKey) -> (r: bool)
        ensures
            r == (self.owner_bytes() == pubkey@),
    {
        self.owner == *pubkey
    }

    /// The canonical zero-value placeholder used to pad transactions to
    /// a fixed shape.
    pub fn dummy() -> (r: Note)
        ensures
            r.wf(),
            r.value_of() == 0,
            r.randomness_of() == 0,
            r.asset() == Seq::new(32, |i: int| 0u8),
            r.cached() == Option::<Seq<u8>>::None,
            r.memo_of() == Option::<Seq<u8>>::None,
    {
        let owner = PublicKey::from_point(Point::identity());
        let r = Note {
            value: 0,
            asset_id: [0u8; 32],
            owner,
            randomness: Scalar::zero(),
            memo: None,
            cached_commitment: None,
        };
        proof {
            assert(r.asset() =~= Seq::new(32, |i: int| 0u8));
        }
        r
    }

    /// Whether this note is the canonical placeholder: zero value and
    /// zero blinding factor.
    pub fn is_dummy(&self) -> (r: bool)
        ensures
            r == (self.value_of() == 0 && self.randomness_of() == 0),
    {
        let zero = Scalar::zero();
        self.value == 0 && self.randomness == zero
    }
}

/// A note's public record: the commitment point paired with the asset
/// id, serialized as 64 bytes.
#[derive(Clone, Copy, Debug)]
pub struct NoteCommitment {
    inner: Commitment,
    asset_id: [u8; 32],
}

impl View for NoteCommitment {
    type V = Seq<u8>;

    closed spec fn view(&self) -> Seq<u8> {
        self.inner@ + self.asset_id@
    }
}

impl NoteCommitment {
    /// The commitment point's encoding.
    pub closed spec fn inner_bytes(&self) -> Seq<u8> {
        self.inner@
    }

    /// The commitment point's logarithm.
    pub closed spec fn inner_log(&self) -> nat {
        crate::point::point_log(self.inner@)
    }

    /// The asset id bytes.
    pub closed spec fn asset(&self) -> Seq<u8> {
        self.asset_id@
    }

    /// The commitment point is well formed.
    pub closed spec fn inner_wf(&self) -> bool {
        self.inner.wf()
    }

    /// Pair a commitment with an asset id.
    pub fn new(commitment: Commitment, asset_id: [u8; 32]) -> (r: NoteCommitment)
        ensures
            r.inner_bytes() == commitment@,
            r.asset() == asset_id@,
            r@ == commitment@ + asset_id@,
            r.inner_wf() == commitment.wf(),
    {
        NoteCommitment { inner: commitment, asset_id }
    }

    /// The commitment point.
    pub fn inner(&self) -> (r: &Commitment)
        ensures
            r@ == self.inner_bytes(),
    {
        &self.inner
    }

    /// The asset id.
    pub fn asset_id(&self) -> (r: &[u8; 32])
        ensures
            r@ == self.asset(),
    {
        &self.asset_id
    }

    /// The 64-byte serialized form: commitment encoding then asset id.
    pub fn to_bytes(&self) -> (r: Vec<u8>)
        ensures
            r@ == self@,
            r@.len() == 64,
    {
        let mut bytes: Vec<u8> = Vec::new();
        let inner_bytes = self.inner.to_bytes();
        extend_bytes32(&mut bytes, &inner_bytes);
        extend_bytes32(&mut bytes, &self.asset_id);
        bytes
    }

    /// The stable hash used as the accumulator leaf for this record.
    pub fn hash(&self) -> (r: Blake3Hash)
        ensures
            r@ == blake3_of(self@),
    {
        let bytes = self.to_bytes();
        Blake3Hash::hash(bytes.as_slice())
    }
}

impl PartialEq for NoteCommitment {
    /// Records are equal exactly when their serialized forms are.
    fn eq(&self, other: &NoteCommitment) -> (r: bool) {
        let inner_eq = self.inner == other.inner;
        let asset_eq = bytes32_eq(&self.asset_id, &other.asset_id);
        proof {
            crate::commitment::lemma_commitment_len(&self.inner);
            crate::commitment::lemma_commitment_len(&other.inner);
            if self.inner@ == other.inner@ && self.asset_id@ == other.asset_id@ {
                assert(self@ == other@);
            }
            if self@ == other@ {
                assert(self.inner@ =~= self@.take(32));
                assert(other.inner@ =~= other@.take(32));
                assert(self.asset_id@ =~= self@.skip(32));
                assert(other.asset_id@ =~= other@.skip(32));
            }
        }
        inner_eq && asset_eq
    }
}

impl Eq for NoteCommitment {}

impl vstd::std_specs::cmp::PartialEqSpecImpl for NoteCommitment {
    open spec fn obeys_eq_spec() -> bool {
        true
    }

    open spec fn eq_spec(&self, other: &NoteCommitment) -> bool {
        self@ == other@
    }
}

/// A spent note together with what spending it revealed.
#[derive(Clone, Debug)]
pub struct SpentNote {
    /// The original note.
    pub note: Note,
    /// The nullifier revealed by the spend.
    pub nullifier: crate::nullifier::Nullifier,
    /// The note's position in the commitment tree.
    pub position: u64,
    /// The membership proof for that position.
    pub merkle_proof: crate::merkle::MerkleProof,
}

/// A transaction input: a note being spent.
#[derive(Clone, Debug)]
pub struct InputNote {
    /// The nullifier, made public by the spend.
    pub nullifier: crate::nullifier::Nullifier,
    /// The accumulator root the spend is anchored to.
    pub anchor: crate::merkle::MerkleRoot,
    /// The opaque zero-knowledge proof of a valid spend.
    pub spend_proof: Vec<u8>,
}

/// A transaction output: a note being created.
#[derive(Clone, Debug)]
pub struct OutputNote {
    /// The note commitment, made public.
    pub commitment: NoteCommitment,
    /// The note plaintext, encrypted to the recipient.
    pub encrypted_note: EncryptedNote,
    /// The opaque zero-knowledge proof of a valid creation.
    pub output_proof: Vec<u8>,
}

/// A 32-byte asset tag; the all-zero tag is the native asset.
#[derive(Clone, Copy, Debug)]
pub struct AssetId {
    b: [u8; 32],
}

impl View for AssetId {
    type V = Seq<u8>;

    closed spec fn view(&self) -> Seq<u8> {
        self.b@
    }
}

impl AssetId {
    /// The native asset: the all-zero tag.
    pub fn native() -> (r: AssetId)
        ensures
            r@ == Seq::new(32, |i: int| 0u8),
    {
        let r = AssetId { b: [0u8; 32] };
        proof {
            assert(r@ =~= Seq::new(32, |i: int| 0u8));
        }
        r
    }

    /// A custom 32-byte asset tag.
    pub fn custom(id: [u8; 32]) -> (r: AssetId)
        ensures
            r@ == id@,
    {
        AssetId { b: id }
    }

    /// The tag for a token contract: its 20-byte address, zero padded.
    pub fn from_contract(address: &[u8; 20]) -> (r: AssetId)
        ensures
            r@.len() == 32,
            forall|i: int| 0 <= i < 20 ==> r@[i] == address@[i],
            forall|i: int| 20 <= i < 32 ==> r@[i] == 0,
    {
        let mut id = [0u8; 32];
        let mut i: usize = 0;
        while i < 20
            invariant
                i <= 20,
                forall|w: int| 0 <= w < i ==> id@[w] == address@[w],
                forall|w: int| i <= w < 32 ==> id@[w] == 0,
            decreases 20 - i,
        {
            id[i] = address[i];
            i += 1;
        }
        AssetId { b: id }
    }

    /// The tag as bytes.
    pub fn as_bytes(&self) -> (r: &[u8; 32])
        ensures
            r@ == self@,
    {
        &self.b
    }

    /// A short human-readable rendering: the native asset's name, or the
    /// first eight bytes of the tag in hexadecimal.
    pub fn display_string(&self) -> (r: String)
        ensures
            self@ == Seq::new(32, |i: int| 0u8) ==> r@ == "PRIV"@,
            self@ != Seq::new(32, |i: int| 0u8) ==> r@ == crate::bytes::hex_of(self@.take(8)),
    {
        let native = AssetId::native();
        if bytes32_eq(&self.b, &native.b) {
            proof {
                assert(self@ =~= Seq::new(32, |i: int| 0u8));
            }
            return "PRIV".to_string();
        }
        let mut prefix: Vec<u8> = Vec::new();
        let mut i: usize = 0;
        while i < 8
            invariant
                i <= 8,
                prefix@ =~= self@.take(i as int),
            decreases 8 - i,
        {
            prefix.push(self.b[i]);
            i += 1;
        }
        proof {
            if self@ == Seq::new(32, |i: int| 0u8) {
                assert(self@ =~= native@);
            }
        }
        crate::bytes::hex_encode(prefix.as_slice())
    }
}

impl PartialEq for AssetId {
    /// Tags are equal exactly when their bytes are.
    fn eq(&self, other: &AssetId) -> (r: bool) {
        bytes32_eq(&self.b, &other.b)
    }
}

impl Eq for AssetId {}

impl vstd::std_specs::cmp::PartialEqSpecImpl for AssetId {
    open spec fn obeys_eq_spec() -> bool {
        true
    }

    open spec fn eq_spec(&self, other: &AssetId) -> bool {
        self@ == other@
    }
}

} // verus!
