//! The key hierarchy: one spending key deterministically derives the
//! nullifier key, the viewing key pair, and the public key, each under
//! its own domain tag; plus Schnorr signatures over the Pallas group and
//! the authenticated encryption of note plaintexts to a viewing key.

use vstd::prelude::*;

use vstd::string::StringSliceAdditionalSpecFns;

use crate::bytes::{extend_bytes, extend_bytes32, le_bytes, u64_le_seq};
use crate::hash::{blake3_of, domain_prefix, Blake3Hash, DomainSeparatedHasher};
use crate::nullifier::{nk_from_seed, NullifierDerivingKey};
use crate::point::{canon_bytes, is_point, point_log, Point};
use crate::primitives::{ct_eq, kdf, kdf_of, xor_bytes, xor_seq};
use crate::scalar::{fq_order, reduce_wide, Scalar};
use crate::CryptoError;

verus! {

/// A scalar derived by hashing `input` under a domain tag and reducing
/// the 256-bit digest into the field.
pub open spec fn derive_scalar(tag: &str, input: Seq<u8>) -> nat {
    reduce_wide(blake3_of(domain_prefix(tag) + input))
}

/// The spending key derived from a seed.
pub open spec fn sk_from_seed(seed: Seq<u8>) -> nat {
    derive_scalar("PRIVL1_SPENDING_KEY", seed)
}

/// The digest that seeds the nullifier key of a spending key.
pub open spec fn nk_seed_of_sk(sk: nat) -> Seq<u8> {
    blake3_of(domain_prefix("PRIVL1_DERIVE_NK") + le_bytes(sk, 32))
}

/// The incoming viewing key of a spending key.
pub open spec fn ivk_of_sk(sk: nat) -> nat {
    derive_scalar("PRIVL1_DERIVE_IVK", le_bytes(sk, 32))
}

/// The outgoing viewing key of a spending key.
pub open spec fn ovk_of_sk(sk: nat) -> nat {
    derive_scalar("PRIVL1_DERIVE_OVK", le_bytes(sk, 32))
}

/// The deterministic signing nonce: a function of the secret key and the
/// message alone.
pub open spec fn sign_nonce(sk: nat, msg: Seq<u8>) -> nat {
    reduce_wide(blake3_of(domain_prefix("PRIVL1_SIGN_NONCE") + le_bytes(sk, 32) + msg))
}

/// The Schnorr challenge: a hash binding the nonce commitment, the
/// public key, and the message.
pub open spec fn sign_challenge(r_bytes: Seq<u8>, pk_bytes: Seq<u8>, msg: Seq<u8>) -> nat {
    reduce_wide(blake3_of(domain_prefix("PRIVL1_SIGN_CHALLENGE") + r_bytes + pk_bytes + msg))
}

/// The Schnorr verification equation, over the group's logarithms:
/// `s·G == R + e·P` for the challenge `e` bound to `(R, P, msg)`.
pub open spec fn signature_valid(pk: Seq<u8>, r_bytes: Seq<u8>, s: nat, msg: Seq<u8>) -> bool {
    s == (point_log(r_bytes) + (point_log(pk) * sign_challenge(r_bytes, pk, msg)) % fq_order())
        % fq_order()
}

/// Hash data under a domain tag and reduce the digest into a scalar.
fn derive_scalar_exec(tag: &str, input: &[u8]) -> (r: Scalar)
    ensures
        r@ == derive_scalar(tag, input@),
        r.wf(),
{
    let mut hasher = DomainSeparatedHasher::new(tag);
    hasher.update(input);
    let digest = hasher.finalize();
    Scalar::from_wide(digest.as_bytes())
}

/// The root secret: every other key is a pure function of it.
#[derive(Clone, Debug)]
pub struct SpendingKey {
    sk: Scalar,
}

impl View for SpendingKey {
    type V = nat;

    closed spec fn view(&self) -> nat {
        self.sk@
    }
}

impl SpendingKey {
    /// The key's scalar is a field element.
    pub open spec fn wf(&self) -> bool {
        self@ < fq_order()
    }

    /// A fresh random spending key.
    pub fn random() -> (r: SpendingKey)
        ensures
            r.wf(),
    {
        SpendingKey { sk: Scalar::random() }
    }

    /// Derive the spending key from a seed, deterministically, under its
    /// own domain tag.
    pub fn from_seed(seed: &[u8; 32]) -> (r: SpendingKey)
        ensures
            r@ == sk_from_seed(seed@),
            r.wf(),
    {
        SpendingKey { sk: derive_scalar_exec("PRIVL1_SPENDING_KEY", seed.as_slice()) }
    }

    /// Derive the nullifier deriving key, under its own domain tag.
    pub fn nullifier_key(&self) -> (r: NullifierDerivingKey)
        requires
            self.wf(),
        ensures
            r@ == nk_from_seed(nk_seed_of_sk(self@)),
            r.wf(),
    {
        let mut hasher = DomainSeparatedHasher::new("PRIVL1_DERIVE_NK");
        let sk_bytes = self.sk.to_bytes();
        hasher.update(sk_bytes.as_slice());
        let hash = hasher.finalize();
        NullifierDerivingKey::from_seed(hash.as_bytes())
    }

    /// Derive the viewing key pair.
    pub fn viewing_key(&self) -> (r: ViewingKey)
        requires
            self.wf(),
        ensures
            r.ivk() == ivk_of_sk(self@),
            r.ovk() == ovk_of_sk(self@),
            r.wf(),
    {
        ViewingKey::derive_from_spending_key(self)
    }

    /// The public key: the spending scalar times the generator.
    pub fn public_key(&self) -> (r: PublicKey)
        requires
            self.wf(),
        ensures
            r.log() == self@,
            r@ == canon_bytes(self@),
            r.wf(),
    {
        PublicKey::from_spending_key(self)
    }

    /// Sign a message: a Schnorr signature with a deterministic nonce and
    /// a challenge binding the nonce commitment, the public key, and the
    /// message. The signature it returns verifies under this key's
    /// public key.
    pub fn sign(&self, message: &[u8]) -> (r: Signature)
        requires
            self.wf(),
        ensures
            r.wf(),
            r.r_bytes() == canon_bytes(sign_nonce(self@, message@)),
            signature_valid(canon_bytes(self@), r.r_bytes(), r.s_value(), message@),
    {
        let sk_bytes = self.sk.to_bytes();
        let mut nonce_input: Vec<u8> = Vec::new();
        extend_bytes32(&mut nonce_input, &sk_bytes);
        extend_bytes(&mut nonce_input, message);
        proof {
            assert(nonce_input@ =~= le_bytes(self@, 32) + message@);
        }
        proof {
            assert(domain_prefix("PRIVL1_SIGN_NONCE") + nonce_input@ =~= domain_prefix(
                "PRIVL1_SIGN_NONCE",
            ) + le_bytes(self@, 32) + message@);
        }
        let k = derive_scalar_exec("PRIVL1_SIGN_NONCE", nonce_input.as_slice());
        let generator = Point::generator();
        let big_r = generator.mul(&k);
        let pk = self.public_key();
        proof {
            lemma_mul_one_mod(k@);
        }
        let e = challenge_scalar(&big_r, &pk, message);
        let s = k.add(&e.mul(&self.sk));
        let sig = Signature { r: big_r, s };
        proof {
            let ch = sign_challenge(big_r@, pk@, message@);
            assert(ch * self@ == self@ * ch) by (nonlinear_arith);
            assert(sig.s_value() == (sign_nonce(self@, message@) + (point_log(canon_bytes(self@))
                * ch) % fq_order()) % fq_order());
        }
        sig
    }

    /// The secret scalar.
    pub fn as_scalar(&self) -> (r: &Scalar)
        ensures
            r@ == self@,
    {
        &self.sk
    }
}

/// Multiplying the generator by a field element gives that logarithm.
proof fn lemma_mul_one_mod(k: nat)
    requires
        k < fq_order(),
    ensures
        (1 * k) % fq_order() == k,
{
    assert(1 * k == k) by (nonlinear_arith);
    vstd::arithmetic::div_mod::lemma_small_mod(k, fq_order());
}

/// Compute the Schnorr challenge scalar for `(R, P, msg)`.
fn challenge_scalar(big_r: &Point, pk: &PublicKey, message: &[u8]) -> (r: Scalar)
    ensures
        r@ == sign_challenge(big_r@, pk@, message@),
        r.wf(),
{
    let r_bytes = big_r.to_bytes();
    let pk_bytes = pk.to_bytes();
    let mut input: Vec<u8> = Vec::new();
    extend_bytes32(&mut input, &r_bytes);
    extend_bytes32(&mut input, &pk_bytes);
    extend_bytes(&mut input, message);
    proof {
        assert(input@ =~= big_r@ + pk@ + message@);
        assert(domain_prefix("PRIVL1_SIGN_CHALLENGE") + input@ =~= domain_prefix(
            "PRIVL1_SIGN_CHALLENGE",
        ) + big_r@ + pk@ + message@);
    }
    derive_scalar_exec("PRIVL1_SIGN_CHALLENGE", input.as_slice())
}

/// A public key: the point receiving parties know the holder by.
#[derive(Clone, Copy, Debug)]
pub struct PublicKey {
    point: Point,
}

impl View for PublicKey {
    type V = Seq<u8>;

    closed spec fn view(&self) -> Seq<u8> {
        self.point@
    }
}

impl PublicKey {
    /// A public key wraps a canonical point encoding.
    pub open spec fn wf(&self) -> bool {
        is_point(self@)
    }

    /// The key's discrete logarithm: the spending scalar it was derived
    /// from.
    pub open spec fn log(&self) -> nat {
        point_log(self@)
    }

    /// Derive from the spending key: the scalar times the generator.
    pub fn from_spending_key(sk: &SpendingKey) -> (r: PublicKey)
        requires
            sk.wf(),
        ensures
            r.log() == sk@,
            r@ == canon_bytes(sk@),
            r.wf(),
    {
        let generator = Point::generator();
        let point = generator.mul(sk.as_scalar());
        proof {
            lemma_mul_one_mod(sk@);
        }
        PublicKey { point }
    }

    /// Wrap an existing point.
    pub(crate) fn from_point(point: Point) -> (r: PublicKey)
        requires
            point.wf(),
        ensures
            r@ == point@,
            r.wf(),
    {
        PublicKey { point }
    }

    /// Check a Schnorr signature: recompute the challenge from the
    /// signature's nonce commitment, this key, and the message, and test
    /// the verification equation `s·G == R + e·P`.
    pub fn verify(&self, message: &[u8], signature: &Signature) -> (r: bool)
        requires
            self.wf(),
            signature.wf(),
        ensures
            r == signature_valid(self@, signature.r_bytes(), signature.s_value(), message@),
    {
        let e = challenge_scalar(&signature.r, self, message);
        let generator = Point::generator();
        let lhs = generator.mul(&signature.s);
        let rhs = signature.r.add(&self.point.mul(&e));
        proof {
            lemma_mul_one_mod(signature.s@);
        }
        lhs.equals(&rhs)
    }

    /// The 32-byte canonical encoding.
    pub fn to_bytes(&self) -> (r: [u8; 32])
        ensures
            r@ == self@,
    {
        self.point.to_bytes()
    }

    /// Decode a public key; rejects anything but a canonical point
    /// encoding.
    pub fn from_bytes(bytes: &[u8; 32]) -> (r: Result<PublicKey, CryptoError>)
        ensures
            is_point(bytes@) ==> (r matches Ok(k) && k@ == bytes@ && k.wf()),
            !is_point(bytes@) ==> (r matches Err(e) && e == CryptoError::InvalidKey),
    {
        match Point::from_bytes(bytes) {
            Ok(point) => Ok(PublicKey { point }),
            Err(_) => Err(CryptoError::InvalidKey),
        }
    }

    /// The key as a curve point.
    pub fn as_point(&self) -> (r: &Point)
        ensures
            r@ == self@,
    {
        &self.point
    }
}

impl PartialEq for PublicKey {
    /// Keys are equal exactly when their canonical encodings are.
    fn eq(&self, other: &PublicKey) -> (r: bool) {
        self.point == other.point
    }
}

impl Eq for PublicKey {}

impl vstd::std_specs::cmp::PartialEqSpecImpl for PublicKey {
    open spec fn obeys_eq_spec() -> bool {
        true
    }

    open spec fn eq_spec(&self, other: &PublicKey) -> bool {
        self@ == other@
    }
}

/// The viewing key pair: the incoming key decrypts received notes, the
/// outgoing key decrypts sent ones.
#[derive(Clone, Debug)]
pub struct ViewingKey {
    ivk: Scalar,
    ovk: Scalar,
}

impl ViewingKey {
    /// The incoming viewing key's value.
    pub closed spec fn ivk(&self) -> nat {
        self.ivk@
    }

    /// The outgoing viewing key's value.
    pub closed spec fn ovk(&self) -> nat {
        self.ovk@
    }

    /// Both keys are field elements.
    pub open spec fn wf(&self) -> bool {
        self.ivk() < fq_order() && self.ovk() < fq_order()
    }

    /// Derive both keys from the spending key, each under its own domain
    /// tag.
    pub fn derive_from_spending_key(sk: &SpendingKey) -> (r: ViewingKey)
        requires
            sk.wf(),
        ensures
            r.ivk() == ivk_of_sk(sk@),
            r.ovk() == ovk_of_sk(sk@),
            r.wf(),
    {
        let sk_bytes = sk.as_scalar().to_bytes();
        let ivk = derive_scalar_exec("PRIVL1_DERIVE_IVK", sk_bytes.as_slice());
        let ovk = derive_scalar_exec("PRIVL1_DERIVE_OVK", sk_bytes.as_slice());
        ViewingKey { ivk, ovk }
    }

    /// The point other parties encrypt to for this incoming viewing key.
    pub fn incoming_public(&self) -> (r: PublicKey)
        requires
            self.wf(),
        ensures
            r.log() == self.ivk(),
            r@ == canon_bytes(self.ivk()),
            r.wf(),
    {
        let generator = Point::generator();
        let point = generator.mul(&self.ivk);
        proof {
            lemma_mul_one_mod(self.ivk());
        }
        PublicKey { point }
    }

    /// Decrypt a note ciphertext: recompute the shared secret from the
    /// ephemeral key, check the authentication tag, and fail closed on
    /// any mismatch; only then unmask and parse the plaintext.
    pub fn decrypt_note(&self, encrypted_note: &EncryptedNote) -> (r: Result<
        DecryptedNote,
        CryptoError,
    >)
        requires
            self.wf(),
            encrypted_note.epk.wf(),
        ensures
            ({
                let secret = canon_bytes(
                    (point_log(encrypted_note.epk@) * self.ivk()) % fq_order(),
                );
                let ct = encrypted_note.ciphertext@;
                if ct.len() < 40 || ct.len() > 8160 {
                    r matches Err(e) && e == CryptoError::SerializationError
                } else if encrypted_note.tag@ != enc_tag(secret, ct) {
                    r matches Err(e) && e == CryptoError::OperationFailed
                } else {
                    let pt = xor_seq(ct, enc_key_stream(secret, ct.len()));
                    r matches Ok(d) && d.value == vstd::bytes::spec_u64_from_le_bytes(pt.take(8))
                        && d.asset_id@ == pt.subrange(8, 40) && d.memo@ == pt.skip(40)
                }
            }),
    {
        let ct_len = encrypted_note.ciphertext.len();
        if ct_len < 40 || ct_len > 8160 {
            return Err(CryptoError::SerializationError);
        }
        let shared = encrypted_note.epk.mul(&self.ivk);
        let secret = shared.to_bytes();
        let expected_tag = compute_tag(&secret, &encrypted_note.ciphertext);
        if !ct_eq(expected_tag.as_slice(), encrypted_note.tag.as_slice()) {
            return Err(CryptoError::OperationFailed);
        }
        let stream = kdf(secret.as_slice(), "PRIVL1_NOTE_ENC".as_bytes(), ct_len);
        let pt = xor_bytes(encrypted_note.ciphertext.as_slice(), stream.as_slice());
        let mut value_bytes: Vec<u8> = Vec::new();
        let mut i: usize = 0;
        while i < 8
            invariant
                i <= 8,
                pt@.len() >= 40,
                value_bytes@ =~= pt@.take(i as int),
            decreases 8 - i,
        {
            value_bytes.push(pt[i]);
            i += 1;
        }
        let value = vstd::bytes::u64_from_le_bytes(value_bytes.as_slice());
        let mut asset_id = [0u8; 32];
        let mut j: usize = 0;
        while j < 32
            invariant
                j <= 32,
                pt@.len() >= 40,
                forall|w: int| 0 <= w < j ==> asset_id@[w] == pt@[8 + w],
            decreases 32 - j,
        {
            asset_id[j] = pt[8 + j];
            j += 1;
        }
        let mut memo: Vec<u8> = Vec::new();
        let mut k: usize = 40;
        while k < pt.len()
            invariant
                40 <= k <= pt@.len(),
                memo@ =~= pt@.subrange(40, k as int),
            decreases pt@.len() - k,
        {
            memo.push(pt[k]);
            k += 1;
        }
        proof {
            assert(asset_id@ =~= pt@.subrange(8, 40));
            assert(memo@ =~= pt@.skip(40));
            assert(value_bytes@ =~= pt@.take(8));
        }
        Ok(DecryptedNote { value, asset_id, memo })
    }

    /// The incoming viewing key scalar.
    pub fn incoming(&self) -> (r: &Scalar)
        ensures
            r@ == self.ivk(),
    {
        &self.ivk
    }

    /// The outgoing viewing key scalar.
    pub fn outgoing(&self) -> (r: &Scalar)
        ensures
            r@ == self.ovk(),
    {
        &self.ovk
    }
}

/// The serialized note plaintext: the value in eight little-endian
/// bytes, the 32-byte asset id, then the memo.
pub open spec fn note_plaintext(value: u64, asset_id: Seq<u8>, memo: Seq<u8>) -> Seq<u8> {
    u64_le_seq(value) + asset_id + memo
}

/// The key stream masking a note plaintext, derived from the shared
/// secret under the encryption domain tag.
pub open spec fn enc_key_stream(secret: Seq<u8>, len: nat) -> Seq<u8> {
    kdf_of(secret, "PRIVL1_NOTE_ENC".spec_bytes(), len)
}

/// The 16-byte authentication tag over a ciphertext, keyed by a MAC key
/// derived from the shared secret under its own domain tag.
pub open spec fn enc_tag(secret: Seq<u8>, ciphertext: Seq<u8>) -> Seq<u8> {
    blake3_of(kdf_of(secret, "PRIVL1_NOTE_MAC".spec_bytes(), 32) + ciphertext).take(16)
}

/// Compute the authentication tag for a ciphertext under a shared secret.
fn compute_tag(secret: &[u8; 32], ciphertext: &Vec<u8>) -> (r: [u8; 16])
    ensures
        r@ == enc_tag(secret@, ciphertext@),
{
    let mac_key = kdf(secret.as_slice(), "PRIVL1_NOTE_MAC".as_bytes(), 32);
    let mut buf: Vec<u8> = Vec::new();
    extend_bytes(&mut buf, mac_key.as_slice());
    extend_bytes(&mut buf, ciphertext.as_slice());
    let digest = Blake3Hash::hash(buf.as_slice());
    let digest_bytes = digest.as_bytes();
    let mut tag = [0u8; 16];
    let mut i: usize = 0;
    while i < 16
        invariant
            i <= 16,
            digest_bytes@.len() == 32,
            forall|w: int| 0 <= w < i ==> tag@[w] == digest_bytes@[w],
        decreases 16 - i,
    {
        tag[i] = digest_bytes[i];
        i += 1;
    }
    proof {
        assert(buf@ =~= kdf_of(secret@, "PRIVL1_NOTE_MAC".spec_bytes(), 32) + ciphertext@);
        assert(tag@ =~= digest@.take(16));
    }
    tag
}

/// Encrypt a serialized plaintext to a recipient point: an ephemeral
/// Diffie-Hellman key agreement, a derived key stream, and a derived
/// authentication tag.
pub(crate) fn encrypt_plaintext(recipient: &Point, plaintext: &Vec<u8>) -> (r: EncryptedNote)
    requires
        recipient.wf(),
        plaintext@.len() <= 8160,
    ensures
        r.epk.wf(),
        exists|esk: nat|
            {
                let secret = canon_bytes((#[trigger] (recipient.log() * esk)) % fq_order());
                &&& esk < fq_order()
                &&& r.epk@ == canon_bytes(esk)
                &&& point_log(r.epk@) == esk
                &&& r.ciphertext@ == xor_seq(
                    plaintext@,
                    enc_key_stream(secret, plaintext@.len()),
                )
                &&& r.tag@ == enc_tag(secret, r.ciphertext@)
            },
{
    let esk = Scalar::random();
    let generator = Point::generator();
    let epk = generator.mul(&esk);
    proof {
        lemma_mul_one_mod(esk@);
    }
    let shared = recipient.mul(&esk);
    let secret = shared.to_bytes();
    let stream = kdf(secret.as_slice(), "PRIVL1_NOTE_ENC".as_bytes(), plaintext.len());
    let ciphertext = xor_bytes(plaintext.as_slice(), stream.as_slice());
    let tag = compute_tag(&secret, &ciphertext);
    let r = EncryptedNote { epk, ciphertext, tag };
    proof {
        let eskv = esk@;
        assert({
            let s2 = canon_bytes((recipient.log() * eskv) % fq_order());
            &&& eskv < fq_order()
            &&& r.epk@ == canon_bytes(eskv)
            &&& point_log(r.epk@) == eskv
            &&& r.ciphertext@ == xor_seq(plaintext@, enc_key_stream(s2, plaintext@.len()))
            &&& r.tag@ == enc_tag(s2, r.ciphertext@)
        });
    }
    r
}

/// An encrypted note: the ephemeral public key, the masked plaintext,
/// and the authentication tag.
#[derive(Clone, Debug)]
pub struct EncryptedNote {
    /// Ephemeral public key of the sender's one-time Diffie-Hellman key.
    pub epk: Point,
    /// The masked serialized plaintext.
    pub ciphertext: Vec<u8>,
    /// The authentication tag; decryption fails unless it matches.
    pub tag: [u8; 16],
}

/// A decrypted note plaintext.
#[derive(Clone, Debug)]
pub struct DecryptedNote {
    /// The value.
    pub value: u64,
    /// The asset id.
    pub asset_id: [u8; 32],
    /// The memo.
    pub memo: Vec<u8>,
}

/// A Schnorr signature: the nonce commitment point and the response
/// scalar.
#[derive(Clone, Debug)]
pub struct Signature {
    r: Point,
    s: Scalar,
}

impl Signature {
    /// The nonce commitment's canonical encoding.
    pub closed spec fn r_bytes(&self) -> Seq<u8> {
        self.r@
    }

    /// The response scalar's value.
    pub closed spec fn s_value(&self) -> nat {
        self.s@
    }

    /// Both components are well formed.
    pub open spec fn wf(&self) -> bool {
        is_point(self.r_bytes()) && self.s_value() < fq_order()
    }

    /// Serialize: the 32-byte point encoding then the 32-byte scalar
    /// encoding.
    pub fn to_bytes(&self) -> (r: Vec<u8>)
        ensures
            r@ == self.r_bytes() + le_bytes(self.s_value(), 32),
            r@.len() == 64,
    {
        let mut bytes: Vec<u8> = Vec::new();
        let r_bytes = self.r.to_bytes();
        let s_bytes = self.s.to_bytes();
        extend_bytes32(&mut bytes, &r_bytes);
        extend_bytes32(&mut bytes, &s_bytes);
        bytes
    }

    /// Deserialize from 64 bytes; rejects a wrong length, a byte string
    /// that is not a canonical point encoding, and a non-canonical
    /// scalar encoding.
    pub fn from_bytes(bytes: &[u8]) -> (r: Result<Signature, CryptoError>)
        ensures
            r matches Ok(sig) ==> bytes@.len() == 64 && sig.wf() && sig.r_bytes()
                == bytes@.take(32) && le_bytes(sig.s_value(), 32) == bytes@.skip(32),
            bytes@.len() == 64 && is_point(bytes@.take(32)) && crate::bytes::le_nat(
                bytes@.skip(32),
            ) < fq_order() ==> (r matches Ok(sig)),
            r matches Err(e) ==> e == CryptoError::InvalidKey,
    {
        if bytes.len() != 64 {
            return Err(CryptoError::InvalidKey);
        }
        let mut r_bytes = [0u8; 32];
        let mut s_bytes = [0u8; 32];
        let mut i: usize = 0;
        while i < 32
            invariant
                i <= 32,
                bytes@.len() == 64,
                forall|w: int| 0 <= w < i ==> r_bytes@[w] == bytes@[w],
                forall|w: int| 0 <= w < i ==> s_bytes@[w] == bytes@[32 + w],
            decreases 32 - i,
        {
            r_bytes[i] = bytes[i];
            s_bytes[i] = bytes[32 + i];
            i += 1;
        }
        proof {
            assert(r_bytes@ =~= bytes@.take(32));
            assert(s_bytes@ =~= bytes@.skip(32));
        }
        let point = match Point::from_bytes(&r_bytes) {
            Ok(p) => p,
            Err(_) => {
                return Err(CryptoError::InvalidKey);
            },
        };
        let scalar = match Scalar::from_bytes(&s_bytes) {
            Ok(s) => s,
            Err(_) => {
                return Err(CryptoError::InvalidKey);
            },
        };
        proof {
            crate::bytes::lemma_le_bytes_of_le_nat(s_bytes@);
        }
        Ok(Signature { r: point, s: scalar })
    }
}

/// The full key set of one holder, all derived from the spending key.
#[derive(Clone, Debug)]
pub struct FullKeys {
    /// The root secret.
    pub spending: SpendingKey,
    /// The public key.
    pub public: PublicKey,
    /// The viewing key pair.
    pub viewing: ViewingKey,
    /// The nullifier deriving key.
    pub nullifier: NullifierDerivingKey,
}

impl FullKeys {
    /// Every derived key is the one its spending key determines.
    pub open spec fn wf(&self) -> bool {
        &&& self.spending.wf()
        &&& self.public@ == canon_bytes(self.spending@)
        &&& self.public.wf()
        &&& self.viewing.ivk() == ivk_of_sk(self.spending@)
        &&& self.viewing.ovk() == ovk_of_sk(self.spending@)
        &&& self.viewing.wf()
        &&& self.nullifier@ == nk_from_seed(nk_seed_of_sk(self.spending@))
        &&& self.nullifier.wf()
    }

    /// A fresh random key set.
    pub fn random() -> (r: FullKeys)
        ensures
            r.wf(),
    {
        let spending = SpendingKey::random();
        FullKeys::from_spending_key(spending)
    }

    /// Derive every key from a spending key.
    pub fn from_spending_key(spending: SpendingKey) -> (r: FullKeys)
        requires
            spending.wf(),
        ensures
            r.wf(),
            r.spending@ == spending@,
    {
        let public = spending.public_key();
        let viewing = spending.viewing_key();
        let nullifier = spending.nullifier_key();
        FullKeys { spending, public, viewing, nullifier }
    }

    /// Derive the whole key set from a seed: the same seed always yields
    /// the same keys.
    pub fn from_seed(seed: &[u8; 32]) -> (r: FullKeys)
        ensures
            r.wf(),
            r.spending@ == sk_from_seed(seed@),
    {
        let spending = SpendingKey::from_seed(seed);
        FullKeys::from_spending_key(spending)
    }
}

/// Key determinism: every key in a full key set is a pure function of
/// the seed, so two key sets derived from the same seed agree in every
/// component.
pub proof fn lemma_keys_deterministic(k1: &FullKeys, k2: &FullKeys, seed: Seq<u8>)
    requires
        k1.wf(),
        k2.wf(),
        k1.spending@ == sk_from_seed(seed),
        k2.spending@ == sk_from_seed(seed),
    ensures
        k1.spending@ == k2.spending@,
        k1.public@ == k2.public@,
        k1.viewing.ivk() == k2.viewing.ivk(),
        k1.viewing.ovk() == k2.viewing.ovk(),
        k1.nullifier@ == k2.nullifier@,
{
}

} // verus!
