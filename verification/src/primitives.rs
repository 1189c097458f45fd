//! Low-level helpers: randomness, constant-time comparison, XOR, and the
//! key-derivation function.

use vstd::prelude::*;

use rand::RngCore;
use subtle::ConstantTimeEq;
use zeroize::Zeroize;

use crate::bytes::le_nat;
use crate::scalar::Scalar;

verus! {

/// The `output_len`-byte key that HKDF-SHA256 derives from `master` under
/// the salt `domain`; a function of its arguments alone. Uninterpreted:
/// nothing is assumed of its values beyond their length.
pub uninterp spec fn kdf_of(master: Seq<u8>, domain: Seq<u8>, output_len: nat) -> Seq<u8>;

/// Relies on `rand::rngs::ThreadRng::fill_bytes`: fills the buffer in
/// place. Nothing is stated of the bytes themselves.
#[verifier::external_body]
fn fill_random(buf: &mut Vec<u8>)
    ensures
        final(buf)@.len() == old(buf)@.len(),
{
    rand::thread_rng().fill_bytes(buf.as_mut_slice());
}

/// Random bytes of the requested length.
pub fn random_bytes(len: usize) -> (r: Vec<u8>)
    ensures
        r@.len() == len,
{
    let mut buf: Vec<u8> = Vec::new();
    let mut i: usize = 0;
    while i < len
        invariant
            i <= len,
            buf@.len() == i,
        decreases len - i,
    {
        buf.push(0u8);
        i += 1;
    }
    fill_random(&mut buf);
    buf
}

/// 32 random bytes.
pub(crate) fn random_bytes32() -> (r: [u8; 32]) {
    let v = random_bytes(32);
    let mut b = [0u8; 32];
    let mut i: usize = 0;
    while i < 32
        invariant
            i <= 32,
            v@.len() == 32,
        decreases 32 - i,
    {
        b[i] = v[i];
        i += 1;
    }
    b
}

/// Relies on `subtle::ConstantTimeEq` for byte slices: true exactly when
/// the two slices hold the same bytes, computed without data-dependent
/// branches.
#[verifier::external_body]
fn subtle_ct_eq(a: &[u8], b: &[u8]) -> (r: bool)
    requires
        a@.len() == b@.len(),
    ensures
        r == (a@ =~= b@),
{
    bool::from(a.ct_eq(b))
}

/// Constant-time comparison of byte strings; strings of different lengths
/// are unequal.
pub fn ct_eq(a: &[u8], b: &[u8]) -> (r: bool)
    ensures
        r == (a@ =~= b@),
{
    if a.len() != b.len() {
        return false;
    }
    subtle_ct_eq(a, b)
}

/// The pointwise XOR of two byte strings of equal length.
pub open spec fn xor_seq(a: Seq<u8>, b: Seq<u8>) -> Seq<u8> {
    Seq::new(a.len(), |i: int| a[i] ^ b[i])
}

/// XOR applied twice with the same mask gives the input back.
pub proof fn lemma_xor_involution(a: Seq<u8>, b: Seq<u8>)
    requires
        a.len() == b.len(),
    ensures
        xor_seq(xor_seq(a, b), b) =~= a,
{
    assert forall|i: int| 0 <= i < a.len() implies xor_seq(xor_seq(a, b), b)[i] == a[i] by {
        let x = a[i];
        let y = b[i];
        assert((x ^ y) ^ y == x) by (bit_vector);
    }
}

/// XOR two byte strings of equal length.
pub fn xor_bytes(a: &[u8], b: &[u8]) -> (r: Vec<u8>)
    requires
        a@.len() == b@.len(),
    ensures
        r@ == xor_seq(a@, b@),
{
    let mut r: Vec<u8> = Vec::new();
    let mut i: usize = 0;
    while i < a.len()
        invariant
            i <= a@.len(),
            a@.len() == b@.len(),
            r@.len() == i,
            forall|j: int| 0 <= j < i ==> r@[j] == (a@[j] ^ b@[j]),
        decreases a@.len() - i,
    {
        r.push(a[i] ^ b[i]);
        i += 1;
    }
    proof {
        assert(r@ =~= xor_seq(a@, b@));
    }
    r
}

/// Relies on `hkdf::Hkdf<sha2::Sha256>`: a deterministic key-derivation
/// function of the input key material, the salt, and the output length.
/// Expansion fails only for outputs longer than 255 SHA-256 blocks.
#[verifier::external_body]
fn hkdf_sha256(master: &[u8], domain: &[u8], output_len: usize) -> (r: Vec<u8>)
    requires
        output_len <= 8160,
    ensures
        r@ == kdf_of(master@, domain@, output_len as nat),
        r@.len() == output_len,
{
    let hk = hkdf::Hkdf::<sha2::Sha256>::new(Some(domain), master);
    let mut output = vec![0u8; output_len];
    hk.expand("PRIVL1_KDF".as_bytes(), &mut output)
        .expect("KDF output length should be valid");
    output
}

/// Derive `output_len` bytes of key material from a master secret under a
/// domain tag. Different domains yield independent outputs.
pub fn kdf(master: &[u8], domain: &[u8], output_len: usize) -> (r: Vec<u8>)
    requires
        output_len <= 8160,
    ensures
        r@ == kdf_of(master@, domain@, output_len as nat),
        r@.len() == output_len,
{
    hkdf_sha256(master, domain, output_len)
}

/// Relies on `zeroize::Zeroize` for byte slices: overwrites every byte
/// with zero in place, in a way the compiler will not optimize away.
#[verifier::external_body]
fn zeroize_bytes(data: &mut Vec<u8>)
    ensures
        final(data)@.len() == old(data)@.len(),
        forall|i: int| 0 <= i < old(data)@.len() ==> final(data)@[i] == 0,
{
    data.as_mut_slice().zeroize();
}

/// Overwrite sensitive data with zeros.
pub fn secure_erase(data: &mut Vec<u8>)
    ensures
        final(data)@.len() == old(data)@.len(),
        forall|i: int| 0 <= i < old(data)@.len() ==> final(data)@[i] == 0,
{
    zeroize_bytes(data);
}

/// A uniformly random scalar field element.
pub fn random_field() -> (r: Scalar)
    ensures
        r.wf(),
{
    Scalar::random()
}

/// The scalar a byte string is mapped to: its first 31 bytes shifted up
/// one position and read little-endian, or zero where that value is not
/// below the field order.
pub open spec fn field_chunk_spec(bytes: Seq<u8>) -> nat {
    let prefix = if bytes.len() <= 31 {
        bytes
    } else {
        bytes.take(31)
    };
    if 256 * le_nat(prefix) < crate::scalar::fq_order() {
        256 * le_nat(prefix)
    } else {
        0
    }
}

/// Map up to 31 bytes into a scalar field element: the bytes are shifted
/// up one position and read little-endian; a value outside the field
/// maps to zero.
pub fn bytes_to_field(bytes: &[u8]) -> (r: Scalar)
    ensures
        r.wf(),
        r@ == field_chunk_spec(bytes@),
{
    let take = if bytes.len() < 31 {
        bytes.len()
    } else {
        31
    };
    let mut input = [0u8; 32];
    let mut i: usize = 0;
    while i < take
        invariant
            i <= take,
            take <= 31,
            take <= bytes@.len(),
            forall|j: int| 1 <= j < 1 + i ==> #[trigger] input@[j] == bytes@[j - 1],
            input@[0] == 0,
            forall|j: int| i + 1 <= j < 32 ==> input@[j] == 0,
        decreases take - i,
    {
        input[i + 1] = bytes[i];
        i += 1;
    }
    let ghost prefix = bytes@.take(take as int);
    proof {
        assert(input@ =~= seq![0u8] + prefix + input@.skip(1 + take as int));
        crate::bytes::lemma_shifted_value(input@, prefix);
        if bytes@.len() <= 31 {
            assert(prefix =~= bytes@);
        }
    }
    Scalar::from_canonical_or_zero(&input)
}

/// Extract a scalar's canonical 32-byte little-endian encoding.
pub fn field_to_bytes(field: &Scalar) -> (r: [u8; 32])
    ensures
        le_nat(r@) == field@,
{
    field.to_bytes()
}

} // verus!
