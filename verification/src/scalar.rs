//! Scalar field elements of the Pallas curve.
//!
//! A `Scalar` is kept as its canonical 32-byte little-endian encoding and
//! viewed as the natural number it encodes, which is always below the
//! field order. Arithmetic is carried out by the `pasta_curves` field
//! implementation behind trusted byte-to-byte wrappers.

use vstd::prelude::*;

use pasta_curves::group::ff::PrimeField;

use crate::bytes::{
    bytes32_eq, le_bytes, le_nat, lemma_le_bytes_of_le_nat, lemma_le_nat_inj,
    lemma_le_nat_zeros, u64_to_bytes32,
};
use crate::CryptoError;

verus! {

/// The value of a 256-bit little-endian string reduced into the field.
pub open spec fn reduce_wide(b: Seq<u8>) -> nat {
    le_nat(b) % fq_order()
}

/// The value a 32-byte string reduces to when taken as a scalar
/// encoding: itself when canonical, zero otherwise.
pub open spec fn reduce_or_zero(b: Seq<u8>) -> nat {
    if le_nat(b) < fq_order() {
        le_nat(b)
    } else {
        0
    }
}

/// The order of the Pallas scalar field (the modulus of `pasta_curves::Fq`).
pub open spec fn fq_order() -> nat {
    0x40000000000000000000000000000000224698fc0994a8dd8c46eb2100000001nat
}

/// Relies on `pasta_curves::Fq::from_repr`: it accepts exactly the canonical
/// little-endian encodings, the byte strings whose value is below the field order.
#[verifier::external_body]
fn fq_check_canonical(b: &[u8; 32]) -> (r: bool)
    ensures
        r == (le_nat(b@) < fq_order()),
{
    bool::from(pasta_curves::Fq::from_repr(*b).is_some())
}

/// Relies on `pasta_curves::Fq` addition; `from_repr`/`to_repr` convert between
/// a field element and its canonical little-endian encoding.
#[verifier::external_body]
fn fq_add_bytes(a: &[u8; 32], b: &[u8; 32]) -> (r: [u8; 32])
    requires
        le_nat(a@) < fq_order(),
        le_nat(b@) < fq_order(),
    ensures
        le_nat(r@) == (le_nat(a@) + le_nat(b@)) % fq_order(),
{
    let x = pasta_curves::Fq::from_repr(*a).unwrap();
    let y = pasta_curves::Fq::from_repr(*b).unwrap();
    (x + y).to_repr()
}

/// Relies on `pasta_curves::Fq` subtraction, as `fq_add_bytes` does on addition.
#[verifier::external_body]
fn fq_sub_bytes(a: &[u8; 32], b: &[u8; 32]) -> (r: [u8; 32])
    requires
        le_nat(a@) < fq_order(),
        le_nat(b@) < fq_order(),
    ensures
        le_nat(r@) as int == (le_nat(a@) - le_nat(b@)) % (fq_order() as int),
{
    let x = pasta_curves::Fq::from_repr(*a).unwrap();
    let y = pasta_curves::Fq::from_repr(*b).unwrap();
    (x - y).to_repr()
}

/// Relies on `pasta_curves::Fq` multiplication, as `fq_add_bytes` does on addition.
#[verifier::external_body]
fn fq_mul_bytes(a: &[u8; 32], b: &[u8; 32]) -> (r: [u8; 32])
    requires
        le_nat(a@) < fq_order(),
        le_nat(b@) < fq_order(),
    ensures
        le_nat(r@) == (le_nat(a@) * le_nat(b@)) % fq_order(),
{
    let x = pasta_curves::Fq::from_repr(*a).unwrap();
    let y = pasta_curves::Fq::from_repr(*b).unwrap();
    (x * y).to_repr()
}

/// Relies on `pasta_curves::Fq::from_raw`: it reduces a 256-bit little-endian
/// integer modulo the field order.
#[verifier::external_body]
pub(crate) fn fq_reduce_wide(b: &[u8; 32]) -> (r: [u8; 32])
    ensures
        le_nat(r@) == le_nat(b@) % fq_order(),
{
    let l0 = u64::from_le_bytes(b[0..8].try_into().unwrap());
    let l1 = u64::from_le_bytes(b[8..16].try_into().unwrap());
    let l2 = u64::from_le_bytes(b[16..24].try_into().unwrap());
    let l3 = u64::from_le_bytes(b[24..32].try_into().unwrap());
    pasta_curves::Fq::from_raw([l0, l1, l2, l3]).to_repr()
}

/// A scalar field element, the blinding-factor and secret-key type.
#[derive(Clone, Copy, Debug)]
pub struct Scalar {
    b: [u8; 32],
}

impl View for Scalar {
    type V = nat;

    closed spec fn view(&self) -> nat {
        le_nat(self.b@)
    }
}

impl Scalar {
    /// Every scalar holds a value below the field order.
    pub open spec fn wf(&self) -> bool {
        self@ < fq_order()
    }

    /// The zero scalar.
    pub fn zero() -> (r: Scalar)
        ensures
            r@ == 0,
            r.wf(),
    {
        let b = [0u8; 32];
        proof {
            lemma_le_nat_zeros(b@);
        }
        Scalar { b }
    }

    /// The one scalar.
    pub fn one() -> (r: Scalar)
        ensures
            r@ == 1,
            r.wf(),
    {
        let mut b = [0u8; 32];
        b[0] = 1;
        proof {
            lemma_le_nat_zeros(b@.skip(1));
            crate::bytes::lemma_le_nat_digit(b@);
        }
        Scalar { b }
    }

    /// The scalar for a small integer.
    pub fn from_u64(v: u64) -> (r: Scalar)
        ensures
            r@ == v as nat,
            r.wf(),
    {
        Scalar { b: u64_to_bytes32(v) }
    }

    /// A uniformly random scalar, drawn by reducing 256 random bits
    /// modulo the field order.
    pub fn random() -> (r: Scalar)
        ensures
            r.wf(),
    {
        let wide = crate::primitives::random_bytes32();
        Scalar { b: fq_reduce_wide(&wide) }
    }

    /// The scalar obtained by reducing a 256-bit little-endian integer
    /// modulo the field order, as key derivation requires.
    pub fn from_wide(bytes: &[u8; 32]) -> (r: Scalar)
        ensures
            r@ == reduce_wide(bytes@),
            r.wf(),
    {
        Scalar { b: fq_reduce_wide(bytes) }
    }

    /// The scalar a 32-byte string decodes to, or zero where the string
    /// is not a canonical encoding.
    pub fn from_canonical_or_zero(bytes: &[u8; 32]) -> (r: Scalar)
        ensures
            r@ == reduce_or_zero(bytes@),
            r.wf(),
    {
        if fq_check_canonical(bytes) {
            Scalar { b: *bytes }
        } else {
            Scalar::zero()
        }
    }

    /// Decode a scalar from its canonical 32-byte little-endian form.
    /// Rejects every byte string whose value is not below the field order.
    pub fn from_bytes(bytes: &[u8; 32]) -> (r: Result<Scalar, CryptoError>)
        ensures
            le_nat(bytes@) < fq_order() ==> (r matches Ok(s) && s@ == le_nat(bytes@) && s.wf()),
            le_nat(bytes@) >= fq_order() ==> (r matches Err(e) && e == CryptoError::InvalidKey),
    {
        if fq_check_canonical(bytes) {
            Ok(Scalar { b: *bytes })
        } else {
            Err(CryptoError::InvalidKey)
        }
    }

    /// The canonical 32-byte little-endian encoding.
    pub fn to_bytes(&self) -> (r: [u8; 32])
        ensures
            r@ == le_bytes(self@, 32),
            le_nat(r@) == self@,
    {
        proof {
            lemma_le_bytes_of_le_nat(self.b@);
        }
        self.b
    }

    /// Addition in the scalar field.
    pub fn add(&self, other: &Scalar) -> (r: Scalar)
        requires
            self.wf(),
            other.wf(),
        ensures
            r@ == (self@ + other@) % fq_order(),
            r.wf(),
    {
        Scalar { b: fq_add_bytes(&self.b, &other.b) }
    }

    /// Subtraction in the scalar field.
    pub fn sub(&self, other: &Scalar) -> (r: Scalar)
        requires
            self.wf(),
            other.wf(),
        ensures
            r@ as int == (self@ - other@) % (fq_order() as int),
            r.wf(),
    {
        let r = Scalar { b: fq_sub_bytes(&self.b, &other.b) };
        proof {
            vstd::arithmetic::div_mod::lemma_mod_bound(
                self@ - other@,
                fq_order() as int,
            );
        }
        r
    }

    /// Multiplication in the scalar field.
    pub fn mul(&self, other: &Scalar) -> (r: Scalar)
        requires
            self.wf(),
            other.wf(),
        ensures
            r@ == (self@ * other@) % fq_order(),
            r.wf(),
    {
        Scalar { b: fq_mul_bytes(&self.b, &other.b) }
    }
}

impl PartialEq for Scalar {
    /// Scalars are equal exactly when they encode the same field element.
    fn eq(&self, other: &Scalar) -> (r: bool) {
        let r = bytes32_eq(&self.b, &other.b);
        proof {
            if self@ == other@ {
                lemma_le_nat_inj(self.b@, other.b@);
            }
        }
        r
    }
}

impl Eq for Scalar {}

impl vstd::std_specs::cmp::PartialEqSpecImpl for Scalar {
    open spec fn obeys_eq_spec() -> bool {
        true
    }

    open spec fn eq_spec(&self, other: &Scalar) -> bool {
        self@ == other@
    }
}

} // verus!
