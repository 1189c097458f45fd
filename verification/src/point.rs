//! Group elements of the Pallas curve.
//!
//! A `Point` is kept as its canonical 32-byte compressed encoding and the
//! group operations are carried out by `pasta_curves` behind trusted
//! byte-to-byte wrappers. Pallas is a cyclic group of prime order, so every
//! element is an integer multiple of the standard generator; the contracts
//! speak of that integer through the uninterpreted `point_log`.

use vstd::prelude::*;

use pasta_curves::arithmetic::CurveExt;
use pasta_curves::group::ff::PrimeField;
use pasta_curves::group::{Group, GroupEncoding};

use crate::bytes::{bytes32_eq, le_nat};
use crate::scalar::{fq_order, Scalar};
use crate::CryptoError;

verus! {

/// The discrete logarithm, base the standard generator, of the Pallas point
/// with canonical encoding `b`; meaningful only when `is_point(b)` holds.
/// It is uninterpreted: the library states of it only the facts that the
/// trusted wrappers below take from the `pasta_curves` group implementation.
pub uninterp spec fn point_log(b: Seq<u8>) -> nat;

/// Whether `b` is the canonical encoding of a Pallas point. Exactly the
/// byte strings accepted by `pasta_curves` point decoding; each group
/// element has exactly one such encoding, which the wrappers below state
/// of every point they return.
pub uninterp spec fn is_point(b: Seq<u8>) -> bool;

/// The canonical encoding of the group element with logarithm `l`, where
/// one exists: the one canonical byte string with that logarithm.
pub open spec fn canon_bytes(l: nat) -> Seq<u8> {
    choose|c: Seq<u8>| is_point(c) && point_log(c) == l
}

/// The canonical encoding of the point that `pasta_curves` hash-to-curve
/// maps `(domain, msg)` to; a function of its arguments alone.
pub uninterp spec fn hash_to_curve_bytes(domain: Seq<char>, msg: Seq<u8>) -> Seq<u8>;

/// Relies on `pasta_curves::Ep::identity` and its canonical encoding.
#[verifier::external_body]
fn pallas_identity_bytes() -> (r: [u8; 32])
    ensures
        is_point(r@),
        point_log(r@) == 0,
        forall|c: Seq<u8>| is_point(c) && point_log(c) == point_log(r@) ==> c == r@,
{
    pasta_curves::Ep::identity().to_bytes()
}

/// Relies on `pasta_curves::Ep::generator` and its canonical encoding.
#[verifier::external_body]
fn pallas_generator_bytes() -> (r: [u8; 32])
    ensures
        is_point(r@),
        point_log(r@) == 1,
        forall|c: Seq<u8>| is_point(c) && point_log(c) == point_log(r@) ==> c == r@,
{
    pasta_curves::Ep::generator().to_bytes()
}

/// Relies on `pasta_curves::Ep` group addition: in a cyclic group of prime
/// order `fq_order()`, adding points adds their logarithms modulo the order.
#[verifier::external_body]
fn pallas_add_bytes(a: &[u8; 32], b: &[u8; 32]) -> (r: [u8; 32])
    requires
        is_point(a@),
        is_point(b@),
    ensures
        is_point(r@),
        point_log(r@) == (point_log(a@) + point_log(b@)) % fq_order(),
        forall|c: Seq<u8>| is_point(c) && point_log(c) == point_log(r@) ==> c == r@,
{
    let x = pasta_curves::Ep::from_bytes(a).unwrap();
    let y = pasta_curves::Ep::from_bytes(b).unwrap();
    (x + y).to_bytes()
}

/// Relies on `pasta_curves::Ep` group subtraction, as `pallas_add_bytes`
/// does on addition.
#[verifier::external_body]
fn pallas_sub_bytes(a: &[u8; 32], b: &[u8; 32]) -> (r: [u8; 32])
    requires
        is_point(a@),
        is_point(b@),
    ensures
        is_point(r@),
        point_log(r@) as int == (point_log(a@) - point_log(b@)) % (fq_order() as int),
        forall|c: Seq<u8>| is_point(c) && point_log(c) == point_log(r@) ==> c == r@,
{
    let x = pasta_curves::Ep::from_bytes(a).unwrap();
    let y = pasta_curves::Ep::from_bytes(b).unwrap();
    (x - y).to_bytes()
}

/// Relies on `pasta_curves::Ep` scalar multiplication: multiplying a point
/// by a scalar multiplies its logarithm modulo the group order.
#[verifier::external_body]
fn pallas_mul_bytes(p: &[u8; 32], k: &[u8; 32]) -> (r: [u8; 32])
    requires
        is_point(p@),
        le_nat(k@) < fq_order(),
    ensures
        is_point(r@),
        point_log(r@) == (point_log(p@) * le_nat(k@)) % fq_order(),
        forall|c: Seq<u8>| is_point(c) && point_log(c) == point_log(r@) ==> c == r@,
{
    let x = pasta_curves::Ep::from_bytes(p).unwrap();
    let s = pasta_curves::Fq::from_repr(*k).unwrap();
    (x * s).to_bytes()
}

/// Relies on `pasta_curves::Ep::from_bytes`: it accepts exactly the
/// canonical point encodings.
#[verifier::external_body]
fn pallas_check_encoding(b: &[u8; 32]) -> (r: bool)
    ensures
        r == is_point(b@),
{
    bool::from(pasta_curves::Ep::from_bytes(b).is_some())
}

/// Relies on `pasta_curves::Ep` equality: two canonical encodings are equal
/// byte strings exactly when they encode the same group element, that is,
/// the element with the same logarithm.
#[verifier::external_body]
fn pallas_point_eq(a: &[u8; 32], b: &[u8; 32]) -> (r: bool)
    requires
        is_point(a@),
        is_point(b@),
    ensures
        r == (point_log(a@) == point_log(b@)),
        r == (a@ =~= b@),
{
    let x = pasta_curves::Ep::from_bytes(a).unwrap();
    let y = pasta_curves::Ep::from_bytes(b).unwrap();
    x == y
}

/// Relies on `pasta_curves::Ep::hash_to_curve`: a deterministic map from a
/// domain tag and a message to a curve point.
#[verifier::external_body]
fn pallas_hash_to_curve(domain: &str, msg: &[u8]) -> (r: [u8; 32])
    ensures
        is_point(r@),
        point_log(r@) < fq_order(),
        r@ == hash_to_curve_bytes(domain@, msg@),
        forall|c: Seq<u8>| is_point(c) && point_log(c) == point_log(r@) ==> c == r@,
{
    let hasher = pasta_curves::Ep::hash_to_curve(domain);
    hasher(msg).to_bytes()
}

/// A byte string known to be the unique canonical encoding of its
/// element is the one `canon_bytes` names.
proof fn lemma_canon(b: Seq<u8>)
    requires
        is_point(b),
        forall|c: Seq<u8>| is_point(c) && point_log(c) == point_log(b) ==> c == b,
    ensures
        b == canon_bytes(point_log(b)),
{
    let l = point_log(b);
    assert(is_point(canon_bytes(l)) && point_log(canon_bytes(l)) == l) by {
        assert(is_point(b) && point_log(b) == l);
    }
}

/// A point's canonical encoding is always 32 bytes.
pub proof fn lemma_point_len(p: &Point)
    ensures
        p@.len() == 32,
{
}

/// An elliptic curve point, kept in canonical compressed form.
#[derive(Clone, Copy, Debug)]
pub struct Point {
    b: [u8; 32],
}

impl View for Point {
    type V = Seq<u8>;

    closed spec fn view(&self) -> Seq<u8> {
        self.b@
    }
}

impl Point {
    /// A point is well formed when its bytes are a canonical encoding.
    pub open spec fn wf(&self) -> bool {
        is_point(self@)
    }

    /// The discrete logarithm of this point, base the standard generator.
    pub open spec fn log(&self) -> nat {
        point_log(self@)
    }

    /// The identity point (the group's neutral element).
    pub fn identity() -> (r: Point)
        ensures
            r.wf(),
            r.log() == 0,
            r@ == canon_bytes(r.log()),
    {
        let b = pallas_identity_bytes();
        proof {
            lemma_canon(b@);
        }
        Point { b }
    }

    /// The standard generator.
    pub fn generator() -> (r: Point)
        ensures
            r.wf(),
            r.log() == 1,
            r@ == canon_bytes(r.log()),
    {
        let b = pallas_generator_bytes();
        proof {
            lemma_canon(b@);
        }
        Point { b }
    }

    /// Decode a point from its canonical 32-byte compressed form.
    /// Rejects every byte string that is not a canonical encoding.
    pub fn from_bytes(bytes: &[u8; 32]) -> (r: Result<Point, CryptoError>)
        ensures
            is_point(bytes@) ==> (r matches Ok(p) && p@ == bytes@ && p.wf()),
            !is_point(bytes@) ==> (r matches Err(e) && e == CryptoError::InvalidKey),
    {
        if pallas_check_encoding(bytes) {
            Ok(Point { b: *bytes })
        } else {
            Err(CryptoError::InvalidKey)
        }
    }

    /// The canonical 32-byte compressed encoding.
    pub fn to_bytes(&self) -> (r: [u8; 32])
        ensures
            r@ == self@,
    {
        self.b
    }

    /// A point mapped deterministically from a domain tag and a message,
    /// with no known logarithm relation to any other point.
    pub fn hash_to_curve(domain: &str, msg: &[u8]) -> (r: Point)
        ensures
            r.wf(),
            r.log() < fq_order(),
            r@ == hash_to_curve_bytes(domain@, msg@),
    {
        Point { b: pallas_hash_to_curve(domain, msg) }
    }

    /// Group addition.
    pub fn add(&self, other: &Point) -> (r: Point)
        requires
            self.wf(),
            other.wf(),
        ensures
            r.wf(),
            r.log() == (self.log() + other.log()) % fq_order(),
            r@ == canon_bytes(r.log()),
    {
        let b = pallas_add_bytes(&self.b, &other.b);
        proof {
            lemma_canon(b@);
        }
        Point { b }
    }

    /// Group subtraction.
    pub fn sub(&self, other: &Point) -> (r: Point)
        requires
            self.wf(),
            other.wf(),
        ensures
            r.wf(),
            r.log() as int == (self.log() - other.log()) % (fq_order() as int),
            r@ == canon_bytes(r.log()),
    {
        let b = pallas_sub_bytes(&self.b, &other.b);
        proof {
            lemma_canon(b@);
        }
        Point { b }
    }

    /// Scalar multiplication.
    pub fn mul(&self, scalar: &Scalar) -> (r: Point)
        requires
            self.wf(),
            scalar.wf(),
        ensures
            r.wf(),
            r.log() == (self.log() * scalar@) % fq_order(),
            r@ == canon_bytes(r.log()),
    {
        let k = scalar.to_bytes();
        let b = pallas_mul_bytes(&self.b, &k);
        proof {
            lemma_canon(b@);
        }
        Point { b }
    }

    /// Whether this is the identity point.
    pub fn is_identity(&self) -> (r: bool)
        requires
            self.wf(),
        ensures
            r == (self.log() == 0),
    {
        let id = Point::identity();
        pallas_point_eq(&self.b, &id.b)
    }

    /// Whether two points are the same group element.
    pub fn equals(&self, other: &Point) -> (r: bool)
        requires
            self.wf(),
            other.wf(),
        ensures
            r == (self.log() == other.log()),
            r == (self@ == other@),
    {
        pallas_point_eq(&self.b, &other.b)
    }
}

impl PartialEq for Point {
    /// Points are equal exactly when their canonical encodings are.
    fn eq(&self, other: &Point) -> (r: bool) {
        bytes32_eq(&self.b, &other.b)
    }
}

impl Eq for Point {}

impl vstd::std_specs::cmp::PartialEqSpecImpl for Point {
    open spec fn obeys_eq_spec() -> bool {
        true
    }

    open spec fn eq_spec(&self, other: &Point) -> bool {
        self@ == other@
    }
}

} // verus!
