//! Homomorphic Pedersen commitments to 64-bit values.
//!
//! A commitment is `value·G + blinding·H`, where `G` is the standard
//! generator and `H` is derived by hash-to-curve under a fixed domain tag,
//! so that no discrete-log relation between the two is known to anyone.

use vstd::prelude::*;

use crate::point::{canon_bytes, hash_to_curve_bytes, Point};
use crate::scalar::{fq_order, Scalar};
use crate::CryptoError;

verus! {

/// The canonical encoding of the blinding generator `H`.
pub open spec fn pedersen_h_bytes() -> Seq<u8> {
    hash_to_curve_bytes("PRIVL1_PEDERSEN_H"@, Seq::empty())
}

/// The discrete logarithm of the blinding generator; unknown to anyone,
/// and never assumed to have any particular value.
pub open spec fn pedersen_h_log() -> nat {
    crate::point::point_log(pedersen_h_bytes())
}

/// The logarithm of the commitment to `value` under `blinding`.
pub open spec fn commit_log(value: u64, blinding: nat) -> nat {
    ((value as nat) + (pedersen_h_log() * blinding) % fq_order()) % fq_order()
}

/// A Pedersen commitment: one group element.
#[derive(Clone, Copy, Debug)]
pub struct Commitment {
    point: Point,
}

impl View for Commitment {
    type V = Seq<u8>;

    closed spec fn view(&self) -> Seq<u8> {
        self.point@
    }
}

impl Commitment {
    /// A commitment is well formed when its point is.
    pub open spec fn wf(&self) -> bool {
        crate::point::is_point(self@)
    }

    /// The discrete logarithm of the commitment's point.
    pub open spec fn log(&self) -> nat {
        crate::point::point_log(self@)
    }

    /// The 32-byte canonical encoding.
    pub fn to_bytes(&self) -> (r: [u8; 32])
        ensures
            r@ == self@,
    {
        self.point.to_bytes()
    }

    /// Decode a commitment; rejects anything but a canonical encoding.
    pub fn from_bytes(bytes: &[u8; 32]) -> (r: Result<Commitment, CryptoError>)
        ensures
            crate::point::is_point(bytes@) ==> (r matches Ok(c) && c@ == bytes@ && c.wf()),
            !crate::point::is_point(bytes@) ==> (r matches Err(e) && e
                == CryptoError::InvalidCommitment),
    {
        match Point::from_bytes(bytes) {
            Ok(point) => Ok(Commitment { point }),
            Err(_) => Err(CryptoError::InvalidCommitment),
        }
    }

    /// Whether this is the commitment to nothing (the identity point).
    pub fn is_zero(&self) -> (r: bool)
        requires
            self.wf(),
        ensures
            r == (self.log() == 0),
    {
        self.point.is_identity()
    }

    /// Homomorphic addition: commitments add as their openings do.
    pub fn add(&self, other: &Commitment) -> (r: Commitment)
        requires
            self.wf(),
            other.wf(),
        ensures
            r.wf(),
            r.log() == (self.log() + other.log()) % fq_order(),
            r@ == canon_bytes(r.log()),
    {
        Commitment { point: self.point.add(&other.point) }
    }

    /// Homomorphic subtraction.
    pub fn sub(&self, other: &Commitment) -> (r: Commitment)
        requires
            self.wf(),
            other.wf(),
        ensures
            r.wf(),
            r.log() as int == (self.log() - other.log()) % (fq_order() as int),
            r@ == canon_bytes(r.log()),
    {
        Commitment { point: self.point.sub(&other.point) }
    }

    /// Whether two commitments are the same group element.
    pub fn equals(&self, other: &Commitment) -> (r: bool)
        requires
            self.wf(),
            other.wf(),
        ensures
            r == (self.log() == other.log()),
            r == (self@ == other@),
    {
        self.point.equals(&other.point)
    }
}

impl PartialEq for Commitment {
    /// Commitments are equal exactly when their canonical encodings are.
    fn eq(&self, other: &Commitment) -> (r: bool) {
        self.point == other.point
    }
}

impl Eq for Commitment {}

impl vstd::std_specs::cmp::PartialEqSpecImpl for Commitment {
    open spec fn obeys_eq_spec() -> bool {
        true
    }

    open spec fn eq_spec(&self, other: &Commitment) -> bool {
        self@ == other@
    }
}

/// A commitment's canonical encoding is always 32 bytes.
pub proof fn lemma_commitment_len(c: &Commitment)
    ensures
        c@.len() == 32,
{
    crate::point::lemma_point_len(&c.point);
}

/// The Pedersen commitment scheme: the two generators.
pub struct PedersenCommitment {
    g: Point,
    h: Point,
}

impl PedersenCommitment {
    /// The generators are the standard one and the hash-to-curve one.
    pub closed spec fn wf(&self) -> bool {
        &&& self.g.wf()
        &&& self.g.log() == 1
        &&& self.h.wf()
        &&& self.h@ == pedersen_h_bytes()
    }

    /// Set up the scheme. `H` comes from hash-to-curve under a fixed
    /// domain tag, so no party knows a scalar relating it to `G`.
    pub fn new() -> (r: PedersenCommitment)
        ensures
            r.wf(),
    {
        let g = Point::generator();
        let msg: Vec<u8> = Vec::new();
        let h = Point::hash_to_curve("PRIVL1_PEDERSEN_H", msg.as_slice());
        PedersenCommitment { g, h }
    }

    /// Commit to `value` with a fresh random blinding factor; returns both.
    pub fn commit(&self, value: u64) -> (r: (Commitment, Scalar))
        requires
            self.wf(),
        ensures
            r.1.wf(),
            r.0.wf(),
            r.0.log() == commit_log(value, r.1@),
            r.0@ == canon_bytes(r.0.log()),
    {
        let blinding = Scalar::random();
        let commitment = self.commit_with_blinding(value, &blinding);
        (commitment, blinding)
    }

    /// Commit to `value` under the given blinding factor:
    /// `value·G + blinding·H`.
    pub fn commit_with_blinding(&self, value: u64, blinding: &Scalar) -> (r: Commitment)
        requires
            self.wf(),
            blinding.wf(),
        ensures
            r.wf(),
            r.log() == commit_log(value, blinding@),
            r@ == canon_bytes(r.log()),
    {
        let value_scalar = Scalar::from_u64(value);
        let vg = self.g.mul(&value_scalar);
        let rh = self.h.mul(blinding);
        let point = vg.add(&rh);
        proof {
            vstd::arithmetic::div_mod::lemma_small_mod(value as nat, fq_order());
            vstd::arithmetic::div_mod::lemma_mod_twice(
                (pedersen_h_log() * blinding@) as int,
                fq_order() as int,
            );
        }
        Commitment { point }
    }

    /// Check that a commitment opens to `value` under `blinding`.
    pub fn verify(&self, commitment: &Commitment, value: u64, blinding: &Scalar) -> (r: bool)
        requires
            self.wf(),
            commitment.wf(),
            blinding.wf(),
        ensures
            r == (commitment.log() == commit_log(value, blinding@)),
    {
        let expected = self.commit_with_blinding(value, blinding);
        commitment.equals(&expected)
    }

    /// The commitment to nothing: the identity element, the neutral
    /// element of commitment addition.
    pub fn zero() -> (r: Commitment)
        ensures
            r.wf(),
            r.log() == 0,
            r@ == canon_bytes(r.log()),
    {
        Commitment { point: Point::identity() }
    }
}

impl Default for PedersenCommitment {
    /// The scheme with the standard generators.
    fn default() -> (r: PedersenCommitment)
        ensures
            r.wf(),
    {
        PedersenCommitment::new()
    }
}

/// A commitment paired with the asset it is denominated in.
#[derive(Clone, Debug)]
pub struct ValueCommitment {
    /// The commitment to the value.
    pub commitment: Commitment,
    /// Asset type, for multi-asset support.
    pub asset_id: [u8; 32],
}

impl ValueCommitment {
    /// Commit to `value` for `asset_id` with a fresh blinding factor.
    pub fn new(value: u64, asset_id: [u8; 32]) -> (r: (ValueCommitment, Scalar))
        ensures
            r.1.wf(),
            r.0.commitment.wf(),
            r.0.commitment.log() == commit_log(value, r.1@),
            r.0.asset_id@ == asset_id@,
    {
        let pedersen = PedersenCommitment::new();
        let (commitment, blinding) = pedersen.commit(value);
        (ValueCommitment { commitment, asset_id }, blinding)
    }

    /// Check that the commitment opens to `value` under `blinding`.
    pub fn verify(&self, value: u64, blinding: &Scalar) -> (r: bool)
        requires
            self.commitment.wf(),
            blinding.wf(),
        ensures
            r == (self.commitment.log() == commit_log(value, blinding@)),
    {
        let pedersen = PedersenCommitment::new();
        pedersen.verify(&self.commitment, value, blinding)
    }
}

/// Commitment homomorphism: the sum of the commitments to `v1` under
/// `r1` and to `v2` under `r2` is the commitment to `v1 + v2` under the
/// field sum of `r1` and `r2`. This is what transaction-balance checks
/// rest on.
pub proof fn lemma_commitment_homomorphism(v1: u64, v2: u64, r1: nat, r2: nat)
    requires
        v1 + v2 <= u64::MAX,
        r1 < fq_order(),
        r2 < fq_order(),
    ensures
        (commit_log(v1, r1) + commit_log(v2, r2)) % fq_order() == commit_log(
            (v1 + v2) as u64,
            (r1 + r2) % fq_order(),
        ),
{
    let q = fq_order();
    let h = pedersen_h_log();
    let a1 = v1 as nat;
    let a2 = v2 as nat;
    let t1 = h * r1;
    let t2 = h * r2;
    // left side: the two reduced summands reduce together
    assert((commit_log(v1, r1) + commit_log(v2, r2)) % q == ((a1 + t1 % q) + (a2 + t2 % q))
        % q) by {
        vstd::arithmetic::div_mod::lemma_add_mod_noop(
            (a1 + t1 % q) as int,
            (a2 + t2 % q) as int,
            q as int,
        );
    }
    // right side: the blinding sum distributes over the generator
    assert(h * ((r1 + r2) % q) % q == (t1 + t2) % q) by {
        vstd::arithmetic::div_mod::lemma_mul_mod_noop_right(
            h as int,
            (r1 + r2) as int,
            q as int,
        );
        assert(h * (r1 + r2) == t1 + t2) by (nonlinear_arith)
            requires
                t1 == h * r1,
                t2 == h * r2,
        ;
    }
    // both sides equal v1 + v2 + h*r1 + h*r2 reduced once
    assert(((a1 + a2) + (t1 + t2) % q) % q == ((a1 + a2) + (t1 + t2)) % q) by {
        vstd::arithmetic::div_mod::lemma_add_mod_noop_right(
            (a1 + a2) as int,
            (t1 + t2) as int,
            q as int,
        );
    }
    assert(((a1 + t1 % q) + (a2 + t2 % q)) % q == ((a1 + a2) + (t1 + t2)) % q) by {
        vstd::arithmetic::div_mod::lemma_add_mod_noop_right(
            (a1 + a2 + t1 % q) as int,
            t2 as int,
            q as int,
        );
        vstd::arithmetic::div_mod::lemma_add_mod_noop_right(
            (a1 + a2 + t1 % q) as int,
            (t2 % q) as int,
            q as int,
        );
        vstd::arithmetic::div_mod::lemma_mod_twice(t2 as int, q as int);
        vstd::arithmetic::div_mod::lemma_add_mod_noop_right(
            (a1 + a2 + t2) as int,
            t1 as int,
            q as int,
        );
        vstd::arithmetic::div_mod::lemma_add_mod_noop_right(
            (a1 + a2 + t2) as int,
            (t1 % q) as int,
            q as int,
        );
        vstd::arithmetic::div_mod::lemma_mod_twice(t1 as int, q as int);
        vstd::arithmetic::div_mod::lemma_add_mod_noop_right(
            (a1 + a2 + t1 % q + t2) as int,
            0,
            q as int,
        );
        assert((a1 + t1 % q) + (a2 + t2 % q) == (a1 + a2 + t1 % q) + t2 % q);
        assert(((a1 + a2 + t1 % q) + t2 % q) % q == ((a1 + a2 + t1 % q) + t2) % q);
        assert((a1 + a2 + t1 % q) + t2 == (a1 + a2 + t2) + t1 % q);
        assert(((a1 + a2 + t2) + t1 % q) % q == ((a1 + a2 + t2) + t1) % q);
    }
    vstd::arithmetic::div_mod::lemma_mod_bound((r1 + r2) as int, q as int);
}

/// Binding in the value: commitments to two different values under the
/// same blinding factor are different group elements.
pub proof fn lemma_commitment_binding_value(v1: u64, v2: u64, r: nat)
    requires
        v1 != v2,
        r < fq_order(),
    ensures
        commit_log(v1, r) != commit_log(v2, r),
{
    let q = fq_order();
    let a1 = v1 as nat;
    let a2 = v2 as nat;
    let t = (pedersen_h_log() * r) % q;
    if commit_log(v1, r) == commit_log(v2, r) {
        vstd::arithmetic::div_mod::lemma_add_mod_noop_right(a1 as int, t as int, q as int);
        vstd::arithmetic::div_mod::lemma_add_mod_noop_right(a2 as int, t as int, q as int);
        vstd::arithmetic::div_mod::lemma_mod_twice(t as int, q as int);
        vstd::arithmetic::div_mod::lemma_mod_equivalence(
            (a1 + t) as int,
            (a2 + t) as int,
            q as int,
        );
        vstd::arithmetic::div_mod::lemma_mod_equivalence(a1 as int, a2 as int, q as int);
        vstd::arithmetic::div_mod::lemma_small_mod(a1, q);
        vstd::arithmetic::div_mod::lemma_small_mod(a2, q);
        vstd::arithmetic::div_mod::lemma_mod_equivalence(
            a1 as int,
            a2 as int,
            q as int,
        );
        assert((a1 - a2) % (q as int) == 0);
        if a1 > a2 {
            vstd::arithmetic::div_mod::lemma_small_mod((a1 - a2) as nat, q);
        } else {
            vstd::arithmetic::div_mod::lemma_small_mod((a2 - a1) as nat, q);
            assert((a2 - a1) % (q as int) == 0) by {
                vstd::arithmetic::div_mod::lemma_mod_equivalence(
                    a2 as int,
                    a1 as int,
                    q as int,
                );
            }
        }
    }
}

} // verus!
