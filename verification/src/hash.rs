//! Hash functions: Blake3 for general-purpose hashing and key derivation,
//! and an algebraic two-to-one compression over the Pallas base field for
//! circuit-friendly hashing.

use vstd::prelude::*;

use pasta_curves::group::ff::PrimeField;

use vstd::string::StringSliceAdditionalSpecFns;

use crate::bytes::{
    bytes32_eq, extend_bytes, extend_bytes32, le_nat, lemma_le_nat_append,
    lemma_le_nat_inj, lemma_le_nat_zeros, u64_to_bytes32,
};

verus! {

/// The 32-byte Blake3 digest of a byte string; a function of its input
/// alone. Uninterpreted: nothing is assumed of its values.
pub uninterp spec fn blake3_of(data: Seq<u8>) -> Seq<u8>;

/// Relies on `blake3::hash`: a deterministic 32-byte digest of the input.
#[verifier::external_body]
fn blake3_hash_bytes(data: &[u8]) -> (r: [u8; 32])
    ensures
        r@ == blake3_of(data@),
{
    *blake3::hash(data).as_bytes()
}

/// A 256-bit Blake3 digest.
#[derive(Clone, Copy, Debug)]
pub struct Blake3Hash {
    b: [u8; 32],
}

impl View for Blake3Hash {
    type V = Seq<u8>;

    closed spec fn view(&self) -> Seq<u8> {
        self.b@
    }
}

impl Blake3Hash {
    /// Wrap existing digest bytes.
    pub fn from_bytes(bytes: [u8; 32]) -> (r: Blake3Hash)
        ensures
            r@ == bytes@,
    {
        Blake3Hash { b: bytes }
    }

    /// The digest as bytes.
    pub fn as_bytes(&self) -> (r: &[u8; 32])
        ensures
            r@ == self@,
    {
        &self.b
    }

    /// Hash a byte string with Blake3.
    pub fn hash(data: &[u8]) -> (r: Blake3Hash)
        ensures
            r@ == blake3_of(data@),
    {
        Blake3Hash { b: blake3_hash_bytes(data) }
    }
}

impl PartialEq for Blake3Hash {
    /// Digests are equal exactly when their bytes are.
    fn eq(&self, other: &Blake3Hash) -> (r: bool) {
        bytes32_eq(&self.b, &other.b)
    }
}

impl Eq for Blake3Hash {}

impl vstd::std_specs::cmp::PartialEqSpecImpl for Blake3Hash {
    open spec fn obeys_eq_spec() -> bool {
        true
    }

    open spec fn eq_spec(&self, other: &Blake3Hash) -> bool {
        self@ == other@
    }
}

/// An incremental hasher over a byte stream.
pub trait Hasher: Sized {
    type Output;

    /// The input absorbed so far.
    spec fn buffered(&self) -> Seq<u8>;

    /// A fresh hasher with nothing absorbed.
    fn new() -> (r: Self)
        ensures
            r.buffered() == Seq::<u8>::empty(),
    ;

    /// Absorb more input.
    fn update(&mut self, data: &[u8])
        ensures
            final(self).buffered() == old(self).buffered() + data@,
    ;

    /// Produce the digest of everything absorbed.
    fn finalize(self) -> Self::Output;

    /// Hash a whole byte string in one call.
    fn hash(data: &[u8]) -> Self::Output {
        let mut hasher = Self::new();
        hasher.update(data);
        hasher.finalize()
    }
}

/// The Blake3 incremental hasher. Input is buffered and hashed on
/// `finalize`, which produces the same digest as hashing the
/// concatenation in one call.
#[derive(Clone)]
pub struct Blake3 {
    buf: Vec<u8>,
}

impl Hasher for Blake3 {
    type Output = Blake3Hash;

    closed spec fn buffered(&self) -> Seq<u8> {
        self.buf@
    }

    fn new() -> (r: Blake3) {
        let r = Blake3 { buf: Vec::new() };
        proof {
            assert(r.buffered() =~= Seq::<u8>::empty());
        }
        r
    }

    fn update(&mut self, data: &[u8]) {
        extend_bytes(&mut self.buf, data);
        proof {
            assert(self.buffered() =~= old(self).buffered() + data@);
        }
    }

    fn finalize(self) -> Blake3Hash {
        Blake3Hash { b: blake3_hash_bytes(self.buf.as_slice()) }
    }
}

/// A digest from either hash function.
#[derive(Clone, Copy, Debug)]
pub enum Hash {
    /// A general-purpose 256-bit digest.
    Blake3(Blake3Hash),
    /// An algebraic digest usable inside circuits.
    Poseidon(PoseidonHash),
}

impl Hash {
    /// Hash a byte string with the general-purpose function.
    pub fn blake3(data: &[u8]) -> (r: Hash)
        ensures
            r matches Hash::Blake3(h) && h@ == blake3_of(data@),
    {
        Hash::Blake3(Blake3Hash::hash(data))
    }

    /// Hash a byte string with the algebraic function.
    pub fn poseidon(data: &[u8]) -> (r: Hash)
        ensures
            r matches Hash::Poseidon(h) && h@ == poseidon_fold_spec(poseidon_chunks_spec(data@)),
    {
        Hash::Poseidon(PoseidonHash::hash_bytes(data))
    }

    /// The digest as 32 bytes: the digest bytes for the general-purpose
    /// function, the canonical field-element encoding for the algebraic
    /// one.
    pub fn to_bytes(&self) -> (r: Vec<u8>)
        ensures
            self matches Hash::Blake3(h) ==> r@ == h@,
            self matches Hash::Poseidon(h) ==> crate::bytes::le_nat(r@) == h@ && r@.len() == 32,
    {
        match self {
            Hash::Blake3(h) => {
                let mut out: Vec<u8> = Vec::new();
                extend_bytes32(&mut out, h.as_bytes());
                proof {
                    assert(out@ =~= h@);
                }
                out
            },
            Hash::Poseidon(h) => {
                let bytes = h.to_bytes();
                let mut out: Vec<u8> = Vec::new();
                extend_bytes32(&mut out, &bytes);
                proof {
                    assert(out@ =~= bytes@);
                }
                out
            },
        }
    }
}

/// The bytes hashed for domain tag `domain`: its UTF-8 encoding followed
/// by a single zero byte, so that no tag is a prefix of another.
pub open spec fn domain_prefix(domain: &str) -> Seq<u8> {
    domain.spec_bytes() + seq![0u8]
}

/// A Blake3 hasher that first absorbs a domain tag, so that the same data
/// hashed under two different tags yields independent digests.
pub struct DomainSeparatedHasher {
    buf: Vec<u8>,
}

impl View for DomainSeparatedHasher {
    type V = Seq<u8>;

    closed spec fn view(&self) -> Seq<u8> {
        self.buf@
    }
}

impl DomainSeparatedHasher {
    /// Start a hash under the given domain tag.
    pub fn new(domain: &str) -> (r: DomainSeparatedHasher)
        ensures
            r@ == domain_prefix(domain),
    {
        let mut buf: Vec<u8> = Vec::new();
        extend_bytes(&mut buf, domain.as_bytes());
        buf.push(0u8);
        proof {
            assert(buf@ =~= domain_prefix(domain));
        }
        DomainSeparatedHasher { buf }
    }

    /// Absorb data.
    pub fn update(&mut self, data: &[u8])
        ensures
            final(self)@ == old(self)@ + data@,
    {
        extend_bytes(&mut self.buf, data);
    }

    /// The domain-separated digest of everything absorbed.
    pub fn finalize(self) -> (r: Blake3Hash)
        ensures
            r@ == blake3_of(self@),
    {
        Blake3Hash { b: blake3_hash_bytes(self.buf.as_slice()) }
    }
}

/// The hash combining two Merkle child nodes into their parent.
pub open spec fn merkle_hash_spec(left: Seq<u8>, right: Seq<u8>) -> Seq<u8> {
    blake3_of(left + right)
}

/// Combine two 32-byte Merkle nodes into their parent node.
pub fn merkle_hash(left: &[u8; 32], right: &[u8; 32]) -> (r: [u8; 32])
    ensures
        r@ == merkle_hash_spec(left@, right@),
{
    let mut buf: Vec<u8> = Vec::new();
    extend_bytes32(&mut buf, left);
    extend_bytes32(&mut buf, right);
    proof {
        assert(buf@ =~= left@ + right@);
    }
    blake3_hash_bytes(buf.as_slice())
}

/// The order of the Pallas base field (the modulus of `pasta_curves::Fp`).
pub open spec fn fp_order() -> nat {
    0x40000000000000000000000000000000224698fc094cf91b992d30ed00000001nat
}

/// Relies on `pasta_curves::Fp::from_repr`: it accepts exactly the canonical
/// little-endian encodings, the byte strings whose value is below the field order.
#[verifier::external_body]
fn fp_check_canonical(b: &[u8; 32]) -> (r: bool)
    ensures
        r == (le_nat(b@) < fp_order()),
{
    bool::from(pasta_curves::Fp::from_repr(*b).is_some())
}

/// Relies on `pasta_curves::Fp` addition; `from_repr`/`to_repr` convert
/// between a field element and its canonical little-endian encoding.
#[verifier::external_body]
fn fp_add_bytes(a: &[u8; 32], b: &[u8; 32]) -> (r: [u8; 32])
    requires
        le_nat(a@) < fp_order(),
        le_nat(b@) < fp_order(),
    ensures
        le_nat(r@) == (le_nat(a@) + le_nat(b@)) % fp_order(),
{
    let x = pasta_curves::Fp::from_repr(*a).unwrap();
    let y = pasta_curves::Fp::from_repr(*b).unwrap();
    (x + y).to_repr()
}

/// Relies on `pasta_curves::Fp` multiplication, as `fp_add_bytes` does on addition.
#[verifier::external_body]
fn fp_mul_bytes(a: &[u8; 32], b: &[u8; 32]) -> (r: [u8; 32])
    requires
        le_nat(a@) < fp_order(),
        le_nat(b@) < fp_order(),
    ensures
        le_nat(r@) == (le_nat(a@) * le_nat(b@)) % fp_order(),
{
    let x = pasta_curves::Fp::from_repr(*a).unwrap();
    let y = pasta_curves::Fp::from_repr(*b).unwrap();
    (x * y).to_repr()
}

/// The algebraic two-to-one compression: the cube, in the Pallas base
/// field, of the first input plus twice the second — so the two slots
/// are not interchangeable.
pub open spec fn poseidon_two_spec(a: nat, b: nat) -> nat {
    let s = (a + b + b) % fp_order();
    (((s * s) % fp_order()) * s) % fp_order()
}

/// Folding a list of field values with the two-to-one compression,
/// starting from the first; the empty list folds to zero.
pub open spec fn poseidon_fold_spec(fields: Seq<nat>) -> nat
    decreases fields.len(),
{
    if fields.len() == 0 {
        0
    } else if fields.len() == 1 {
        fields[0]
    } else {
        poseidon_two_spec(poseidon_fold_spec(fields.drop_last()), fields.last())
    }
}

/// The field value a 31-byte (or shorter) chunk is mapped to: its value
/// shifted up one byte, or zero where that is not a canonical encoding.
pub open spec fn poseidon_chunk_spec(chunk: Seq<u8>) -> nat {
    if 256 * le_nat(chunk) < fp_order() {
        256 * le_nat(chunk)
    } else {
        0
    }
}

/// The field values obtained by cutting a byte string into 31-byte chunks.
pub open spec fn poseidon_chunks_spec(data: Seq<u8>) -> Seq<nat>
    decreases data.len(),
{
    if data.len() == 0 {
        Seq::empty()
    } else if data.len() <= 31 {
        seq![poseidon_chunk_spec(data)]
    } else {
        seq![poseidon_chunk_spec(data.take(31))] + poseidon_chunks_spec(data.skip(31))
    }
}

/// An element of the Pallas base field, the output type of the algebraic
/// hash. Kept as its canonical 32-byte little-endian encoding and viewed
/// as the natural number it encodes.
#[derive(Clone, Copy, Debug)]
pub struct PoseidonHash {
    b: [u8; 32],
}

impl View for PoseidonHash {
    type V = nat;

    closed spec fn view(&self) -> nat {
        le_nat(self.b@)
    }
}

impl PoseidonHash {
    /// Every value is below the base-field order.
    pub open spec fn wf(&self) -> bool {
        self@ < fp_order()
    }

    /// The field element for a small integer.
    pub fn from_u64(v: u64) -> (r: PoseidonHash)
        ensures
            r@ == v as nat,
            r.wf(),
    {
        PoseidonHash { b: u64_to_bytes32(v) }
    }

    /// The canonical 32-byte little-endian encoding.
    pub fn to_bytes(&self) -> (r: [u8; 32])
        ensures
            le_nat(r@) == self@,
    {
        self.b
    }

    /// Hash two field elements into one (two-to-one compression).
    pub fn hash_two(left: PoseidonHash, right: PoseidonHash) -> (r: PoseidonHash)
        requires
            left.wf(),
            right.wf(),
        ensures
            r@ == poseidon_two_spec(left@, right@),
            r.wf(),
    {
        let doubled = fp_add_bytes(&right.b, &right.b);
        let sum = fp_add_bytes(&left.b, &doubled);
        let squared = fp_mul_bytes(&sum, &sum);
        let cubed = fp_mul_bytes(&squared, &sum);
        proof {
            vstd::arithmetic::div_mod::lemma_add_mod_noop_right(
                left@ as int,
                (right@ + right@) as int,
                fp_order() as int,
            );
        }
        PoseidonHash { b: cubed }
    }

    /// Hash a list of field elements by repeated two-to-one compression.
    pub fn hash_fields(fields: &[PoseidonHash]) -> (r: PoseidonHash)
        requires
            forall|i: int| 0 <= i < fields@.len() ==> fields@[i].wf(),
        ensures
            r@ == poseidon_fold_spec(fields@.map_values(|f: PoseidonHash| f@)),
            r.wf(),
    {
        let ghost values = fields@.map_values(|f: PoseidonHash| f@);
        if fields.len() == 0 {
            let r = PoseidonHash::from_u64(0);
            return r;
        }
        let mut result = fields[0];
        let mut i: usize = 1;
        while i < fields.len()
            invariant
                1 <= i <= fields@.len(),
                values == fields@.map_values(|f: PoseidonHash| f@),
                forall|j: int| 0 <= j < fields@.len() ==> fields@[j].wf(),
                result.wf(),
                result@ == poseidon_fold_spec(values.take(i as int)),
            decreases fields@.len() - i,
        {
            proof {
                assert(values.take(i + 1 as int).drop_last() =~= values.take(i as int));
            }
            result = PoseidonHash::hash_two(result, fields[i]);
            i += 1;
        }
        proof {
            assert(values.take(values.len() as int) =~= values);
        }
        result
    }

    /// Hash a byte string: cut it into 31-byte chunks, map each chunk to a
    /// field element, and fold them with the two-to-one compression.
    pub fn hash_bytes(data: &[u8]) -> (r: PoseidonHash)
        ensures
            r@ == poseidon_fold_spec(poseidon_chunks_spec(data@)),
            r.wf(),
    {
        let mut fields: Vec<PoseidonHash> = Vec::new();
        let mut pos: usize = 0;
        while pos < data.len()
            invariant
                pos <= data@.len(),
                pos % 31 == 0 || pos == data@.len(),
                forall|j: int| 0 <= j < fields@.len() ==> fields@[j].wf(),
                fields@.map_values(|f: PoseidonHash| f@) == poseidon_chunks_spec(
                    data@.take(pos as int),
                ),
            decreases data@.len() - pos,
        {
            let n = data.len();
            let remaining = n - pos;
            let take = if remaining < 31 {
                remaining
            } else {
                31
            };
            let mut chunk = [0u8; 32];
            let mut i: usize = 0;
            while i < take
                invariant
                    i <= take,
                    take <= 31,
                    n == data@.len(),
                    pos + take <= n,
                    forall|j: int| 1 <= j < 1 + i ==> #[trigger] chunk@[j] == data@[pos + j - 1],
                    chunk@[0] == 0,
                    forall|j: int| i + 1 <= j < 32 ==> chunk@[j] == 0,
                decreases take - i,
            {
                chunk[i + 1] = data[pos + i];
                i += 1;
            }
            let ghost chunk_data = data@.subrange(pos as int, pos + take as int);
            proof {
                assert(chunk@ =~= seq![0u8] + chunk_data + chunk@.skip(1 + take as int));
                crate::bytes::lemma_shifted_value(chunk@, chunk_data);
            }
            let field = if fp_check_canonical(&chunk) {
                PoseidonHash { b: chunk }
            } else {
                PoseidonHash::from_u64(0)
            };
            assert(field@ == poseidon_chunk_spec(chunk_data));
            proof {
                lemma_chunks_append(data@, pos as int);
            }
            fields.push(field);
            pos = pos + take;
            proof {
                assert(fields@.map_values(|f: PoseidonHash| f@) =~= poseidon_chunks_spec(
                    data@.take(pos as int),
                ));
            }
        }
        proof {
            assert(data@.take(data@.len() as int) =~= data@);
        }
        PoseidonHash::hash_fields(fields.as_slice())
    }
}

impl PartialEq for PoseidonHash {
    /// Field elements are equal exactly when they encode the same value.
    fn eq(&self, other: &PoseidonHash) -> (r: bool) {
        let r = bytes32_eq(&self.b, &other.b);
        proof {
            if self@ == other@ {
                lemma_le_nat_inj(self.b@, other.b@);
            }
        }
        r
    }
}

impl Eq for PoseidonHash {}

impl vstd::std_specs::cmp::PartialEqSpecImpl for PoseidonHash {
    open spec fn obeys_eq_spec() -> bool {
        true
    }

    open spec fn eq_spec(&self, other: &PoseidonHash) -> bool {
        self@ == other@
    }
}

/// Reading one more chunk extends the chunk list by one entry.
proof fn lemma_chunks_append(d: Seq<u8>, pos: int)
    requires
        0 <= pos < d.len(),
        pos % 31 == 0,
    ensures
        ({
            let t = if d.len() - pos < 31 {
                d.len() - pos
            } else {
                31
            };
            poseidon_chunks_spec(d.take(pos + t)) =~= poseidon_chunks_spec(d.take(pos))
                + seq![poseidon_chunk_spec(d.subrange(pos, pos + t))]
        }),
    decreases pos,
{
    let t = if d.len() - pos < 31 {
        d.len() - pos
    } else {
        31
    };
    if pos == 0 {
        assert(d.take(0) =~= Seq::<u8>::empty());
        assert(poseidon_chunks_spec(d.take(0)) =~= Seq::<nat>::empty());
        assert(d.take(t) =~= d.subrange(0, t));
        assert(poseidon_chunks_spec(d.take(t)) =~= seq![poseidon_chunk_spec(d.take(t))]);
    } else {
        let a = d.take(pos + t);
        let b = d.take(pos);
        assert(a.len() == pos + t);
        assert(b.len() == pos);
        assert(pos >= 31) by (nonlinear_arith)
            requires
                pos % 31 == 0,
                pos > 0,
        ;
        assert(poseidon_chunks_spec(a) == seq![poseidon_chunk_spec(a.take(31))]
            + poseidon_chunks_spec(a.skip(31)));
        if pos == 31 {
            assert(poseidon_chunks_spec(b) =~= seq![poseidon_chunk_spec(b)]);
        } else {
            assert(poseidon_chunks_spec(b) == seq![poseidon_chunk_spec(b.take(31))]
                + poseidon_chunks_spec(b.skip(31)));
        }
        let d2 = d.skip(31);
        assert((pos - 31) % 31 == 0) by (nonlinear_arith)
            requires
                pos % 31 == 0,
                pos >= 31,
        ;
        lemma_chunks_append(d2, pos - 31);
        assert(a.skip(31) =~= d2.take(pos - 31 + t));
        assert(b.skip(31) =~= d2.take(pos - 31));
        assert(a.take(31) =~= b.take(31));
        assert(d.subrange(pos, pos + t) =~= d2.subrange(pos - 31, pos - 31 + t));
        if pos == 31 {
            assert(b.take(31) =~= b);
            assert(poseidon_chunks_spec(d2.take(0)) =~= Seq::<nat>::empty());
        }
    }
}

} // verus!
