//! Byte-sequence utilities shared by the whole crate: the little-endian
//! value of a byte string, equality and concatenation helpers, and the
//! encoding of a `u64` position as eight little-endian bytes.

use vstd::prelude::*;

verus! {

use vstd::arithmetic::power2::{pow2, lemma_pow2_adds, lemma_pow2_pos};
use vstd::arithmetic::div_mod::{
    lemma_fundamental_div_mod, lemma_fundamental_div_mod_converse,
};

/// The value of a byte string read as a little-endian natural number.
pub open spec fn le_nat(s: Seq<u8>) -> nat
    decreases s.len(),
{
    if s.len() == 0 {
        0
    } else {
        s[0] as nat + 256 * le_nat(s.skip(1))
    }
}

/// A little-endian byte string of length `len` is worth less than `2^(8*len)`.
pub proof fn lemma_le_nat_bound(s: Seq<u8>)
    ensures
        le_nat(s) < pow2(8 * s.len()),
    decreases s.len(),
{
    if s.len() == 0 {
        assert(pow2(0) == 1) by {
            lemma_pow2_pos(0);
            vstd::arithmetic::power2::lemma2_to64();
        }
    } else {
        lemma_le_nat_bound(s.skip(1));
        lemma_pow2_adds(8, 8 * (s.len() - 1) as nat);
        assert(pow2(8) == 256) by {
            vstd::arithmetic::power2::lemma2_to64();
        }
        assert(s[0] as nat + 256 * le_nat(s.skip(1)) < 256 * pow2(8 * (s.len() - 1) as nat))
            by (nonlinear_arith)
            requires
                s[0] < 256,
                le_nat(s.skip(1)) < pow2(8 * (s.len() - 1) as nat),
        ;
        assert(8 * s.len() == 8 + 8 * (s.len() - 1) as nat);
    }
}

/// Two byte strings of equal length with the same little-endian value are equal.
pub proof fn lemma_le_nat_inj(a: Seq<u8>, b: Seq<u8>)
    requires
        a.len() == b.len(),
        le_nat(a) == le_nat(b),
    ensures
        a =~= b,
    decreases a.len(),
{
    if a.len() > 0 {
        lemma_le_nat_digit(a);
        lemma_le_nat_digit(b);
        lemma_le_nat_inj(a.skip(1), b.skip(1));
        assert(a =~= seq![a[0]] + a.skip(1));
        assert(b =~= seq![b[0]] + b.skip(1));
    }
}

/// The first byte and the rest of a string are recovered from its value
/// by division and remainder.
pub proof fn lemma_le_nat_digit(s: Seq<u8>)
    requires
        s.len() > 0,
    ensures
        s[0] as nat == le_nat(s) % 256,
        le_nat(s.skip(1)) == le_nat(s) / 256,
{
    lemma_fundamental_div_mod_converse(
        le_nat(s) as int,
        256,
        le_nat(s.skip(1)) as int,
        s[0] as int,
    );
}

/// The little-endian byte string of length `len` whose value is `n % 2^(8*len)`.
pub open spec fn le_bytes(n: nat, len: nat) -> Seq<u8>
    decreases len,
{
    if len == 0 {
        Seq::empty()
    } else {
        seq![(n % 256) as u8] + le_bytes(n / 256, (len - 1) as nat)
    }
}

/// `le_bytes` produces `len` bytes and reads back as `n` when `n` fits.
pub proof fn lemma_le_bytes_roundtrip(n: nat, len: nat)
    requires
        n < pow2(8 * len),
    ensures
        le_bytes(n, len).len() == len,
        le_nat(le_bytes(n, len)) == n,
    decreases len,
{
    if len == 0 {
        assert(pow2(0) == 1) by {
            vstd::arithmetic::power2::lemma2_to64();
        }
    } else {
        lemma_pow2_adds(8, 8 * (len - 1) as nat);
        assert(pow2(8) == 256) by {
            vstd::arithmetic::power2::lemma2_to64();
        }
        assert(n / 256 < pow2(8 * (len - 1) as nat)) by (nonlinear_arith)
            requires
                n < 256 * pow2(8 * (len - 1) as nat),
        ;
        lemma_le_bytes_roundtrip(n / 256, (len - 1) as nat);
        let s = le_bytes(n, len);
        assert(s.skip(1) =~= le_bytes(n / 256, (len - 1) as nat));
        lemma_fundamental_div_mod(n as int, 256);
    }
}

/// A byte string is the `le_bytes` encoding of its own value.
pub proof fn lemma_le_bytes_of_le_nat(s: Seq<u8>)
    ensures
        le_bytes(le_nat(s), s.len()) =~= s,
{
    lemma_le_nat_bound(s);
    lemma_le_bytes_roundtrip(le_nat(s), s.len());
    lemma_le_nat_inj(le_bytes(le_nat(s), s.len()), s);
}

/// An all-zero byte string has value zero.
pub proof fn lemma_le_nat_zeros(s: Seq<u8>)
    requires
        forall|i: int| 0 <= i < s.len() ==> s[i] == 0,
    ensures
        le_nat(s) == 0,
    decreases s.len(),
{
    if s.len() > 0 {
        lemma_le_nat_zeros(s.skip(1));
    }
}

/// Compare two 32-byte strings.
pub fn bytes32_eq(a: &[u8; 32], b: &[u8; 32]) -> (r: bool)
    ensures
        r == (a@ =~= b@),
{
    let mut i: usize = 0;
    while i < 32
        invariant
            i <= 32,
            forall|j: int| 0 <= j < i ==> a@[j] == b@[j],
        decreases 32 - i,
    {
        if a[i] != b[i] {
            return false;
        }
        i += 1;
    }
    true
}

/// Append a whole 32-byte string to a buffer.
pub fn extend_bytes32(buf: &mut Vec<u8>, add: &[u8; 32])
    ensures
        final(buf)@ == old(buf)@ + add@,
{
    let mut i: usize = 0;
    while i < 32
        invariant
            i <= 32,
            buf@ == old(buf)@ + add@.take(i as int),
        decreases 32 - i,
    {
        buf.push(add[i]);
        assert(buf@ == old(buf)@ + add@.take(i + 1 as int));
        i += 1;
    }
    assert(add@.take(32) =~= add@);
}

/// Append a byte slice to a buffer.
pub fn extend_bytes(buf: &mut Vec<u8>, add: &[u8])
    ensures
        final(buf)@ == old(buf)@ + add@,
{
    let mut i: usize = 0;
    while i < add.len()
        invariant
            i <= add@.len(),
            buf@ == old(buf)@ + add@.take(i as int),
        decreases add@.len() - i,
    {
        buf.push(add[i]);
        assert(buf@ == old(buf)@ + add@.take(i + 1 as int));
        i += 1;
    }
    assert(add@.take(add@.len() as int) =~= add@);
}

/// The eight little-endian bytes of a 64-bit integer.
pub open spec fn u64_le_seq(v: u64) -> Seq<u8> {
    vstd::bytes::spec_u64_to_le_bytes(v)
}

/// Encode a 64-bit integer as eight little-endian bytes.
pub fn u64_to_le(v: u64) -> (r: Vec<u8>)
    ensures
        r@ == u64_le_seq(v),
        r@.len() == 8,
{
    proof {
        vstd::bytes::lemma_auto_spec_u64_to_from_le_bytes();
        vstd::bytes::spec_u64_to_le_bytes_to_open(v);
    }
    let mut r: Vec<u8> = Vec::new();
    r.push((v & 0xff) as u8);
    r.push(((v >> 8) & 0xff) as u8);
    r.push(((v >> 16) & 0xff) as u8);
    r.push(((v >> 24) & 0xff) as u8);
    r.push(((v >> 32) & 0xff) as u8);
    r.push(((v >> 40) & 0xff) as u8);
    r.push(((v >> 48) & 0xff) as u8);
    r.push(((v >> 56) & 0xff) as u8);
    assert(r@ =~= vstd::bytes::spec_u64_to_le_bytes_open(v));
    r
}

/// The eight little-endian bytes of `v` are `le_bytes(v, 8)`.
pub proof fn lemma_u64_le_seq_is_le_bytes(v: u64)
    ensures
        u64_le_seq(v) =~= le_bytes(v as nat, 8),
        le_nat(u64_le_seq(v)) == v,
{
    vstd::bytes::spec_u64_to_le_bytes_to_open(v);
    let s = vstd::bytes::spec_u64_to_le_bytes_open(v);
    let t = le_bytes(v as nat, 8);
    assert((v & 0xff) == v % 256) by (bit_vector);
    assert(((v >> 8) & 0xff) == (v / 256) % 256) by (bit_vector);
    assert(((v >> 16) & 0xff) == (v / 65536) % 256) by (bit_vector);
    assert(((v >> 24) & 0xff) == (v / 16777216) % 256) by (bit_vector);
    assert(((v >> 32) & 0xff) == (v / 4294967296) % 256) by (bit_vector);
    assert(((v >> 40) & 0xff) == (v / 1099511627776) % 256) by (bit_vector);
    assert(((v >> 48) & 0xff) == (v / 281474976710656) % 256) by (bit_vector);
    assert(((v >> 56) & 0xff) == (v / 72057594037927936) % 256) by (bit_vector);
    let n0 = v as nat;
    let n1 = n0 / 256;
    let n2 = n1 / 256;
    let n3 = n2 / 256;
    let n4 = n3 / 256;
    let n5 = n4 / 256;
    let n6 = n5 / 256;
    let n7 = n6 / 256;
    assert(n1 == v as nat / 256);
    assert(n2 == v as nat / 65536) by (nonlinear_arith)
        requires n2 == (v as nat / 256) / 256;
    assert(n3 == v as nat / 16777216) by (nonlinear_arith)
        requires n3 == (v as nat / 65536) / 256;
    assert(n4 == v as nat / 4294967296) by (nonlinear_arith)
        requires n4 == (v as nat / 16777216) / 256;
    assert(n5 == v as nat / 1099511627776) by (nonlinear_arith)
        requires n5 == (v as nat / 4294967296) / 256;
    assert(n6 == v as nat / 281474976710656) by (nonlinear_arith)
        requires n6 == (v as nat / 1099511627776) / 256;
    assert(n7 == v as nat / 72057594037927936) by (nonlinear_arith)
        requires n7 == (v as nat / 281474976710656) / 256;
    assert(le_bytes(n7 / 256, 0) =~= Seq::<u8>::empty());
    assert(le_bytes(n7, 1) =~= seq![(n7 % 256) as u8]);
    assert(le_bytes(n6, 2) =~= seq![(n6 % 256) as u8, (n7 % 256) as u8]);
    assert(le_bytes(n5, 3) =~= seq![(n5 % 256) as u8] + le_bytes(n6, 2));
    assert(le_bytes(n4, 4) =~= seq![(n4 % 256) as u8] + le_bytes(n5, 3));
    assert(le_bytes(n3, 5) =~= seq![(n3 % 256) as u8] + le_bytes(n4, 4));
    assert(le_bytes(n2, 6) =~= seq![(n2 % 256) as u8] + le_bytes(n3, 5));
    assert(le_bytes(n1, 7) =~= seq![(n1 % 256) as u8] + le_bytes(n2, 6));
    assert(t =~= seq![(n0 % 256) as u8] + le_bytes(n1, 7));
    assert(s =~= t);
    assert(v < 0x10000000000000000);
    assert(pow2(64) == 0x10000000000000000) by {
        vstd::arithmetic::power2::lemma2_to64();
    }
    lemma_le_bytes_roundtrip(v as nat, 8);
}

/// A 64-bit integer padded to 32 little-endian bytes.
pub fn u64_to_bytes32(v: u64) -> (r: [u8; 32])
    ensures
        le_nat(r@) == v as nat,
{
    let le = u64_to_le(v);
    let mut b = [0u8; 32];
    let mut i: usize = 0;
    while i < 8
        invariant
            i <= 8,
            le@.len() == 8,
            le@ == u64_le_seq(v),
            forall|j: int| 0 <= j < i ==> b@[j] == le@[j],
            forall|j: int| i <= j < 32 ==> b@[j] == 0,
        decreases 8 - i,
    {
        b[i] = le[i];
        i += 1;
    }
    proof {
        assert(b@ =~= le@ + b@.skip(8));
        lemma_le_nat_append(le@, b@.skip(8));
        lemma_le_nat_zeros(b@.skip(8));
        lemma_u64_le_seq_is_le_bytes(v);
    }
    b
}

/// Distinct integers have distinct little-endian encodings.
pub proof fn lemma_u64_le_seq_inj(x: u64, y: u64)
    requires
        u64_le_seq(x) == u64_le_seq(y),
    ensures
        x == y,
{
    vstd::bytes::lemma_auto_spec_u64_to_from_le_bytes();
}

/// The value of a concatenation: the first part plus the second part
/// shifted up by the first part's width.
pub proof fn lemma_le_nat_append(a: Seq<u8>, b: Seq<u8>)
    ensures
        le_nat(a + b) == le_nat(a) + pow2(8 * a.len()) * le_nat(b),
    decreases a.len(),
{
    if a.len() == 0 {
        assert(a + b =~= b);
        assert(pow2(0) == 1) by {
            vstd::arithmetic::power2::lemma2_to64();
        }
    } else {
        assert((a + b).skip(1) =~= a.skip(1) + b);
        lemma_le_nat_append(a.skip(1), b);
        lemma_pow2_adds(8, 8 * (a.len() - 1) as nat);
        assert(pow2(8) == 256) by {
            vstd::arithmetic::power2::lemma2_to64();
        }
        let pa = pow2(8 * (a.len() - 1) as nat);
        assert(256 * (le_nat(a.skip(1)) + pa * le_nat(b)) == 256 * le_nat(a.skip(1)) + (256
            * pa) * le_nat(b)) by (nonlinear_arith);
    }
}

/// The value of a zero byte, a chunk, and zero padding, read little-endian,
/// is the chunk's value shifted up one byte.
pub proof fn lemma_shifted_value(padded: Seq<u8>, chunk: Seq<u8>)
    requires
        padded =~= seq![0u8] + chunk + padded.skip(1 + chunk.len() as int),
        padded.len() == 32,
        1 + chunk.len() <= 32,
        forall|j: int| 1 + chunk.len() <= j < 32 ==> padded[j] == 0,
    ensures
        le_nat(padded) == 256 * le_nat(chunk),
{
    let tail = padded.skip(1);
    assert(tail =~= chunk + padded.skip(1 + chunk.len() as int));
    lemma_le_nat_append(chunk, padded.skip(1 + chunk.len() as int));
    lemma_le_nat_zeros(padded.skip(1 + chunk.len() as int));
    assert(le_nat(tail) == le_nat(chunk)) by (nonlinear_arith)
        requires
            le_nat(tail) == le_nat(chunk) + vstd::arithmetic::power2::pow2(
                8 * chunk.len(),
            ) * le_nat(padded.skip(1 + chunk.len() as int)),
            le_nat(padded.skip(1 + chunk.len() as int)) == 0,
    ;
    lemma_le_nat_digit(padded);
    assert(padded[0] == 0);
    vstd::arithmetic::div_mod::lemma_fundamental_div_mod(le_nat(padded) as int, 256);
}

/// The lowercase hexadecimal digit for a value below 16.
pub open spec fn hex_digit(n: nat) -> char {
    if n < 10 {
        ((48 + n) as u8) as char
    } else {
        ((87 + n) as u8) as char
    }
}

/// The lowercase hexadecimal rendering of a byte string: two digits per
/// byte, high nibble first.
pub open spec fn hex_of(data: Seq<u8>) -> Seq<char>
    decreases data.len(),
{
    if data.len() == 0 {
        Seq::empty()
    } else {
        seq![
            hex_digit(data[0] as nat / 16),
            hex_digit(data[0] as nat % 16),
        ] + hex_of(data.skip(1))
    }
}

/// Relies on `hex::encode`: two lowercase hexadecimal digits per input
/// byte, high nibble first.
#[verifier::external_body]
pub(crate) fn hex_encode(data: &[u8]) -> (r: String)
    ensures
        r@ == hex_of(data@),
{
    hex::encode(data)
}

} // verus!
