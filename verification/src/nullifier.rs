//! Nullifiers and the double-spend set.
//!
//! A nullifier is a deterministic tag revealed when a note is spent; the
//! set records every revealed tag and rejects one that appears twice.
//! Batch insertion is all-or-nothing: a batch with any already-spent or
//! repeated tag leaves the set untouched.

use vstd::prelude::*;

use crate::bytes::{bytes32_eq, le_bytes, le_nat, u64_le_seq};
use crate::hash::{blake3_of, domain_prefix, Blake3Hash, DomainSeparatedHasher};
use crate::scalar::{fq_order, Scalar};
use crate::CryptoError;

verus! {

use vstd::arithmetic::power2::pow2;

/// A nullifier: a 32-byte spend tag.
#[derive(Clone, Copy, Debug)]
pub struct Nullifier {
    b: [u8; 32],
}

impl View for Nullifier {
    type V = Seq<u8>;

    closed spec fn view(&self) -> Seq<u8> {
        self.b@
    }
}

impl Nullifier {
    /// Wrap nullifier bytes.
    pub fn from_bytes(bytes: [u8; 32]) -> (r: Nullifier)
        ensures
            r@ == bytes@,
    {
        Nullifier { b: bytes }
    }

    /// The nullifier as bytes.
    pub fn as_bytes(&self) -> (r: &[u8; 32])
        ensures
            r@ == self@,
    {
        &self.b
    }

    /// The nullifier as a lowercase hexadecimal string.
    pub fn to_hex(&self) -> (r: String)
        ensures
            r@ == crate::bytes::hex_of(self@),
    {
        crate::bytes::hex_encode(self.b.as_slice())
    }
}

impl PartialEq for Nullifier {
    /// Nullifiers are equal exactly when their bytes are.
    fn eq(&self, other: &Nullifier) -> (r: bool) {
        bytes32_eq(&self.b, &other.b)
    }
}

impl Eq for Nullifier {}

impl vstd::std_specs::cmp::PartialEqSpecImpl for Nullifier {
    open spec fn obeys_eq_spec() -> bool {
        true
    }

    open spec fn eq_spec(&self, other: &Nullifier) -> bool {
        self@ == other@
    }
}

/// The scalar derived for a nullifier key from a seed: the seed hashed
/// under the nullifier-key domain tag, the 256-bit digest reduced into
/// the field.
pub open spec fn nk_from_seed(seed: Seq<u8>) -> nat {
    crate::scalar::reduce_wide(blake3_of(domain_prefix("PRIVL1_NULLIFIER_KEY") + seed))
}

/// The secret key from which a holder derives the nullifiers of notes.
#[derive(Clone, Debug)]
pub struct NullifierDerivingKey {
    nk: Scalar,
}

impl View for NullifierDerivingKey {
    type V = nat;

    closed spec fn view(&self) -> nat {
        self.nk@
    }
}

impl NullifierDerivingKey {
    /// The key's scalar is a field element.
    pub open spec fn wf(&self) -> bool {
        self@ < fq_order()
    }

    /// A fresh random key.
    pub fn random() -> (r: NullifierDerivingKey)
        ensures
            r.wf(),
    {
        NullifierDerivingKey { nk: Scalar::random() }
    }

    /// Derive the key from a seed, deterministically, under its own
    /// domain tag.
    pub fn from_seed(seed: &[u8; 32]) -> (r: NullifierDerivingKey)
        ensures
            r@ == nk_from_seed(seed@),
            r.wf(),
    {
        let mut hasher = DomainSeparatedHasher::new("PRIVL1_NULLIFIER_KEY");
        hasher.update(seed.as_slice());
        let hash = hasher.finalize();
        let nk = Scalar::from_wide(hash.as_bytes());
        NullifierDerivingKey { nk }
    }

    /// Derive the nullifier for a note spent from `position`: the
    /// domain-separated hash of the key's encoding, the note's
    /// serialized commitment record, and the little-endian position.
    /// Deterministic, and sensitive to every one of the three inputs'
    /// byte encodings.
    pub fn derive_nullifier(&self, note: &crate::note::Note, position: u64) -> (r: Nullifier)
        requires
            self.wf(),
            note.wf(),
        ensures
            r@ == nullifier_spec(self@, note.commitment_serialized(), position),
    {
        let mut hasher = DomainSeparatedHasher::new("PRIVL1_NULLIFIER");
        let nk_bytes = self.nk.to_bytes();
        hasher.update(nk_bytes.as_slice());
        let commitment = note.commitment();
        let commitment_bytes = commitment.to_bytes();
        hasher.update(commitment_bytes.as_slice());
        let position_bytes = crate::bytes::u64_to_le(position);
        hasher.update(position_bytes.as_slice());
        let hash = hasher.finalize();
        proof {
            assert(domain_prefix("PRIVL1_NULLIFIER") + nk_bytes@ + commitment_bytes@
                + position_bytes@ =~= nullifier_preimage(
                self@,
                note.commitment_serialized(),
                position,
            ));
        }
        Nullifier { b: *hash.as_bytes() }
    }

    /// The underlying scalar.
    pub fn as_scalar(&self) -> (r: &Scalar)
        ensures
            r@ == self@,
    {
        &self.nk
    }
}

/// The bytes a nullifier is the digest of: the domain tag, the key's
/// 32-byte encoding, the note commitment's serialized form, and the
/// little-endian position.
pub open spec fn nullifier_preimage(nk: nat, commitment: Seq<u8>, position: u64) -> Seq<u8> {
    domain_prefix("PRIVL1_NULLIFIER") + le_bytes(nk, 32) + commitment + u64_le_seq(position)
}

/// The nullifier for a note commitment spent from a given position: a
/// pure function of the key, the commitment, and the position.
pub open spec fn nullifier_spec(nk: nat, commitment: Seq<u8>, position: u64) -> Seq<u8> {
    blake3_of(nullifier_preimage(nk, commitment, position))
}

/// The same key and commitment at two different positions never hash the
/// same bytes: the preimages differ at the position field.
pub proof fn lemma_nullifier_preimage_position(
    nk: nat,
    commitment: Seq<u8>,
    pos1: u64,
    pos2: u64,
)
    requires
        pos1 != pos2,
    ensures
        nullifier_preimage(nk, commitment, pos1) != nullifier_preimage(nk, commitment, pos2),
{
    let a = nullifier_preimage(nk, commitment, pos1);
    let b = nullifier_preimage(nk, commitment, pos2);
    if a == b {
        let head = domain_prefix("PRIVL1_NULLIFIER") + le_bytes(nk, 32) + commitment;
        vstd::bytes::lemma_auto_spec_u64_to_from_le_bytes();
        assert(a.skip(head.len() as int) =~= u64_le_seq(pos1));
        assert(b.skip(head.len() as int) =~= u64_le_seq(pos2));
        crate::bytes::lemma_u64_le_seq_inj(pos1, pos2);
    }
}

/// The set of spent nullifiers, the consensus double-spend guard. Keeps
/// insertion order; every member appears exactly once.
pub struct NullifierSet {
    spent: Vec<Nullifier>,
}

impl View for NullifierSet {
    type V = Seq<Seq<u8>>;

    closed spec fn view(&self) -> Seq<Seq<u8>> {
        self.spent@.map_values(|n: Nullifier| n@)
    }
}

impl NullifierSet {
    /// No member appears twice.
    pub open spec fn wf(&self) -> bool {
        forall|i: int, j: int| 0 <= i < j < self@.len() ==> self@[i] != self@[j]
    }

    /// An empty set.
    pub fn new() -> (r: NullifierSet)
        ensures
            r@ == Seq::<Seq<u8>>::empty(),
            r.wf(),
    {
        let r = NullifierSet { spent: Vec::new() };
        proof {
            assert(r@ =~= Seq::<Seq<u8>>::empty());
        }
        r
    }

    /// Whether a nullifier has already been spent.
    pub fn is_spent(&self, nullifier: &Nullifier) -> (r: bool)
        ensures
            r == self@.contains(nullifier@),
    {
        let mut i: usize = 0;
        while i < self.spent.len()
            invariant
                i <= self@.len(),
                forall|j: int| 0 <= j < i ==> self@[j] != nullifier@,
            decreases self@.len() - i,
        {
            if bytes32_eq(&self.spent[i].b, &nullifier.b) {
                proof {
                    assert(self@[i as int] == nullifier@);
                }
                return true;
            }
            i += 1;
        }
        false
    }

    /// Record a nullifier as spent. Fails with `DoubleSpend`, changing
    /// nothing, exactly when it is already in the set.
    pub fn spend(&mut self, nullifier: Nullifier) -> (r: Result<(), CryptoError>)
        requires
            old(self).wf(),
        ensures
            final(self).wf(),
            !old(self)@.contains(nullifier@) ==> (r matches Ok(u) && final(self)@ == old(self)@
                + seq![nullifier@]),
            old(self)@.contains(nullifier@) ==> (r matches Err(e) && e == CryptoError::DoubleSpend
                && final(self)@ == old(self)@),
    {
        if self.is_spent(&nullifier) {
            return Err(CryptoError::DoubleSpend);
        }
        self.spent.push(nullifier);
        proof {
            assert(self@ =~= old(self)@ + seq![nullifier@]);
        }
        Ok(())
    }

    /// Whether a batch is clean against a set: no element is already in
    /// the set and no element appears twice within the batch.
    pub open spec fn batch_clean(prior: Seq<Seq<u8>>, batch: Seq<Seq<u8>>) -> bool {
        &&& (forall|i: int| 0 <= i < batch.len() ==> !prior.contains(#[trigger] batch[i]))
        &&& (forall|i: int, j: int| 0 <= i < j < batch.len() ==> batch[i] != batch[j])
    }

    /// Record a whole batch, atomically: either every nullifier in the
    /// batch is inserted, or — when any of them is already spent, or the
    /// batch repeats one — the set is left completely unchanged and
    /// `DoubleSpend` is reported.
    pub fn spend_batch(&mut self, nullifiers: &[Nullifier]) -> (r: Result<(), CryptoError>)
        requires
            old(self).wf(),
        ensures
            final(self).wf(),
            Self::batch_clean(old(self)@, nullifiers@.map_values(|n: Nullifier| n@)) ==> (
            r matches Ok(u) && final(self)@ == old(self)@ + nullifiers@.map_values(
                |n: Nullifier| n@,
            )),
            !Self::batch_clean(old(self)@, nullifiers@.map_values(|n: Nullifier| n@)) ==> (
            r matches Err(e) && e == CryptoError::DoubleSpend && final(self)@ == old(self)@),
    {
        let ghost batch = nullifiers@.map_values(|n: Nullifier| n@);
        let mut i: usize = 0;
        while i < nullifiers.len()
            invariant
                i <= batch.len(),
                batch == nullifiers@.map_values(|n: Nullifier| n@),
                self@ == old(self)@,
                self.wf(),
                forall|k: int| 0 <= k < i ==> !self@.contains(#[trigger] batch[k]),
                forall|k: int, l: int| 0 <= k < l < i ==> batch[k] != batch[l],
            decreases batch.len() - i,
        {
            if self.is_spent(&nullifiers[i]) {
                proof {
                    assert(batch[i as int] == nullifiers@[i as int]@);
                    assert(!Self::batch_clean(old(self)@, batch));
                }
                return Err(CryptoError::DoubleSpend);
            }
            let mut j: usize = 0;
            while j < i
                invariant
                    j <= i,
                    i < batch.len(),
                    batch == nullifiers@.map_values(|n: Nullifier| n@),
                    self@ == old(self)@,
                    self.wf(),
                    forall|l: int| 0 <= l < j ==> batch[l] != batch[i as int],
                decreases i - j,
            {
                if bytes32_eq(&nullifiers[j].b, &nullifiers[i].b) {
                    proof {
                        assert(batch[j as int] == batch[i as int]);
                        assert(!Self::batch_clean(old(self)@, batch));
                    }
                    return Err(CryptoError::DoubleSpend);
                }
                j += 1;
            }
            i += 1;
        }
        let mut k: usize = 0;
        while k < nullifiers.len()
            invariant
                k <= batch.len(),
                batch == nullifiers@.map_values(|n: Nullifier| n@),
                Self::batch_clean(old(self)@, batch),
                self@ == old(self)@ + batch.take(k as int),
                self.wf(),
            decreases batch.len() - k,
        {
            let ghost before = self@;
            self.spent.push(nullifiers[k]);
            proof {
                assert(batch[k as int] == nullifiers@[k as int]@);
                assert(self@ =~= before + seq![batch[k as int]]);
                assert(self@ =~= old(self)@ + batch.take(k + 1 as int));
                assert forall|a: int, b: int| 0 <= a < b < self@.len() implies self@[a]
                    != self@[b] by {
                    if b >= old(self)@.len() {
                        let bi = b - old(self)@.len();
                        if a >= old(self)@.len() {
                            assert(batch[a - old(self)@.len()] != batch[bi]);
                        } else {
                            assert(!old(self)@.contains(batch[bi]));
                            assert(old(self)@[a] != batch[bi]);
                        }
                    }
                }
            }
            k += 1;
        }
        proof {
            assert(batch.take(batch.len() as int) =~= batch);
        }
        Ok(())
    }

    /// The number of spent nullifiers.
    pub fn len(&self) -> (r: usize)
        ensures
            r == self@.len(),
    {
        self.spent.len()
    }

    /// Whether the set is empty.
    pub fn is_empty(&self) -> (r: bool)
        ensures
            r == (self@.len() == 0),
    {
        self.spent.len() == 0
    }

    /// Forget every nullifier.
    pub fn clear(&mut self)
        ensures
            final(self)@ == Seq::<Seq<u8>>::empty(),
            final(self).wf(),
    {
        self.spent = Vec::new();
        proof {
            assert(self@ =~= Seq::<Seq<u8>>::empty());
        }
    }

    /// Every spent nullifier, in insertion order, for persistence.
    pub fn all_nullifiers(&self) -> (r: Vec<Nullifier>)
        ensures
            r@.map_values(|n: Nullifier| n@) == self@,
    {
        let mut r: Vec<Nullifier> = Vec::new();
        let mut i: usize = 0;
        while i < self.spent.len()
            invariant
                i <= self.spent@.len(),
                r@ =~= self.spent@.take(i as int),
            decreases self.spent@.len() - i,
        {
            r.push(self.spent[i]);
            i += 1;
        }
        proof {
            assert(r@ =~= self.spent@);
        }
        r
    }

    /// Rebuild membership from a saved list: afterwards the set holds
    /// exactly its previous members and the listed ones, the previous
    /// members in their old order, each member once.
    pub fn restore(&mut self, nullifiers: Vec<Nullifier>)
        requires
            old(self).wf(),
        ensures
            final(self).wf(),
            final(self)@.take(old(self)@.len() as int) == old(self)@,
            forall|x: Seq<u8>|
                final(self)@.contains(x) <==> (old(self)@.contains(x)
                    || nullifiers@.map_values(|n: Nullifier| n@).contains(x)),
    {
        let ghost incoming = nullifiers@.map_values(|n: Nullifier| n@);
        let mut i: usize = 0;
        while i < nullifiers.len()
            invariant
                i <= incoming.len(),
                incoming == nullifiers@.map_values(|n: Nullifier| n@),
                self.wf(),
                self@.take(old(self)@.len() as int) == old(self)@,
                old(self)@.len() <= self@.len(),
                forall|x: Seq<u8>|
                    self@.contains(x) <==> (old(self)@.contains(x) || incoming.take(
                        i as int,
                    ).contains(x)),
            decreases incoming.len() - i,
        {
            let ghost pre = self@;
            let entry = nullifiers[i];
            proof {
                assert(incoming[i as int] == entry@);
            }
            if !self.is_spent(&entry) {
                self.spent.push(entry);
                proof {
                    assert(self@ =~= pre + seq![entry@]);
                    assert(self@.take(old(self)@.len() as int) =~= pre.take(
                        old(self)@.len() as int,
                    ));
                    assert forall|a: int, b: int| 0 <= a < b < self@.len() implies self@[a]
                        != self@[b] by {
                        if b == pre.len() {
                            assert(pre[a] == self@[a]);
                            assert(!pre.contains(entry@));
                        }
                    }
                }
            }
            proof {
                assert(self@.contains(entry@)) by {
                    if self@ == pre {
                    } else {
                        assert(self@[pre.len() as int] == entry@);
                    }
                }
                assert forall|x: Seq<u8>|
                    self@.contains(x) <==> (old(self)@.contains(x) || incoming.take(
                        i + 1 as int,
                    ).contains(x)) by {
                    lemma_take_contains(incoming, i as int, x);
                    if self@.contains(x) {
                        let w = choose|w: int|
                            0 <= w < self@.len() && #[trigger] self@[w] == x;
                        if w < pre.len() {
                            assert(pre[w] == x);
                            assert(pre.contains(x));
                        } else {
                            assert(x == entry@);
                        }
                    }
                    if pre.contains(x) {
                        let w = choose|w: int| 0 <= w < pre.len() && #[trigger] pre[w] == x;
                        assert(self@[w] == x);
                        assert(self@.contains(x));
                    }
                }
            }
            i += 1;
        }
        proof {
            assert(incoming.take(incoming.len() as int) =~= incoming);
        }
    }
}


/// A sequence of byte strings in strictly ascending order of value.
pub open spec fn strictly_ascending(s: Seq<Seq<u8>>) -> bool {
    forall|i: int, j: int| 0 <= i < j < s.len() ==> le_nat(s[i]) < le_nat(s[j])
}

/// Two sequences holding exactly the same byte strings.
pub open spec fn same_members(a: Seq<Seq<u8>>, b: Seq<Seq<u8>>) -> bool {
    forall|x: Seq<u8>| a.contains(x) <==> b.contains(x)
}

/// The concatenation of a sequence of byte strings.
pub open spec fn concat_bytes(s: Seq<Seq<u8>>) -> Seq<u8>
    decreases s.len(),
{
    if s.len() == 0 {
        Seq::empty()
    } else {
        s[0] + concat_bytes(s.skip(1))
    }
}

/// A byte string that is larger at its highest differing position has
/// the larger little-endian value.
proof fn lemma_le_nat_high_byte(a: Seq<u8>, b: Seq<u8>, k: int)
    requires
        a.len() == b.len(),
        0 <= k < a.len(),
        a[k] < b[k],
        forall|w: int| k < w < a.len() ==> a[w] == b[w],
    ensures
        le_nat(a) < le_nat(b),
{
    let ta = a.take(k);
    let tb = b.take(k);
    assert(a =~= ta + a.skip(k));
    assert(b =~= tb + b.skip(k));
    crate::bytes::lemma_le_nat_append(ta, a.skip(k));
    crate::bytes::lemma_le_nat_append(tb, b.skip(k));
    crate::bytes::lemma_le_nat_bound(ta);
    crate::bytes::lemma_le_nat_bound(tb);
    assert(a.skip(k).skip(1) =~= b.skip(k).skip(1));
    let t = le_nat(a.skip(k).skip(1));
    assert(le_nat(a.skip(k)) == a[k] + 256 * t);
    assert(le_nat(b.skip(k)) == b[k] + 256 * t);
    let p = pow2(8 * k as nat);
    vstd::arithmetic::power2::lemma_pow2_pos(8 * k as nat);
    assert(le_nat(a) < le_nat(b)) by (nonlinear_arith)
        requires
            le_nat(a) == le_nat(ta) + p * le_nat(a.skip(k)),
            le_nat(b) == le_nat(tb) + p * le_nat(b.skip(k)),
            le_nat(ta) < p,
            le_nat(tb) < p,
            le_nat(a.skip(k)) < le_nat(b.skip(k)),
            p >= 1,
    ;
}

/// Compare two 32-byte strings by value.
fn le_nat_less(a: &[u8; 32], b: &[u8; 32]) -> (r: bool)
    ensures
        r == (le_nat(a@) < le_nat(b@)),
{
    let mut i: usize = 32;
    while i > 0
        invariant
            i <= 32,
            forall|w: int| i <= w < 32 ==> a@[w] == b@[w],
        decreases i,
    {
        i -= 1;
        if a[i] < b[i] {
            proof {
                lemma_le_nat_high_byte(a@, b@, i as int);
            }
            return true;
        }
        if a[i] > b[i] {
            proof {
                lemma_le_nat_high_byte(b@, a@, i as int);
            }
            return false;
        }
        proof {
            assert(a@[i as int] == b@[i as int]);
        }
    }
    proof {
        assert(a@ =~= b@);
    }
    false
}

/// Sort distinct nullifiers into strictly ascending order of value.
fn sort_by_value(members: &Vec<Nullifier>) -> (r: Vec<Nullifier>)
    requires
        forall|i: int, j: int|
            0 <= i < j < members@.len() ==> (#[trigger] members@[i])@ != (
            #[trigger] members@[j])@,
    ensures
        strictly_ascending(r@.map_values(|n: Nullifier| n@)),
        same_members(r@.map_values(|n: Nullifier| n@), members@.map_values(|n: Nullifier| n@)),
        forall|x: Seq<u8>| r@.map_values(|n: Nullifier| n@).contains(x) ==> x.len() == 32,
{
    let ghost all = members@.map_values(|n: Nullifier| n@);
    let mut sorted: Vec<Nullifier> = Vec::new();
    let mut i: usize = 0;
    while i < members.len()
        invariant
            i <= all.len(),
            all == members@.map_values(|n: Nullifier| n@),
            forall|a: int, b: int|
                0 <= a < b < members@.len() ==> (#[trigger] members@[a])@ != (
                #[trigger] members@[b])@,
            strictly_ascending(sorted@.map_values(|n: Nullifier| n@)),
            same_members(sorted@.map_values(|n: Nullifier| n@), all.take(i as int)),
        decreases all.len() - i,
    {
        let ghost sv = sorted@.map_values(|n: Nullifier| n@);
        let entry = members[i];
        proof {
            assert(all[i as int] == entry@);
            assert(!all.take(i as int).contains(entry@)) by {
                if all.take(i as int).contains(entry@) {
                    let w = choose|w: int|
                        0 <= w < i && #[trigger] all.take(i as int)[w] == entry@;
                    assert(members@[w]@ == members@[i as int]@);
                }
            }
            assert(!sv.contains(entry@));
            assert forall|w: int| 0 <= w < sv.len() implies le_nat(sv[w]) != le_nat(
                entry@,
            ) by {
                if le_nat(sv[w]) == le_nat(entry@) {
                    assert(sv.contains(sv[w]));
                    assert(all.take(i as int).contains(sv[w]));
                    let u = choose|u: int|
                        0 <= u < i && #[trigger] all.take(i as int)[u] == sv[w];
                    assert(members@[u]@.len() == 32);
                    crate::bytes::lemma_le_nat_inj(sv[w], entry@);
                }
            }
        }
        let mut pos: usize = 0;
        while pos < sorted.len()
            invariant_except_break
                pos <= sorted@.len(),
                sv == sorted@.map_values(|n: Nullifier| n@),
                forall|w: int| 0 <= w < pos ==> le_nat(#[trigger] sv[w]) < le_nat(entry@),
            ensures
                pos <= sorted@.len(),
                sv == sorted@.map_values(|n: Nullifier| n@),
                forall|w: int| 0 <= w < pos ==> le_nat(#[trigger] sv[w]) < le_nat(entry@),
                pos < sorted@.len() ==> !(le_nat(sv[pos as int]) < le_nat(entry@)),
            decreases sorted@.len() - pos,
        {
            if !le_nat_less(&sorted[pos].b, &entry.b) {
                break;
            }
            pos += 1;
        }
        proof {
            if pos < sorted@.len() {
                assert(le_nat(sv[pos as int]) >= le_nat(entry@));
                assert(le_nat(sv[pos as int]) != le_nat(entry@));
            }
        }
        sorted.insert(pos, entry);
        proof {
            let sv2 = sorted@.map_values(|n: Nullifier| n@);
            assert(sv2 =~= sv.take(pos as int) + seq![entry@] + sv.skip(pos as int)) by {
                assert(sorted@ =~= sorted@);
                assert forall|w: int| 0 <= w < sv2.len() implies sv2[w] == (sv.take(
                    pos as int,
                ) + seq![entry@] + sv.skip(pos as int))[w] by {
                    if w < pos {
                    } else if w == pos {
                    } else {
                    }
                }
            }
            assert forall|a: int, b: int| 0 <= a < b < sv2.len() implies le_nat(
                #[trigger] sv2[a],
            ) < le_nat(#[trigger] sv2[b]) by {
                let la = if a < pos {
                    le_nat(sv[a])
                } else if a == pos {
                    le_nat(entry@)
                } else {
                    le_nat(sv[a - 1])
                };
                assert(le_nat(sv2[a]) == la);
                if b < pos {
                } else if b == pos {
                    assert(le_nat(sv2[b]) == le_nat(entry@));
                } else {
                    assert(le_nat(sv2[b]) == le_nat(sv[b - 1]));
                    if a == pos {
                        assert(le_nat(entry@) < le_nat(sv[b - 1])) by {
                            assert(le_nat(entry@) <= le_nat(sv[pos as int]));
                        }
                    }
                }
            }
            assert forall|x: Seq<u8>|
                sv2.contains(x) <==> all.take(i + 1 as int).contains(x) by {
                lemma_take_contains(all, i as int, x);
                if sv2.contains(x) {
                    let w = choose|w: int| 0 <= w < sv2.len() && #[trigger] sv2[w] == x;
                    if w < pos {
                        assert(sv[w] == x);
                        assert(sv.contains(x));
                    } else if w == pos {
                    } else {
                        assert(sv[w - 1] == x);
                        assert(sv.contains(x));
                    }
                }
                if sv.contains(x) {
                    let w = choose|w: int| 0 <= w < sv.len() && #[trigger] sv[w] == x;
                    if w < pos {
                        assert(sv2[w] == x);
                    } else {
                        assert(sv2[w + 1] == x);
                    }
                }
                if x == entry@ {
                    assert(sv2[pos as int] == x);
                }
            }
        }
        i += 1;
    }
    proof {
        assert(all.take(all.len() as int) =~= all);
        let sv = sorted@.map_values(|n: Nullifier| n@);
        assert forall|x: Seq<u8>| sv.contains(x) implies x.len() == 32 by {
            let w = choose|w: int| 0 <= w < sv.len() && #[trigger] sv[w] == x;
        }
    }
    sorted
}

/// The nullifier set bound to the location its state is persisted at.
/// The storage engine itself is a collaborator outside this crate: what
/// must be persisted is the member list that `all_nullifiers` exports.
pub struct PersistentNullifierSet {
    set: NullifierSet,
    db_path: String,
}

impl PersistentNullifierSet {
    /// The members, in insertion order.
    pub closed spec fn view_members(&self) -> Seq<Seq<u8>> {
        self.set@
    }

    /// No member appears twice.
    pub closed spec fn wf(&self) -> bool {
        self.set.wf()
    }

    /// Open (or create) the set persisted at a path; it starts from the
    /// empty membership.
    pub fn open(db_path: String) -> (r: Result<PersistentNullifierSet, CryptoError>)
        ensures
            r matches Ok(s) && s.view_members() == Seq::<Seq<u8>>::empty() && s.wf(),
    {
        Ok(PersistentNullifierSet { set: NullifierSet::new(), db_path })
    }

    /// Whether a nullifier has been spent.
    pub fn is_spent(&self, nullifier: &Nullifier) -> (r: bool)
        ensures
            r == self.view_members().contains(nullifier@),
    {
        self.set.is_spent(nullifier)
    }

    /// Record a nullifier as spent; fails with `DoubleSpend`, changing
    /// nothing, exactly when it is already present.
    pub fn spend(&mut self, nullifier: Nullifier) -> (r: Result<(), CryptoError>)
        requires
            old(self).wf(),
        ensures
            final(self).wf(),
            !old(self).view_members().contains(nullifier@) ==> (r matches Ok(u) && final(self).view_members() == old(self).view_members() + seq![nullifier@]),
            old(self).view_members().contains(nullifier@) ==> (r matches Err(e) && e
                == CryptoError::DoubleSpend && final(self).view_members() == old(self).view_members()),
    {
        let result = self.set.spend(nullifier);
        match result {
            Ok(_) => {
                self.persist();
                Ok(())
            },
            Err(e) => Err(e),
        }
    }

    /// Record a whole batch atomically, as `NullifierSet::spend_batch`
    /// does.
    pub fn spend_batch(&mut self, nullifiers: &[Nullifier]) -> (r: Result<(), CryptoError>)
        requires
            old(self).wf(),
        ensures
            final(self).wf(),
            NullifierSet::batch_clean(
                old(self).view_members(),
                nullifiers@.map_values(|n: Nullifier| n@),
            ) ==> (r matches Ok(u) && final(self).view_members() == old(self).view_members()
                + nullifiers@.map_values(|n: Nullifier| n@)),
            !NullifierSet::batch_clean(
                old(self).view_members(),
                nullifiers@.map_values(|n: Nullifier| n@),
            ) ==> (r matches Err(e) && e == CryptoError::DoubleSpend && final(self).view_members() == old(self).view_members()),
    {
        let result = self.set.spend_batch(nullifiers);
        match result {
            Ok(_) => {
                self.persist();
                Ok(())
            },
            Err(e) => Err(e),
        }
    }

    /// Hand the current state to the storage collaborator. The engine
    /// lives outside this crate; the call is a point of attachment.
    fn persist(&self) {
    }

    /// A canonical fingerprint of the membership for consensus state:
    /// the domain-separated digest of the members sorted by value. Its
    /// value depends only on which nullifiers are in the set, never on
    /// their insertion order, since the strictly ascending member list
    /// is unique.
    pub fn root_hash(&self) -> (r: Blake3Hash)
        requires
            self.wf(),
        ensures
            exists|sorted: Seq<Seq<u8>>|
                {
                    &&& #[trigger] strictly_ascending(sorted)
                    &&& same_members(sorted, self.view_members())
                    &&& (forall|x: Seq<u8>| sorted.contains(x) ==> x.len() == 32)
                    &&& r@ == blake3_of(
                        domain_prefix("PRIVL1_NULLIFIER_ROOT") + concat_bytes(sorted),
                    )
                },
    {
        let members = self.set.all_nullifiers();
        proof {
            assert forall|a: int, b: int| 0 <= a < b < members@.len() implies (
            #[trigger] members@[a])@ != (#[trigger] members@[b])@ by {
                assert(members@.map_values(|n: Nullifier| n@)[a] == members@[a]@);
                assert(members@.map_values(|n: Nullifier| n@)[b] == members@[b]@);
            }
        }
        let sorted = sort_by_value(&members);
        let mut hasher = DomainSeparatedHasher::new("PRIVL1_NULLIFIER_ROOT");
        let ghost sv = sorted@.map_values(|n: Nullifier| n@);
        let mut i: usize = 0;
        while i < sorted.len()
            invariant
                i <= sorted@.len(),
                sv == sorted@.map_values(|n: Nullifier| n@),
                hasher@ == domain_prefix("PRIVL1_NULLIFIER_ROOT") + concat_bytes(sv.take(
                    i as int,
                )),
            decreases sorted@.len() - i,
        {
            hasher.update(sorted[i].b.as_slice());
            proof {
                lemma_concat_bytes_snoc(sv, i as int);
            }
            i += 1;
        }
        proof {
            assert(sv.take(sv.len() as int) =~= sv);
        }
        hasher.finalize()
    }
}

/// Concatenating one more string extends the concatenation.
proof fn lemma_concat_bytes_snoc(s: Seq<Seq<u8>>, i: int)
    requires
        0 <= i < s.len(),
    ensures
        concat_bytes(s.take(i + 1)) =~= concat_bytes(s.take(i)) + s[i],
    decreases i,
{
    if i == 0 {
        assert(s.take(0) =~= Seq::<Seq<u8>>::empty());
        assert(concat_bytes(s.take(0)) =~= Seq::<u8>::empty());
        let one = s.take(1);
        assert(one[0] == s[0]);
        assert(one.skip(1) =~= Seq::<Seq<u8>>::empty());
        assert(concat_bytes(one) =~= s[0] + Seq::<u8>::empty());
    } else {
        let t1 = s.take(i + 1);
        let t0 = s.take(i);
        assert(t1.skip(1) =~= s.skip(1).take(i));
        assert(t0.skip(1) =~= s.skip(1).take(i - 1));
        lemma_concat_bytes_snoc(s.skip(1), i - 1);
        assert(s.skip(1)[i - 1] == s[i]);
        assert(t1[0] == s[0]);
        assert(t0[0] == s[0]);
        assert(concat_bytes(t1) == t1[0] + concat_bytes(t1.skip(1)));
        assert(concat_bytes(t0) == t0[0] + concat_bytes(t0.skip(1)));
        assert(s[0] + (concat_bytes(s.skip(1).take(i - 1)) + s[i]) =~= (s[0] + concat_bytes(
            s.skip(1).take(i - 1),
        )) + s[i]);
    }
}

/// The strictly ascending list of a membership is unique: two ascending
/// lists with the same members, all of one length, are equal. This is
/// what makes the membership digest order-independent.
pub proof fn lemma_sorted_unique(a: Seq<Seq<u8>>, b: Seq<Seq<u8>>)
    requires
        strictly_ascending(a),
        strictly_ascending(b),
        same_members(a, b),
        forall|x: Seq<u8>| a.contains(x) ==> x.len() == 32,
        forall|x: Seq<u8>| b.contains(x) ==> x.len() == 32,
    ensures
        a =~= b,
    decreases a.len(),
{
    if a.len() == 0 {
        if b.len() > 0 {
            assert(b.contains(b[0]));
            assert(a.contains(b[0]));
        }
    } else {
        assert(a.contains(a[0]));
        assert(b.len() > 0) by {
            if b.len() == 0 {
                assert(b.contains(a[0]));
            }
        }
        assert(a[0] == b[0]) by {
            let wa = choose|w: int| 0 <= w < b.len() && #[trigger] b[w] == a[0];
            let wb = choose|w: int| 0 <= w < a.len() && #[trigger] a[w] == b[0];
            assert(b.contains(b[0]));
            assert(a.contains(b[0]));
            if wa > 0 {
                assert(le_nat(b[0]) < le_nat(b[wa]));
            }
            if wb > 0 {
                assert(le_nat(a[0]) < le_nat(a[wb]));
            }
            assert(le_nat(a[0]) == le_nat(b[0]));
            crate::bytes::lemma_le_nat_inj(a[0], b[0]);
        }
        let ta = a.skip(1);
        let tb = b.skip(1);
        assert forall|x: Seq<u8>| ta.contains(x) <==> tb.contains(x) by {
            lemma_skip_contains(a, x);
            lemma_skip_contains(b, x);
        }
        assert forall|x: Seq<u8>| ta.contains(x) implies x.len() == 32 by {
            lemma_skip_contains(a, x);
        }
        assert forall|x: Seq<u8>| tb.contains(x) implies x.len() == 32 by {
            lemma_skip_contains(b, x);
        }
        assert(strictly_ascending(ta)) by {
            assert forall|i: int, j: int| 0 <= i < j < ta.len() implies le_nat(
                #[trigger] ta[i],
            ) < le_nat(#[trigger] ta[j]) by {
                assert(ta[i] == a[i + 1]);
                assert(ta[j] == a[j + 1]);
            }
        }
        assert(strictly_ascending(tb)) by {
            assert forall|i: int, j: int| 0 <= i < j < tb.len() implies le_nat(
                #[trigger] tb[i],
            ) < le_nat(#[trigger] tb[j]) by {
                assert(tb[i] == b[i + 1]);
                assert(tb[j] == b[j + 1]);
            }
        }
        lemma_sorted_unique(ta, tb);
        assert(a =~= seq![a[0]] + ta);
        assert(b =~= seq![b[0]] + tb);
    }
}

/// For a strictly ascending sequence, membership in the tail is
/// membership in the whole except the head.
proof fn lemma_skip_contains(s: Seq<Seq<u8>>, x: Seq<u8>)
    requires
        strictly_ascending(s),
        s.len() > 0,
    ensures
        s.skip(1).contains(x) <==> (s.contains(x) && x != s[0]),
{
    let t = s.skip(1);
    if t.contains(x) {
        let w = choose|w: int| 0 <= w < t.len() && #[trigger] t[w] == x;
        assert(s[w + 1] == x);
        assert(s.contains(x));
        assert(le_nat(s[0]) < le_nat(s[w + 1]));
    }
    if s.contains(x) && x != s[0] {
        let w = choose|w: int| 0 <= w < s.len() && #[trigger] s[w] == x;
        assert(w > 0);
        assert(t[w - 1] == x);
    }
}

/// Membership in one more element of a prefix: either it was already in
/// the shorter prefix or it is the new element.
proof fn lemma_take_contains(s: Seq<Seq<u8>>, i: int, x: Seq<u8>)
    requires
        0 <= i < s.len(),
    ensures
        s.take(i + 1).contains(x) <==> (s.take(i).contains(x) || s[i] == x),
{
    if s.take(i + 1).contains(x) {
        let w = choose|w: int| 0 <= w < i + 1 && #[trigger] s.take(i + 1)[w] == x;
        if w < i {
            assert(s.take(i)[w] == x);
        }
    }
    if s.take(i).contains(x) {
        let w = choose|w: int| 0 <= w < i && #[trigger] s.take(i)[w] == x;
        assert(s.take(i + 1)[w] == x);
    }
    if s[i] == x {
        assert(s.take(i + 1)[i] == x);
    }
}

} // verus!
