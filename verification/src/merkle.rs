//! The append-only incremental Merkle accumulator over note commitments.
//!
//! The tree has fixed depth 32 and pads missing leaves with a canonical
//! empty value. Appending keeps a frontier of at most one node per level,
//! so each append and each root computation costs one hash per level; the
//! leaf history is kept so that membership proofs for any position can be
//! produced at any later time.

use vstd::prelude::*;

use crate::bytes::{bytes32_eq, extend_bytes32, lemma_le_nat_inj};
use crate::hash::{merkle_hash, merkle_hash_spec};
use crate::CryptoError;

verus! {

use vstd::arithmetic::power2::{pow2, lemma_pow2_adds, lemma_pow2_unfold, lemma_pow2_pos, lemma2_to64};
use vstd::arithmetic::div_mod::{
    lemma_div_denominator, lemma_fundamental_div_mod, lemma_fundamental_div_mod_converse,
};

/// The depth of the accumulator: capacity `2^32` leaves.
pub const TREE_DEPTH: usize = 32;

/// The canonical empty leaf: 32 zero bytes.
pub open spec fn zero_leaf() -> Seq<u8> {
    Seq::new(32, |i: int| 0u8)
}

/// The hash of a complete subtree of the given level holding no leaves.
pub open spec fn empty_node(level: nat) -> Seq<u8>
    decreases level,
{
    if level == 0 {
        zero_leaf()
    } else {
        merkle_hash_spec(empty_node((level - 1) as nat), empty_node((level - 1) as nat))
    }
}

/// The hash of the subtree at `level` whose leaves are positions
/// `index * 2^level` up to `(index + 1) * 2^level` of the padded leaf
/// sequence.
pub open spec fn subtree_hash(leaves: Seq<Seq<u8>>, level: nat, index: nat) -> Seq<u8>
    decreases level,
{
    if level == 0 {
        if index < leaves.len() {
            leaves[index as int]
        } else {
            zero_leaf()
        }
    } else {
        merkle_hash_spec(
            subtree_hash(leaves, (level - 1) as nat, 2 * index),
            subtree_hash(leaves, (level - 1) as nat, 2 * index + 1),
        )
    }
}

/// The root of the depth-32 tree over an ordered leaf sequence: a pure
/// function of that sequence.
pub open spec fn spec_root(leaves: Seq<Seq<u8>>) -> Seq<u8> {
    subtree_hash(leaves, 32, 0)
}

/// The index of the sibling of position `pos`'s ancestor at `level`.
pub open spec fn sibling_index(pos: nat, level: nat) -> nat {
    let j = pos / pow2(level);
    if j % 2 == 0 {
        j + 1
    } else {
        (j - 1) as nat
    }
}

/// The authentication path for `pos`: one sibling subtree hash per level.
pub open spec fn spec_siblings(leaves: Seq<Seq<u8>>, pos: nat) -> Seq<Seq<u8>> {
    Seq::new(32, |l: int| subtree_hash(leaves, l as nat, sibling_index(pos, l as nat)))
}

/// Folding an authentication path from a leaf back up to a root, taking
/// the left or the right slot at each level according to the position.
pub open spec fn fold_path(path: Seq<Seq<u8>>, pos: nat, node: Seq<u8>) -> Seq<u8>
    decreases path.len(),
{
    if path.len() == 0 {
        node
    } else {
        let parent = if pos % 2 == 0 {
            merkle_hash_spec(node, path[0])
        } else {
            merkle_hash_spec(path[0], node)
        };
        fold_path(path.skip(1), pos / 2, parent)
    }
}

/// A subtree that starts at or beyond the end of the leaf sequence is
/// entirely padding.
proof fn lemma_subtree_empty(leaves: Seq<Seq<u8>>, level: nat, index: nat)
    requires
        index * pow2(level) >= leaves.len(),
    ensures
        subtree_hash(leaves, level, index) == empty_node(level),
    decreases level,
{
    lemma_pow2_pos(level);
    if level == 0 {
        assert(pow2(0) == 1) by {
            lemma2_to64();
        }
    } else {
        let l1 = (level - 1) as nat;
        lemma_pow2_unfold(level);
        assert(2 * index * pow2(l1) == index * pow2(level)) by (nonlinear_arith)
            requires
                pow2(level) == 2 * pow2(l1),
        ;
        assert((2 * index + 1) * pow2(l1) >= 2 * index * pow2(l1)) by (nonlinear_arith)
            requires
                pow2(l1) >= 1,
        ;
        lemma_subtree_empty(leaves, l1, 2 * index);
        lemma_subtree_empty(leaves, l1, 2 * index + 1);
    }
}

/// A subtree that lies entirely within a prefix of the leaves has the
/// same hash over the prefix and over the full sequence.
proof fn lemma_subtree_prefix(short: Seq<Seq<u8>>, long: Seq<Seq<u8>>, level: nat, index: nat)
    requires
        short.len() <= long.len(),
        short =~= long.take(short.len() as int),
        (index + 1) * pow2(level) <= short.len(),
    ensures
        subtree_hash(short, level, index) == subtree_hash(long, level, index),
    decreases level,
{
    lemma_pow2_pos(level);
    if level == 0 {
        assert(pow2(0) == 1) by {
            lemma2_to64();
        }
        assert(index < short.len());
    } else {
        let l1 = (level - 1) as nat;
        lemma_pow2_unfold(level);
        assert((2 * index + 1 + 1) * pow2(l1) == (index + 1) * pow2(level)) by (nonlinear_arith)
            requires
                pow2(level) == 2 * pow2(l1),
        ;
        assert((2 * index + 1) * pow2(l1) <= (2 * index + 2) * pow2(l1)) by (nonlinear_arith)
            requires
                pow2(l1) >= 1,
        ;
        lemma_subtree_prefix(short, long, l1, 2 * index);
        lemma_subtree_prefix(short, long, l1, 2 * index + 1);
    }
}

/// Dividing by the next power of two is dividing the quotient by two.
proof fn lemma_div_pow2_step(n: nat, level: nat)
    ensures
        n / pow2(level + 1) == (n / pow2(level)) / 2,
{
    lemma_pow2_pos(level);
    lemma_pow2_unfold(level + 1);
    lemma_div_denominator(n as int, pow2(level) as int, 2);
    assert(pow2(level) * 2 == pow2(level + 1)) by (nonlinear_arith)
        requires
            pow2(level + 1) == 2 * pow2(level),
    ;
}

/// A Merkle tree root: the compact public anchor of the accumulator.
#[derive(Clone, Copy, Debug)]
pub struct MerkleRoot {
    b: [u8; 32],
}

impl View for MerkleRoot {
    type V = Seq<u8>;

    closed spec fn view(&self) -> Seq<u8> {
        self.b@
    }
}

impl MerkleRoot {
    /// Wrap root bytes.
    pub fn from_bytes(bytes: [u8; 32]) -> (r: MerkleRoot)
        ensures
            r@ == bytes@,
    {
        MerkleRoot { b: bytes }
    }

    /// The root as bytes.
    pub fn as_bytes(&self) -> (r: &[u8; 32])
        ensures
            r@ == self@,
    {
        &self.b
    }

    /// The root as a lowercase hexadecimal string.
    pub fn to_hex(&self) -> (r: String)
        ensures
            r@ == crate::bytes::hex_of(self@),
    {
        crate::bytes::hex_encode(self.b.as_slice())
    }
}

impl PartialEq for MerkleRoot {
    /// Roots are equal exactly when their bytes are.
    fn eq(&self, other: &MerkleRoot) -> (r: bool) {
        bytes32_eq(&self.b, &other.b)
    }
}

impl Eq for MerkleRoot {}

impl vstd::std_specs::cmp::PartialEqSpecImpl for MerkleRoot {
    open spec fn obeys_eq_spec() -> bool {
        true
    }

    open spec fn eq_spec(&self, other: &MerkleRoot) -> bool {
        self@ == other@
    }
}

/// A membership proof: the sibling hashes from a leaf up to the root.
#[derive(Clone, Debug)]
pub struct MerkleProof {
    /// The authentication path from the leaf to the root.
    pub path: Vec<[u8; 32]>,
    /// The position of the leaf in the tree.
    pub position: u64,
}

impl MerkleProof {
    /// The authentication path as byte strings.
    pub open spec fn path_view(&self) -> Seq<Seq<u8>> {
        self.path@.map_values(|n: [u8; 32]| n@)
    }

    /// Check the proof: fold the siblings from `leaf` upward, taking left
    /// or right at each level by the position's binary digits, and accept
    /// exactly when a 32-level path reproduces `root`.
    pub fn verify(&self, leaf: &[u8; 32], root: &MerkleRoot) -> (r: bool)
        ensures
            r == (self.path@.len() == 32 && fold_path(
                self.path_view(),
                self.position as nat,
                leaf@,
            ) == root@),
    {
        if self.path.len() != 32 {
            return false;
        }
        let mut current: [u8; 32] = *leaf;
        let mut index: u64 = self.position;
        let mut level: usize = 0;
        proof {
            assert(self.path_view().skip(0) =~= self.path_view());
        }
        while level < 32
            invariant
                level <= 32,
                self.path@.len() == 32,
                fold_path(self.path_view(), self.position as nat, leaf@) == fold_path(
                    self.path_view().skip(level as int),
                    index as nat,
                    current@,
                ),
            decreases 32 - level,
        {
            let ghost pre = self.path_view().skip(level as int);
            let sibling = &self.path[level];
            let next = if index % 2 == 0 {
                merkle_hash(&current, sibling)
            } else {
                merkle_hash(sibling, &current)
            };
            proof {
                assert(pre[0] == self.path_view()[level as int]);
                assert(pre.skip(1) =~= self.path_view().skip(level + 1 as int));
            }
            current = next;
            index = index / 2;
            level += 1;
        }
        proof {
            assert(self.path_view().skip(32) =~= Seq::<Seq<u8>>::empty());
        }
        let root_bytes = root.as_bytes();
        bytes32_eq(&current, root_bytes)
    }
}

impl MerkleProof {
    /// The wire form: the 32 sibling hashes in order, then the position
    /// as eight little-endian bytes — 1032 bytes in all.
    pub open spec fn wire_spec(&self) -> Seq<u8> {
        crate::nullifier::concat_bytes(self.path_view()) + crate::bytes::u64_le_seq(
            self.position,
        )
    }

    /// Serialize the proof into its wire form.
    pub fn to_bytes(&self) -> (r: Vec<u8>)
        requires
            self.path@.len() == 32,
        ensures
            r@ == self.wire_spec(),
            r@.len() == 1032,
    {
        let mut bytes: Vec<u8> = Vec::new();
        let mut i: usize = 0;
        while i < self.path.len()
            invariant
                i <= self.path@.len(),
                self.path@.len() == 32,
                bytes@ =~= crate::nullifier::concat_bytes(self.path_view().take(i as int)),
                bytes@.len() == 32 * i,
            decreases self.path@.len() - i,
        {
            crate::bytes::extend_bytes32(&mut bytes, &self.path[i]);
            proof {
                lemma_concat_wire_snoc(self.path_view(), i as int);
            }
            i += 1;
        }
        let position_bytes = crate::bytes::u64_to_le(self.position);
        crate::bytes::extend_bytes(&mut bytes, position_bytes.as_slice());
        proof {
            assert(self.path_view().take(32) =~= self.path_view());
        }
        bytes
    }

    /// Deserialize a proof from its wire form; rejects every byte
    /// string that is not exactly 1032 bytes.
    pub fn from_bytes(bytes: &[u8]) -> (r: Result<MerkleProof, CryptoError>)
        ensures
            bytes@.len() == 1032 ==> (r matches Ok(p) && p.path@.len() == 32 && (forall|l: int|
                0 <= l < 32 ==> (#[trigger] p.path_view()[l]) == bytes@.subrange(
                    32 * l,
                    32 * l + 32,
                )) && crate::bytes::u64_le_seq(p.position) == bytes@.skip(1024)),
            bytes@.len() != 1032 ==> (r matches Err(e) && e == CryptoError::SerializationError),
    {
        if bytes.len() != 1032 {
            return Err(CryptoError::SerializationError);
        }
        let mut path: Vec<[u8; 32]> = Vec::new();
        let mut l: usize = 0;
        while l < 32
            invariant
                l <= 32,
                bytes@.len() == 1032,
                path@.len() == l,
                forall|w: int|
                    0 <= w < l ==> (#[trigger] path@[w])@ == bytes@.subrange(
                        32 * w,
                        32 * w + 32,
                    ),
            decreases 32 - l,
        {
            let mut node = [0u8; 32];
            let mut i: usize = 0;
            while i < 32
                invariant
                    i <= 32,
                    l < 32,
                    bytes@.len() == 1032,
                    forall|w: int| 0 <= w < i ==> node@[w] == bytes@[32 * l + w],
                decreases 32 - i,
            {
                node[i] = bytes[32 * l + i];
                i += 1;
            }
            proof {
                assert(node@ =~= bytes@.subrange(32 * l as int, 32 * l as int + 32));
            }
            path.push(node);
            l += 1;
        }
        let mut position_bytes: Vec<u8> = Vec::new();
        let mut k: usize = 1024;
        while k < 1032
            invariant
                1024 <= k <= 1032,
                bytes@.len() == 1032,
                position_bytes@ =~= bytes@.subrange(1024, k as int),
            decreases 1032 - k,
        {
            position_bytes.push(bytes[k]);
            k += 1;
        }
        let position = vstd::bytes::u64_from_le_bytes(position_bytes.as_slice());
        proof {
            vstd::bytes::lemma_auto_spec_u64_to_from_le_bytes();
            assert(position_bytes@ =~= bytes@.skip(1024));
        }
        let r = MerkleProof { path, position };
        proof {
            assert forall|w: int| 0 <= w < 32 implies (#[trigger] r.path_view()[w])
                == bytes@.subrange(32 * w, 32 * w + 32) by {
                assert(r.path_view()[w] == r.path@[w]@);
            }
        }
        Ok(r)
    }
}

/// Serializing one more 32-byte node extends the concatenation.
proof fn lemma_concat_wire_snoc(s: Seq<Seq<u8>>, i: int)
    requires
        0 <= i < s.len(),
    ensures
        crate::nullifier::concat_bytes(s.take(i + 1)) =~= crate::nullifier::concat_bytes(
            s.take(i),
        ) + s[i],
    decreases i,
{
    if i == 0 {
        assert(s.take(0) =~= Seq::<Seq<u8>>::empty());
        let one = s.take(1);
        assert(one[0] == s[0]);
        assert(one.skip(1) =~= Seq::<Seq<u8>>::empty());
    } else {
        let t1 = s.take(i + 1);
        let t0 = s.take(i);
        assert(t1.skip(1) =~= s.skip(1).take(i));
        assert(t0.skip(1) =~= s.skip(1).take(i - 1));
        lemma_concat_wire_snoc(s.skip(1), i - 1);
        assert(s.skip(1)[i - 1] == s[i]);
        assert(t1[0] == s[0]);
        assert(t0[0] == s[0]);
        assert(s[0] + (crate::nullifier::concat_bytes(s.skip(1).take(i - 1)) + s[i]) =~= (s[0]
            + crate::nullifier::concat_bytes(s.skip(1).take(i - 1))) + s[i]);
    }
}

/// The append-only accumulator. The leaf history supports membership
/// proofs; the frontier holds, for every level at which the binary
/// expansion of the leaf count has a one digit, the hash of the completed
/// subtree ending there, which makes appends and roots cost one hash per
/// level.
pub struct IncrementalMerkleTree {
    leaves: Vec<[u8; 32]>,
    frontier: Vec<[u8; 32]>,
    empty_hashes: Vec<[u8; 32]>,
}

impl View for IncrementalMerkleTree {
    type V = Seq<Seq<u8>>;

    closed spec fn view(&self) -> Seq<Seq<u8>> {
        self.leaves@.map_values(|l: [u8; 32]| l@)
    }
}

impl IncrementalMerkleTree {
    /// The structural invariant: cached empty hashes are right, and every
    /// meaningful frontier entry is the hash of the completed subtree at
    /// its level.
    pub closed spec fn wf(&self) -> bool {
        &&& self@.len() <= pow2(32)
        &&& self.empty_hashes@.len() == 33
        &&& (forall|l: int|
            0 <= l < 33 ==> (#[trigger] self.empty_hashes@[l])@ == empty_node(l as nat))
        &&& self.frontier@.len() == 33
        &&& (forall|l: int|
            0 <= l < 33 && (self@.len() / pow2(l as nat)) % 2 == 1 ==> (
            #[trigger] self.frontier@[l])@ == subtree_hash(
                self@,
                l as nat,
                (self@.len() / pow2(l as nat) - 1) as nat,
            ))
    }

    /// Create an empty accumulator.
    pub fn new() -> (r: IncrementalMerkleTree)
        ensures
            r.wf(),
            r@ == Seq::<Seq<u8>>::empty(),
    {
        let mut empty_hashes: Vec<[u8; 32]> = Vec::new();
        empty_hashes.push([0u8; 32]);
        proof {
            assert(empty_hashes@[0]@ =~= zero_leaf());
        }
        let mut level: usize = 1;
        while level <= 32
            invariant
                1 <= level <= 33,
                empty_hashes@.len() == level,
                forall|l: int|
                    0 <= l < level ==> (#[trigger] empty_hashes@[l])@ == empty_node(l as nat),
            decreases 33 - level,
        {
            let prev = empty_hashes[level - 1];
            let node = merkle_hash(&prev, &prev);
            empty_hashes.push(node);
            level += 1;
        }
        let mut frontier: Vec<[u8; 32]> = Vec::new();
        let mut i: usize = 0;
        while i < 33
            invariant
                i <= 33,
                frontier@.len() == i,
            decreases 33 - i,
        {
            frontier.push([0u8; 32]);
            i += 1;
        }
        let r = IncrementalMerkleTree { leaves: Vec::new(), frontier, empty_hashes };
        proof {
            assert(r@ =~= Seq::<Seq<u8>>::empty());
            assert forall|l: int| 0 <= l < 33 implies (r@.len() / #[trigger] pow2(l as nat)) % 2
                != 1 by {
                lemma_pow2_pos(l as nat);
            }
        }
        r
    }

    /// Append a leaf; returns its position. Fails with `TreeFull`, and
    /// changes nothing, exactly when the tree already holds `2^32` leaves.
    pub fn append(&mut self, leaf: [u8; 32]) -> (r: Result<u64, CryptoError>)
        requires
            old(self).wf(),
        ensures
            final(self).wf(),
            old(self)@.len() < pow2(32) ==> (r matches Ok(pos) && pos as nat == old(self)@.len()
                && final(self)@ == old(self)@ + seq![leaf@]),
            old(self)@.len() == pow2(32) ==> (r matches Err(e) && e == CryptoError::TreeFull
                && final(self)@ == old(self)@),
    {
        proof {
            lemma2_to64();
        }
        let n = self.leaves.len();
        if n as u64 >= 4294967296u64 {
            return Err(CryptoError::TreeFull);
        }
        self.leaves.push(leaf);
        let ghost nlvs = self@;
        let ghost m: nat = (n + 1) as nat;
        proof {
            assert(nlvs =~= old(self)@ + seq![leaf@]);
            assert(nlvs.take(n as int) =~= old(self)@);
        }
        let mut node: [u8; 32] = leaf;
        let mut level: usize = 0;
        let mut size: u64 = (n as u64) + 1;
        proof {
            assert(pow2(0) == 1) by {
                lemma2_to64();
            }
            assert(m % pow2(0) == 0) by {
                vstd::arithmetic::div_mod::lemma_small_mod(0, 1);
            }
            assert(subtree_hash(nlvs, 0, (m - 1) as nat) == leaf@);
        }
        while size % 2 == 0
            invariant
                level <= 32,
                m == old(self)@.len() + 1,
                m <= pow2(32),
                nlvs == self@,
                self@.len() == m,
                self.frontier@.len() == 33,
                self.empty_hashes@.len() == 33,
                forall|l: int|
                    0 <= l < 33 ==> (#[trigger] self.empty_hashes@[l])@ == empty_node(l as nat),
                forall|l: int|
                    0 <= l < 33 && ((m - 1) / pow2(l as nat) as int) % 2 == 1 ==> (
                    #[trigger] self.frontier@[l])@ == subtree_hash(
                        nlvs.take((m - 1) as int),
                        l as nat,
                        ((m - 1) / pow2(l as nat) as int - 1) as nat,
                    ),
                size as nat == m / pow2(level as nat),
                m % pow2(level as nat) == 0,
                size >= 1,
                node@ == subtree_hash(nlvs, level as nat, (m / pow2(level as nat) - 1) as nat),
            decreases size,
        {
            let ghost lvl = level as nat;
            let ghost j = m / pow2(lvl);
            let ghost old_part = nlvs.take((m - 1) as int);
            proof {
                lemma_append_step(nlvs, m, lvl);
                assert(self.frontier@[level as int]@ == subtree_hash(
                    old_part,
                    lvl,
                    (j - 2) as nat,
                ));
                lemma_subtree_prefix(old_part, nlvs, lvl, (j - 2) as nat);
            }
            let sibling = self.frontier[level];
            node = merkle_hash(&sibling, &node);
            size = size / 2;
            level += 1;
            proof {
                lemma_div_pow2_step(m, lvl);
                let k = (m / pow2(lvl + 1) - 1) as nat;
                assert(2 * k == j - 2);
                assert(2 * k + 1 == j - 1);
                assert(subtree_hash(nlvs, lvl + 1, k) == merkle_hash_spec(
                    subtree_hash(nlvs, lvl, 2 * k),
                    subtree_hash(nlvs, lvl, 2 * k + 1),
                ));
                assert(node@ == subtree_hash(nlvs, lvl + 1, k));
                assert(level as nat == lvl + 1);
                assert(level <= 32) by {
                    if level == 33 {
                        assert(pow2(33) > pow2(32)) by {
                            vstd::arithmetic::power2::lemma_pow2_strictly_increases(32, 33);
                        }
                        assert(m / pow2(33) >= 1);
                        assert(false) by {
                            vstd::arithmetic::div_mod::lemma_basic_div(
                                m as int,
                                pow2(33) as int,
                            );
                        }
                    }
                }
            }
        }
        self.frontier[level] = node;
        proof {
            lemma_append_exit(nlvs, m, level as nat, old(self)@, self.frontier@);
        }
        Ok(n as u64)
    }

    /// The current root, computed from the frontier in one hash per
    /// level: a pure function of the ordered leaf sequence.
    pub fn root(&self) -> (r: MerkleRoot)
        requires
            self.wf(),
        ensures
            r@ == spec_root(self@),
    {
        proof {
            lemma2_to64();
        }
        let n_usize = self.leaves.len();
        let n = n_usize as u64;
        if n == 0 {
            proof {
                lemma_subtree_empty(self@, 32, 0);
            }
            return MerkleRoot { b: self.empty_hashes[32] };
        }
        if n == 4294967296u64 {
            proof {
                vstd::arithmetic::div_mod::lemma_div_by_self(pow2(32) as int);
            }
            return MerkleRoot { b: self.frontier[32] };
        }
        let mut node = [0u8; 32];
        let mut size: u64 = n;
        let mut level: usize = 0;
        proof {
            assert(pow2(0) == 1);
            assert(node@ =~= zero_leaf());
        }
        while level < 32
            invariant
                self.wf(),
                level <= 32,
                n as nat == self@.len(),
                1 <= n as nat,
                (n as nat) < pow2(32),
                size as nat == (n as nat) / pow2(level as nat),
                node@ == subtree_hash(self@, level as nat, (n as nat) / pow2(level as nat)),
            decreases 32 - level,
        {
            let ghost lvl = level as nat;
            let ghost nn = n as nat;
            let ghost j = nn / pow2(lvl);
            proof {
                lemma_div_pow2_step(nn, lvl);
                lemma_fundamental_div_mod(j as int, 2);
                lemma_pow2_pos(lvl);
            }
            if size % 2 == 1 {
                let sibling = self.frontier[level];
                node = merkle_hash(&sibling, &node);
                proof {
                    let k = j / 2;
                    assert(2 * k == j - 1);
                    assert(subtree_hash(self@, lvl + 1, k) == merkle_hash_spec(
                        subtree_hash(self@, lvl, 2 * k),
                        subtree_hash(self@, lvl, 2 * k + 1),
                    ));
                    assert(2 * k + 1 == j);
                }
            } else {
                proof {
                    lemma_fundamental_div_mod(nn as int, pow2(lvl) as int);
                    assert((j + 1) * pow2(lvl) == j * pow2(lvl) + pow2(lvl)) by (nonlinear_arith);
                    assert((j + 1) * pow2(lvl) >= nn);
                    lemma_subtree_empty(self@, lvl, j + 1);
                }
                let eh = self.empty_hashes[level];
                node = merkle_hash(&node, &eh);
                proof {
                    let k = j / 2;
                    assert(2 * k == j);
                    assert(subtree_hash(self@, lvl + 1, k) == merkle_hash_spec(
                        subtree_hash(self@, lvl, 2 * k),
                        subtree_hash(self@, lvl, 2 * k + 1),
                    ));
                }
            }
            size = size / 2;
            level += 1;
        }
        proof {
            vstd::arithmetic::div_mod::lemma_basic_div(n as int, pow2(32) as int);
        }
        MerkleRoot { b: node }
    }

    /// `2^level` for levels up to 32.
    fn pow2_u64(level: usize) -> (r: u64)
        requires
            level <= 32,
        ensures
            r as nat == pow2(level as nat),
    {
        proof {
            lemma2_to64();
            if (level as u64) < 33 {
                vstd::arithmetic::power2::lemma_pow2_strictly_increases(level as nat, 33);
            }
            vstd::bits::lemma_u64_shl_is_mul(1u64, level as u64);
        }
        1u64 << (level as u64)
    }

    /// The hash of the node at `level`, `index`, recomputed from the leaf
    /// history; subtrees beyond the leaves come from the empty-hash cache.
    fn node_hash(&self, level: usize, index: u64) -> (r: [u8; 32])
        requires
            self.wf(),
            level <= 32,
            (index as nat) * pow2(level as nat) < pow2(33),
        ensures
            r@ == subtree_hash(self@, level as nat, index as nat),
        decreases level,
    {
        proof {
            lemma2_to64();
            vstd::arithmetic::power2::lemma2_to64_rest();
            lemma_pow2_pos(level as nat);
        }
        let width = Self::pow2_u64(level);
        proof {
            assert((index as nat) * (width as nat) < pow2(33));
        }
        let start = index * width;
        if start >= self.leaves.len() as u64 {
            proof {
                lemma_subtree_empty(self@, level as nat, index as nat);
            }
            return self.empty_hashes[level];
        }
        if level == 0 {
            proof {
                assert(pow2(0) == 1);
                assert(width as nat == 1);
                assert((index as nat) * 1 == index as nat) by (nonlinear_arith);
                assert((index as nat) < self@.len());
                assert(index <= usize::MAX as u64);
            }
            let iu = index as usize;
            return self.leaves[iu];
        }
        proof {
            lemma_pow2_unfold(level as nat);
            let l1 = (level - 1) as nat;
            assert((index as nat) * 2 <= (index as nat) * pow2(level as nat))
                by (nonlinear_arith)
                requires
                    pow2(level as nat) >= 2,
            ;
            assert((2 * index as nat) * pow2(l1) == (index as nat) * pow2(level as nat))
                by (nonlinear_arith)
                requires
                    pow2(level as nat) == 2 * pow2(l1),
            ;
            assert((2 * index as nat + 1) * pow2(l1) == (index as nat) * pow2(level as nat)
                + pow2(l1)) by (nonlinear_arith)
                requires
                    pow2(level as nat) == 2 * pow2(l1),
            ;
            assert(pow2(l1) < pow2(33)) by {
                vstd::arithmetic::power2::lemma_pow2_strictly_increases(l1, 33);
            }
            assert((index as nat) * pow2(level as nat) < pow2(32));
            assert(pow2(32) + pow2(32) == pow2(33)) by {
                lemma_pow2_unfold(33);
            }
            assert(pow2(l1) <= pow2(32)) by {
                if l1 < 32 {
                    vstd::arithmetic::power2::lemma_pow2_strictly_increases(l1, 32);
                }
            }
        }
        let left = self.node_hash(level - 1, 2 * index);
        let right = self.node_hash(level - 1, 2 * index + 1);
        merkle_hash(&left, &right)
    }

    /// Produce a membership proof for the leaf at `position`: exactly one
    /// sibling hash per level. Fails with `PositionOutOfBounds` exactly
    /// when no leaf has been appended there.
    pub fn prove(&self, position: u64) -> (r: Result<MerkleProof, CryptoError>)
        requires
            self.wf(),
        ensures
            (position as nat) < self@.len() ==> (r matches Ok(p) && p.position == position
                && p.path@.len() == 32 && p.path_view() == spec_siblings(self@, position as nat)
                && fold_path(p.path_view(), position as nat, self@[position as int])
                == spec_root(self@)),
            (position as nat) >= self@.len() ==> (r matches Err(e) && e
                == CryptoError::PositionOutOfBounds),
    {
        proof {
            lemma2_to64();
        }
        if position >= self.leaves.len() as u64 {
            return Err(CryptoError::PositionOutOfBounds);
        }
        let ghost pos = position as nat;
        let mut path: Vec<[u8; 32]> = Vec::new();
        let mut current: u64 = position;
        let mut level: usize = 0;
        proof {
            assert(pow2(0) == 1);
        }
        while level < 32
            invariant
                self.wf(),
                level <= 32,
                pos == position as nat,
                pos < self@.len(),
                current as nat == pos / pow2(level as nat),
                path@.len() == level,
                forall|l: int|
                    0 <= l < level ==> (#[trigger] path@[l])@ == subtree_hash(
                        self@,
                        l as nat,
                        sibling_index(pos, l as nat),
                    ),
            decreases 32 - level,
        {
            let ghost lvl = level as nat;
            let ghost j = pos / pow2(lvl);
            proof {
                lemma_pow2_pos(lvl);
                lemma_fundamental_div_mod(pos as int, pow2(lvl) as int);
                assert(j * pow2(lvl) <= pos);
                assert((j + 1) * pow2(lvl) == j * pow2(lvl) + pow2(lvl)) by (nonlinear_arith);
                assert(pow2(lvl) <= pow2(32)) by {
                    if lvl < 32 {
                        vstd::arithmetic::power2::lemma_pow2_strictly_increases(lvl, 32);
                    }
                }
                assert(pow2(32) + pow2(32) == pow2(33)) by {
                    lemma_pow2_unfold(33);
                }
                assert(current <= position);
            }
            let sib: u64 = if current % 2 == 0 {
                current + 1
            } else {
                current - 1
            };
            proof {
                assert(sib as nat == sibling_index(pos, lvl));
                if j % 2 == 0 {
                    assert((sib as nat) * pow2(lvl) == (j + 1) * pow2(lvl));
                } else {
                    assert((sib as nat) * pow2(lvl) <= j * pow2(lvl)) by (nonlinear_arith)
                        requires
                            sib as nat == j - 1,
                            pow2(lvl) >= 1,
                    ;
                }
                assert((sib as nat) * pow2(lvl) < pow2(33));
            }
            let node = self.node_hash(level, sib);
            path.push(node);
            current = current / 2;
            level += 1;
            proof {
                lemma_div_pow2_step(pos, lvl);
            }
        }
        let proof_out = MerkleProof { path, position };
        proof {
            assert(proof_out.path_view() =~= spec_siblings(self@, pos));
            lemma_fold_siblings(self@, pos);
        }
        Ok(proof_out)
    }

    /// A field-for-field copy of the accumulator.
    fn duplicate(&self) -> (r: IncrementalMerkleTree)
        requires
            self.wf(),
        ensures
            r.wf(),
            r@ == self@,
    {
        let r = IncrementalMerkleTree {
            leaves: copy_nodes(&self.leaves),
            frontier: copy_nodes(&self.frontier),
            empty_hashes: copy_nodes(&self.empty_hashes),
        };
        proof {
            assert(r@ =~= self@);
        }
        r
    }

    /// The number of leaves appended so far.
    pub fn num_leaves(&self) -> (r: u64)
        requires
            self.wf(),
        ensures
            r as nat == self@.len(),
    {
        proof {
            lemma2_to64();
        }
        self.leaves.len() as u64
    }

    /// Whether the tree holds no leaves.
    pub fn is_empty(&self) -> (r: bool)
        requires
            self.wf(),
        ensures
            r == (self@.len() == 0),
    {
        self.leaves.len() == 0
    }
}

/// In the middle of an append walk: the loop is at a level where the new
/// count is even, so the old frontier holds the left sibling, and
/// combining produces the parent subtree hash.
proof fn lemma_append_step(nlvs: Seq<Seq<u8>>, m: nat, lvl: nat)
    requires
        lvl < 33,
        1 <= m <= pow2(32),
        nlvs.len() == m,
        m % pow2(lvl) == 0,
        (m / pow2(lvl)) % 2 == 0,
        m / pow2(lvl) >= 1,
    ensures
        lvl < 32,
        m % pow2(lvl + 1) == 0,
        ((m - 1) / pow2(lvl) as int) % 2 == 1,
        (m - 1) / pow2(lvl) as int == m / pow2(lvl) - 1,
        (m / pow2(lvl) - 2) as nat == m / pow2(lvl + 1) * 2 - 2,
        ((m / pow2(lvl + 1) - 1) as nat) * 2 == m / pow2(lvl) - 2,
        (m / pow2(lvl) - 1) as nat * pow2(lvl) <= m - 1,
        ((m / pow2(lvl) - 2) + 1) * pow2(lvl) <= m - 1,
        m / pow2(lvl + 1) >= 1,
{
    let p = pow2(lvl);
    let j = m / p;
    lemma_pow2_pos(lvl);
    lemma_fundamental_div_mod(m as int, p as int);
    // m == j * p, with j even and j >= 2
    assert(j >= 2) by {
        if j == 1 {
            assert(1nat % 2 == 1);
        }
    }
    assert(m == j * p);
    // the previous count m - 1 sits at quotient j - 1 with remainder p - 1
    assert((j - 1) * (p as int) == j * p - p) by (nonlinear_arith);
    lemma_fundamental_div_mod_converse(
        (m - 1) as int,
        p as int,
        j - 1,
        p - 1,
    );
    assert((m - 1) as int / p as int == j - 1);
    assert((j - 1) % 2 == 1) by {
        lemma_fundamental_div_mod(j as int, 2);
        lemma_fundamental_div_mod_converse(j - 1, 2, j as int / 2 - 1, 1);
    }
    // divisibility by the next power
    lemma_div_pow2_step(m, lvl);
    lemma_pow2_unfold(lvl + 1);
    assert(m % pow2(lvl + 1) == 0) by {
        lemma_fundamental_div_mod(j as int, 2);
        assert(j == 2 * (j / 2));
        assert(m == (j / 2) * (2 * p)) by (nonlinear_arith)
            requires
                m == j * p,
                j == 2 * (j / 2),
        ;
        vstd::arithmetic::div_mod::lemma_mod_multiples_basic(
            (j / 2) as int,
            pow2(lvl + 1) as int,
        );
        assert(pow2(lvl + 1) == 2 * p);
    }
    assert(m / pow2(lvl + 1) == j / 2);
    assert(j / 2 >= 1) by {
        lemma_fundamental_div_mod(j as int, 2);
    }
    assert((j / 2 - 1) * 2 == j - 2) by {
        lemma_fundamental_div_mod(j as int, 2);
    }
    // subtree bounds
    assert((j - 1) * p <= m - 1) by (nonlinear_arith)
        requires
            m == j * p,
            p >= 1,
            j >= 2,
    ;
    assert(((j - 2) + 1) * p == (j - 1) * p);
    // the walk cannot be at the top level
    assert(lvl < 32) by {
        if lvl == 32 {
            assert(p == pow2(32));
            assert(j >= 2);
            assert(m >= 2 * pow2(32)) by (nonlinear_arith)
                requires
                    m == j * p,
                    j >= 2,
                    p == pow2(32),
            ;
        }
    }
}

/// At the exit of the append walk: writing the carried node at the
/// stopping level restores the frontier invariant for the new count.
proof fn lemma_append_exit(
    nlvs: Seq<Seq<u8>>,
    m: nat,
    stop: nat,
    old_lvs: Seq<Seq<u8>>,
    frontier: Seq<[u8; 32]>,
)
    requires
        stop <= 32,
        1 <= m <= pow2(32),
        nlvs.len() == m,
        old_lvs =~= nlvs.take((m - 1) as int),
        frontier.len() == 33,
        m % pow2(stop) == 0,
        (m / pow2(stop)) % 2 == 1,
        frontier[stop as int]@ == subtree_hash(nlvs, stop, (m / pow2(stop) - 1) as nat),
        forall|l: int|
            0 <= l < 33 && ((m - 1) / pow2(l as nat) as int) % 2 == 1 && l != stop ==> (
            #[trigger] frontier[l])@ == subtree_hash(
                old_lvs,
                l as nat,
                ((m - 1) / pow2(l as nat) as int - 1) as nat,
            ),
    ensures
        forall|l: int|
            0 <= l < 33 && (m / pow2(l as nat)) % 2 == 1 ==> (#[trigger] frontier[l])@
                == subtree_hash(nlvs, l as nat, (m / pow2(l as nat) - 1) as nat),
{
    assert forall|l: int|
        0 <= l < 33 && (m / pow2(l as nat)) % 2 == 1 implies (#[trigger] frontier[l])@
        == subtree_hash(nlvs, l as nat, (m / pow2(l as nat) - 1) as nat) by {
        let lv = l as nat;
        let p = pow2(lv);
        lemma_pow2_pos(lv);
        lemma_pow2_pos(stop);
        if lv == stop {
        } else if lv < stop {
            // below the stopping level the new count has digit zero, so
            // the premise of this case cannot hold
            lemma_mul_of_pow2_is_even(m, lv, stop);
            assert(false);
        } else {
            // above the stopping level: the quotient survives taking one
            // leaf away, so the frontier entry from the old state is the
            // right one, and it is stable under the extra leaf
            let j = m / p;
            lemma_fundamental_div_mod(m as int, p as int);
            assert(m % p != 0) by {
                if m % p == 0 {
                    lemma_mul_of_pow2_is_even(m, stop, lv);
                }
            }
            lemma_fundamental_div_mod_converse(
                (m - 1) as int,
                p as int,
                j as int,
                m % p - 1,
            );
            assert((m - 1) as int / p as int == j);
            assert(frontier[l]@ == subtree_hash(old_lvs, lv, (j - 1) as nat));
            assert(j * p <= m - 1);
            assert(((j - 1) + 1) * p == j * p);
            lemma_subtree_prefix(old_lvs, nlvs, lv, (j - 1) as nat);
        }
    }
}

/// Where `m` is a multiple of `2^hi` and `lo < hi`, the quotient
/// `m / 2^lo` is even.
proof fn lemma_mul_of_pow2_is_even(m: nat, lo: nat, hi: nat)
    requires
        lo < hi,
        m % pow2(hi) == 0,
    ensures
        (m / pow2(lo)) % 2 == 0,
{
    let p = pow2(lo);
    let q = m / pow2(hi);
    let half = pow2((hi - lo - 1) as nat);
    lemma_pow2_pos(lo);
    lemma_pow2_pos(hi);
    lemma_pow2_pos((hi - lo - 1) as nat);
    lemma_fundamental_div_mod(m as int, pow2(hi) as int);
    assert(m == q * pow2(hi));
    assert(pow2(hi) == p * (2 * half)) by {
        lemma_pow2_adds(lo + 1, (hi - lo - 1) as nat);
        lemma_pow2_unfold(lo + 1);
        assert(pow2(hi) == pow2(lo + 1) * half);
        assert(pow2(lo + 1) * half == p * (2 * half)) by (nonlinear_arith)
            requires
                pow2(lo + 1) == 2 * p,
        ;
    }
    assert(m == p * (q * (2 * half))) by (nonlinear_arith)
        requires
            m == q * (p * (2 * half)),
    ;
    vstd::arithmetic::div_mod::lemma_div_multiples_vanish(
        (q * (2 * half)) as int,
        p as int,
    );
    assert(m / p == q * (2 * half));
    assert(q * (2 * half) == (q * half) * 2) by (nonlinear_arith);
    vstd::arithmetic::div_mod::lemma_mod_multiples_basic((q * half) as int, 2);
}


impl Default for IncrementalMerkleTree {
    /// An empty accumulator.
    fn default() -> (r: IncrementalMerkleTree)
        ensures
            r.wf(),
            r@ == Seq::<Seq<u8>>::empty(),
    {
        IncrementalMerkleTree::new()
    }
}

/// Copy a vector of 32-byte nodes.
fn copy_nodes(v: &Vec<[u8; 32]>) -> (r: Vec<[u8; 32]>)
    ensures
        r@ == v@,
{
    let mut r: Vec<[u8; 32]> = Vec::new();
    let mut i: usize = 0;
    while i < v.len()
        invariant
            i <= v@.len(),
            r@ =~= v@.take(i as int),
        decreases v@.len() - i,
    {
        r.push(v[i]);
        i += 1;
    }
    proof {
        assert(v@.take(v@.len() as int) =~= v@);
    }
    r
}

/// Folding the authentication path of an appended position from its own
/// leaf reproduces the root of the whole tree.
pub proof fn lemma_fold_siblings(leaves: Seq<Seq<u8>>, pos: nat)
    requires
        pos < leaves.len(),
        leaves.len() <= pow2(32),
    ensures
        fold_path(spec_siblings(leaves, pos), pos, leaves[pos as int]) == spec_root(leaves),
{
    lemma2_to64();
    assert(pow2(0) == 1);
    lemma_fold_from(leaves, pos, 0);
    assert(spec_siblings(leaves, pos).skip(0) =~= spec_siblings(leaves, pos));
}

/// Proof permanence: after any number of further appends, the
/// authentication path produced for an already-appended position still
/// folds from that position's unchanged leaf to the then-current root.
pub proof fn lemma_proof_permanence(leaves: Seq<Seq<u8>>, more: Seq<Seq<u8>>, pos: nat)
    requires
        pos < leaves.len(),
        leaves.len() + more.len() <= pow2(32),
    ensures
        (leaves + more)[pos as int] == leaves[pos as int],
        fold_path(
            spec_siblings(leaves + more, pos),
            pos,
            (leaves + more)[pos as int],
        ) == spec_root(leaves + more),
{
    lemma_fold_siblings(leaves + more, pos);
}

/// Folding the tail of the authentication path from the subtree the
/// position sits in at `level` reproduces the root.
proof fn lemma_fold_from(leaves: Seq<Seq<u8>>, pos: nat, level: nat)
    requires
        level <= 32,
        pos < leaves.len(),
        leaves.len() <= pow2(32),
    ensures
        fold_path(
            spec_siblings(leaves, pos).skip(level as int),
            pos / pow2(level),
            subtree_hash(leaves, level, pos / pow2(level)),
        ) == spec_root(leaves),
    decreases 32 - level,
{
    let sibs = spec_siblings(leaves, pos);
    if level == 32 {
        assert(sibs.skip(32) =~= Seq::<Seq<u8>>::empty());
        vstd::arithmetic::div_mod::lemma_basic_div(pos as int, pow2(32) as int);
        assert(pos < pow2(32));
    } else {
        let j = pos / pow2(level);
        let rest = sibs.skip(level as int);
        assert(rest[0] == sibs[level as int]);
        assert(rest.skip(1) =~= sibs.skip(level as int + 1));
        lemma_div_pow2_step(pos, level);
        assert(j == 2 * (j / 2) + j % 2) by (nonlinear_arith);
        assert(j % 2 < 2) by (nonlinear_arith);
        let k = j / 2;
        if j % 2 == 0 {
            assert(2 * k == j);
            assert(sibling_index(pos, level) == j + 1);
            assert(subtree_hash(leaves, level + 1, k) == merkle_hash_spec(
                subtree_hash(leaves, level, 2 * k),
                subtree_hash(leaves, level, 2 * k + 1),
            ));
        } else {
            assert(j % 2 == 1);
            assert(j == 2 * k + 1);
            assert(2 * k == j - 1);
            assert(sibling_index(pos, level) == j - 1);
            assert(subtree_hash(leaves, level + 1, k) == merkle_hash_spec(
                subtree_hash(leaves, level, 2 * k),
                subtree_hash(leaves, level, 2 * k + 1),
            ));
            assert(2 * k + 1 == j);
        }
        lemma_fold_from(leaves, pos, level + 1);
    }
}

/// A batching layer over the accumulator: leaves are staged and inserted
/// only on an explicit commit, and a provisional root over the staged
/// leaves can be computed without touching the committed tree.
pub struct BatchMerkleTree {
    tree: IncrementalMerkleTree,
    pending_leaves: Vec<[u8; 32]>,
}

impl BatchMerkleTree {
    /// The leaves already committed to the tree.
    pub closed spec fn committed(&self) -> Seq<Seq<u8>> {
        self.tree@
    }

    /// The staged leaves, in staging order.
    pub closed spec fn pending(&self) -> Seq<Seq<u8>> {
        self.pending_leaves@.map_values(|l: [u8; 32]| l@)
    }

    /// The structural invariant of the underlying tree.
    pub closed spec fn wf(&self) -> bool {
        self.tree.wf()
    }

    /// Create an empty batch tree.
    pub fn new() -> (r: BatchMerkleTree)
        ensures
            r.wf(),
            r.committed() == Seq::<Seq<u8>>::empty(),
            r.pending() == Seq::<Seq<u8>>::empty(),
    {
        let r = BatchMerkleTree { tree: IncrementalMerkleTree::new(), pending_leaves: Vec::new() };
        proof {
            assert(r.pending() =~= Seq::<Seq<u8>>::empty());
        }
        r
    }

    /// Stage a leaf for a later commit.
    pub fn stage(&mut self, leaf: [u8; 32])
        requires
            old(self).wf(),
        ensures
            final(self).wf(),
            final(self).committed() == old(self).committed(),
            final(self).pending() == old(self).pending() + seq![leaf@],
    {
        self.pending_leaves.push(leaf);
        proof {
            assert(self.pending() =~= old(self).pending() + seq![leaf@]);
        }
    }

    /// Insert every staged leaf into the tree, in staging order, and
    /// return their positions. Fails with `TreeFull`, changing nothing,
    /// exactly when the staged leaves would not all fit.
    pub fn commit(&mut self) -> (r: Result<Vec<u64>, CryptoError>)
        requires
            old(self).wf(),
        ensures
            final(self).wf(),
            old(self).committed().len() + old(self).pending().len() <= pow2(32) ==> (
            r matches Ok(positions) && final(self).committed() == old(self).committed()
                + old(self).pending() && final(self).pending()
                == Seq::<Seq<u8>>::empty() && positions@.len() == old(self).pending().len()
                && (forall|i: int|
                0 <= i < positions@.len() ==> positions@[i] as nat == old(
                    self,
                ).committed().len() + i)),
            old(self).committed().len() + old(self).pending().len() > pow2(32) ==> (
            r matches Err(e) && e == CryptoError::TreeFull && final(self).committed() == old(
                self,
            ).committed() && final(self).pending() == old(self).pending()),
    {
        proof {
            lemma2_to64();
        }
        let staged = self.pending_leaves.len();
        let base = self.tree.num_leaves();
        if staged as u64 > 4294967296u64 - base {
            return Err(CryptoError::TreeFull);
        }
        let mut positions: Vec<u64> = Vec::new();
        let mut i: usize = 0;
        while i < staged
            invariant
                i <= staged,
                self.tree.wf(),
                staged == self.pending_leaves@.len(),
                self.pending_leaves@ == old(self).pending_leaves@,
                base as nat == old(self).committed().len(),
                base as nat + staged as nat <= pow2(32),
                self.tree@ == old(self).committed() + old(self).pending().take(i as int),
                positions@.len() == i,
                forall|l: int|
                    0 <= l < i ==> #[trigger] positions@[l] as nat == base as nat + l,
            decreases staged - i,
        {
            let leaf = self.pending_leaves[i];
            let result = self.tree.append(leaf);
            match result {
                Ok(p) => {
                    positions.push(p);
                },
                Err(_) => {
                    proof {
                        assert(false);
                    }
                },
            }
            proof {
                assert(self.tree@ =~= old(self).committed() + old(self).pending().take(
                    i + 1 as int,
                ));
            }
            i += 1;
        }
        self.pending_leaves = Vec::new();
        proof {
            assert(old(self).pending().take(staged as int) =~= old(self).pending());
            assert(self.pending() =~= Seq::<Seq<u8>>::empty());
        }
        Ok(positions)
    }

    /// The root over the committed and the staged leaves together, without
    /// touching the committed tree.
    pub fn root(&self) -> (r: MerkleRoot)
        requires
            self.wf(),
        ensures
            self.committed().len() + self.pending().len() <= pow2(32) ==> r@ == spec_root(
                self.committed() + self.pending(),
            ),
    {
        proof {
            lemma2_to64();
        }
        if self.pending_leaves.len() == 0 {
            let r = self.tree.root();
            proof {
                assert(self.committed() + self.pending() =~= self.committed());
            }
            return r;
        }
        let ghost fits = self.committed().len() + self.pending().len() <= pow2(32);
        let mut temp = self.tree.duplicate();
        let mut i: usize = 0;
        while i < self.pending_leaves.len()
            invariant
                i <= self.pending_leaves@.len(),
                temp.wf(),
                self.wf(),
                fits == (self.committed().len() + self.pending().len() <= pow2(32)),
                fits ==> temp@ == self.committed() + self.pending().take(i as int),
            decreases self.pending_leaves@.len() - i,
        {
            let leaf = self.pending_leaves[i];
            let result = temp.append(leaf);
            proof {
                if fits {
                    match result {
                        Ok(_) => {
                            assert(temp@ =~= self.committed() + self.pending().take(
                                i + 1 as int,
                            ));
                        },
                        Err(_) => {
                            assert(false);
                        },
                    }
                }
            }
            i += 1;
        }
        proof {
            if fits {
                assert(self.pending().take(self.pending().len() as int) =~= self.pending());
            }
        }
        temp.root()
    }
}

} // verus!
