//! The fixed-depth Merkle tree: leaf encoding, construction with zero padding,
//! inclusion proofs and nullifiers.

use crate::hashing::{put_word, DemoHash, Digest, HashPrimitive};
use vstd::bytes::{lemma_auto_spec_u64_to_from_le_bytes, spec_u64_to_le_bytes, u64_to_le_bytes};
use vstd::prelude::*;
use vstd::utf8::encode_utf8;

verus! {

/// Tree depth: the tree holds up to 2^8 = 256 recipients.
pub const TREE_DEPTH: usize = 8;

/// Maximum number of leaves.
pub const MAX_LEAVES: usize = 256;

/// Number of nodes of the full tree: every level, leaves first, root last.
pub const NODE_COUNT: usize = 511;

/// A Merkle tree over the leaves of a recipient list, stored as one flat
/// sequence of nodes: the 256 leaves, then each level above, the root last.
#[derive(Debug, Clone)]
pub struct MerkleTree {
    nodes: Vec<Digest>,
    leaf_count: usize,
    wallets: Vec<String>,
}

/// An inclusion proof for one leaf: the sibling of each level, leaf to root.
#[derive(Debug, Clone)]
pub struct MerkleProof {
    pub leaf_index: usize,
    pub siblings: Vec<Digest>,
    pub leaf: Digest,
}

/// Why a tree could not be built.
#[derive(Debug, Clone, PartialEq, Eq, Structural)]
pub enum MerkleError {
    /// More recipients than the tree has leaves.
    TooManyRecipients { count: usize, capacity: usize },
}

/// The sentinel of an empty leaf: 32 zero bytes.
pub open spec fn zero_hash() -> Seq<u8> {
    Seq::new(32, |i: int| 0u8)
}

/// The views of a sequence of hashes.
pub open spec fn hash_views(s: Seq<Digest>) -> Seq<Seq<u8>> {
    s.map_values(|h: Digest| h@)
}

/// The leaf of one recipient: the three-input hash of the identifier's UTF-8
/// bytes, the amount in base units as 8 little-endian bytes, and the secret.
pub open spec fn spec_leaf<H: HashPrimitive>(
    wallet: Seq<char>,
    lamports: u64,
    secret: Seq<u8>,
) -> Seq<u8> {
    H::spec_combine3(encode_utf8(wallet), spec_u64_to_le_bytes(lamports), secret)
}

/// The 256 leaves of a recipient list: one per entry in order, then sentinels.
pub open spec fn padded_leaves<H: HashPrimitive>(
    entries: Seq<(String, u64, Digest)>,
) -> Seq<Seq<u8>> {
    Seq::new(
        MAX_LEAVES as nat,
        |i: int|
            if i < entries.len() {
                spec_leaf::<H>(entries[i].0@, entries[i].1, entries[i].2@)
            } else {
                zero_hash()
            },
    )
}

/// Level `k` of the tree over `leaves`: level 0 is the leaves, and each node
/// of level `k + 1` hashes the pair of nodes below it.
pub open spec fn level<H: HashPrimitive>(leaves: Seq<Seq<u8>>, k: nat) -> Seq<Seq<u8>>
    decreases k,
{
    if k == 0 {
        leaves
    } else {
        let below = level::<H>(leaves, (k - 1) as nat);
        Seq::new(below.len() / 2, |i: int| H::spec_combine2(below[2 * i], below[2 * i + 1]))
    }
}

/// Levels `0 .. k` of the tree over `leaves`, one after the other.
pub open spec fn levels_upto<H: HashPrimitive>(leaves: Seq<Seq<u8>>, k: nat) -> Seq<Seq<u8>>
    decreases k,
{
    if k == 0 {
        Seq::empty()
    } else {
        levels_upto::<H>(leaves, (k - 1) as nat) + level::<H>(leaves, (k - 1) as nat)
    }
}

/// The flat node sequence of the full tree over `leaves`.
pub open spec fn tree_nodes<H: HashPrimitive>(leaves: Seq<Seq<u8>>) -> Seq<Seq<u8>> {
    levels_upto::<H>(leaves, (TREE_DEPTH + 1) as nat)
}

/// Number of nodes on level `k`.
pub open spec fn level_size(k: nat) -> nat
    decreases k,
{
    if k == 0 {
        MAX_LEAVES as nat
    } else {
        level_size((k - 1) as nat) / 2
    }
}

/// Position of the first node of level `k` in the flat sequence.
pub open spec fn level_start(k: nat) -> nat
    decreases k,
{
    if k == 0 {
        0
    } else {
        level_start((k - 1) as nat) + level_size((k - 1) as nat)
    }
}

/// The index on level `k` of the ancestor of leaf `i`.
pub open spec fn path_index(i: nat, k: nat) -> nat
    decreases k,
{
    if k == 0 {
        i
    } else {
        path_index(i, (k - 1) as nat) / 2
    }
}

/// The index of the sibling of node `j` within its level.
pub open spec fn sibling_index(j: nat) -> nat {
    if j % 2 == 0 {
        j + 1
    } else {
        (j - 1) as nat
    }
}

/// The running hash after combining `leaf` with the first `k` siblings, as a
/// verifier recomputes it: `(running, sibling)` where the current index is
/// even, `(sibling, running)` where it is odd.
pub open spec fn recompute<H: HashPrimitive>(
    leaf: Seq<u8>,
    index: nat,
    siblings: Seq<Seq<u8>>,
    k: nat,
) -> Seq<u8>
    decreases k,
{
    if k == 0 {
        leaf
    } else {
        let running = recompute::<H>(leaf, index, siblings, (k - 1) as nat);
        if path_index(index, (k - 1) as nat) % 2 == 0 {
            H::spec_combine2(running, siblings[k - 1])
        } else {
            H::spec_combine2(siblings[k - 1], running)
        }
    }
}

/// The hash of a subtree of height `k` whose leaves are all the sentinel.
pub open spec fn empty_subtree<H: HashPrimitive>(k: nat) -> Seq<u8>
    decreases k,
{
    if k == 0 {
        zero_hash()
    } else {
        H::spec_combine2(empty_subtree::<H>((k - 1) as nat), empty_subtree::<H>((k - 1) as nat))
    }
}

/// Number of leaves under one node of level `k`.
pub open spec fn span(k: nat) -> nat
    decreases k,
{
    if k == 0 {
        1
    } else {
        2 * span((k - 1) as nat)
    }
}

impl MerkleProof {
    /// The root that this proof leads to from its leaf.
    pub open spec fn spec_root<H: HashPrimitive>(&self) -> Seq<u8> {
        let siblings = hash_views(self.siblings@);
        recompute::<H>(self.leaf@, self.leaf_index as nat, siblings, TREE_DEPTH as nat)
    }
}

impl MerkleTree {
    /// The nodes of the tree, leaves first, root last.
    pub closed spec fn node_views(&self) -> Seq<Seq<u8>> {
        hash_views(self.nodes@)
    }

    /// Number of real (non-padding) leaves.
    pub closed spec fn spec_leaf_count(&self) -> nat {
        self.leaf_count as nat
    }

    /// The recipient identifiers, in the order of their leaves.
    pub closed spec fn wallet_views(&self) -> Seq<Seq<char>> {
        self.wallets@.map_values(|w: String| w@)
    }

    /// Node `i` of level `k`.
    pub open spec fn node(&self, k: nat, i: nat) -> Seq<u8> {
        self.node_views()[(level_start(k) + i) as int]
    }

    /// The root: the last node.
    pub open spec fn spec_root(&self) -> Seq<u8> {
        self.node_views().last()
    }

    /// The first `MAX_LEAVES` nodes.
    pub open spec fn leaves(&self) -> Seq<Seq<u8>> {
        self.node_views().subrange(0, MAX_LEAVES as int)
    }

    /// The shape of a tree: all its nodes, and an identifier per recipient.
    pub open spec fn shaped(&self) -> bool {
        &&& self.node_views().len() == NODE_COUNT
        &&& self.spec_leaf_count() <= MAX_LEAVES
        &&& self.wallet_views().len() == self.spec_leaf_count()
    }

    /// Well-formed under the primitive `H`: the nodes are the full tree over
    /// its leaves, and the leaves past the recipients are the sentinel.
    pub open spec fn wf<H: HashPrimitive>(&self) -> bool {
        &&& self.shaped()
        &&& self.node_views() == tree_nodes::<H>(self.leaves())
        &&& forall|i: int|
            self.spec_leaf_count() <= i < MAX_LEAVES ==> #[trigger] self.node_views()[i]
                == zero_hash()
    }

    /// This tree is the one that `entries` build.
    pub open spec fn built_from<H: HashPrimitive>(
        &self,
        entries: Seq<(String, u64, Digest)>,
    ) -> bool {
        &&& self.wf::<H>()
        &&& self.spec_leaf_count() == entries.len()
        &&& self.wallet_views() == entries.map_values(|e: (String, u64, Digest)| e.0@)
        &&& self.node_views() == tree_nodes::<H>(padded_leaves::<H>(entries))
    }

    /// `wallet` has a leaf, and `i` is its last position.
    pub open spec fn is_leaf_of(&self, wallet: Seq<char>, i: nat) -> bool {
        &&& i < self.wallet_views().len()
        &&& self.wallet_views()[i as int] == wallet
        &&& forall|j: int|
            i < j < self.wallet_views().len() ==> #[trigger] self.wallet_views()[j] != wallet
    }

    /// `wallet` has a leaf.
    pub open spec fn has_wallet(&self, wallet: Seq<char>) -> bool {
        exists|i: int|
            0 <= i < self.wallet_views().len() && #[trigger] self.wallet_views()[i] == wallet
    }

    /// `p` is the proof of leaf `i`: its position, its leaf, and the sibling
    /// of its ancestor on each level.
    pub open spec fn is_proof_at(&self, p: MerkleProof, i: nat) -> bool {
        &&& p.leaf_index == i
        &&& p.leaf@ == self.node_views()[i as int]
        &&& p.siblings@.len() == TREE_DEPTH
        &&& forall|k: int|
            0 <= k < TREE_DEPTH ==> #[trigger] p.siblings@[k]@ == self.node(
                k as nat,
                sibling_index(path_index(i, k as nat)),
            )
    }
}

/// The sizes and offsets of the levels.
proof fn lemma_level_sizes(k: nat)
    requires
        k <= TREE_DEPTH,
    ensures
        level_size(k) >= 1,
        k < TREE_DEPTH ==> level_size(k) % 2 == 0,
        level_size(TREE_DEPTH as nat) == 1,
        level_start(TREE_DEPTH as nat) == NODE_COUNT - 1,
        level_start((TREE_DEPTH + 1) as nat) == NODE_COUNT,
        level_start(k) + level_size(k) <= NODE_COUNT,
        level_size(k) <= MAX_LEAVES,
        span(k) * level_size(k) == MAX_LEAVES,
{
    assert(level_size(0) == 256 && level_start(0) == 0 && span(0) == 1);
    assert(level_size(1) == 128 && level_start(1) == 256 && span(1) == 2);
    assert(level_size(2) == 64 && level_start(2) == 384 && span(2) == 4);
    assert(level_size(3) == 32 && level_start(3) == 448 && span(3) == 8);
    assert(level_size(4) == 16 && level_start(4) == 480 && span(4) == 16);
    assert(level_size(5) == 8 && level_start(5) == 496 && span(5) == 32);
    assert(level_size(6) == 4 && level_start(6) == 504 && span(6) == 64);
    assert(level_size(7) == 2 && level_start(7) == 508 && span(7) == 128);
    assert(level_size(8) == 1 && level_start(8) == 510 && span(8) == 256);
    assert(level_start(9) == 511);
    assert(k == 0 || k == 1 || k == 2 || k == 3 || k == 4 || k == 5 || k == 6 || k == 7 || k
        == 8);
}

/// Over 256 leaves, level `k` has `level_size(k)` nodes and the levels below
/// it take `level_start(k)` places.
proof fn lemma_level_lens<H: HashPrimitive>(leaves: Seq<Seq<u8>>, k: nat)
    requires
        leaves.len() == MAX_LEAVES,
        k <= TREE_DEPTH + 1,
    ensures
        k <= TREE_DEPTH ==> level::<H>(leaves, k).len() == level_size(k),
        levels_upto::<H>(leaves, k).len() == level_start(k),
    decreases k,
{
    if k > 0 {
        lemma_level_lens::<H>(leaves, (k - 1) as nat);
    }
}

/// In the flat sequence, level `k` starts at `level_start(k)`.
proof fn lemma_levels_index<H: HashPrimitive>(leaves: Seq<Seq<u8>>, m: nat, k: nat, i: nat)
    requires
        leaves.len() == MAX_LEAVES,
        k < m <= TREE_DEPTH + 1,
        i < level_size(k),
    ensures
        levels_upto::<H>(leaves, m)[(level_start(k) + i) as int] == level::<H>(leaves, k)[i as int],
    decreases m,
{
    lemma_level_lens::<H>(leaves, (m - 1) as nat);
    lemma_level_lens::<H>(leaves, k);
    if k + 1 < m {
        lemma_levels_index::<H>(leaves, (m - 1) as nat, k, i);
        lemma_level_sizes(k);
        lemma_level_sizes((m - 1) as nat);
        assert(level_start(k + 1) <= level_start((m - 1) as nat)) by {
            lemma_start_monotone(k + 1, (m - 1) as nat);
        }
    }
}

/// Levels start further on the higher they are.
proof fn lemma_start_monotone(a: nat, b: nat)
    requires
        a <= b,
    ensures
        level_start(a) <= level_start(b),
    decreases b,
{
    if a < b {
        lemma_start_monotone(a, (b - 1) as nat);
    }
}

/// The ancestor of a leaf on level `k` lies within that level.
proof fn lemma_path_bound(i: nat, k: nat)
    requires
        i < MAX_LEAVES,
        k <= TREE_DEPTH,
    ensures
        path_index(i, k) < level_size(k),
    decreases k,
{
    if k > 0 {
        lemma_path_bound(i, (k - 1) as nat);
        lemma_level_sizes((k - 1) as nat);
        let p = path_index(i, (k - 1) as nat);
        let s = level_size((k - 1) as nat);
        assert(p / 2 < s / 2) by (nonlinear_arith)
            requires
                p < s,
                s % 2 == 0,
        ;
    }
}

impl MerkleTree {
    /// Each node above the leaves hashes its two children.
    proof fn lemma_parent<H: HashPrimitive>(&self, k: nat, j: nat)
        requires
            self.wf::<H>(),
            k < TREE_DEPTH,
            j < level_size(k + 1),
        ensures
            self.node(k + 1, j) == H::spec_combine2(self.node(k, 2 * j), self.node(k, 2 * j + 1)),
    {
        let leaves = self.leaves();
        lemma_level_sizes(k);
        lemma_level_lens::<H>(leaves, k);
        lemma_levels_index::<H>(leaves, (TREE_DEPTH + 1) as nat, k + 1, j);
        lemma_levels_index::<H>(leaves, (TREE_DEPTH + 1) as nat, k, 2 * j);
        lemma_levels_index::<H>(leaves, (TREE_DEPTH + 1) as nat, k, 2 * j + 1);
    }

    /// Recomputing from leaf `i` with its true siblings reaches its ancestor
    /// on every level.
    proof fn lemma_recompute_path<H: HashPrimitive>(&self, p: MerkleProof, i: nat, k: nat)
        requires
            self.wf::<H>(),
            i < MAX_LEAVES,
            self.is_proof_at(p, i),
            k <= TREE_DEPTH,
        ensures
            recompute::<H>(p.leaf@, i, hash_views(p.siblings@), k) == self.node(
                k,
                path_index(i, k),
            ),
        decreases k,
    {
        if k == 0 {
            assert(level_start(0) == 0);
        } else {
            let k1 = (k - 1) as nat;
            self.lemma_recompute_path::<H>(p, i, k1);
            lemma_path_bound(i, k1);
            lemma_path_bound(i, k);
            lemma_level_sizes(k1);
            let q = path_index(i, k1);
            let j = path_index(i, k);
            assert(p.siblings@[k1 as int]@ == self.node(k1, sibling_index(q)));
            self.lemma_parent::<H>(k1, j);
            if q % 2 == 0 {
                assert(2 * j == q && 2 * j + 1 == sibling_index(q));
            } else {
                assert(2 * j == sibling_index(q) && 2 * j + 1 == q);
            }
        }
    }
}

/// Proof soundness: in a well-formed tree, the proof of any leaf position
/// leads from that leaf back to the root.
pub proof fn lemma_proof_sound<H: HashPrimitive>(tree: MerkleTree, p: MerkleProof, i: nat)
    requires
        tree.wf::<H>(),
        i < MAX_LEAVES,
        tree.is_proof_at(p, i),
    ensures
        p.spec_root::<H>() == tree.spec_root(),
{
    tree.lemma_recompute_path::<H>(p, i, TREE_DEPTH as nat);
    lemma_path_bound(i, TREE_DEPTH as nat);
    lemma_level_sizes(0);
}

/// Padding: every node whose leaves all lie past the recipients is the hash
/// of an all-sentinel subtree of its height, whatever the recipients are.
pub proof fn lemma_padding<H: HashPrimitive>(tree: MerkleTree, k: nat, j: nat)
    requires
        tree.wf::<H>(),
        k <= TREE_DEPTH,
        j < level_size(k),
        j * span(k) >= tree.spec_leaf_count(),
    ensures
        tree.node(k, j) == empty_subtree::<H>(k),
    decreases k,
{
    if k == 0 {
        lemma_level_sizes(0);
        assert(span(0) == 1);
        assert(j * span(0) == j) by (nonlinear_arith)
            requires
                span(0) == 1,
        ;
        assert(tree.node_views()[j as int] == zero_hash());
    } else {
        let k1 = (k - 1) as nat;
        lemma_level_sizes(k1);
        lemma_level_sizes(k);
        let s = span(k1);
        assert(2 * j * s == j * span(k)) by (nonlinear_arith)
            requires
                span(k) == 2 * s,
        ;
        assert((2 * j + 1) * s >= 2 * j * s) by (nonlinear_arith);
        lemma_padding::<H>(tree, k1, 2 * j);
        lemma_padding::<H>(tree, k1, 2 * j + 1);
        tree.lemma_parent::<H>(k1, j);
    }
}

/// Determinism: two trees built from the same entries have the same root.
pub proof fn lemma_build_deterministic<H: HashPrimitive>(
    entries: Seq<(String, u64, Digest)>,
    a: MerkleTree,
    b: MerkleTree,
)
    requires
        a.built_from::<H>(entries),
        b.built_from::<H>(entries),
    ensures
        a.spec_root() == b.spec_root(),
{
}

/// Distinct leaf indices hand distinct index bytes to the nullifier hash.
pub proof fn lemma_nullifier_index_bytes_distinct(i: u64, j: u64)
    requires
        i != j,
    ensures
        spec_u64_to_le_bytes(i) != spec_u64_to_le_bytes(j),
{
    lemma_auto_spec_u64_to_from_le_bytes();
}

/// Pushing a hash pushes its view.
proof fn lemma_hash_views_push(s: Seq<Digest>, x: Digest)
    ensures
        hash_views(s.push(x)) == hash_views(s).push(x@),
{
    assert forall|j: int| 0 <= j < s.len() + 1 implies #[trigger] hash_views(s.push(x))[j]
        == hash_views(s).push(x@)[j] by {
        if j < s.len() {
            assert(s.push(x)[j] == s[j]);
        }
    }
    assert(hash_views(s.push(x)) =~= hash_views(s).push(x@));
}

/// The first level of the flat sequence is the leaves.
proof fn lemma_levels_index_all<H: HashPrimitive>(leaves: Seq<Seq<u8>>)
    requires
        leaves.len() == MAX_LEAVES,
    ensures
        levels_upto::<H>(leaves, (TREE_DEPTH + 1) as nat).subrange(0, MAX_LEAVES as int) =~= leaves,
{
    lemma_level_sizes(0);
    assert forall|i: int| 0 <= i < MAX_LEAVES implies levels_upto::<H>(
        leaves,
        (TREE_DEPTH + 1) as nat,
    )[i] == leaves[i] by {
        lemma_levels_index::<H>(leaves, (TREE_DEPTH + 1) as nat, 0, i as nat);
    }
    lemma_level_lens::<H>(leaves, (TREE_DEPTH + 1) as nat);
}

/// Leaf hash of one recipient: the identifier's bytes, the amount in base
/// units as 8 little-endian bytes, and the secret, under the three-input hash.
pub fn leaf_hash_with<H: HashPrimitive>(
    hasher: &H,
    wallet: &str,
    amount_lamports: u64,
    secret: &Digest,
) -> (r: Digest)
    ensures
        r@ == spec_leaf::<H>(wallet@, amount_lamports, secret@),
{
    let amount_bytes = u64_to_le_bytes(amount_lamports);
    hasher.combine3(wallet.as_bytes(), amount_bytes.as_slice(), secret.as_slice())
}

/// Leaf hash of one recipient under the demonstration primitive.
pub fn compute_leaf_hash(wallet: &str, amount_lamports: u64, secret: &Digest) -> (r: Digest)
    ensures
        r@ == spec_leaf::<DemoHash>(wallet@, amount_lamports, secret@),
{
    leaf_hash_with(&DemoHash, wallet, amount_lamports, secret)
}

/// Nullifier of a claim: the two-input hash of the secret and the leaf index
/// as 8 little-endian bytes.
pub fn nullifier_with<H: HashPrimitive>(hasher: &H, secret: &Digest, leaf_index: usize) -> (r:
    Digest)
    ensures
        r@ == H::spec_combine2(secret@, spec_u64_to_le_bytes(leaf_index as u64)),
{
    let index_bytes = u64_to_le_bytes(leaf_index as u64);
    hasher.combine2(secret.as_slice(), index_bytes.as_slice())
}

/// Nullifier of a claim under the demonstration primitive.
pub fn compute_nullifier(secret: &Digest, leaf_index: usize) -> (r: Digest)
    ensures
        r@ == DemoHash::spec_combine2(secret@, spec_u64_to_le_bytes(leaf_index as u64)),
{
    nullifier_with(&DemoHash, secret, leaf_index)
}

impl MerkleProof {
    /// Recomputes the root from the leaf and the siblings, leaf to root.
    pub fn computed_root<H: HashPrimitive>(&self, hasher: &H) -> (r: Digest)
        requires
            self.siblings@.len() == TREE_DEPTH,
        ensures
            r@ == self.spec_root::<H>(),
    {
        let ghost sibs = hash_views(self.siblings@);
        let mut running: Digest = self.leaf;
        let mut idx: usize = self.leaf_index;
        let mut k: usize = 0;
        while k < TREE_DEPTH
            invariant
                k <= TREE_DEPTH,
                self.siblings@.len() == TREE_DEPTH,
                sibs == hash_views(self.siblings@),
                idx == path_index(self.leaf_index as nat, k as nat),
                running@ == recompute::<H>(self.leaf@, self.leaf_index as nat, sibs, k as nat),
            decreases TREE_DEPTH - k,
        {
            let sibling = &self.siblings[k];
            assert(sibs[k as int] == sibling@);
            if idx % 2 == 0 {
                running = hasher.combine2(running.as_slice(), sibling.as_slice());
            } else {
                running = hasher.combine2(sibling.as_slice(), running.as_slice());
            }
            idx = idx / 2;
            k = k + 1;
        }
        running
    }
}

impl MerkleTree {
    /// Builds the tree of a recipient list of (identifier, amount in base
    /// units, secret): one leaf per entry in order, padded with sentinels to
    /// `MAX_LEAVES`, then each level hashed pairwise up to the root.
    /// Fails when there are more entries than leaves.
    pub fn from_recipients_with<H: HashPrimitive>(
        hasher: &H,
        recipients: &[(String, u64, Digest)],
    ) -> (r: Result<MerkleTree, MerkleError>)
        ensures
            match r {
                Ok(t) => recipients@.len() <= MAX_LEAVES && t.built_from::<H>(recipients@),
                Err(e) => recipients@.len() > MAX_LEAVES && e == (MerkleError::TooManyRecipients {
                    count: recipients@.len() as usize,
                    capacity: MAX_LEAVES,
                }),
            },
    {
        let n = recipients.len();
        if n > MAX_LEAVES {
            return Err(MerkleError::TooManyRecipients { count: n, capacity: MAX_LEAVES });
        }
        let ghost leaves = padded_leaves::<H>(recipients@);
        let mut nodes: Vec<Digest> = Vec::new();
        let mut wallets: Vec<String> = Vec::new();
        let mut i: usize = 0;
        while i < n
            invariant
                n == recipients@.len() <= MAX_LEAVES,
                i <= n,
                leaves == padded_leaves::<H>(recipients@),
                hash_views(nodes@) =~= leaves.subrange(0, i as int),
                wallets@.len() == i,
                forall|j: int| 0 <= j < i ==> #[trigger] wallets@[j]@ == recipients@[j].0@,
            decreases n - i,
        {
            let entry = &recipients[i];
            let leaf = leaf_hash_with(hasher, entry.0.as_str(), entry.1, &entry.2);
            assert(leaf@ == leaves[i as int]);
            let ghost old_nodes = nodes@;
            let ghost old_wallets = wallets@;
            nodes.push(leaf);
            wallets.push(entry.0.clone());
            assert(nodes@ == old_nodes.push(leaf));
            assert(wallets@ == old_wallets.push(entry.0));
            proof {
                lemma_hash_views_push(old_nodes, leaf);
            }
            assert(hash_views(nodes@) =~= leaves.subrange(0, i + 1));
            i = i + 1;
        }
        while i < MAX_LEAVES
            invariant
                n <= i <= MAX_LEAVES,
                leaves == padded_leaves::<H>(recipients@),
                n == recipients@.len(),
                hash_views(nodes@) =~= leaves.subrange(0, i as int),
            decreases MAX_LEAVES - i,
        {
            let z: Digest = [0u8; 32];
            assert(z@ =~= zero_hash());
            assert(leaves[i as int] == zero_hash());
            let ghost old_nodes = nodes@;
            nodes.push(z);
            proof {
                lemma_hash_views_push(old_nodes, z);
            }
            assert(hash_views(nodes@) =~= leaves.subrange(0, i + 1));
            i = i + 1;
        }
        assert(levels_upto::<H>(leaves, 1) =~= leaves) by {
            assert(levels_upto::<H>(leaves, 0) =~= Seq::<Seq<u8>>::empty());
        }
        let mut start: usize = 0;
        let mut size: usize = MAX_LEAVES;
        let mut k: usize = 0;
        while k < TREE_DEPTH
            invariant
                k <= TREE_DEPTH,
                leaves.len() == MAX_LEAVES,
                start == level_start(k as nat),
                size == level_size(k as nat),
                hash_views(nodes@) == levels_upto::<H>(leaves, (k + 1) as nat),
            decreases TREE_DEPTH - k,
        {
            proof {
                lemma_level_sizes(k as nat);
                lemma_level_sizes((k + 1) as nat);
                lemma_level_lens::<H>(leaves, k as nat);
                lemma_level_lens::<H>(leaves, (k + 1) as nat);
                lemma_level_lens::<H>(leaves, (k + 2) as nat);
            }
            let half = size / 2;
            let mut j: usize = 0;
            while j < half
                invariant
                    k < TREE_DEPTH,
                    leaves.len() == MAX_LEAVES,
                    start == level_start(k as nat),
                    size == level_size(k as nat),
                    half == size / 2,
                    half == level::<H>(leaves, (k + 1) as nat).len(),
                    j <= half,
                    start + size <= NODE_COUNT,
                    levels_upto::<H>(leaves, (k + 1) as nat).len() == start + size,
                    hash_views(nodes@) =~= levels_upto::<H>(leaves, (k + 1) as nat) + level::<H>(
                        leaves,
                        (k + 1) as nat,
                    ).subrange(0, j as int),
                decreases half - j,
            {
                proof {
                    lemma_level_lens::<H>(leaves, k as nat);
                    lemma_levels_index::<H>(leaves, (k + 1) as nat, k as nat, (2 * j) as nat);
                    lemma_levels_index::<H>(leaves, (k + 1) as nat, k as nat, (2 * j + 1) as nat);
                }
                let ghost before = hash_views(nodes@);
                assert(2 * j + 1 < size);
                assert(before.len() == nodes@.len());
                assert(before[start + 2 * j] == nodes@[start + 2 * j]@);
                assert(before[start + 2 * j + 1] == nodes@[start + 2 * j + 1]@);
                let parent = hasher.combine2(
                    nodes[start + 2 * j].as_slice(),
                    nodes[start + 2 * j + 1].as_slice(),
                );
                let ghost old_nodes = nodes@;
                nodes.push(parent);
                proof {
                    lemma_hash_views_push(old_nodes, parent);
                }
                assert(hash_views(nodes@) =~= levels_upto::<H>(leaves, (k + 1) as nat) + level::<H>(
                    leaves,
                    (k + 1) as nat,
                ).subrange(0, j + 1));
                j = j + 1;
            }
            assert(level::<H>(leaves, (k + 1) as nat).subrange(0, half as int) =~= level::<H>(
                leaves,
                (k + 1) as nat,
            ));
            start = start + size;
            size = half;
            k = k + 1;
        }
        proof {
            lemma_level_lens::<H>(leaves, (TREE_DEPTH + 1) as nat);
            lemma_level_sizes(0);
            assert(hash_views(nodes@).subrange(0, MAX_LEAVES as int) =~= leaves) by {
                lemma_levels_index_all::<H>(leaves);
            }
        }
        let tree = MerkleTree { nodes, leaf_count: n, wallets };
        assert(tree.wallet_views() =~= recipients@.map_values(|e: (String, u64, Digest)| e.0@));
        assert(tree.node_views() == tree_nodes::<H>(leaves));
        assert(tree.leaves() == leaves);
        assert forall|i: int| n <= i < MAX_LEAVES implies #[trigger] tree.node_views()[i]
            == zero_hash() by {
            assert(tree.leaves()[i] == leaves[i]);
        }
        Ok(tree)
    }

    /// Builds the tree of a recipient list under the demonstration primitive.
    pub fn from_recipients(recipients: &[(String, u64, Digest)]) -> (r: Result<
        MerkleTree,
        MerkleError,
    >)
        ensures
            match r {
                Ok(t) => recipients@.len() <= MAX_LEAVES && t.built_from::<DemoHash>(recipients@),
                Err(e) => recipients@.len() > MAX_LEAVES && e == (MerkleError::TooManyRecipients {
                    count: recipients@.len() as usize,
                    capacity: MAX_LEAVES,
                }),
            },
    {
        MerkleTree::from_recipients_with(&DemoHash, recipients)
    }

    /// The root: the last node, or the sentinel for a tree without nodes.
    pub fn root(&self) -> (r: Digest)
        ensures
            self.node_views().len() > 0 ==> r@ == self.spec_root(),
            self.node_views().len() == 0 ==> r@ == zero_hash(),
    {
        let n = self.nodes.len();
        if n == 0 {
            let z: Digest = [0u8; 32];
            assert(z@ =~= zero_hash());
            z
        } else {
            self.nodes[n - 1]
        }
    }

    /// The leaf position of `wallet`: its last entry where it occurs twice,
    /// and `None` where it has none.
    pub fn get_leaf_index(&self, wallet: &str) -> (r: Option<usize>)
        ensures
            r is Some <==> self.has_wallet(wallet@),
            r matches Some(i) ==> self.is_leaf_of(wallet@, i as nat),
    {
        let key = wallet.to_owned();
        let mut i: usize = self.wallets.len();
        while i > 0
            invariant
                i <= self.wallets@.len(),
                key@ == wallet@,
                self.wallet_views() == self.wallets@.map_values(|w: String| w@),
                forall|j: int|
                    i <= j < self.wallets@.len() ==> #[trigger] self.wallet_views()[j] != wallet@,
            decreases i,
        {
            i = i - 1;
            if self.wallets[i] == key {
                assert(self.wallet_views()[i as int] == wallet@);
                return Some(i);
            }
        }
        assert(!self.has_wallet(wallet@));
        None
    }

    /// The inclusion proof of `wallet`'s leaf, or `None` where it has none.
    pub fn get_proof(&self, wallet: &str) -> (r: Option<MerkleProof>)
        requires
            self.shaped(),
        ensures
            r is Some <==> self.has_wallet(wallet@),
            r matches Some(p) ==> self.is_leaf_of(wallet@, p.leaf_index as nat) && self.is_proof_at(
                p,
                p.leaf_index as nat,
            ),
    {
        let leaf_index = match self.get_leaf_index(wallet) {
            None => return None,
            Some(i) => i,
        };
        proof {
            lemma_level_sizes(0);
        }
        let leaf = self.nodes[leaf_index];
        let mut siblings: Vec<Digest> = Vec::new();
        let mut idx: usize = leaf_index;
        let mut start: usize = 0;
        let mut size: usize = MAX_LEAVES;
        let mut k: usize = 0;
        while k < TREE_DEPTH
            invariant
                self.shaped(),
                leaf_index < MAX_LEAVES,
                k <= TREE_DEPTH,
                start == level_start(k as nat),
                size == level_size(k as nat),
                idx == path_index(leaf_index as nat, k as nat),
                siblings@.len() == k,
                forall|m: int|
                    0 <= m < k ==> #[trigger] siblings@[m]@ == self.node(
                        m as nat,
                        sibling_index(path_index(leaf_index as nat, m as nat)),
                    ),
            decreases TREE_DEPTH - k,
        {
            proof {
                lemma_level_sizes(k as nat);
                lemma_path_bound(leaf_index as nat, k as nat);
            }
            let sibling_idx = if idx % 2 == 0 {
                idx + 1
            } else {
                idx - 1
            };
            assert(self.node_views()[start + sibling_idx] == self.nodes@[start + sibling_idx]@);
            siblings.push(self.nodes[start + sibling_idx]);
            start = start + size;
            size = size / 2;
            idx = idx / 2;
            k = k + 1;
        }
        Some(MerkleProof { leaf_index, siblings, leaf })
    }
}

/// Word `c` of a secret derived from a clock reading: the low 64 bits of
/// `nanos + c`.
pub open spec fn secret_word(nanos: u128, c: nat) -> u64 {
    ((nanos as u64 + c) % 0x1_0000_0000_0000_0000) as u64
}

/// The secret derived from a clock reading: four words, each written
/// little-endian.
pub open spec fn spec_secret(nanos: u128) -> Seq<u8> {
    spec_u64_to_le_bytes(secret_word(nanos, 0)) + spec_u64_to_le_bytes(secret_word(nanos, 1))
        + spec_u64_to_le_bytes(secret_word(nanos, 2)) + spec_u64_to_le_bytes(secret_word(nanos, 3))
}

/// Relies on std's `SystemTime::now`: nanoseconds since the Unix epoch, or
/// `None` for a clock set before it.
#[verifier::external_body]
fn clock_nanos() -> (r: Option<u128>) {
    std::time::SystemTime::now().duration_since(std::time::UNIX_EPOCH).ok().map(|d| d.as_nanos())
}

/// The secret derived from a clock reading in nanoseconds.
pub fn secret_from_nanos(nanos: u128) -> (r: Digest)
    ensures
        r@ == spec_secret(nanos),
{
    let base = nanos as u64;
    let mut out: Digest = [0u8; 32];
    put_word(&mut out, 0, base.wrapping_add(0));
    put_word(&mut out, 8, base.wrapping_add(1));
    put_word(&mut out, 16, base.wrapping_add(2));
    put_word(&mut out, 24, base.wrapping_add(3));
    assert(out@ =~= spec_secret(nanos));
    out
}

/// A secret derived from the current time (a clock before the Unix epoch
/// reads as zero). Not cryptographically secure.
pub fn generate_secret() -> (r: Digest)
    ensures
        exists|nanos: u128| r@ == spec_secret(nanos),
{
    let nanos = match clock_nanos() {
        Some(n) => n,
        None => 0,
    };
    secret_from_nanos(nanos)
}

} // verus!
