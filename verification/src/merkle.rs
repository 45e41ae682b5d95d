//! The incremental Merkle tree of commitments.
//!
//! The tree has depth `TREE_DEPTH`; leaf `j` holds the `j`-th inserted
//! commitment, and every leaf that was never written holds 32 zero bytes.
//! An inner node is the SHA-256 digest of its left child followed by its right
//! child. The executable tree keeps only the right-most filled subtree of each
//! level, in the style of an append-only accumulator.
use vstd::prelude::*;
use vstd::arithmetic::power2::{pow2, lemma2_to64, lemma_pow2_unfold, lemma_pow2_pos};
use vstd::arithmetic::div_mod::{lemma_div_denominator, lemma_basic_div};

use crate::bytes::{append_bytes, hash_views};
use crate::error::ZkStashError;
use crate::host::{sha256, sha256_digest};

verus! {

/// Depth of the commitment tree.
pub const TREE_DEPTH: u32 = 20;

/// Number of leaves of the tree, `2^TREE_DEPTH`.
pub const MAX_LEAVES: u32 = 1048576;

/// The 32 zero bytes that an empty leaf holds.
pub open spec fn zero_leaf() -> Seq<u8> {
    Seq::new(32, |i: int| 0u8)
}

/// The digest of a left and a right child.
pub open spec fn hash_pair(left: Seq<u8>, right: Seq<u8>) -> Seq<u8> {
    sha256_digest(left + right)
}

/// The root of an empty subtree of height `level`.
pub open spec fn zero_value(level: nat) -> Seq<u8>
    decreases level,
{
    if level == 0 {
        zero_leaf()
    } else {
        let below = zero_value((level - 1) as nat);
        hash_pair(below, below)
    }
}

/// Leaf `j` of a tree whose first leaves are `leaves` and the rest empty.
pub open spec fn leaf_at(leaves: Seq<Seq<u8>>, j: nat) -> Seq<u8> {
    if j < leaves.len() {
        leaves[j as int]
    } else {
        zero_leaf()
    }
}

/// Node `k` (counted from the left) at height `level` of the tree over `leaves`.
pub open spec fn node(leaves: Seq<Seq<u8>>, level: nat, k: nat) -> Seq<u8>
    decreases level,
{
    if level == 0 {
        leaf_at(leaves, k)
    } else {
        hash_pair(
            node(leaves, (level - 1) as nat, 2 * k),
            node(leaves, (level - 1) as nat, 2 * k + 1),
        )
    }
}

/// The root of the depth-`TREE_DEPTH` tree over `leaves`.
pub open spec fn merkle_root(leaves: Seq<Seq<u8>>) -> Seq<u8> {
    node(leaves, TREE_DEPTH as nat, 0)
}

/// The index, at height `level`, of the node above leaf `n`.
pub open spec fn level_index(n: nat, level: nat) -> nat
    decreases level,
{
    if level == 0 {
        n
    } else {
        level_index(n, (level - 1) as nat) / 2
    }
}

/// Whether the low `level` bits of `n` are all ones, so that adding one to `n`
/// carries into bit `level`.
pub open spec fn carries(n: nat, level: nat) -> bool
    decreases level,
{
    if level == 0 {
        true
    } else {
        carries(n, (level - 1) as nat) && level_index(n, (level - 1) as nat) % 2 == 1
    }
}

/// Appending a leaf at position `leaves.len()` leaves every node that is not
/// above that position unchanged.
pub proof fn lemma_node_push_frame(leaves: Seq<Seq<u8>>, x: Seq<u8>, level: nat, k: nat)
    requires
        k != level_index(leaves.len(), level),
    ensures
        node(leaves.push(x), level, k) == node(leaves, level, k),
    decreases level,
{
    if level > 0 {
        let l1 = (level - 1) as nat;
        lemma_node_push_frame(leaves, x, l1, 2 * k);
        lemma_node_push_frame(leaves, x, l1, 2 * k + 1);
    }
}

/// A node to the right of the node above leaf `m` covers only empty leaves
/// when no leaf lies beyond `m`.
pub proof fn lemma_node_beyond(leaves: Seq<Seq<u8>>, level: nat, k: nat, m: nat)
    requires
        leaves.len() <= m + 1,
        k > level_index(m, level),
    ensures
        node(leaves, level, k) == zero_value(level),
    decreases level,
{
    if level > 0 {
        let l1 = (level - 1) as nat;
        lemma_node_beyond(leaves, l1, 2 * k, m);
        lemma_node_beyond(leaves, l1, 2 * k + 1, m);
    }
}

/// Every node of the tree with no leaves is the empty subtree's root.
pub proof fn lemma_node_empty(level: nat, k: nat)
    ensures
        node(Seq::<Seq<u8>>::empty(), level, k) == zero_value(level),
    decreases level,
{
    if level > 0 {
        let l1 = (level - 1) as nat;
        lemma_node_empty(l1, 2 * k);
        lemma_node_empty(l1, 2 * k + 1);
    }
}

/// The node above leaf `n + 1` is the node above leaf `n`, or the next one
/// when adding one to `n` carries up to this height.
pub proof fn lemma_level_index_succ(n: nat, level: nat)
    ensures
        level_index(n + 1, level) == level_index(n, level) + (if carries(n, level) {
            1nat
        } else {
            0nat
        }),
    decreases level,
{
    if level > 0 {
        lemma_level_index_succ(n, (level - 1) as nat);
    }
}

/// The first leaf lies below the first node of every height.
pub proof fn lemma_level_index_zero(level: nat)
    ensures
        level_index(0, level) == 0,
    decreases level,
{
    if level > 0 {
        lemma_level_index_zero((level - 1) as nat);
    }
}

/// The node above leaf `n` at height `level` is `n / 2^level`.
pub proof fn lemma_level_index_div(n: nat, level: nat)
    ensures
        level_index(n, level) == n / pow2(level),
    decreases level,
{
    if level == 0 {
        lemma2_to64();
    } else {
        let l1 = (level - 1) as nat;
        lemma_level_index_div(n, l1);
        lemma_pow2_unfold(level);
        lemma_pow2_pos(l1);
        lemma_div_denominator(n as int, pow2(l1) as int, 2);
        assert(pow2(l1) * 2 == pow2(level)) by (nonlinear_arith)
            requires pow2(level) == 2 * pow2(l1);
    }
}

/// Every leaf position of the tree lies below its root.
pub proof fn lemma_level_index_top(n: nat)
    requires
        n < MAX_LEAVES,
    ensures
        level_index(n, TREE_DEPTH as nat) == 0,
{
    lemma_level_index_div(n, TREE_DEPTH as nat);
    lemma2_to64();
    lemma_basic_div(n as int, pow2(TREE_DEPTH as nat) as int);
}

/// The digest of `left` followed by `right`.
pub fn hash_left_right(env: &soroban_sdk::Env, left: &[u8; 32], right: &[u8; 32]) -> (digest: [u8; 32])
    ensures
        digest@ == hash_pair(left@, right@),
{
    let mut bytes: Vec<u8> = Vec::new();
    append_bytes(&mut bytes, left);
    append_bytes(&mut bytes, right);
    sha256(env, bytes.as_slice())
}

/// The root of an empty subtree of height `level`.
pub fn get_zero_value(env: &soroban_sdk::Env, level: u32) -> (value: [u8; 32])
    ensures
        value@ == zero_value(level as nat),
{
    let mut current = [0u8; 32];
    assert(current@ == zero_leaf());
    for i in 0..level
        invariant
            current@ == zero_value(i as nat),
    {
        current = hash_left_right(env, &current, &current);
    }
    current
}

/// The left child that the tree keeps at height `level`: the latest node of
/// that height that is a left child and covers an inserted leaf, or the empty
/// subtree's root while no leaf is inserted.
pub open spec fn frontier_node(leaves: Seq<Seq<u8>>, level: nat) -> Seq<u8> {
    if leaves.len() == 0 {
        zero_value(level)
    } else {
        node(leaves, level, 2 * level_index((leaves.len() - 1) as nat, level + 1))
    }
}

/// The left children kept at heights `0` to `TREE_DEPTH - 1`.
pub open spec fn frontier(leaves: Seq<Seq<u8>>) -> Seq<Seq<u8>> {
    Seq::new(TREE_DEPTH as nat, |level: int| frontier_node(leaves, level as nat))
}

/// What a tree holds: whether its storage was set up, the number of leaves,
/// the kept left child of each height, and the root, as they are stored;
/// and the commitments inserted so far, oldest first.
pub struct MerkleTreeView {
    pub initialized: bool,
    pub next_index: nat,
    pub filled_subtrees: Seq<Seq<u8>>,
    pub root: Seq<u8>,
    pub leaves: Seq<Seq<u8>>,
}

/// The stored tree after `leaves` were inserted into a set-up tree.
pub open spec fn tree_after(leaves: Seq<Seq<u8>>) -> MerkleTreeView {
    MerkleTreeView {
        initialized: true,
        next_index: leaves.len(),
        filled_subtrees: frontier(leaves),
        root: merkle_root(leaves),
        leaves,
    }
}

/// The stored parts agree with the leaves: a set-up tree stores exactly what
/// inserting its leaves produces, a tree never set up has no leaves, and the
/// leaves fit in the tree.
pub open spec fn stored_state_agrees(t: MerkleTreeView) -> bool {
    &&& t.leaves.len() <= MAX_LEAVES
    &&& t.initialized ==> t == tree_after(t.leaves)
    &&& !t.initialized ==> t.leaves.len() == 0 && t.next_index == 0
}

/// Whether some leaves, no more than the tree holds, make a set-up tree store
/// exactly `next_index`, `filled_subtrees` and `root`.
pub open spec fn stored_parts_reachable(next_index: nat, filled_subtrees: Seq<Seq<u8>>, root: Seq<u8>) -> bool {
    exists|leaves: Seq<Seq<u8>>|
        leaves.len() <= MAX_LEAVES && #[trigger] tree_after(leaves) == MerkleTreeView {
            initialized: true,
            next_index,
            filled_subtrees,
            root,
            leaves,
        }
}

/// The incremental Merkle tree, as the vault keeps it: the number of leaves,
/// the latest left child of each height, and the current root.
pub struct MerkleTree {
    initialized: bool,
    next_index: u32,
    filled_subtrees: Vec<[u8; 32]>,
    root: [u8; 32],
    leaves: Ghost<Seq<Seq<u8>>>,
}

impl View for MerkleTree {
    type V = MerkleTreeView;

    closed spec fn view(&self) -> MerkleTreeView {
        MerkleTreeView {
            initialized: self.initialized,
            next_index: self.next_index as nat,
            filled_subtrees: hash_views(self.filled_subtrees@),
            root: self.root@,
            leaves: self.leaves@,
        }
    }
}

impl MerkleTree {
    /// The stored parts describe the inserted leaves.
    pub open spec fn wf(&self) -> bool {
        stored_state_agrees(self@)
    }

    /// A tree whose storage was never written.
    pub fn new() -> (tree: MerkleTree)
        ensures
            tree.wf(),
            tree@ == (MerkleTreeView {
                initialized: false,
                next_index: 0,
                filled_subtrees: Seq::empty(),
                root: zero_leaf(),
                leaves: Seq::empty(),
            }),
    {
        let tree = MerkleTree {
            initialized: false,
            next_index: 0,
            filled_subtrees: Vec::new(),
            root: [0u8; 32],
            leaves: Ghost(Seq::empty()),
        };
        assert(tree@.filled_subtrees =~= Seq::empty());
        assert(tree@.root =~= zero_leaf());
        tree
    }

    /// A set-up tree resumed from its stored parts: the number of leaves, the
    /// latest left child of each height and the root. There is none when the
    /// count exceeds `MAX_LEAVES` or there are not `TREE_DEPTH` left children.
    /// Whether the parts are what inserting some leaves stores cannot be
    /// checked; when they are, the tree is well formed and its leaves are such
    /// leaves.
    pub fn from_stored(next_index: u32, filled_subtrees: Vec<[u8; 32]>, root: [u8; 32]) -> (tree: Option<MerkleTree>)
        ensures
            tree is Some <==> next_index <= MAX_LEAVES && filled_subtrees@.len() == TREE_DEPTH,
            tree matches Some(t) ==> {
                &&& t@.initialized
                &&& t@.next_index == next_index
                &&& t@.filled_subtrees == hash_views(filled_subtrees@)
                &&& t@.root == root@
                &&& stored_parts_reachable(next_index as nat, hash_views(filled_subtrees@), root@) ==> t.wf()
            },
    {
        if next_index > MAX_LEAVES || filled_subtrees.len() != TREE_DEPTH as usize {
            return None;
        }
        let ghost leaves = choose|leaves: Seq<Seq<u8>>|
            leaves.len() <= MAX_LEAVES && #[trigger] tree_after(leaves) == MerkleTreeView {
                initialized: true,
                next_index: next_index as nat,
                filled_subtrees: hash_views(filled_subtrees@),
                root: root@,
                leaves,
            };
        Some(MerkleTree { initialized: true, next_index, filled_subtrees, root, leaves: Ghost(leaves) })
    }

    /// Sets up the storage of a tree that has none: no leaves, the empty
    /// subtree's root at each height, and the empty tree's root. A tree already
    /// set up is left exactly as it is.
    pub fn init(&mut self, env: &soroban_sdk::Env)
        requires
            old(self).wf(),
        ensures
            final(self).wf(),
            old(self)@.initialized ==> *final(self) == *old(self),
            !old(self)@.initialized ==> final(self)@ == tree_after(Seq::empty()),
            !old(self)@.initialized ==> final(self)@.filled_subtrees == Seq::new(
                TREE_DEPTH as nat,
                |level: int| zero_value(level as nat),
            ),
            !old(self)@.initialized ==> final(self)@.root == zero_value(TREE_DEPTH as nat),
    {
        if !self.initialized {
            let mut filled: Vec<[u8; 32]> = Vec::new();
            for i in 0..TREE_DEPTH
                invariant
                    !self.initialized,
                    self.leaves@.len() == 0,
                    filled@.len() == i,
                    forall|j: int| 0 <= j < i ==> #[trigger] filled@[j]@ == zero_value(j as nat),
            {
                filled.push(get_zero_value(env, i));
            }
            let initial_root = get_zero_value(env, TREE_DEPTH);
            proof {
                lemma_node_empty(TREE_DEPTH as nat, 0);
                assert(self.leaves@ =~= Seq::<Seq<u8>>::empty());
                assert(hash_views(filled@) =~= frontier(Seq::<Seq<u8>>::empty()));
                assert(frontier(Seq::<Seq<u8>>::empty()) =~= Seq::new(
                    TREE_DEPTH as nat,
                    |level: int| zero_value(level as nat),
                ));
            }
            self.filled_subtrees = filled;
            self.root = initial_root;
            self.next_index = 0;
            self.initialized = true;
        }
    }

    /// Whether the tree's storage was set up.
    pub fn is_initialized(&self) -> (initialized: bool)
        ensures
            initialized == self@.initialized,
    {
        self.initialized
    }

    /// The stored left children, one per height.
    pub fn filled_subtrees(&self) -> (filled: &Vec<[u8; 32]>)
        ensures
            hash_views(filled@) == self@.filled_subtrees,
    {
        &self.filled_subtrees
    }

    /// The stored root.
    pub fn stored_root(&self) -> (root: [u8; 32])
        ensures
            root@ == self@.root,
    {
        self.root
    }

    /// The root of the tree over the leaves inserted so far.
    pub fn get_current_root(&self, env: &soroban_sdk::Env) -> (root: [u8; 32])
        requires
            self.wf(),
        ensures
            root@ == merkle_root(self@.leaves),
    {
        if self.initialized {
            self.root
        } else {
            proof {
                lemma_node_empty(TREE_DEPTH as nat, 0);
                assert(self.leaves@ =~= Seq::<Seq<u8>>::empty());
            }
            get_zero_value(env, TREE_DEPTH)
        }
    }

    /// The number of leaves inserted so far.
    pub fn get_next_index(&self) -> (count: u32)
        requires
            self.wf(),
        ensures
            count == self@.leaves.len(),
            count == self@.next_index,
    {
        self.next_index
    }

    /// Appends `leaf` to the tree and returns the new root, which is also
    /// stored, along with the new count and the latest left child of each
    /// height; refuses, changing nothing, when all `MAX_LEAVES` leaves are
    /// taken.
    pub fn insert(&mut self, env: &soroban_sdk::Env, leaf: [u8; 32]) -> (result: Result<[u8; 32], ZkStashError>)
        requires
            old(self).wf(),
        ensures
            final(self).wf(),
            old(self)@.leaves.len() < MAX_LEAVES ==> {
                &&& result matches Ok(root)
                &&& final(self)@ == tree_after(old(self)@.leaves.push(leaf@))
                &&& root@ == final(self)@.root
            },
            old(self)@.leaves.len() >= MAX_LEAVES ==> {
                &&& result == Err::<[u8; 32], ZkStashError>(ZkStashError::MerkleTreeFull)
                &&& *final(self) == *old(self)
            },
    {
        self.init(env);
        assert(self@.leaves =~= old(self)@.leaves);
        let next_index = self.next_index;
        if next_index >= MAX_LEAVES {
            return Err(ZkStashError::MerkleTreeFull);
        }
        let ghost n = next_index as nat;
        let ghost old_leaves = self.leaves@;
        let ghost new_leaves = old_leaves.push(leaf@);
        let ghost old_filled = self.filled_subtrees@;
        proof {
            assert(hash_views(old_filled) == frontier(old_leaves));
            assert(hash_views(old_filled).len() == old_filled.len());
            assert(frontier(old_leaves).len() == TREE_DEPTH);
            assert(old_filled.len() == TREE_DEPTH);
            assert forall|j: int| 0 <= j < TREE_DEPTH implies #[trigger] old_filled[j]@ == frontier_node(
                old_leaves,
                j as nat,
            ) by {
                assert(hash_views(old_filled)[j] == frontier(old_leaves)[j]);
            }
        }
        let mut current_level_hash = leaf;
        let mut index = next_index;
        let mut i: u32 = 0;
        while i < TREE_DEPTH
            invariant
                self.initialized,
                self.leaves@ == old_leaves,
                self.next_index == next_index,
                n == next_index,
                n < MAX_LEAVES,
                old_leaves.len() == n,
                new_leaves == old_leaves.push(leaf@),
                old_filled.len() == TREE_DEPTH,
                self.filled_subtrees@.len() == TREE_DEPTH,
                0 <= i <= TREE_DEPTH,
                index as nat == level_index(n, i as nat),
                current_level_hash@ == node(new_leaves, i as nat, index as nat),
                forall|j: int| i <= j < TREE_DEPTH ==> self.filled_subtrees@[j] == old_filled[j],
                forall|j: int| 0 <= j < TREE_DEPTH ==> #[trigger] old_filled[j]@ == frontier_node(old_leaves, j as nat),
                forall|j: int| 0 <= j < i ==> #[trigger] self.filled_subtrees@[j]@ == frontier_node(new_leaves, j as nat),
            decreases TREE_DEPTH - i,
        {
            let ghost level = i as nat;
            assert(level_index(n, level + 1) == level_index(n, level) / 2);
            if index % 2 == 1 {
                let left = self.filled_subtrees[i as usize];
                proof {
                    if n == 0 {
                        lemma_level_index_zero(level);
                    }
                    lemma_level_index_succ((n - 1) as nat, level);
                    assert(level_index((n - 1) as nat, level + 1) == level_index((n - 1) as nat, level) / 2);
                    assert(left@ == old_filled[i as int]@);
                    lemma_node_push_frame(old_leaves, leaf@, level, (index - 1) as nat);
                }
                current_level_hash = hash_left_right(env, &left, &current_level_hash);
            } else {
                self.filled_subtrees.set(i as usize, current_level_hash);
                let zero = get_zero_value(env, i);
                proof {
                    lemma_node_beyond(new_leaves, level, (index + 1) as nat, n);
                }
                current_level_hash = hash_left_right(env, &current_level_hash, &zero);
            }
            index = index / 2;
            i = i + 1;
        }
        proof {
            lemma_level_index_top(n);
            assert(hash_views(self.filled_subtrees@) =~= frontier(new_leaves));
        }
        self.next_index = next_index + 1;
        self.root = current_level_hash;
        self.leaves = Ghost(new_leaves);
        Ok(current_level_hash)
    }
}

} // verus!
