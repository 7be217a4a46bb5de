//! Merkle trees: levels of digests from the leaves up to the root, and for
//! each node the range of leaves that it stands for.
use crate::digest::{hash_pair, pair_digest};
use vstd::arithmetic::power2::{lemma2_to64, lemma_pow2_pos, lemma_pow2_unfold, pow2};
use vstd::prelude::*;

verus! {

/// A node of a Merkle tree.
#[derive(Clone, Debug)]
pub struct Node {
    /// The node's digest.
    pub hash: [u8; 32],
}

/// A Merkle tree with all of its levels.
#[derive(Clone, Debug)]
pub struct Tree {
    /// `levels[0]` holds the leaves, the last level only the root.
    pub levels: Vec<Vec<Node>>,
    /// `leaf_ranges[level][idx]` is the inclusive range `[start, end]` of the
    /// leaf indices that contribute to the node.
    pub leaf_ranges: Vec<Vec<(usize, usize)>>,
}

/// The index of the right child of parent `p` over `len` children: the last
/// child of an odd number is its own right sibling.
pub open spec fn right_child(p: int, len: nat) -> int {
    if 2 * p + 1 < len {
        2 * p + 1
    } else {
        2 * p
    }
}

/// The level above `level`.
pub open spec fn parent_level(level: Seq<Node>) -> Seq<Node> {
    Seq::new(
        (level.len() + 1) / 2,
        |p: int|
            Node {
                hash: pair_digest(level[2 * p].hash, level[right_child(p, level.len())].hash),
            },
    )
}

/// Level `l` of the tree over `leaves`.
pub open spec fn merkle_level(leaves: Seq<Node>, l: nat) -> Seq<Node>
    decreases l,
{
    if l == 0 {
        leaves
    } else {
        parent_level(merkle_level(leaves, (l - 1) as nat))
    }
}

/// The number of nodes on level `l` of a tree over `n` leaves.
pub open spec fn level_len(n: nat, l: nat) -> nat
    decreases l,
{
    if l == 0 {
        n
    } else {
        (level_len(n, (l - 1) as nat) + 1) / 2
    }
}

/// The number of levels of a tree whose lowest level has `n` nodes.
pub open spec fn level_count(n: nat) -> nat
    decreases n,
{
    if n <= 1 {
        n
    } else {
        1 + level_count((n + 1) / 2)
    }
}

/// The root of the tree over at least one leaf.
pub open spec fn merkle_root(leaves: Seq<Node>) -> [u8; 32] {
    merkle_level(leaves, (level_count(leaves.len()) - 1) as nat)[0].hash
}

/// The first leaf below node `i` of level `l`.
pub open spec fn range_start(l: nat, i: int) -> int {
    i * pow2(l)
}

/// The last leaf below node `i` of level `l` in a tree over `n` leaves.
pub open spec fn range_end(n: nat, l: nat, i: int) -> int {
    if (i + 1) * pow2(l) <= n {
        (i + 1) * pow2(l) - 1
    } else {
        n - 1
    }
}

/// `ranges` holds the leaf ranges of level `l` of a tree over `n` leaves.
pub open spec fn ranges_of_level(ranges: Seq<(usize, usize)>, n: nat, l: nat) -> bool {
    &&& ranges.len() == level_len(n, l)
    &&& forall|i: int|
        0 <= i < ranges.len() ==> (#[trigger] ranges[i]).0 == range_start(l, i) && ranges[i].1
            == range_end(n, l, i)
}

impl Tree {
    /// This is the tree over `leaves`.
    pub open spec fn is_tree_of(&self, leaves: Seq<Node>) -> bool {
        &&& self.levels@.len() == level_count(leaves.len())
        &&& self.leaf_ranges@.len() == self.levels@.len()
        &&& forall|l: int|
            0 <= l < self.levels@.len() ==> (#[trigger] self.levels@[l])@ == merkle_level(
                leaves,
                l as nat,
            )
        &&& forall|l: int|
            0 <= l < self.leaf_ranges@.len() ==> ranges_of_level(
                (#[trigger] self.leaf_ranges@[l])@,
                leaves.len(),
                l as nat,
            )
    }
}

/// Level `l` has `level_len` nodes.
pub proof fn lemma_merkle_level_len(leaves: Seq<Node>, l: nat)
    ensures
        merkle_level(leaves, l).len() == level_len(leaves.len(), l),
    decreases l,
{
    if l > 0 {
        lemma_merkle_level_len(leaves, (l - 1) as nat);
    }
}

/// The range of a leaf is the leaf itself.
pub proof fn lemma_leaf_range(n: nat, i: int)
    ensures
        range_start(0, i) == i,
        0 <= i < n ==> range_end(n, 0, i) == i,
{
    lemma2_to64();
    let one = pow2(0);
    assert(i * one == i && (i + 1) * one == i + 1) by (nonlinear_arith)
        requires
            one == 1,
    ;
}

/// A level has a node `i` exactly when leaf `i * 2^l` exists.
pub proof fn lemma_level_len_bound(n: nat, l: nat, i: int)
    requires
        0 <= i,
    ensures
        i < level_len(n, l) <==> range_start(l, i) < n,
    decreases l,
{
    if l == 0 {
        lemma_leaf_range(n, i);
    } else {
        lemma_pow2_unfold(l);
        lemma_level_len_bound(n, (l - 1) as nat, 2 * i);
        let h = pow2((l - 1) as nat);
        assert(i * (2 * h) == (2 * i) * h) by (nonlinear_arith);
    }
}

/// The range of a parent starts where the range of its left child starts and
/// ends where the range of its right child ends, with no gap between the two.
pub proof fn lemma_parent_range(n: nat, l: nat, p: int)
    requires
        l > 0,
        0 <= p < level_len(n, l),
    ensures
        range_start((l - 1) as nat, 2 * p) == range_start(l, p),
        range_end(n, (l - 1) as nat, right_child(p, level_len(n, (l - 1) as nat))) == range_end(
            n,
            l,
            p,
        ),
        range_start(l, p) <= range_start(
            (l - 1) as nat,
            right_child(p, level_len(n, (l - 1) as nat)),
        ),
        range_end(n, (l - 1) as nat, 2 * p) <= range_end(n, l, p),
        range_start((l - 1) as nat, right_child(p, level_len(n, (l - 1) as nat))) <= range_end(
            n,
            (l - 1) as nat,
            2 * p,
        ) + 1,
{
    let k = (l - 1) as nat;
    let h = pow2(k);
    lemma_pow2_unfold(l);
    lemma_pow2_pos(k);
    lemma_level_len_bound(n, k, 2 * p);
    lemma_level_len_bound(n, k, 2 * p + 1);
    assert(p * (2 * h) == (2 * p) * h) by (nonlinear_arith);
    assert((p + 1) * (2 * h) == (2 * p + 2) * h) by (nonlinear_arith);
    assert((2 * p + 2) * h == (2 * p + 1) * h + h) by (nonlinear_arith);
    assert((2 * p + 1) * h == (2 * p) * h + h) by (nonlinear_arith);
    assert((2 * p + 1 + 1) * h == (2 * p + 2) * h);
}

/// Builds the level above `prev`.
fn build_parent_level(prev: &Vec<Node>) -> (next: Vec<Node>)
    ensures
        next@ == parent_level(prev@),
{
    let child_count: usize = prev.len();
    let parent_count: usize = child_count / 2 + child_count % 2;
    let mut next: Vec<Node> = Vec::with_capacity(parent_count);
    let mut p: usize = 0;
    while p < parent_count
        invariant
            child_count == prev@.len(),
            parent_count == (child_count + 1) / 2,
            p <= parent_count,
            next@ == parent_level(prev@).take(p as int),
        decreases parent_count - p,
    {
        let left: usize = p * 2;
        let right = if left + 1 < child_count {
            left + 1
        } else {
            left
        };
        let node = Node { hash: hash_pair(&prev[left].hash, &prev[right].hash) };
        assert(node == parent_level(prev@)[p as int]);
        assert(parent_level(prev@).take(p + 1) =~= parent_level(prev@).take(p as int).push(node));
        next.push(node);
        p += 1;
    }
    assert(parent_level(prev@).take(p as int) =~= parent_level(prev@));
    next
}

/// The ranges of the leaves themselves.
fn build_leaf_ranges(leaf_count: usize) -> (ranges: Vec<(usize, usize)>)
    ensures
        ranges_of_level(ranges@, leaf_count as nat, 0),
{
    let mut ranges: Vec<(usize, usize)> = Vec::with_capacity(leaf_count);
    let mut i: usize = 0;
    while i < leaf_count
        invariant
            i <= leaf_count,
            ranges@.len() == i,
            forall|j: int| 0 <= j < i ==> ranges@[j] == (j as usize, j as usize),
        decreases leaf_count - i,
    {
        ranges.push((i, i));
        i += 1;
    }
    proof {
        assert forall|j: int| 0 <= j < leaf_count implies (#[trigger] ranges@[j]).0 == range_start(
            0,
            j,
        ) && ranges@[j].1 == range_end(leaf_count as nat, 0, j) by {
            lemma_leaf_range(leaf_count as nat, j);
        }
    }
    ranges
}

/// Builds the ranges of the level above the one with the ranges `prev`.
fn build_parent_ranges(
    prev: &Vec<(usize, usize)>,
    parent_count: usize,
    Ghost(n): Ghost<nat>,
    Ghost(l): Ghost<nat>,
) -> (ranges: Vec<(usize, usize)>)
    requires
        l > 0,
        ranges_of_level(prev@, n, (l - 1) as nat),
        parent_count == level_len(n, l),
    ensures
        ranges_of_level(ranges@, n, l),
{
    let child_count: usize = prev.len();
    let mut ranges: Vec<(usize, usize)> = Vec::with_capacity(parent_count);
    let mut p: usize = 0;
    while p < parent_count
        invariant
            l > 0,
            child_count == prev@.len(),
            ranges_of_level(prev@, n, (l - 1) as nat),
            parent_count == level_len(n, l),
            p <= parent_count,
            ranges@.len() == p,
            forall|i: int|
                0 <= i < p ==> (#[trigger] ranges@[i]).0 == range_start(l, i) && ranges@[i].1
                    == range_end(n, l, i),
        decreases parent_count - p,
    {
        let c_left: usize = p * 2;
        let c_right = if c_left + 1 < child_count {
            c_left + 1
        } else {
            c_left
        };
        let (l_start, l_end) = prev[c_left];
        let (r_start, r_end) = prev[c_right];
        proof {
            lemma_parent_range(n, l, p as int);
        }
        let start = if r_start < l_start {
            r_start
        } else {
            l_start
        };
        let end = if r_end > l_end {
            r_end
        } else {
            l_end
        };
        ranges.push((start, end));
        p += 1;
    }
    ranges
}

/// Builds the Merkle tree over `leaves`, from the leaves up to the root.
///
/// The digest of an inner node is SHA-256 of its left child's digest followed
/// by its right child's; the last node of a level with an odd number of nodes
/// counts as both children of its parent. There is no level without leaves.
pub fn build_tree_from_leaves(leaves: Vec<Node>) -> (tree: Tree)
    ensures
        tree.is_tree_of(leaves@),
{
    let ghost all = leaves@;
    let mut levels: Vec<Vec<Node>> = Vec::new();
    if leaves.len() == 0 {
        return Tree { levels, leaf_ranges: Vec::new() };
    }
    let leaf_count = leaves.len();
    levels.push(leaves);
    while levels[levels.len() - 1].len() > 1
        invariant
            levels@.len() >= 1,
            forall|l: int|
                0 <= l < levels@.len() ==> (#[trigger] levels@[l])@ == merkle_level(
                    all,
                    l as nat,
                ),
            levels@.last()@.len() >= 1,
            levels@.len() + level_count(levels@.last()@.len()) == level_count(all.len()) + 1,
        decreases levels@.last()@.len(),
    {
        let next = build_parent_level(&levels[levels.len() - 1]);
        levels.push(next);
    }
    let mut leaf_ranges: Vec<Vec<(usize, usize)>> = Vec::with_capacity(levels.len());
    leaf_ranges.push(build_leaf_ranges(leaf_count));
    while leaf_ranges.len() < levels.len()
        invariant
            1 <= leaf_ranges@.len() <= levels@.len(),
            forall|l: int|
                0 <= l < levels@.len() ==> (#[trigger] levels@[l])@ == merkle_level(
                    all,
                    l as nat,
                ),
            forall|l: int|
                0 <= l < leaf_ranges@.len() ==> ranges_of_level(
                    (#[trigger] leaf_ranges@[l])@,
                    all.len(),
                    l as nat,
                ),
        decreases levels@.len() - leaf_ranges@.len(),
    {
        let lvl = leaf_ranges.len();
        proof {
            lemma_merkle_level_len(all, lvl as nat);
        }
        let ranges = build_parent_ranges(
            &leaf_ranges[lvl - 1],
            levels[lvl].len(),
            Ghost(all.len()),
            Ghost(lvl as nat),
        );
        leaf_ranges.push(ranges);
    }
    Tree { levels, leaf_ranges }
}

} // verus!
