//! What holds of every Merkle tree.
use crate::digest::{collide, law_pair_digest_binds, sha256_digest};
use crate::tree::{
    lemma_leaf_range, lemma_level_len_bound, lemma_merkle_level_len, lemma_parent_range,
    level_count, level_len, merkle_level, merkle_root, parent_level, range_end, range_start,
    right_child, Node, Tree,
};
use vstd::arithmetic::power2::{lemma_pow2_pos, lemma_pow2_unfold, pow2};
use vstd::prelude::*;

verus! {

/// The tree over the level above the leaves is the tree over the leaves without
/// its lowest level.
proof fn lemma_level_shift(leaves: Seq<Node>, l: nat)
    ensures
        merkle_level(leaves, l + 1) == merkle_level(parent_level(leaves), l),
    decreases l,
{
    if l > 0 {
        lemma_level_shift(leaves, (l - 1) as nat);
    } else {
        assert(merkle_level(leaves, 0) == leaves);
    }
}

proof fn lemma_level_len_shift(n: nat, l: nat)
    ensures
        level_len(n, l + 1) == level_len((n + 1) / 2, l),
    decreases l,
{
    if l > 0 {
        lemma_level_len_shift(n, (l - 1) as nat);
    } else {
        assert(level_len(n, 0) == n);
    }
}

/// The last level holds exactly one node, the root; every level below it holds
/// more than one.
pub proof fn law_levels_narrow_to_the_root(n: nat, l: nat)
    requires
        l < level_count(n),
    ensures
        level_len(n, l) >= 1,
        level_len(n, l) == 1 <==> l + 1 == level_count(n),
    decreases l,
{
    if l > 0 {
        lemma_level_len_shift(n, (l - 1) as nat);
        law_levels_narrow_to_the_root((n + 1) / 2, (l - 1) as nat);
    } else if n > 1 {
        assert(level_count((n + 1) / 2) >= 1);
    }
}

/// The ranges of one level follow each other without gap or overlap, from leaf
/// 0 to the last leaf.
pub proof fn law_ranges_partition_the_leaves(n: nat, l: nat, i: int)
    requires
        0 <= i < level_len(n, l),
    ensures
        0 <= range_start(l, i) <= range_end(n, l, i) < n,
        range_start(l, 0) == 0,
        i + 1 < level_len(n, l) ==> range_end(n, l, i) + 1 == range_start(l, i + 1),
        i + 1 == level_len(n, l) ==> range_end(n, l, i) == n - 1,
{
    lemma_level_len_bound(n, l, i);
    lemma_level_len_bound(n, l, i + 1);
    lemma_pow2_pos(l);
    let h = pow2(l);
    assert((i + 1) * h == i * h + h) by (nonlinear_arith);
    assert(i * h >= 0) by (nonlinear_arith)
        requires
            i >= 0,
            h >= 0,
    ;
}

/// The node of level `l` below which leaf `j` stands: the parent of node `i` is
/// node `i / 2` of the level above.
pub open spec fn ancestor(j: int, l: nat) -> int
    decreases l,
{
    if l == 0 {
        j
    } else {
        ancestor(j, (l - 1) as nat) / 2
    }
}

proof fn lemma_ancestor_bounds(j: int, l: nat)
    requires
        0 <= j,
    ensures
        ancestor(j, l) * pow2(l) <= j < (ancestor(j, l) + 1) * pow2(l),
        0 <= ancestor(j, l),
    decreases l,
{
    if l == 0 {
        lemma_leaf_range(0, j);
        lemma_leaf_range(0, j + 1);
    } else {
        lemma_ancestor_bounds(j, (l - 1) as nat);
        lemma_pow2_unfold(l);
        let a = ancestor(j, (l - 1) as nat);
        let b = a / 2;
        let h = pow2((l - 1) as nat);
        assert(b * (2 * h) <= a * h) by (nonlinear_arith)
            requires
                2 * b <= a,
                h >= 0,
        ;
        assert((a + 1) * h <= (b + 1) * (2 * h)) by (nonlinear_arith)
            requires
                a + 1 <= 2 * b + 2,
                h >= 0,
        ;
    }
}

/// A leaf is in the range of a node exactly when it stands below the node.
pub proof fn law_range_holds_the_leaves_below(n: nat, l: nat, i: int, j: int)
    requires
        0 <= i < level_len(n, l),
        0 <= j < n,
    ensures
        range_start(l, i) <= j <= range_end(n, l, i) <==> ancestor(j, l) == i,
{
    lemma_ancestor_bounds(j, l);
    let a = ancestor(j, l);
    let h = pow2(l);
    if a < i {
        assert((a + 1) * h <= i * h) by (nonlinear_arith)
            requires
                a + 1 <= i,
                h >= 0,
        ;
    } else if a > i {
        assert((i + 1) * h <= a * h) by (nonlinear_arith)
            requires
                i + 1 <= a,
                h >= 0,
        ;
    }
}

proof fn lemma_ancestor_of_parent(j: int, m: nat)
    requires
        m > 0,
    ensures
        ancestor(j, m) == ancestor(j / 2, (m - 1) as nat),
    decreases m,
{
    if m > 1 {
        lemma_ancestor_of_parent(j, (m - 1) as nat);
    } else {
        assert(ancestor(j, 0) == j);
        assert(ancestor(j / 2, 0) == j / 2);
    }
}

/// The range of a node holds the range of every node below it.
pub proof fn law_ranges_nest(n: nat, k: nat, j: int, m: nat)
    requires
        0 <= j < level_len(n, k),
    ensures
        0 <= ancestor(j, m) < level_len(n, k + m),
        range_start(k + m, ancestor(j, m)) <= range_start(k, j),
        range_end(n, k, j) <= range_end(n, k + m, ancestor(j, m)),
    decreases m,
{
    if m > 0 {
        let p = j / 2;
        assert(p < level_len(n, k + 1));
        lemma_parent_range(n, k + 1, p);
        lemma_ancestor_of_parent(j, m);
        law_ranges_nest(n, k + 1, p, (m - 1) as nat);
    }
}

/// The root's range is the range of all leaves.
pub proof fn law_root_covers_all_leaves(n: nat)
    requires
        n >= 1,
    ensures
        range_start((level_count(n) - 1) as nat, 0) == 0,
        range_end(n, (level_count(n) - 1) as nat, 0) == n - 1,
{
    let top = (level_count(n) - 1) as nat;
    law_levels_narrow_to_the_root(n, top);
    law_ranges_partition_the_leaves(n, top, 0);
}

/// The two lists agree on the leaves from `start` to `end`.
pub open spec fn agree_on(a: Seq<Node>, b: Seq<Node>, start: int, end: int) -> bool {
    forall|j: int| start <= j <= end ==> #[trigger] a[j] == b[j]
}

/// The trees over `n` and over `m` leaves both have a node `i` of level `l`, with
/// the same range.
pub open spec fn same_range(n: nat, m: nat, l: nat, i: int) -> bool {
    &&& 0 <= i < level_len(n, l)
    &&& i < level_len(m, l)
    &&& range_end(n, l, i) == range_end(m, l, i)
}

/// Nodes with the same range have the same children, with the same ranges.
proof fn lemma_same_range_below(n: nat, m: nat, l: nat, i: int)
    requires
        l > 0,
        same_range(n, m, l, i),
    ensures
        right_child(i, level_len(n, (l - 1) as nat)) == right_child(
            i,
            level_len(m, (l - 1) as nat),
        ),
        same_range(n, m, (l - 1) as nat, 2 * i),
        same_range(n, m, (l - 1) as nat, right_child(i, level_len(n, (l - 1) as nat))),
{
    let k = (l - 1) as nat;
    lemma_parent_range(n, l, i);
    lemma_parent_range(m, l, i);
    lemma_level_len_bound(n, k, 2 * i + 1);
    lemma_level_len_bound(m, k, 2 * i + 1);
    law_ranges_partition_the_leaves(n, k, 2 * i);
    law_ranges_partition_the_leaves(m, k, 2 * i);
    law_ranges_partition_the_leaves(n, k, right_child(i, level_len(n, k)));
    law_ranges_partition_the_leaves(m, k, right_child(i, level_len(m, k)));
}

/// Only the leaves in a node's range contribute to its digest: changing others,
/// or their number, leaves it as it is.
pub proof fn law_digest_depends_on_range_only(a: Seq<Node>, b: Seq<Node>, l: nat, i: int)
    requires
        same_range(a.len(), b.len(), l, i),
        agree_on(a, b, range_start(l, i), range_end(a.len(), l, i)),
    ensures
        merkle_level(a, l)[i] == merkle_level(b, l)[i],
    decreases l,
{
    let n = a.len();
    if l == 0 {
        lemma_leaf_range(n, i);
        assert(a[i] == b[i]);
    } else {
        let k = (l - 1) as nat;
        let r = right_child(i, level_len(n, k));
        lemma_parent_range(n, l, i);
        lemma_same_range_below(n, b.len(), l, i);
        lemma_merkle_level_len(a, k);
        lemma_merkle_level_len(b, k);
        lemma_merkle_level_len(a, l);
        lemma_merkle_level_len(b, l);
        law_digest_depends_on_range_only(a, b, k, 2 * i);
        law_digest_depends_on_range_only(a, b, k, r);
    }
}

/// What is hashed for node `i` of level `l`, above the leaves: the digests of
/// its two children.
pub open spec fn node_message(leaves: Seq<Node>, l: nat, i: int) -> Seq<u8> {
    let below = merkle_level(leaves, (l - 1) as nat);
    below[2 * i].hash@ + below[right_child(i, below.len())].hash@
}

/// In the trees over two lists of leaves, what is hashed for node `i` of level `l`
/// is a collision of SHA-256.
pub open spec fn nodes_collide(a: Seq<Node>, b: Seq<Node>, l: nat, i: int) -> bool {
    &&& l > 0
    &&& 0 <= i < level_len(a.len(), l)
    &&& i < level_len(b.len(), l)
    &&& collide(node_message(a, l, i), node_message(b, l, i))
}

/// Every leaf in a node's range contributes to its digest: changing one of them
/// changes the digest, unless what is hashed for some node on the way is a
/// collision of SHA-256.
pub proof fn law_digest_binds_range(a: Seq<Node>, b: Seq<Node>, l: nat, i: int)
    requires
        same_range(a.len(), b.len(), l, i),
        merkle_level(a, l)[i] == merkle_level(b, l)[i],
    ensures
        agree_on(a, b, range_start(l, i), range_end(a.len(), l, i)) || exists|k: nat, j: int|
            k <= l && #[trigger] nodes_collide(a, b, k, j),
    decreases l,
{
    let n = a.len();
    if l == 0 {
        lemma_leaf_range(n, i);
    } else {
        let k = (l - 1) as nat;
        let r = right_child(i, level_len(n, k));
        lemma_parent_range(n, l, i);
        lemma_same_range_below(n, b.len(), l, i);
        lemma_merkle_level_len(a, k);
        lemma_merkle_level_len(b, k);
        lemma_merkle_level_len(a, l);
        lemma_merkle_level_len(b, l);
        let ak = merkle_level(a, k);
        let bk = merkle_level(b, k);
        law_pair_digest_binds(ak[2 * i].hash, ak[r].hash, bk[2 * i].hash, bk[r].hash);
        if !nodes_collide(a, b, l, i) {
            law_digest_binds_range(a, b, k, 2 * i);
            law_digest_binds_range(a, b, k, r);
        }
    }
}

/// Two lists of equally many leaves with the same root are the same list,
/// unless what is hashed for some node of the two trees is a collision of
/// SHA-256.
pub proof fn law_root_binds_leaves(a: Seq<Node>, b: Seq<Node>)
    requires
        a.len() == b.len(),
        a.len() >= 1,
        merkle_root(a) == merkle_root(b),
    ensures
        a == b || exists|l: nat, i: int|
            l < level_count(a.len()) && #[trigger] nodes_collide(a, b, l, i),
{
    let n = a.len();
    let top = (level_count(n) - 1) as nat;
    law_levels_narrow_to_the_root(n, top);
    law_root_covers_all_leaves(n);
    assert(merkle_level(a, top)[0] == merkle_level(b, top)[0]);
    law_digest_binds_range(a, b, top, 0);
    if agree_on(a, b, 0, n - 1) {
        assert(a =~= b);
    }
}

/// The root does not bind the number of leaves: repeating the last of an odd
/// number of leaves, three or more, gives equally many levels, the same ones
/// above the leaves, and so the same root.
pub proof fn law_odd_tail_counts_twice(leaves: Seq<Node>)
    requires
        leaves.len() >= 3,
        leaves.len() % 2 == 1,
    ensures
        level_count(leaves.len() + 1) == level_count(leaves.len()),
        forall|l: nat|
            1 <= l < level_count(leaves.len()) ==> #[trigger] merkle_level(
                leaves.push(leaves.last()),
                l,
            ) == merkle_level(leaves, l),
        merkle_root(leaves.push(leaves.last())) == merkle_root(leaves),
{
    let n = leaves.len();
    let longer = leaves.push(leaves.last());
    assert(parent_level(longer) =~= parent_level(leaves));
    assert(level_count(n + 1) == level_count(n));
    assert forall|l: nat| 1 <= l < level_count(n) implies #[trigger] merkle_level(longer, l)
        == merkle_level(leaves, l) by {
        lemma_level_shift(leaves, (l - 1) as nat);
        lemma_level_shift(longer, (l - 1) as nat);
    }
    let top = (level_count(n) - 1) as nat;
    assert(level_count((n + 1) / 2) >= 1);
    assert(merkle_level(longer, top) == merkle_level(leaves, top));
}

/// A tree over leaves starts with the leaves and ends with a single node; each
/// level below has several nodes, and the next one half as many, rounded up. Every
/// node has a range. Without leaves there is no level.
pub proof fn law_levels_lead_from_the_leaves_to_one_node(tree: Tree, leaves: Seq<Node>)
    requires
        tree.is_tree_of(leaves),
    ensures
        tree.levels@.len() == 0 <==> leaves.len() == 0,
        leaves.len() > 0 ==> tree.levels@[0]@ == leaves,
        leaves.len() > 0 ==> tree.levels@[tree.levels@.len() - 1]@.len() == 1,
        forall|l: int|
            0 <= l < tree.levels@.len() - 1 ==> (#[trigger] tree.levels@[l])@.len() > 1
                && tree.levels@[l + 1]@.len() == (tree.levels@[l]@.len() + 1) / 2,
        tree.leaf_ranges@.len() == tree.levels@.len(),
        forall|l: int|
            0 <= l < tree.levels@.len() ==> (#[trigger] tree.leaf_ranges@[l])@.len()
                == tree.levels@[l]@.len(),
{
    let n = leaves.len();
    assert forall|l: int| 0 <= l < tree.levels@.len() implies (
    #[trigger] tree.levels@[l])@.len() == level_len(n, l as nat) && (l < tree.levels@.len() - 1
        ==> level_len(n, l as nat) > 1) && (l == tree.levels@.len() - 1 ==> level_len(n, l as nat)
        == 1) by {
        lemma_merkle_level_len(leaves, l as nat);
        law_levels_narrow_to_the_root(n, l as nat);
    }
    assert forall|l: int| 0 <= l < tree.levels@.len() - 1 implies (
    #[trigger] tree.levels@[l])@.len() > 1 && tree.levels@[l + 1]@.len() == (
    tree.levels@[l]@.len() + 1) / 2 by {
        assert(tree.levels@[l + 1]@.len() == level_len(n, (l + 1) as nat));
    }
    assert forall|l: int| 0 <= l < tree.levels@.len() implies (
    #[trigger] tree.leaf_ranges@[l])@.len() == tree.levels@[l]@.len() by {
        assert(tree.levels@[l]@.len() == level_len(n, l as nat));
    }
    if n > 0 {
        assert(tree.levels@[0]@ == merkle_level(leaves, 0));
        let top = tree.levels@.len() - 1;
        assert(tree.levels@[top]@.len() == level_len(n, top as nat));
    }
}

/// In a tree over leaves the digest of a node is SHA-256 of the digest of its left
/// child followed by that of its right child, on every level and at every index;
/// the last node of an odd level is both children of its parent.
pub proof fn law_parents_hash_their_children(tree: Tree, leaves: Seq<Node>, l: int, i: int)
    requires
        tree.is_tree_of(leaves),
        0 <= l < tree.levels@.len() - 1,
        0 <= i < tree.levels@[l + 1]@.len(),
    ensures
        2 * i < tree.levels@[l]@.len(),
        tree.levels@[l + 1]@[i].hash == sha256_digest(
            tree.levels@[l]@[2 * i].hash@ + tree.levels@[l]@[if 2 * i + 1 < tree.levels@[l]@.len() {
                2 * i + 1
            } else {
                2 * i
            }].hash@,
        ),
{
    assert(tree.levels@[l + 1]@ == merkle_level(leaves, (l + 1) as nat));
    assert(tree.levels@[l]@ == merkle_level(leaves, l as nat));
}

/// In a tree over leaves the range of a leaf is the leaf alone; that of another
/// node starts where the range of its left child starts and ends where that of
/// its right child ends.
pub proof fn law_ranges_join_those_of_the_children(tree: Tree, leaves: Seq<Node>, l: int, i: int)
    requires
        tree.is_tree_of(leaves),
        0 <= l < tree.levels@.len(),
        0 <= i < tree.levels@[l]@.len(),
    ensures
        l == 0 ==> tree.leaf_ranges@[l]@[i] == (i as usize, i as usize),
        l > 0 ==> ({
            let below = tree.leaf_ranges@[l - 1]@;
            &&& 2 * i < below.len()
            &&& tree.leaf_ranges@[l]@[i].0 == below[2 * i].0
            &&& tree.leaf_ranges@[l]@[i].1 == below[if 2 * i + 1 < below.len() {
                2 * i + 1
            } else {
                2 * i
            }].1
        }),
{
    let n = leaves.len();
    law_levels_lead_from_the_leaves_to_one_node(tree, leaves);
    lemma_merkle_level_len(leaves, l as nat);
    let ranges = tree.leaf_ranges@[l]@;
    assert(ranges[i].0 == range_start(l as nat, i) && ranges[i].1 == range_end(n, l as nat, i));
    if l == 0 {
        assert(tree.levels@[0]@ == leaves);
        assert(leaves.len() == tree.levels@[0].len());
        lemma_leaf_range(n, i);
    } else {
        let below = tree.leaf_ranges@[l - 1]@;
        let r = right_child(i, level_len(n, (l - 1) as nat));
        lemma_parent_range(n, l as nat, i);
        assert(below.len() == level_len(n, (l - 1) as nat));
        assert(below[2 * i].0 == range_start((l - 1) as nat, 2 * i));
        assert(below[r].1 == range_end(n, (l - 1) as nat, r));
    }
}

/// In a tree over leaves, leaf `j` is in the range of node `i` of level `l`
/// exactly when `j / 2^l` is `i`.
pub proof fn law_range_of_a_node_in_powers_of_two(
    tree: Tree,
    leaves: Seq<Node>,
    l: int,
    i: int,
    j: int,
)
    requires
        tree.is_tree_of(leaves),
        0 <= l < tree.levels@.len(),
        0 <= i < tree.levels@[l]@.len(),
        0 <= j < leaves.len(),
    ensures
        tree.leaf_ranges@[l]@[i].0 <= j <= tree.leaf_ranges@[l]@[i].1 <==> j / (pow2(
            l as nat,
        ) as int) == i,
{
    let n = leaves.len();
    let h = pow2(l as nat) as int;
    law_levels_lead_from_the_leaves_to_one_node(tree, leaves);
    lemma_merkle_level_len(leaves, l as nat);
    lemma_pow2_pos(l as nat);
    let ranges = tree.leaf_ranges@[l]@;
    assert(ranges[i].0 == range_start(l as nat, i) && ranges[i].1 == range_end(n, l as nat, i));
    let q = j / h;
    assert(q * h <= j < (q + 1) * h) by (nonlinear_arith)
        requires
            h > 0,
            q == j / h,
    ;
    if q < i {
        assert((q + 1) * h <= i * h) by (nonlinear_arith)
            requires
                q + 1 <= i,
                h > 0,
        ;
    } else if q > i {
        assert((i + 1) * h <= q * h) by (nonlinear_arith)
            requires
                i + 1 <= q,
                h > 0,
        ;
    }
}

} // verus!
