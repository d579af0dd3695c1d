//! Arithmetic on the flattened binary tree.
//!
//! A tree over `leaves` member slots, `leaves` a power of two, is stored in
//! an array of `2 * leaves - 1` nodes in left-to-right order: leaf `i` is node
//! `2 * i`, and the node above a block of `span` leaves sits in the middle of
//! the nodes of that block. A node is named here by its `span` (the number of
//! leaves below it), its `block` (how many such blocks lie to its left) and
//! the `width` of its level (how many blocks the level has); moving to the
//! parent doubles the span and halves the block and the width.

use vstd::prelude::*;

verus! {

/// The largest number of leaves a tree may have.
pub const MAX_LEAVES: u32 = 0x4000_0000;

/// Whether `n` is a power of two.
pub open spec fn is_pow2(n: nat) -> bool
    decreases n,
{
    n == 1 || (n >= 2 && n % 2 == 0 && is_pow2(n / 2))
}

/// The number of levels above the leaves in a tree of `leaves` leaves.
pub open spec fn depth(leaves: nat) -> nat
    decreases leaves,
{
    if leaves <= 1 {
        0
    } else {
        1 + depth(leaves / 2)
    }
}

/// The array index of the node above block `block` of `span` leaves.
pub open spec fn node_index(span: nat, block: nat) -> nat {
    (span * (2 * block + 1) - 1) as nat
}

/// The array index of leaf `leaf`.
pub open spec fn leaf_index(leaf: nat) -> nat {
    2 * leaf
}

/// The array index of the root of a tree of `leaves` leaves.
pub open spec fn root_index(leaves: nat) -> nat {
    (leaves - 1) as nat
}

/// The number of nodes of a tree of `leaves` leaves.
pub open spec fn node_count(leaves: nat) -> nat {
    (2 * leaves - 1) as nat
}

/// The nodes strictly above block `block` of `span` leaves, bottom up, where
/// the level of that block has `width` blocks.
pub open spec fn ancestors(span: nat, block: nat, width: nat) -> Seq<nat>
    decreases width,
{
    if width <= 1 {
        Seq::empty()
    } else {
        seq![node_index(2 * span, block / 2)] + ancestors(2 * span, block / 2, width / 2)
    }
}

/// The direct path of a leaf: its ancestors in order, ending with the root.
pub open spec fn spec_direct_path(leaf: nat, leaves: nat) -> Seq<nat> {
    ancestors(1, leaf, leaves)
}

/// The number of levels to climb from two leaves until they meet; zero for
/// one and the same leaf.
pub open spec fn spec_common_level(a: nat, b: nat) -> nat
    decreases a + b,
{
    if a == b {
        0
    } else {
        1 + spec_common_level(a / 2, b / 2)
    }
}

/// Two to the power `k`.
pub open spec fn pow2(k: nat) -> nat
    decreases k,
{
    if k == 0 {
        1
    } else {
        2 * pow2((k - 1) as nat)
    }
}

/// A tree with fewer than `pow2(k)` leaves has fewer than `k` levels above
/// the leaves, or none.
pub proof fn lemma_depth_bound(n: nat, k: nat)
    requires
        n < pow2(k),
    ensures
        depth(n) <= k,
        n >= 1 ==> depth(n) < k,
    decreases k,
{
    if n > 1 {
        lemma_depth_bound(n / 2, (k - 1) as nat);
    }
}

/// Every 32-bit number is below `pow2(32)`.
pub proof fn lemma_pow2_32()
    ensures
        pow2(32) == 0x1_0000_0000,
{
    reveal_with_fuel(pow2, 33);
}

/// Doubling a power of two gives a power of two, one level deeper.
pub proof fn lemma_double(n: nat)
    requires
        is_pow2(n),
    ensures
        n >= 1,
        is_pow2(2 * n),
        depth(2 * n) == depth(n) + 1,
{
    assert((2 * n) / 2 == n);
}

/// No power of two lies strictly between a power of two and its double.
pub proof fn lemma_pow2_gap(h: nat, a: nat)
    requires
        is_pow2(h),
        is_pow2(a),
        h < a,
    ensures
        2 * h <= a,
    decreases h,
{
    if h > 1 {
        lemma_pow2_gap(h / 2, a / 2);
    }
}

/// The largest tree has a power of two of leaves.
pub proof fn lemma_max_leaves()
    ensures
        is_pow2(MAX_LEAVES as nat),
{
    reveal_with_fuel(is_pow2, 32);
}

/// The node above a block that lies inside its level lies inside the array.
pub proof fn lemma_node_in_tree(span: nat, block: nat, width: nat)
    requires
        span >= 1,
        block < width,
    ensures
        node_index(span, block) < node_count(span * width),
        node_index(span, block) >= span - 1,
{
    assert(span * (2 * block + 1) - 1 < 2 * (span * width) - 1) by (nonlinear_arith)
        requires
            span >= 1,
            block < width,
    ;
    assert(span * (2 * block + 1) - 1 >= span - 1) by (nonlinear_arith)
        requires
            span >= 1,
            block >= 0,
    ;
}

/// The nodes above a block are one per remaining level, lie inside the
/// array, and end with the root.
pub proof fn lemma_ancestors(span: nat, block: nat, width: nat)
    requires
        span >= 1,
        is_pow2(width),
        block < width,
    ensures
        ancestors(span, block, width).len() == depth(width),
        forall|i: int|
            0 <= i < depth(width) ==> #[trigger] ancestors(span, block, width)[i] < node_count(
                span * width,
            ),
        width >= 2 ==> ancestors(span, block, width).last() == root_index(span * width),
        forall|i: int| 0 <= i < depth(width) ==> #[trigger] ancestors(span, block, width)[i] % 2 == 1,
    decreases width,
{
    let p = ancestors(span, block, width);
    if width >= 2 {
        assert(node_index(2 * span, block / 2) % 2 == 1) by (nonlinear_arith)
            requires
                span >= 1,
                block >= 0,
        {
            assert((2 * span) * (2 * (block / 2) + 1) == 2 * (span * (2 * (block / 2) + 1)));
            assert(span * (2 * (block / 2) + 1) >= 1);
        }
        let rest = ancestors(2 * span, block / 2, width / 2);
        lemma_ancestors(2 * span, block / 2, width / 2);
        assert((2 * span) * (width / 2) == span * width) by (nonlinear_arith)
            requires
                width % 2 == 0,
        ;
        lemma_node_in_tree(2 * span, block / 2, width / 2);
        assert(p =~= seq![node_index(2 * span, block / 2)] + rest);
        assert forall|i: int| 0 <= i < depth(width) implies #[trigger] p[i] < node_count(
            span * width,
        ) by {
            if i > 0 {
                assert(p[i] == rest[i - 1]);
            }
        }
        assert forall|i: int| 0 <= i < depth(width) implies #[trigger] p[i] % 2 == 1 by {
            if i > 0 {
                assert(p[i] == rest[i - 1]);
            }
        }
        if width == 2 {
            assert(rest =~= Seq::<nat>::empty());
            assert(block / 2 == 0);
            assert(node_index(2 * span, 0) == root_index(span * width)) by (nonlinear_arith)
                requires
                    width == 2,
                    span >= 1,
            ;
        } else {
            assert(p.last() == rest.last());
        }
    }
}

/// The direct path of a leaf has one node per level, each inside the array,
/// and ends at the root.
pub proof fn lemma_direct_path(leaf: nat, leaves: nat)
    requires
        is_pow2(leaves),
        leaf < leaves,
    ensures
        spec_direct_path(leaf, leaves).len() == depth(leaves),
        forall|i: int|
            0 <= i < depth(leaves) ==> #[trigger] spec_direct_path(leaf, leaves)[i] < node_count(
                leaves,
            ),
        leaves >= 2 ==> spec_direct_path(leaf, leaves).last() == root_index(leaves),
        forall|i: int| 0 <= i < depth(leaves) ==> #[trigger] spec_direct_path(leaf, leaves)[i] % 2 == 1,
{
    lemma_ancestors(1, leaf, leaves);
    assert(1 * leaves == leaves) by (nonlinear_arith);
}

/// Two different leaves of one tree meet at a level between one and the
/// depth of the tree.
pub proof fn lemma_common_level(a: nat, b: nat, leaves: nat)
    requires
        is_pow2(leaves),
        a < leaves,
        b < leaves,
    ensures
        spec_common_level(a, b) <= depth(leaves),
        a != b ==> spec_common_level(a, b) >= 1,
        spec_common_level(a, b) == spec_common_level(b, a),
    decreases leaves,
{
    if a != b {
        lemma_common_level(a / 2, b / 2, leaves / 2);
    }
}

/// The depth of a tree of `leaves` leaves.
pub fn tree_depth(leaves: u32) -> (d: u32)
    ensures
        d == depth(leaves as nat),
        d <= 32,
{
    let mut d: u32 = 0;
    let mut w: u32 = leaves;
    proof {
        lemma_pow2_32();
        lemma_depth_bound(leaves as nat, 32);
    }
    while w > 1
        invariant
            depth(leaves as nat) == d + depth(w as nat),
            d + depth(w as nat) <= 32,
        decreases w,
    {
        w = w / 2;
        d = d + 1;
    }
    d
}

/// Whether `n` is a power of two.
pub fn is_power_of_two(n: u32) -> (yes: bool)
    ensures
        yes == is_pow2(n as nat),
{
    if n == 0 {
        return false;
    }
    let mut w: u32 = n;
    while w % 2 == 0
        invariant
            w >= 1,
            is_pow2(n as nat) == is_pow2(w as nat),
        decreases w,
    {
        w = w / 2;
    }
    w == 1
}

/// The direct path of leaf `leaf` in a tree of `leaves` leaves.
pub fn direct_path(leaf: u32, leaves: u32) -> (path: Vec<u32>)
    requires
        is_pow2(leaves as nat),
        leaves <= MAX_LEAVES,
        leaf < leaves,
    ensures
        path@.map_values(|x: u32| x as nat) == spec_direct_path(leaf as nat, leaves as nat),
        path@.len() == depth(leaves as nat),
        forall|i: int| 0 <= i < path@.len() ==> #[trigger] path@[i] < node_count(leaves as nat),
{
    let mut path: Vec<u32> = Vec::new();
    let mut span: u32 = 1;
    let mut block: u32 = leaf;
    let mut width: u32 = leaves;
    proof {
        lemma_direct_path(leaf as nat, leaves as nat);
        assert(1 * leaves == leaves) by (nonlinear_arith);
    }
    while width > 1
        invariant
            span >= 1,
            span * width == leaves,
            leaves <= MAX_LEAVES,
            is_pow2(width as nat),
            block < width,
            path@.map_values(|x: u32| x as nat) + ancestors(span as nat, block as nat, width as nat)
                == spec_direct_path(leaf as nat, leaves as nat),
        decreases width,
    {
        proof {
            assert((2 * span) * (width / 2) == span * width) by (nonlinear_arith)
                requires
                    width % 2 == 0,
            ;
            assert(span <= leaves) by (nonlinear_arith)
                requires
                    span * width == leaves,
                    width >= 1,
                    span >= 1,
            ;
            lemma_node_in_tree(2 * span as nat, (block / 2) as nat, (width / 2) as nat);
        }
        let ghost before = path@.map_values(|x: u32| x as nat);
        span = 2 * span;
        block = block / 2;
        width = width / 2;
        assert(span * (2 * block + 1) - 1 < 2 * leaves - 1);
        assert(span * (2 * block + 1) >= 1) by (nonlinear_arith)
            requires
                span >= 1,
                block >= 0,
        ;
        let node: u32 = span * (2 * block + 1) - 1;
        path.push(node);
        assert(path@.map_values(|x: u32| x as nat) =~= before.push(node as nat));
        assert(before.push(node as nat) + ancestors(span as nat, block as nat, width as nat)
            =~= before + (seq![node as nat] + ancestors(span as nat, block as nat, width as nat)));
    }
    proof {
        assert(ancestors(span as nat, block as nat, width as nat) =~= Seq::<nat>::empty());
        assert(path@.map_values(|x: u32| x as nat) =~= spec_direct_path(leaf as nat, leaves as nat));
        assert forall|i: int| 0 <= i < path@.len() implies #[trigger] path@[i] < node_count(
            leaves as nat,
        ) by {
            assert(path@.map_values(|x: u32| x as nat)[i] == path@[i] as nat);
        }
    }
    path
}

/// The number of levels to climb from leaves `a` and `b` until they meet.
pub fn common_level(a: u32, b: u32) -> (k: u32)
    ensures
        k == spec_common_level(a as nat, b as nat),
        k <= 32,
{
    let mut x: u32 = a;
    let mut y: u32 = b;
    let mut k: u32 = 0;
    proof {
        lemma_pow2_32();
    }
    while x != y
        invariant
            spec_common_level(a as nat, b as nat) == k + spec_common_level(x as nat, y as nat),
            k <= 32,
            x < pow2((32 - k) as nat),
            y < pow2((32 - k) as nat),
        decreases x + y,
    {
        x = x / 2;
        y = y / 2;
        k = k + 1;
    }
    k
}

} // verus!
