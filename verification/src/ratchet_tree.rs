//! The ratchet tree: the array of nodes that holds the key packages of the
//! members at its leaves and the public keys of the agreement nodes above
//! them. A slot without key material is blank; blank is a value of the slot,
//! never a missing slot.

use crate::bytes::{append, append_prefixed, byte_views, copy, equal, spec_prefixed};
use crate::crypto::{derive_hpke_keypair, hash, hashed, hpke_key_pair, HASH_LEN, HPKE_KEY_LEN};
use crate::errors::{EngineError, ValidationReason};
use crate::key_package::{KeyPackage, KeyPackageView};
use crate::key_schedule::{derive_secret, spec_derive_secret};
use crate::treemath::{
    ancestors, depth, direct_path, is_pow2, lemma_direct_path, lemma_double, lemma_max_leaves,
    lemma_node_in_tree, lemma_pow2_gap, node_count, node_index, spec_direct_path, tree_depth,
    MAX_LEAVES,
};
use vstd::pervasive::unreached;
use vstd::prelude::*;
use vstd::string::*;

verus! {

/// A node of the tree, as byte strings.
pub enum NodeView {
    /// No key material.
    Blank,
    /// A member, with its key package.
    Leaf(KeyPackageView),
    /// An agreement node, with its public key.
    Parent(Seq<u8>),
}

/// A node of the tree.
#[derive(Debug, Clone, PartialEq, Eq)]
pub enum Node {
    /// No key material.
    Blank,
    /// A member, with its key package.
    Leaf(KeyPackage),
    /// An agreement node, with its public key.
    Parent(Vec<u8>),
}

impl View for Node {
    type V = NodeView;

    open spec fn view(&self) -> NodeView {
        match self {
            Node::Blank => NodeView::Blank,
            Node::Leaf(kp) => NodeView::Leaf(kp@),
            Node::Parent(pk) => NodeView::Parent(pk@),
        }
    }
}

/// The views of a sequence of nodes.
pub open spec fn node_views(nodes: Seq<Node>) -> Seq<NodeView> {
    Seq::new(nodes.len(), |i: int| nodes[i]@)
}

/// The number of leaves of a tree with these nodes.
pub open spec fn leaf_count(t: Seq<NodeView>) -> nat {
    (t.len() + 1) / 2
}

/// Whether a node can stand in a tree: the HPKE key of a member has the
/// length of such a key.
pub open spec fn node_ok(node: NodeView) -> bool {
    node matches NodeView::Leaf(kp) ==> kp.init_key.len() == HPKE_KEY_LEN
}

/// The shape of a tree: a power of two of leaves, leaves at the even places
/// and agreement nodes at the odd places.
pub open spec fn tree_wf(t: Seq<NodeView>) -> bool {
    &&& t.len() % 2 == 1
    &&& is_pow2(leaf_count(t))
    &&& leaf_count(t) <= MAX_LEAVES
    &&& forall|i: int| 0 <= i < t.len() && i % 2 == 0 ==> !(#[trigger] t[i] is Parent)
    &&& forall|i: int| 0 <= i < t.len() && i % 2 == 1 ==> !(#[trigger] t[i] is Leaf)
    &&& forall|i: int| 0 <= i < t.len() ==> node_ok(#[trigger] t[i])
}

/// The node at leaf `leaf`.
pub open spec fn leaf_at(t: Seq<NodeView>, leaf: nat) -> NodeView {
    t[(2 * leaf) as int]
}

/// The leftmost blank leaf at or after leaf `from`, if there is one.
pub open spec fn first_blank_from(t: Seq<NodeView>, from: nat) -> Option<nat>
    decreases leaf_count(t) - from,
{
    if from >= leaf_count(t) {
        None
    } else if leaf_at(t, from) is Blank {
        Some(from)
    } else {
        first_blank_from(t, from + 1)
    }
}

/// The tree grown by one level: the old tree is the left half, the new root
/// and the right half are blank.
pub open spec fn spec_extend(t: Seq<NodeView>) -> Seq<NodeView> {
    t + Seq::new(t.len() + 1, |i: int| NodeView::Blank)
}

/// The tree with a new member, and the leaf it was given: the leftmost blank
/// leaf, or the first leaf of the new half where no leaf was blank.
pub open spec fn spec_add_leaf(t: Seq<NodeView>, kp: KeyPackageView) -> (Seq<NodeView>, nat) {
    match first_blank_from(t, 0) {
        Some(i) => (t.update((2 * i) as int, NodeView::Leaf(kp)), i),
        None => (
            spec_extend(t).update((2 * leaf_count(t)) as int, NodeView::Leaf(kp)),
            leaf_count(t),
        ),
    }
}

/// What adding a member gives: the new tree and the member's leaf, or the
/// reason why the member cannot be added.
pub open spec fn spec_try_add_leaf(t: Seq<NodeView>, kp: KeyPackageView) -> Result<
    (Seq<NodeView>, nat),
    EngineError,
> {
    if kp.init_key.len() != HPKE_KEY_LEN {
        Err(EngineError::Validation(ValidationReason::InvalidKeyPackage))
    } else if first_blank_from(t, 0) is None && leaf_count(t) >= MAX_LEAVES {
        Err(EngineError::TreeFull)
    } else {
        Ok(spec_add_leaf(t, kp))
    }
}

/// What putting a key package at a leaf gives: the new tree, or the reason
/// why it cannot be put there.
pub open spec fn spec_try_set_leaf(t: Seq<NodeView>, leaf: nat, kp: KeyPackageView) -> Result<
    Seq<NodeView>,
    EngineError,
> {
    if leaf >= leaf_count(t) {
        Err(EngineError::UnknownLeaf)
    } else if kp.init_key.len() != HPKE_KEY_LEN {
        Err(EngineError::Validation(ValidationReason::InvalidKeyPackage))
    } else {
        Ok(t.update((2 * leaf) as int, NodeView::Leaf(kp)))
    }
}

/// Whether every leaf from `lo` up to but not including `hi` is blank.
pub open spec fn range_blank(t: Seq<NodeView>, lo: nat, hi: nat) -> bool {
    forall|l: nat| lo <= l < hi ==> #[trigger] leaf_at(t, l) is Blank
}

/// Blanks, bottom up, every node above block `block` whose subtree holds
/// only blank leaves.
pub open spec fn blank_up(t: Seq<NodeView>, span: nat, block: nat, width: nat) -> Seq<NodeView>
    decreases width,
{
    if width <= 1 {
        t
    } else if range_blank(t, (block / 2) * (2 * span), (block / 2 + 1) * (2 * span)) {
        blank_up(
            t.update(node_index(2 * span, block / 2) as int, NodeView::Blank),
            2 * span,
            block / 2,
            width / 2,
        )
    } else {
        t
    }
}

/// The tree after a member left: its leaf is blank, and so is every ancestor
/// below which no member is left.
pub open spec fn spec_blank(t: Seq<NodeView>, leaf: nat) -> Seq<NodeView> {
    blank_up(t.update((2 * leaf) as int, NodeView::Blank), 1, leaf, leaf_count(t))
}

/// The secret `steps` places further up a path than `secret`.
pub open spec fn spec_chain(secret: Seq<u8>, steps: nat) -> Seq<u8>
    decreases steps,
{
    if steps == 0 {
        secret
    } else {
        spec_derive_secret(spec_chain(secret, (steps - 1) as nat), "path".spec_bytes())
    }
}

/// The public key of the node whose path secret is `path_secret`.
pub open spec fn spec_public_key(path_secret: Seq<u8>) -> Seq<u8> {
    hpke_key_pair(spec_derive_secret(path_secret, "node".spec_bytes())).1
}

/// The private key of the node whose path secret is `path_secret`.
pub open spec fn spec_private_key(path_secret: Seq<u8>) -> Seq<u8> {
    hpke_key_pair(spec_derive_secret(path_secret, "node".spec_bytes())).0
}

/// Whether the public keys of a path, from place `at` on, are those that
/// follow from `secret`, the path secret of place `at`. Place zero is the
/// leaf, place `k` the `k`-th ancestor, whose key is `public_keys[k - 1]`.
pub open spec fn keys_consistent(public_keys: Seq<Seq<u8>>, at: nat, secret: Seq<u8>) -> bool {
    forall|i: int|
        0 <= i < public_keys.len() && at <= i + 1 ==> #[trigger] public_keys[i] == spec_public_key(
            spec_chain(secret, (i + 1 - at) as nat),
        )
}

/// The tree with the public keys of a path written to its nodes, from the
/// `i`-th node of the path on.
pub open spec fn install_path(
    t: Seq<NodeView>,
    path: Seq<nat>,
    public_keys: Seq<Seq<u8>>,
    i: nat,
) -> Seq<NodeView>
    decreases path.len() - i,
{
    if i >= path.len() {
        t
    } else {
        install_path(
            t.update(path[i as int] as int, NodeView::Parent(public_keys[i as int])),
            path,
            public_keys,
            i + 1,
        )
    }
}

/// What a path update gives: the tree with the new public keys on the direct
/// path of `leaf`, and the secret one place above the root. The update is
/// refused where the leaf is outside the tree, the path has another length
/// than the leaf's depth, the secret is too short or placed above the root,
/// or a public key is not the one that follows from the secret.
pub open spec fn spec_apply_path(
    t: Seq<NodeView>,
    leaf: nat,
    public_keys: Seq<Seq<u8>>,
    at: nat,
    secret: Seq<u8>,
) -> Result<(Seq<NodeView>, Seq<u8>), EngineError> {
    let d = depth(leaf_count(t));
    if leaf >= leaf_count(t) || public_keys.len() != d || at > d || secret.len() < HASH_LEN
        || !keys_consistent(public_keys, at, secret) {
        Err(EngineError::InvalidPath)
    } else {
        Ok(
            (
                install_path(t, spec_direct_path(leaf, leaf_count(t)), public_keys, 0),
                spec_chain(secret, (d + 1 - at) as nat),
            ),
        )
    }
}

/// The canonical encoding of a node: a tag, then the content.
pub open spec fn spec_encode_node(node: NodeView) -> Seq<u8> {
    match node {
        NodeView::Blank => seq![0u8],
        NodeView::Leaf(kp) => seq![1u8] + kp.encode(),
        NodeView::Parent(pk) => seq![2u8] + spec_prefixed(pk),
    }
}

/// The canonical encoding of a tree: its nodes in array order.
pub open spec fn spec_encode_tree(t: Seq<NodeView>) -> Seq<u8>
    decreases t.len(),
{
    if t.len() == 0 {
        Seq::empty()
    } else {
        spec_encode_tree(t.drop_last()) + spec_encode_node(t.last())
    }
}

/// The hash that stands for a tree in the group context.
pub open spec fn spec_tree_hash(t: Seq<NodeView>) -> Seq<u8> {
    hashed(spec_encode_tree(t))
}

/// The first leaf at or after `from` whose member has the identity
/// `identity`, if there is one.
pub open spec fn find_identity_from(t: Seq<NodeView>, identity: Seq<u8>, from: nat) -> Option<nat>
    decreases leaf_count(t) - from,
{
    if from >= leaf_count(t) {
        None
    } else if leaf_at(t, from) matches NodeView::Leaf(kp) && kp.identity == identity {
        Some(from)
    } else {
        find_identity_from(t, identity, from + 1)
    }
}

/// The first leaf at or after `from` that holds the key package `kp`.
pub open spec fn find_package_from(t: Seq<NodeView>, kp: KeyPackageView, from: nat) -> Option<nat>
    decreases leaf_count(t) - from,
{
    if from >= leaf_count(t) {
        None
    } else if leaf_at(t, from) == NodeView::Leaf(kp) {
        Some(from)
    } else {
        find_package_from(t, kp, from + 1)
    }
}

/// Walking up a path in two stretches is walking it in one.
pub proof fn lemma_chain_add(secret: Seq<u8>, a: nat, b: nat)
    ensures
        spec_chain(spec_chain(secret, a), b) == spec_chain(secret, a + b),
    decreases b,
{
    if b > 0 {
        lemma_chain_add(secret, a, (b - 1) as nat);
    }
}

/// The public keys of the `depth` ancestors on a path that starts from leaf
/// secret `leaf_secret`.
pub open spec fn spec_path_public_keys(leaf_secret: Seq<u8>, depth: nat) -> Seq<Seq<u8>> {
    Seq::new(depth, |i: int| spec_public_key(spec_chain(leaf_secret, (i + 1) as nat)))
}

/// The public keys of a path follow from its leaf secret, from any place on.
pub proof fn lemma_own_path_consistent(leaf_secret: Seq<u8>, depth: nat, at: nat)
    ensures
        keys_consistent(
            spec_path_public_keys(leaf_secret, depth),
            at,
            spec_chain(leaf_secret, at),
        ),
{
    let pks = spec_path_public_keys(leaf_secret, depth);
    assert forall|i: int| 0 <= i < pks.len() && at <= i + 1 implies #[trigger] pks[i]
        == spec_public_key(spec_chain(spec_chain(leaf_secret, at), (i + 1 - at) as nat)) by {
        lemma_chain_add(leaf_secret, at, (i + 1 - at) as nat);
    }
}

/// The leftmost blank leaf, where there is one, is a blank leaf of the tree.
pub proof fn lemma_first_blank(t: Seq<NodeView>, from: nat)
    ensures
        first_blank_from(t, from) matches Some(b) ==> from <= b < leaf_count(t) && leaf_at(
            t,
            b,
        ) is Blank,
    decreases leaf_count(t) - from,
{
    if from < leaf_count(t) && !(leaf_at(t, from) is Blank) {
        lemma_first_blank(t, from + 1);
    }
}

/// Adding a member keeps the shape of the tree and every leaf that held a
/// member.
pub proof fn lemma_add_keeps_members(t: Seq<NodeView>, kp: KeyPackageView, keep: nat)
    requires
        tree_wf(t),
        spec_try_add_leaf(t, kp) is Ok,
        keep < leaf_count(t),
        leaf_at(t, keep) is Leaf,
    ensures
        tree_wf(spec_try_add_leaf(t, kp)->Ok_0.0),
        keep < leaf_count(spec_try_add_leaf(t, kp)->Ok_0.0),
        leaf_at(spec_try_add_leaf(t, kp)->Ok_0.0, keep) == leaf_at(t, keep),
{
    lemma_first_blank(t, 0);
    let after = spec_try_add_leaf(t, kp)->Ok_0.0;
    if first_blank_from(t, 0) is None {
        let n = leaf_count(t);
        lemma_double(n);
        lemma_max_leaves();
        lemma_pow2_gap(n, MAX_LEAVES as nat);
        assert(after.len() == 2 * t.len() + 1);
        assert(leaf_count(after) == 2 * n);
    }
}

/// Blanking above a block keeps the length of the tree, changes no even
/// place, and puts nothing but blanks at the odd places.
pub proof fn lemma_blank_up(t: Seq<NodeView>, span: nat, block: nat, width: nat)
    requires
        span >= 1,
        is_pow2(width),
        block < width,
        t.len() == node_count(span * width),
    ensures
        blank_up(t, span, block, width).len() == t.len(),
        forall|x: int|
            0 <= x < t.len() ==> #[trigger] blank_up(t, span, block, width)[x] == t[x] || (x % 2
                == 1 && blank_up(t, span, block, width)[x] is Blank),
    decreases width,
{
    if width > 1 && range_blank(t, (block / 2) * (2 * span), (block / 2 + 1) * (2 * span)) {
        let node = node_index(2 * span, block / 2);
        assert((2 * span) * (width / 2) == span * width) by (nonlinear_arith)
            requires
                width % 2 == 0,
        ;
        lemma_node_in_tree(2 * span, block / 2, width / 2);
        assert(node % 2 == 1) by (nonlinear_arith)
            requires
                node == node_index(2 * span, block / 2),
                span >= 1,
                block >= 0,
        {
            assert((2 * span) * (2 * (block / 2) + 1) == 2 * (span * (2 * (block / 2) + 1)));
            assert(span * (2 * (block / 2) + 1) >= 1);
        }
        let next = t.update(node as int, NodeView::Blank);
        lemma_blank_up(next, 2 * span, block / 2, width / 2);
        assert forall|x: int| 0 <= x < t.len() implies #[trigger] blank_up(
            t,
            span,
            block,
            width,
        )[x] == t[x] || (x % 2 == 1 && blank_up(t, span, block, width)[x] is Blank) by {
            let r = blank_up(next, 2 * span, block / 2, width / 2);
            assert(r[x] == next[x] || (x % 2 == 1 && r[x] is Blank));
        }
    }
}

/// Blanking a leaf keeps the shape of the tree and every other leaf.
pub proof fn lemma_blank_keeps_members(t: Seq<NodeView>, leaf: nat, keep: nat)
    requires
        tree_wf(t),
        leaf < leaf_count(t),
        keep < leaf_count(t),
        keep != leaf,
    ensures
        tree_wf(spec_blank(t, leaf)),
        leaf_count(spec_blank(t, leaf)) == leaf_count(t),
        leaf_at(spec_blank(t, leaf), keep) == leaf_at(t, keep),
{
    let start = t.update((2 * leaf) as int, NodeView::Blank);
    assert(1 * leaf_count(t) == leaf_count(t)) by (nonlinear_arith);
    lemma_blank_up(start, 1, leaf, leaf_count(t));
    let after = spec_blank(t, leaf);
    assert(after[(2 * keep) as int] == start[(2 * keep) as int]);
    assert forall|i: int| 0 <= i < after.len() implies node_ok(#[trigger] after[i]) && (i % 2 == 0
        ==> !(after[i] is Parent)) && (i % 2 == 1 ==> !(after[i] is Leaf)) by {
        assert(after[i] == start[i] || (i % 2 == 1 && after[i] is Blank));
        if i != 2 * leaf {
            assert(start[i] == t[i]);
        }
    }
}

/// Writing public keys to a path keeps the length of the tree.
pub proof fn lemma_install_len(t: Seq<NodeView>, path: Seq<nat>, public_keys: Seq<Seq<u8>>, i: nat)
    requires
        forall|j: int| 0 <= j < path.len() ==> #[trigger] path[j] < t.len(),
    ensures
        install_path(t, path, public_keys, i).len() == t.len(),
    decreases path.len() - i,
{
    if i < path.len() {
        lemma_install_len(
            t.update(path[i as int] as int, NodeView::Parent(public_keys[i as int])),
            path,
            public_keys,
            i + 1,
        );
    }
}

/// Writing public keys to a path of odd places keeps every even place.
pub proof fn lemma_install_even(
    t: Seq<NodeView>,
    path: Seq<nat>,
    public_keys: Seq<Seq<u8>>,
    i: nat,
    x: int,
)
    requires
        forall|j: int| 0 <= j < path.len() ==> #[trigger] path[j] < t.len(),
        forall|j: int| 0 <= j < path.len() ==> #[trigger] path[j] % 2 == 1,
        0 <= x < t.len(),
        x % 2 == 0,
    ensures
        install_path(t, path, public_keys, i)[x] == t[x],
    decreases path.len() - i,
{
    if i < path.len() {
        lemma_install_even(
            t.update(path[i as int] as int, NodeView::Parent(public_keys[i as int])),
            path,
            public_keys,
            i + 1,
            x,
        );
    }
}

/// A path update changes no leaf: the tree keeps its number of leaves, and
/// every leaf holds what it held.
pub proof fn lemma_path_keeps_leaves(
    t: Seq<NodeView>,
    leaf: nat,
    public_keys: Seq<Seq<u8>>,
    at: nat,
    secret: Seq<u8>,
    other: nat,
)
    requires
        tree_wf(t),
        spec_apply_path(t, leaf, public_keys, at, secret) is Ok,
        other < leaf_count(t),
    ensures
        leaf_count(spec_apply_path(t, leaf, public_keys, at, secret)->Ok_0.0) == leaf_count(t),
        leaf_at(spec_apply_path(t, leaf, public_keys, at, secret)->Ok_0.0, other) == leaf_at(
            t,
            other,
        ),
{
    let path = spec_direct_path(leaf, leaf_count(t));
    lemma_direct_path(leaf, leaf_count(t));
    lemma_install_len(t, path, public_keys, 0);
    lemma_install_even(t, path, public_keys, 0, (2 * other) as int);
}

/// The secrets and keys of a fresh path.
#[derive(Debug)]
pub struct DerivedPath {
    /// The path secrets, from the leaf secret at place zero to the secret of
    /// the root at place `depth`.
    pub secrets: Vec<Vec<u8>>,
    /// The public keys of the ancestors, from the parent to the root.
    pub public_keys: Vec<Vec<u8>>,
    /// The private key of the leaf.
    pub leaf_private_key: Vec<u8>,
    /// The public key of the leaf.
    pub leaf_public_key: Vec<u8>,
}

/// Derives the path that starts from a leaf secret at a leaf of depth
/// `depth`: each secret from the one below it, and the key pair of each node
/// from its secret.
pub fn derive_path(leaf_secret: &[u8], depth: usize) -> (path: DerivedPath)
    requires
        leaf_secret@.len() >= HASH_LEN,
        depth <= 32,
    ensures
        path.secrets@.len() == depth + 1,
        forall|k: int|
            0 <= k <= depth ==> (#[trigger] path.secrets@[k])@ == spec_chain(
                leaf_secret@,
                k as nat,
            ) && HASH_LEN <= path.secrets@[k]@.len() <= leaf_secret@.len(),
        byte_views(path.public_keys@) == spec_path_public_keys(leaf_secret@, depth as nat),
        path.leaf_private_key@ == spec_private_key(leaf_secret@),
        path.leaf_public_key@ == spec_public_key(leaf_secret@),
        path.leaf_public_key@.len() == HPKE_KEY_LEN,
{
    let leaf_node = derive_secret(leaf_secret, "node");
    let (leaf_private_key, leaf_public_key) = derive_hpke_keypair(leaf_node.as_slice());
    let mut secrets: Vec<Vec<u8>> = Vec::new();
    let mut public_keys: Vec<Vec<u8>> = Vec::new();
    secrets.push(copy(leaf_secret));
    let mut k: usize = 0;
    while k < depth
        invariant
            k <= depth,
            depth <= 32,
            secrets@.len() == k + 1,
            public_keys@.len() == k,
            leaf_secret@.len() >= HASH_LEN,
            forall|j: int|
                0 <= j <= k ==> (#[trigger] secrets@[j])@ == spec_chain(leaf_secret@, j as nat)
                    && HASH_LEN <= secrets@[j]@.len() <= leaf_secret@.len(),
            forall|j: int|
                0 <= j < k ==> (#[trigger] public_keys@[j])@ == spec_public_key(
                    spec_chain(leaf_secret@, (j + 1) as nat),
                ),
        decreases depth - k,
    {
        let next = derive_secret(secrets[k].as_slice(), "path");
        let node = derive_secret(next.as_slice(), "node");
        let (private_key, public_key) = derive_hpke_keypair(node.as_slice());
        secrets.push(next);
        public_keys.push(public_key);
        k += 1;
    }
    assert(byte_views(public_keys@) =~= spec_path_public_keys(leaf_secret@, depth as nat));
    DerivedPath { secrets, public_keys, leaf_private_key, leaf_public_key }
}

/// The ratchet tree of a group.
#[derive(Debug, Clone, PartialEq, Eq)]
pub struct RatchetTree {
    nodes: Vec<Node>,
}

impl View for RatchetTree {
    type V = Seq<NodeView>;

    closed spec fn view(&self) -> Seq<NodeView> {
        node_views(self.nodes@)
    }
}

impl RatchetTree {
    /// What every tree built by this module keeps: the shape of a tree.
    pub closed spec fn wf(&self) -> bool {
        tree_wf(self@)
    }

    /// A well-formed tree has the shape of a tree.
    pub proof fn lemma_view_wf(&self)
        requires
            self.wf(),
        ensures
            tree_wf(self@),
    {
    }

    /// The tree of a group with one member, at leaf zero. Fails with
    /// `InvalidKeyPackage` exactly where the founder's HPKE key has not the
    /// length of such a key.
    pub fn new(founder: KeyPackage) -> (r: Result<RatchetTree, EngineError>)
        ensures
            founder@.init_key.len() == HPKE_KEY_LEN ==> (r matches Ok(tree) && tree.wf() && tree@
                == seq![NodeView::Leaf(founder@)]),
            founder@.init_key.len() != HPKE_KEY_LEN ==> (r matches Err(e) && e
                == EngineError::Validation(ValidationReason::InvalidKeyPackage)),
    {
        if founder.init_key.len() != HPKE_KEY_LEN {
            return Err(EngineError::Validation(ValidationReason::InvalidKeyPackage));
        }
        let ghost f = founder@;
        let mut nodes: Vec<Node> = Vec::new();
        nodes.push(Node::Leaf(founder));
        let tree = RatchetTree { nodes };
        assert(tree@ =~= seq![NodeView::Leaf(f)]);
        assert(is_pow2(1));
        Ok(tree)
    }

    /// The number of leaves, blank ones included.
    pub fn leaf_count(&self) -> (n: u32)
        requires
            self.wf(),
        ensures
            n == leaf_count(self@),
            is_pow2(n as nat),
            1 <= n <= MAX_LEAVES,
    {
        ((self.nodes.len() + 1) / 2) as u32
    }

    /// Whether leaf `leaf` lies in the tree and holds a member.
    pub fn is_member(&self, leaf: u32) -> (yes: bool)
        requires
            self.wf(),
        ensures
            yes == (leaf < leaf_count(self@) && leaf_at(self@, leaf as nat) is Leaf),
    {
        if leaf >= self.leaf_count() {
            return false;
        }
        match &self.nodes[2 * (leaf as usize)] {
            Node::Leaf(_) => true,
            _ => false,
        }
    }

    /// The key package at leaf `leaf`, if a member is there.
    pub fn member(&self, leaf: u32) -> (kp: Option<&KeyPackage>)
        requires
            self.wf(),
        ensures
            match kp {
                Some(k) => leaf < leaf_count(self@) && leaf_at(self@, leaf as nat) == NodeView::Leaf(
                    k@,
                ),
                None => !(leaf < leaf_count(self@) && leaf_at(self@, leaf as nat) is Leaf),
            },
    {
        if leaf >= self.leaf_count() {
            return None;
        }
        match &self.nodes[2 * (leaf as usize)] {
            Node::Leaf(k) => Some(k),
            _ => None,
        }
    }

    /// The leftmost blank leaf, if there is one.
    pub fn first_blank_leaf(&self) -> (found: Option<u32>)
        requires
            self.wf(),
        ensures
            match found {
                Some(i) => first_blank_from(self@, 0) == Some(i as nat) && i < leaf_count(self@)
                    && leaf_at(self@, i as nat) is Blank,
                None => first_blank_from(self@, 0) is None,
            },
    {
        let n = self.leaf_count();
        let mut i: u32 = 0;
        while i < n
            invariant
                self.wf(),
                n == leaf_count(self@),
                i <= n,
                first_blank_from(self@, 0) == first_blank_from(self@, i as nat),
            decreases n - i,
        {
            match &self.nodes[2 * (i as usize)] {
                Node::Blank => {
                    return Some(i);
                },
                _ => {},
            }
            i += 1;
        }
        None
    }

    /// Whether every leaf from `lo` up to but not including `hi` is blank.
    pub fn range_is_blank(&self, lo: u32, hi: u32) -> (yes: bool)
        requires
            self.wf(),
            hi <= leaf_count(self@),
        ensures
            yes == range_blank(self@, lo as nat, hi as nat),
    {
        let mut l: u32 = lo;
        while l < hi
            invariant
                self.wf(),
                hi <= leaf_count(self@),
                lo <= l,
                range_blank(self@, lo as nat, l as nat),
            decreases hi - l,
        {
            match &self.nodes[2 * (l as usize)] {
                Node::Blank => {},
                _ => {
                    assert(!(leaf_at(self@, l as nat) is Blank));
                    return false;
                },
            }
            l += 1;
        }
        true
    }

    /// Blanks the leaf of a member that leaves and, bottom up, every ancestor
    /// below which no member is left. Fails with `UnknownLeaf`, leaving the
    /// tree as it was, exactly where the leaf lies outside the tree.
    pub fn blank(&mut self, leaf: u32) -> (r: Result<(), EngineError>)
        requires
            old(self).wf(),
        ensures
            final(self).wf(),
            leaf < leaf_count(old(self)@) ==> r is Ok && final(self)@ == spec_blank(
                old(self)@,
                leaf as nat,
            ),
            leaf >= leaf_count(old(self)@) ==> r == Err::<(), EngineError>(EngineError::UnknownLeaf)
                && final(self)@ == old(self)@,
            final(self)@.len() == old(self)@.len(),
    {
        let n = self.leaf_count();
        if leaf >= n {
            return Err(EngineError::UnknownLeaf);
        }
        let ghost before = self@;
        self.nodes[2 * (leaf as usize)] = Node::Blank;
        assert(self@ =~= before.update(2 * leaf, NodeView::Blank));
        let mut span: u32 = 1;
        let mut block: u32 = leaf;
        let mut width: u32 = n;
        let mut open: bool = true;
        assert(1 * n == n) by (nonlinear_arith);
        while width > 1 && open
            invariant
                self.wf(),
                span >= 1,
                span * width == n,
                n == leaf_count(self@),
                n <= MAX_LEAVES,
                is_pow2(width as nat),
                block < width,
                self@.len() == before.len(),
                open ==> blank_up(self@, span as nat, block as nat, width as nat) == spec_blank(
                    before,
                    leaf as nat,
                ),
                !open ==> self@ == spec_blank(before, leaf as nat),
            decreases width, open as int,
        {
            proof {
                assert((2 * span) * (width / 2) == span * width) by (nonlinear_arith)
                    requires
                        width % 2 == 0,
                ;
                lemma_node_in_tree((2 * span) as nat, (block / 2) as nat, (width / 2) as nat);
                assert((block / 2 + 1) * (2 * span) <= n) by (nonlinear_arith)
                    requires
                        (2 * span) * (width / 2) == n,
                        block / 2 < width / 2,
                        span >= 1,
                ;
                assert((block / 2) * (2 * span) >= 0) by (nonlinear_arith)
                    requires
                        block >= 0,
                        span >= 1,
                ;
                assert((2 * span) * (2 * (block / 2) + 1) >= 1) by (nonlinear_arith)
                    requires
                        block >= 0,
                        span >= 1,
                ;
                assert((block / 2) * (2 * span) <= (block / 2 + 1) * (2 * span)) by (nonlinear_arith)
                    requires
                        span >= 1,
                        block >= 0,
                ;
            }
            let ps: u32 = 2 * span;
            let pb: u32 = block / 2;
            let lo: u32 = pb * ps;
            let hi: u32 = (pb + 1) * ps;
            if self.range_is_blank(lo, hi) {
                let ghost prev = self@;
                let node: usize = (ps * (2 * pb + 1) - 1) as usize;
                self.nodes[node] = Node::Blank;
                assert(self@ =~= prev.update(node_index(ps as nat, pb as nat) as int, NodeView::Blank));
                assert(tree_wf(self@));
                span = ps;
                block = pb;
                width = width / 2;
            } else {
                open = false;
            }
        }
        Ok(())
    }

    /// Puts a key package at a leaf, in place of what was there. Fails,
    /// leaving the tree as it was, with `UnknownLeaf` where the leaf lies
    /// outside the tree, and else with `InvalidKeyPackage` where the HPKE key
    /// has not the length of such a key.
    pub fn set_leaf(&mut self, leaf: u32, key_package: KeyPackage) -> (r: Result<(), EngineError>)
        requires
            old(self).wf(),
        ensures
            final(self).wf(),
            match spec_try_set_leaf(old(self)@, leaf as nat, key_package@) {
                Ok(tree) => r is Ok && final(self)@ == tree,
                Err(e) => r == Err::<(), EngineError>(e) && final(self)@ == old(self)@,
            },
    {
        if leaf >= self.leaf_count() {
            return Err(EngineError::UnknownLeaf);
        }
        if key_package.init_key.len() != HPKE_KEY_LEN {
            return Err(EngineError::Validation(ValidationReason::InvalidKeyPackage));
        }
        let ghost before = self@;
        let ghost kp = key_package@;
        self.nodes[2 * (leaf as usize)] = Node::Leaf(key_package);
        assert(self@ =~= before.update(2 * leaf, NodeView::Leaf(kp)));
        assert(tree_wf(self@));
        Ok(())
    }

    /// The direct path of a leaf: the indices of its ancestors, bottom up.
    /// Fails with `UnknownLeaf` exactly where the leaf lies outside the tree.
    pub fn direct_path(&self, leaf: u32) -> (r: Result<Vec<u32>, EngineError>)
        requires
            self.wf(),
        ensures
            leaf < leaf_count(self@) ==> (r matches Ok(path) && path@.map_values(|x: u32| x as nat)
                == spec_direct_path(leaf as nat, leaf_count(self@)) && path@.len() == depth(
                leaf_count(self@),
            )),
            leaf >= leaf_count(self@) ==> r == Err::<Vec<u32>, EngineError>(EngineError::UnknownLeaf),
    {
        let n = self.leaf_count();
        if leaf >= n {
            return Err(EngineError::UnknownLeaf);
        }
        Ok(direct_path(leaf, n))
    }

    /// Applies a path update for `leaf`: checks that the public keys of the
    /// path, from place `at` on, follow from `secret` (the path secret of
    /// place `at`, where place zero is the leaf itself), writes the public
    /// keys to the direct path, and returns the secret one place above the
    /// root, the shared secret of the commit. Fails with `InvalidPath`,
    /// leaving the tree as it was, where the leaf is outside the tree, the
    /// path has another length than the leaf's depth, the secret is shorter
    /// than a hash or placed above the root, or a public key does not match.
    pub fn apply_path_update(
        &mut self,
        leaf: u32,
        public_keys: &Vec<Vec<u8>>,
        at: usize,
        secret: &[u8],
    ) -> (r: Result<Vec<u8>, EngineError>)
        requires
            old(self).wf(),
        ensures
            final(self).wf(),
            match spec_apply_path(
                old(self)@,
                leaf as nat,
                byte_views(public_keys@),
                at as nat,
                secret@,
            ) {
                Ok((tree, root_secret)) => r matches Ok(v) && v@ == root_secret && v@.len()
                    == HASH_LEN && final(self)@ == tree,
                Err(e) => r == Err::<Vec<u8>, EngineError>(e) && final(self)@ == old(self)@,
            },
    {
        let n = self.leaf_count();
        let d = tree_depth(n) as usize;
        if leaf >= n || public_keys.len() != d || at > d || secret.len() < HASH_LEN {
            return Err(EngineError::InvalidPath);
        }
        let ghost pks = byte_views(public_keys@);
        let ghost before = self@;
        let mut cur: Vec<u8> = copy(secret);
        let mut k: usize = at;
        while k <= d
            invariant
                self.wf(),
                self@ == before,
                leaf < leaf_count(before),
                d == depth(leaf_count(before)),
                secret@.len() >= HASH_LEN,
                k > at ==> cur@.len() == HASH_LEN,
                at <= k <= d + 1,
                d == public_keys@.len(),
                d <= 32,
                pks == byte_views(public_keys@),
                cur@ == spec_chain(secret@, (k - at) as nat),
                cur@.len() >= HASH_LEN,
                forall|i: int|
                    0 <= i < d && at <= i + 1 && i + 1 < k ==> #[trigger] pks[i] == spec_public_key(
                        spec_chain(secret@, (i + 1 - at) as nat),
                    ),
            decreases d + 1 - k,
        {
            if k >= 1 {
                let node_secret = derive_secret(cur.as_slice(), "node");
                let (private_key, public_key) = derive_hpke_keypair(node_secret.as_slice());
                if !equal(public_key.as_slice(), public_keys[k - 1].as_slice()) {
                    assert(pks[k - 1] != spec_public_key(spec_chain(secret@, (k - at) as nat)));
                    return Err(EngineError::InvalidPath);
                }
            }
            cur = derive_secret(cur.as_slice(), "path");
            k = k + 1;
        }
        assert(keys_consistent(pks, at as nat, secret@));
        let path = direct_path(leaf, n);
        let ghost path_nat = spec_direct_path(leaf as nat, n as nat);
        proof {
            lemma_direct_path(leaf as nat, n as nat);
        }
        let mut i: usize = 0;
        while i < d
            invariant
                i <= d,
                d == path@.len(),
                d == public_keys@.len(),
                d == depth(n as nat),
                pks == byte_views(public_keys@),
                path@.map_values(|x: u32| x as nat) == path_nat,
                path_nat == spec_direct_path(leaf as nat, n as nat),
                self.wf(),
                n == leaf_count(self@),
                self@.len() == before.len(),
                forall|j: int| 0 <= j < d ==> #[trigger] path_nat[j] < node_count(n as nat),
                forall|j: int| 0 <= j < d ==> #[trigger] path_nat[j] % 2 == 1,
                install_path(self@, path_nat, pks, i as nat) == install_path(before, path_nat, pks, 0),
            decreases d - i,
        {
            let ghost prev = self@;
            assert(path@.map_values(|x: u32| x as nat)[i as int] == path@[i as int] as nat);
            let node = path[i] as usize;
            self.nodes[node] = Node::Parent(copy(public_keys[i].as_slice()));
            assert(self@ =~= prev.update(path_nat[i as int] as int, NodeView::Parent(pks[i as int])));
            assert(tree_wf(self@));
            i = i + 1;
        }
        assert(path_nat.len() == d);
        Ok(cur)
    }

    /// A copy of this tree, as it is exported for a new member.
    pub fn duplicate(&self) -> (out: RatchetTree)
        requires
            self.wf(),
        ensures
            out.wf(),
            out@ == self@,
    {
        let mut nodes: Vec<Node> = Vec::new();
        let mut i: usize = 0;
        while i < self.nodes.len()
            invariant
                i <= self.nodes@.len(),
                nodes@.len() == i,
                forall|j: int| 0 <= j < i ==> (#[trigger] nodes@[j])@ == self.nodes@[j]@,
            decreases self.nodes@.len() - i,
        {
            let node = match &self.nodes[i] {
                Node::Blank => Node::Blank,
                Node::Leaf(kp) => Node::Leaf(kp.duplicate()),
                Node::Parent(pk) => Node::Parent(copy(pk.as_slice())),
            };
            nodes.push(node);
            i = i + 1;
        }
        let out = RatchetTree { nodes };
        assert(out@ =~= self@);
        out
    }

    /// The hash that stands for this tree in the group context.
    pub fn tree_hash(&self) -> (out: Vec<u8>)
        requires
            self.wf(),
        ensures
            out@ == spec_tree_hash(self@),
            out@.len() == HASH_LEN,
    {
        let mut encoded: Vec<u8> = Vec::new();
        let mut i: usize = 0;
        assert(self@.subrange(0, 0) =~= Seq::<NodeView>::empty());
        while i < self.nodes.len()
            invariant
                i <= self.nodes@.len(),
                self@.len() == self.nodes@.len(),
                encoded@ == spec_encode_tree(self@.subrange(0, i as int)),
            decreases self.nodes@.len() - i,
        {
            let ghost prev = encoded@;
            match &self.nodes[i] {
                Node::Blank => {
                    encoded.push(0u8);
                    assert(encoded@ =~= prev + seq![0u8]);
                },
                Node::Leaf(kp) => {
                    encoded.push(1u8);
                    let body = kp.encode();
                    append(&mut encoded, body.as_slice());
                    assert(encoded@ =~= prev + (seq![1u8] + kp@.encode()));
                },
                Node::Parent(pk) => {
                    encoded.push(2u8);
                    append_prefixed(&mut encoded, pk.as_slice());
                    assert(encoded@ =~= prev + (seq![2u8] + spec_prefixed(pk@)));
                },
            }
            assert(self@.subrange(0, i + 1).drop_last() =~= self@.subrange(0, i as int));
            assert(self@.subrange(0, i + 1).last() == self@[i as int]);
            i = i + 1;
        }
        assert(self@.subrange(0, i as int) =~= self@);
        match hash(encoded.as_slice()) {
            Ok(v) => v,
            Err(_) => unreached(),
        }
    }

    /// The first leaf whose member has the identity `identity`.
    pub fn find_identity(&self, identity: &[u8]) -> (found: Option<u32>)
        requires
            self.wf(),
        ensures
            match found {
                Some(i) => find_identity_from(self@, identity@, 0) == Some(i as nat) && i
                    < leaf_count(self@) && leaf_at(self@, i as nat) is Leaf,
                None => find_identity_from(self@, identity@, 0) is None,
            },
    {
        let n = self.leaf_count();
        let mut i: u32 = 0;
        while i < n
            invariant
                self.wf(),
                n == leaf_count(self@),
                i <= n,
                find_identity_from(self@, identity@, 0) == find_identity_from(
                    self@,
                    identity@,
                    i as nat,
                ),
            decreases n - i,
        {
            match &self.nodes[2 * (i as usize)] {
                Node::Leaf(kp) => {
                    if equal(kp.identity.as_slice(), identity) {
                        return Some(i);
                    }
                },
                _ => {},
            }
            i += 1;
        }
        None
    }

    /// The first leaf that holds the key package `kp`.
    pub fn find_package(&self, kp: &KeyPackage) -> (found: Option<u32>)
        requires
            self.wf(),
        ensures
            match found {
                Some(i) => find_package_from(self@, kp@, 0) == Some(i as nat) && i < leaf_count(
                    self@,
                ) && leaf_at(self@, i as nat) == NodeView::Leaf(kp@),
                None => find_package_from(self@, kp@, 0) is None,
            },
    {
        let n = self.leaf_count();
        let mut i: u32 = 0;
        while i < n
            invariant
                self.wf(),
                n == leaf_count(self@),
                i <= n,
                find_package_from(self@, kp@, 0) == find_package_from(self@, kp@, i as nat),
            decreases n - i,
        {
            match &self.nodes[2 * (i as usize)] {
                Node::Leaf(held) => {
                    if held.same(kp) {
                        return Some(i);
                    }
                },
                _ => {},
            }
            i += 1;
        }
        None
    }

    /// Builds a tree from its nodes; `None` where they do not have the shape
    /// of a tree.
    pub fn from_nodes(nodes: Vec<Node>) -> (out: Option<RatchetTree>)
        ensures
            match out {
                Some(tree) => tree.wf() && tree@ == node_views(nodes@),
                None => !tree_wf(node_views(nodes@)),
            },
    {
        let len = nodes.len();
        if len % 2 != 1 || len > 2 * (MAX_LEAVES as usize) - 1 {
            return None;
        }
        let n = ((len + 1) / 2) as u32;
        if !crate::treemath::is_power_of_two(n) {
            return None;
        }
        let ghost t = node_views(nodes@);
        let mut i: usize = 0;
        while i < len
            invariant
                i <= len,
                len == nodes@.len(),
                t == node_views(nodes@),
                forall|j: int| 0 <= j < i && j % 2 == 0 ==> !(#[trigger] t[j] is Parent),
                forall|j: int| 0 <= j < i && j % 2 == 1 ==> !(#[trigger] t[j] is Leaf),
                forall|j: int| 0 <= j < i ==> node_ok(#[trigger] t[j]),
            decreases len - i,
        {
            match &nodes[i] {
                Node::Blank => {},
                Node::Leaf(kp) => {
                    if i % 2 == 1 || kp.init_key.len() != HPKE_KEY_LEN {
                        assert(t[i as int] is Leaf);
                        assert(i % 2 == 1 || !node_ok(t[i as int]));
                        return None;
                    }
                },
                Node::Parent(_) => {
                    if i % 2 == 0 {
                        assert(t[i as int] is Parent);
                        return None;
                    }
                },
            }
            i = i + 1;
        }
        Some(RatchetTree { nodes })
    }

    /// The nodes of this tree, in array order.
    pub fn nodes(&self) -> (nodes: &Vec<Node>)
        ensures
            node_views(nodes@) == self@,
    {
        &self.nodes
    }

    /// The nodes of this tree, in array order.
    pub fn into_nodes(self) -> (nodes: Vec<Node>)
        ensures
            node_views(nodes@) == self@,
    {
        self.nodes
    }

    /// Gives a new member a leaf: the leftmost blank leaf, or, where no leaf
    /// is blank, the first leaf of a tree grown by one level. Fails, leaving
    /// the tree as it was, with `InvalidKeyPackage` where the HPKE key has not
    /// the length of such a key, and else with `TreeFull` where the tree would
    /// grow beyond `MAX_LEAVES`.
    pub fn add_leaf(&mut self, key_package: KeyPackage) -> (r: Result<u32, EngineError>)
        requires
            old(self).wf(),
        ensures
            final(self).wf(),
            match spec_try_add_leaf(old(self)@, key_package@) {
                Ok((tree, leaf)) => r == Ok::<u32, EngineError>(leaf as u32) && leaf < MAX_LEAVES
                    && final(self)@ == tree,
                Err(e) => r == Err::<u32, EngineError>(e) && final(self)@ == old(self)@,
            },
    {
        if key_package.init_key.len() != HPKE_KEY_LEN {
            return Err(EngineError::Validation(ValidationReason::InvalidKeyPackage));
        }
        let ghost before = self@;
        let ghost kp = key_package@;
        match self.first_blank_leaf() {
            Some(i) => {
                self.nodes[2 * (i as usize)] = Node::Leaf(key_package);
                assert(self@ =~= before.update(2 * i, NodeView::Leaf(kp)));
                assert(tree_wf(self@));
                Ok(i)
            },
            None => {
                let n = self.leaf_count();
                if n >= MAX_LEAVES {
                    return Err(EngineError::TreeFull);
                }
                let added = self.nodes.len() + 1;
                let mut k: usize = 0;
                while k < added
                    invariant
                        k <= added,
                        added == before.len() + 1,
                        self@ =~= before + Seq::new(k as nat, |i: int| NodeView::Blank),
                    decreases added - k,
                {
                    let ghost prev = self@;
                    self.nodes.push(Node::Blank);
                    assert(self@ =~= prev.push(NodeView::Blank));
                    k += 1;
                }
                assert(self@ =~= spec_extend(before));
                self.nodes[2 * (n as usize)] = Node::Leaf(key_package);
                assert(self@ =~= spec_extend(before).update(2 * n, NodeView::Leaf(kp)));
                proof {
                    lemma_double(n as nat);
                    lemma_max_leaves();
                    lemma_pow2_gap(n as nat, MAX_LEAVES as nat);
                    assert(leaf_count(self@) == 2 * n);
                    assert(tree_wf(self@));
                }
                Ok(n)
            },
        }
    }
}

} // verus!
