//! The secret tree of one epoch: from the epoch's encryption secret it
//! derives one secret per leaf, and from each leaf secret two ratchets, one
//! for handshake messages and one for application messages. A ratchet hands
//! out one key and nonce per generation and only moves forward, so that no
//! key is handed out twice and a later key does not give away an earlier one.

use crate::bytes::{copy, spec_u64_be, u64_be};
use crate::crypto::{HASH_LEN, KEY_LEN, NONCE_LEN};
use crate::errors::EngineError;
use crate::key_schedule::{
    derive_secret, expand_with_label, spec_derive_secret, spec_expand_with_label,
};
use crate::treemath::is_pow2;
use vstd::pervasive::unreached;
use vstd::prelude::*;
use vstd::string::*;

verus! {

/// Which of the two ratchets of a leaf a key comes from.
#[derive(Debug, Clone, Copy, PartialEq, Eq, Structural)]
pub enum SecretKind {
    /// Keys for proposals and commits.
    Handshake,
    /// Keys for application data.
    Application,
}

/// A ratchet: the next generation that can still be asked for, and the
/// secret of that generation.
pub struct RatchetView {
    pub generation: nat,
    pub secret: Seq<u8>,
}

/// The ratchets of a secret tree and its forward window.
pub struct SecretTreeView {
    pub handshake: Seq<RatchetView>,
    pub application: Seq<RatchetView>,
    pub max_forward: nat,
}

/// A key and a nonce for one message.
pub struct MessageKeyView {
    pub key: Seq<u8>,
    pub nonce: Seq<u8>,
}

/// The secret of a leaf: from the encryption secret at the root, one labelled
/// expansion per level, to the left or to the right.
pub open spec fn spec_leaf_secret(secret: Seq<u8>, leaf: nat, leaves: nat) -> Seq<u8>
    decreases leaves,
{
    if leaves <= 1 {
        secret
    } else if leaf < leaves / 2 {
        spec_leaf_secret(
            spec_expand_with_label(secret, "tree".spec_bytes(), "left".spec_bytes(), HASH_LEN as nat),
            leaf,
            leaves / 2,
        )
    } else {
        spec_leaf_secret(
            spec_expand_with_label(secret, "tree".spec_bytes(), "right".spec_bytes(), HASH_LEN as nat),
            (leaf - leaves / 2) as nat,
            leaves / 2,
        )
    }
}

/// The secret that follows the secret of generation `generation`.
pub open spec fn spec_next_secret(secret: Seq<u8>, generation: nat) -> Seq<u8> {
    spec_expand_with_label(
        secret,
        "secret".spec_bytes(),
        spec_u64_be(generation as u64),
        HASH_LEN as nat,
    )
}

/// The key and nonce of generation `generation`, given its secret.
pub open spec fn spec_message_key(secret: Seq<u8>, generation: nat) -> MessageKeyView {
    MessageKeyView {
        key: spec_expand_with_label(
            secret,
            "key".spec_bytes(),
            spec_u64_be(generation as u64),
            KEY_LEN as nat,
        ),
        nonce: spec_expand_with_label(
            secret,
            "nonce".spec_bytes(),
            spec_u64_be(generation as u64),
            NONCE_LEN as nat,
        ),
    }
}

/// A ratchet moved forward by `steps` generations.
pub open spec fn spec_advance(r: RatchetView, steps: nat) -> RatchetView
    decreases steps,
{
    if steps == 0 {
        r
    } else {
        let p = spec_advance(r, (steps - 1) as nat);
        RatchetView { generation: p.generation + 1, secret: spec_next_secret(p.secret, p.generation) }
    }
}

/// The ratchets of a fresh secret tree.
pub open spec fn spec_new_tree(encryption_secret: Seq<u8>, leaves: nat, max_forward: nat) -> SecretTreeView {
    SecretTreeView {
        handshake: Seq::new(
            leaves,
            |i: int|
                RatchetView {
                    generation: 0,
                    secret: spec_derive_secret(
                        spec_leaf_secret(encryption_secret, i as nat, leaves),
                        "handshake".spec_bytes(),
                    ),
                },
        ),
        application: Seq::new(
            leaves,
            |i: int|
                RatchetView {
                    generation: 0,
                    secret: spec_derive_secret(
                        spec_leaf_secret(encryption_secret, i as nat, leaves),
                        "application".spec_bytes(),
                    ),
                },
        ),
        max_forward,
    }
}

impl SecretTreeView {
    /// The ratchets of one kind.
    pub open spec fn ratchets(self, kind: SecretKind) -> Seq<RatchetView> {
        match kind {
            SecretKind::Handshake => self.handshake,
            SecretKind::Application => self.application,
        }
    }

    /// This tree with one ratchet replaced.
    pub open spec fn with_ratchet(self, kind: SecretKind, leaf: int, r: RatchetView) -> SecretTreeView {
        match kind {
            SecretKind::Handshake => SecretTreeView {
                handshake: self.handshake.update(leaf, r),
                ..self
            },
            SecretKind::Application => SecretTreeView {
                application: self.application.update(leaf, r),
                ..self
            },
        }
    }

    /// The number of leaves.
    pub open spec fn leaves(self) -> nat {
        self.handshake.len()
    }

    /// Both kinds have one ratchet per leaf.
    pub open spec fn wf(self) -> bool {
        self.handshake.len() == self.application.len()
    }

    /// What asking for the key of `(leaf, generation, kind)` gives: the key
    /// and the tree with that ratchet moved past the generation, or the
    /// error. A generation below the ratchet's own was used or passed over.
    pub open spec fn derive(self, leaf: nat, generation: nat, kind: SecretKind) -> Result<
        (MessageKeyView, SecretTreeView),
        EngineError,
    > {
        if leaf >= self.leaves() {
            Err(EngineError::UnknownLeaf)
        } else {
            let r = self.ratchets(kind)[leaf as int];
            if generation < r.generation {
                Err(EngineError::SecretReuse)
            } else if generation - r.generation > self.max_forward {
                Err(EngineError::TooDistantInTheFuture)
            } else {
                let at = spec_advance(r, (generation - r.generation) as nat);
                Ok(
                    (
                        spec_message_key(at.secret, generation),
                        self.with_ratchet(
                            kind,
                            leaf as int,
                            spec_advance(r, (generation - r.generation + 1) as nat),
                        ),
                    ),
                )
            }
        }
    }
}

/// Moving a ratchet forward counts its generations.
pub proof fn lemma_advance_generation(r: RatchetView, steps: nat)
    ensures
        spec_advance(r, steps).generation == r.generation + steps,
    decreases steps,
{
    if steps > 0 {
        lemma_advance_generation(r, (steps - 1) as nat);
    }
}

/// A key that was handed out is not handed out again: after the key of
/// `(leaf, generation, kind)` was derived, asking for it once more fails with
/// `SecretReuse`.
pub proof fn lemma_no_key_twice(t: SecretTreeView, leaf: nat, generation: nat, kind: SecretKind)
    requires
        t.wf(),
        t.derive(leaf, generation, kind) is Ok,
    ensures
        t.derive(leaf, generation, kind)->Ok_0.1.derive(leaf, generation, kind) == Err::<
            (MessageKeyView, SecretTreeView),
            EngineError,
        >(EngineError::SecretReuse),
{
    let r = t.ratchets(kind)[leaf as int];
    lemma_advance_generation(r, (generation - r.generation + 1) as nat);
}

/// Deriving a key moves only the ratchet asked for, and only forward: no
/// generation at or below the one handed out can be asked for afterwards.
pub proof fn lemma_derive_moves_forward(t: SecretTreeView, leaf: nat, generation: nat, kind: SecretKind)
    requires
        t.wf(),
        t.derive(leaf, generation, kind) is Ok,
    ensures
        ({
            let after = t.derive(leaf, generation, kind)->Ok_0.1;
            &&& after.wf()
            &&& after.leaves() == t.leaves()
            &&& after.max_forward == t.max_forward
            &&& after.ratchets(kind)[leaf as int].generation == generation + 1
            &&& forall|l: int, k: SecretKind|
                0 <= l < t.leaves() && (l != leaf || k != kind) ==> after.ratchets(k)[l]
                    == t.ratchets(k)[l]
            &&& forall|g: nat| g <= generation ==> after.derive(leaf, g, kind) is Err
        }),
{
    let r = t.ratchets(kind)[leaf as int];
    lemma_advance_generation(r, (generation - r.generation + 1) as nat);
}

/// One ratchet: the next generation that can still be asked for, and the
/// secret of that generation.
#[derive(Debug, Clone, PartialEq, Eq)]
pub struct Ratchet {
    pub generation: u64,
    pub secret: Vec<u8>,
}

impl View for Ratchet {
    type V = RatchetView;

    open spec fn view(&self) -> RatchetView {
        RatchetView { generation: self.generation as nat, secret: self.secret@ }
    }
}

/// The content of a secret tree, as it is kept outside the engine.
#[derive(Debug, Clone, PartialEq, Eq)]
pub struct SecretTreeParts {
    pub handshake: Vec<Ratchet>,
    pub application: Vec<Ratchet>,
    pub max_forward: u32,
}

impl View for SecretTreeParts {
    type V = SecretTreeView;

    open spec fn view(&self) -> SecretTreeView {
        SecretTreeView {
            handshake: ratchet_views(self.handshake@),
            application: ratchet_views(self.application@),
            max_forward: self.max_forward as nat,
        }
    }
}

/// Whether ratchets can stand in a secret tree: each has a secret of at
/// least hash length and a generation of at most `2^32`.
pub open spec fn ratchets_valid(v: Seq<RatchetView>) -> bool {
    forall|i: int|
        0 <= i < v.len() ==> (#[trigger] v[i]).secret.len() >= HASH_LEN && v[i].generation
            <= 0x1_0000_0000
}

/// Whether the content of a secret tree is that of a secret tree: one
/// ratchet of each kind per leaf, each fit to stand in a tree.
pub open spec fn tree_parts_valid(v: SecretTreeView) -> bool {
    &&& v.handshake.len() == v.application.len()
    &&& ratchets_valid(v.handshake)
    &&& ratchets_valid(v.application)
}

/// Whether ratchets can stand in a secret tree.
fn check_ratchets(v: &Vec<Ratchet>) -> (ok: bool)
    ensures
        ok == ratchets_valid(ratchet_views(v@)),
{
    let mut i: usize = 0;
    while i < v.len()
        invariant
            i <= v@.len(),
            forall|k: int|
                0 <= k < i ==> (#[trigger] ratchet_views(v@)[k]).secret.len() >= HASH_LEN
                    && ratchet_views(v@)[k].generation <= 0x1_0000_0000,
        decreases v@.len() - i,
    {
        if v[i].secret.len() < HASH_LEN || v[i].generation > 0x1_0000_0000 {
            assert(!(ratchet_views(v@)[i as int].secret.len() >= HASH_LEN && ratchet_views(
                v@,
            )[i as int].generation <= 0x1_0000_0000));
            return false;
        }
        i += 1;
    }
    true
}

/// A copy of a list of ratchets.
fn copy_ratchets(v: &Vec<Ratchet>) -> (out: Vec<Ratchet>)
    ensures
        ratchet_views(out@) == ratchet_views(v@),
{
    let mut out: Vec<Ratchet> = Vec::new();
    let mut i: usize = 0;
    while i < v.len()
        invariant
            i <= v@.len(),
            out@.len() == i,
            forall|k: int| 0 <= k < i ==> (#[trigger] out@[k])@ == v@[k]@,
        decreases v@.len() - i,
    {
        out.push(Ratchet { generation: v[i].generation, secret: copy(v[i].secret.as_slice()) });
        i += 1;
    }
    assert(ratchet_views(out@) =~= ratchet_views(v@));
    out
}

/// The views of a sequence of ratchets.
pub open spec fn ratchet_views(v: Seq<Ratchet>) -> Seq<RatchetView> {
    Seq::new(v.len(), |i: int| v[i]@)
}

/// The secret tree of one epoch.
#[derive(Debug)]
pub struct SecretTree {
    handshake: Vec<Ratchet>,
    application: Vec<Ratchet>,
    max_forward: u32,
}

impl View for SecretTree {
    type V = SecretTreeView;

    closed spec fn view(&self) -> SecretTreeView {
        SecretTreeView {
            handshake: ratchet_views(self.handshake@),
            application: ratchet_views(self.application@),
            max_forward: self.max_forward as nat,
        }
    }
}

/// Appends to `out` the secrets of the `leaves` leaves below a node with
/// secret `secret`, from left to right.
fn fill_leaf_secrets(secret: &[u8], leaves: u32, out: &mut Vec<Vec<u8>>)
    requires
        secret@.len() >= HASH_LEN,
        is_pow2(leaves as nat),
    ensures
        final(out)@.len() == old(out)@.len() + leaves,
        forall|i: int| 0 <= i < old(out)@.len() ==> #[trigger] final(out)@[i] == old(out)@[i],
        forall|i: int|
            0 <= i < leaves ==> (#[trigger] final(out)@[old(out)@.len() + i])@ == spec_leaf_secret(
                secret@,
                i as nat,
                leaves as nat,
            ),
        forall|i: int|
            0 <= i < leaves ==> (#[trigger] final(out)@[old(out)@.len() + i])@.len() >= HASH_LEN,
    decreases leaves,
{
    if leaves <= 1 {
        out.push(copy(secret));
    } else {
        let half = leaves / 2;
        let left = match expand_with_label(secret, "tree", "left".as_bytes(), HASH_LEN) {
            Some(v) => v,
            None => unreached(),
        };
        let right = match expand_with_label(secret, "tree", "right".as_bytes(), HASH_LEN) {
            Some(v) => v,
            None => unreached(),
        };
        let ghost n0 = out@.len() as int;
        fill_leaf_secrets(left.as_slice(), half, out);
        let ghost middle = out@;
        fill_leaf_secrets(right.as_slice(), half, out);
        assert forall|i: int| 0 <= i < leaves implies (#[trigger] out@[n0 + i])@ == spec_leaf_secret(
            secret@,
            i as nat,
            leaves as nat,
        ) && out@[n0 + i]@.len() >= HASH_LEN by {
            if i < half {
                assert(out@[n0 + i] == middle[n0 + i]);
            } else {
                assert(out@[n0 + i] == out@[(n0 + half) + (i - half)]);
            }
        }
    }
}

/// The secret that follows the secret of generation `generation`.
fn next_secret(secret: &[u8], generation: u64) -> (out: Vec<u8>)
    requires
        secret@.len() >= HASH_LEN,
    ensures
        out@ == spec_next_secret(secret@, generation as nat),
        out@.len() == HASH_LEN,
{
    let context = u64_be(generation);
    match expand_with_label(secret, "secret", context.as_slice(), HASH_LEN) {
        Some(v) => v,
        None => unreached(),
    }
}

/// Moves a ratchet that stands at generation `from` with secret `secret` to
/// generation `to`, and returns the key and nonce of `to` and the secret of
/// the generation after it.
fn ratchet_to(secret: &[u8], from: u64, to: u32) -> (out: (Vec<u8>, Vec<u8>, Vec<u8>))
    requires
        secret@.len() >= HASH_LEN,
        from <= to,
    ensures
        ({
            let start = RatchetView { generation: from as nat, secret: secret@ };
            let at = spec_advance(start, (to - from) as nat);
            &&& out.0@ == spec_message_key(at.secret, to as nat).key
            &&& out.1@ == spec_message_key(at.secret, to as nat).nonce
            &&& out.2@ == spec_advance(start, (to - from + 1) as nat).secret
            &&& out.0@.len() == KEY_LEN
            &&& out.1@.len() == NONCE_LEN
            &&& out.2@.len() == HASH_LEN
        }),
{
    let ghost start = RatchetView { generation: from as nat, secret: secret@ };
    let mut cur: Vec<u8> = copy(secret);
    let mut g: u64 = from;
    while g < to as u64
        invariant
            from <= g <= to,
            cur@.len() >= HASH_LEN,
            start == (RatchetView { generation: from as nat, secret: secret@ }),
            spec_advance(start, (g - from) as nat) == (RatchetView {
                generation: g as nat,
                secret: cur@,
            }),
        decreases to - g,
    {
        cur = next_secret(cur.as_slice(), g);
        g = g + 1;
    }
    let context = u64_be(to as u64);
    let key = match expand_with_label(cur.as_slice(), "key", context.as_slice(), KEY_LEN) {
        Some(v) => v,
        None => unreached(),
    };
    let nonce = match expand_with_label(cur.as_slice(), "nonce", context.as_slice(), NONCE_LEN) {
        Some(v) => v,
        None => unreached(),
    };
    let next = next_secret(cur.as_slice(), to as u64);
    (key, nonce, next)
}

impl SecretTree {
    /// What every tree built by this module keeps: one ratchet of each kind
    /// per leaf, each with a secret of at least hash length and a generation
    /// of at most `2^32`.
    pub closed spec fn wf(&self) -> bool {
        &&& self.handshake@.len() == self.application@.len()
        &&& forall|i: int|
            0 <= i < self.handshake@.len() ==> (#[trigger] self.handshake@[i]).secret@.len()
                >= HASH_LEN && self.handshake@[i].generation <= 0x1_0000_0000
        &&& forall|i: int|
            0 <= i < self.application@.len() ==> (#[trigger] self.application@[i]).secret@.len()
                >= HASH_LEN && self.application@[i].generation <= 0x1_0000_0000
    }

    /// The content of this tree, to be kept outside the engine.
    pub fn to_parts(&self) -> (parts: SecretTreeParts)
        requires
            self.wf(),
        ensures
            parts@ == self@,
            tree_parts_valid(parts@),
    {
        proof {
            assert forall|i: int| 0 <= i < self.handshake@.len() implies (
            #[trigger] ratchet_views(self.handshake@)[i]).secret.len() >= HASH_LEN
                && ratchet_views(self.handshake@)[i].generation <= 0x1_0000_0000 by {
                assert(ratchet_views(self.handshake@)[i] == self.handshake@[i]@);
            }
            assert forall|i: int| 0 <= i < self.application@.len() implies (
            #[trigger] ratchet_views(self.application@)[i]).secret.len() >= HASH_LEN
                && ratchet_views(self.application@)[i].generation <= 0x1_0000_0000 by {
                assert(ratchet_views(self.application@)[i] == self.application@[i]@);
            }
        }
        SecretTreeParts {
            handshake: copy_ratchets(&self.handshake),
            application: copy_ratchets(&self.application),
            max_forward: self.max_forward,
        }
    }

    /// The tree with a content that was kept outside the engine; `None`
    /// exactly where the content is not that of a secret tree.
    pub fn from_parts(parts: SecretTreeParts) -> (r: Option<SecretTree>)
        ensures
            r is Some <==> tree_parts_valid(parts@),
            r matches Some(tree) ==> tree.wf() && tree@ == parts@,
    {
        if parts.handshake.len() != parts.application.len() || !check_ratchets(&parts.handshake)
            || !check_ratchets(&parts.application) {
            return None;
        }
        let SecretTreeParts { handshake, application, max_forward } = parts;
        proof {
            assert forall|i: int| 0 <= i < handshake@.len() implies (
            #[trigger] handshake@[i]).secret@.len() >= HASH_LEN && handshake@[i].generation
                <= 0x1_0000_0000 by {
                assert(ratchet_views(handshake@)[i] == handshake@[i]@);
            }
            assert forall|i: int| 0 <= i < application@.len() implies (
            #[trigger] application@[i]).secret@.len() >= HASH_LEN && application@[i].generation
                <= 0x1_0000_0000 by {
                assert(ratchet_views(application@)[i] == application@[i]@);
            }
        }
        Some(SecretTree { handshake, application, max_forward })
    }

    /// A well-formed tree has a well-formed view.
    pub proof fn lemma_view_wf(&self)
        requires
            self.wf(),
        ensures
            self@.wf(),
    {
    }

    /// The secret tree of an epoch with encryption secret `encryption_secret`
    /// over `leaves` leaves, every ratchet at generation zero.
    pub fn new(encryption_secret: &[u8], leaves: u32, max_forward: u32) -> (tree: SecretTree)
        requires
            encryption_secret@.len() >= HASH_LEN,
            is_pow2(leaves as nat),
        ensures
            tree.wf(),
            tree@ == spec_new_tree(encryption_secret@, leaves as nat, max_forward as nat),
            tree@.wf(),
    {
        let mut secrets: Vec<Vec<u8>> = Vec::new();
        fill_leaf_secrets(encryption_secret, leaves, &mut secrets);
        assert forall|k: int| 0 <= k < secrets@.len() implies (#[trigger] secrets@[k])@
            == spec_leaf_secret(encryption_secret@, k as nat, leaves as nat) && secrets@[k]@.len()
            >= HASH_LEN by {
            assert(secrets@[k] == secrets@[0 + k]);
        }
        let mut handshake: Vec<Ratchet> = Vec::new();
        let mut application: Vec<Ratchet> = Vec::new();
        let mut i: usize = 0;
        while i < secrets.len()
            invariant
                i <= secrets@.len(),
                secrets@.len() == leaves,
                handshake@.len() == i,
                application@.len() == i,
                forall|k: int| 0 <= k < secrets@.len() ==> #[trigger] secrets@[k]@.len() >= HASH_LEN,
                forall|k: int|
                    0 <= k < secrets@.len() ==> (#[trigger] secrets@[k])@ == spec_leaf_secret(
                        encryption_secret@,
                        k as nat,
                        leaves as nat,
                    ),
                forall|k: int|
                    0 <= k < i ==> (#[trigger] handshake@[k])@ == spec_new_tree(
                        encryption_secret@,
                        leaves as nat,
                        max_forward as nat,
                    ).handshake[k] && handshake@[k].secret@.len() == HASH_LEN
                        && handshake@[k].generation == 0,
                forall|k: int|
                    0 <= k < i ==> (#[trigger] application@[k])@ == spec_new_tree(
                        encryption_secret@,
                        leaves as nat,
                        max_forward as nat,
                    ).application[k] && application@[k].secret@.len() == HASH_LEN
                        && application@[k].generation == 0,
            decreases secrets@.len() - i,
        {
            let h = derive_secret(secrets[i].as_slice(), "handshake");
            let a = derive_secret(secrets[i].as_slice(), "application");
            handshake.push(Ratchet { generation: 0, secret: h });
            application.push(Ratchet { generation: 0, secret: a });
            i += 1;
        }
        let tree = SecretTree { handshake, application, max_forward };
        assert(tree@.handshake =~= spec_new_tree(
            encryption_secret@,
            leaves as nat,
            max_forward as nat,
        ).handshake);
        assert(tree@.application =~= spec_new_tree(
            encryption_secret@,
            leaves as nat,
            max_forward as nat,
        ).application);
        tree
    }

    /// The key and nonce of `(leaf, generation, kind)` and the secret of the
    /// generation after it, without moving the ratchet.
    fn compute(&self, leaf: u32, generation: u32, kind: SecretKind) -> (r: Result<
        (Vec<u8>, Vec<u8>, Vec<u8>),
        EngineError,
    >)
        requires
            self.wf(),
        ensures
            self@.wf(),
            match self@.derive(leaf as nat, generation as nat, kind) {
                Ok((key, after)) => r matches Ok(out) && out.0@ == key.key && out.1@ == key.nonce
                    && out.0@.len() == KEY_LEN && out.1@.len() == NONCE_LEN && out.2@.len()
                    == HASH_LEN && after == self@.with_ratchet(
                    kind,
                    leaf as int,
                    RatchetView { generation: (generation + 1) as nat, secret: out.2@ },
                ),
                Err(e) => r == Err::<(Vec<u8>, Vec<u8>, Vec<u8>), EngineError>(e),
            },
    {
        let i = leaf as usize;
        if i >= self.handshake.len() {
            return Err(EngineError::UnknownLeaf);
        }
        let ghost start = self@.ratchets(kind)[i as int];
        let start_gen: u64 = match kind {
            SecretKind::Handshake => self.handshake[i].generation,
            SecretKind::Application => self.application[i].generation,
        };
        if (generation as u64) < start_gen {
            return Err(EngineError::SecretReuse);
        }
        if generation as u64 - start_gen > self.max_forward as u64 {
            return Err(EngineError::TooDistantInTheFuture);
        }
        let out = match kind {
            SecretKind::Handshake => ratchet_to(
                self.handshake[i].secret.as_slice(),
                start_gen,
                generation,
            ),
            SecretKind::Application => ratchet_to(
                self.application[i].secret.as_slice(),
                start_gen,
                generation,
            ),
        };
        proof {
            lemma_advance_generation(start, (generation - start_gen + 1) as nat);
        }
        Ok(out)
    }

    /// Hands out the key and nonce of `(leaf, generation, kind)` and moves that
    /// ratchet past the generation. Fails, leaving the tree as it was, with
    /// `UnknownLeaf` for a leaf outside the tree, with `SecretReuse` for a
    /// generation that was handed out or passed over before, and with
    /// `TooDistantInTheFuture` for one more than the forward window ahead.
    pub fn derive_message_key(&mut self, leaf: u32, generation: u32, kind: SecretKind) -> (r: Result<
        (Vec<u8>, Vec<u8>),
        EngineError,
    >)
        requires
            old(self).wf(),
        ensures
            final(self).wf(),
            old(self)@.wf(),
            final(self)@.wf(),
            match old(self)@.derive(leaf as nat, generation as nat, kind) {
                Ok((key, after)) => r matches Ok(pair) && pair.0@ == key.key && pair.1@ == key.nonce
                    && pair.0@.len() == KEY_LEN && pair.1@.len() == NONCE_LEN && final(self)@
                    == after,
                Err(e) => r == Err::<(Vec<u8>, Vec<u8>), EngineError>(e) && final(self)@ == old(
                    self,
                )@,
            },
    {
        match self.compute(leaf, generation, kind) {
            Err(e) => Err(e),
            Ok((key, nonce, next)) => {
                let i = leaf as usize;
                let moved = Ratchet { generation: generation as u64 + 1, secret: next };
                let ghost before = self@;
                match kind {
                    SecretKind::Handshake => {
                        self.handshake[i] = moved;
                        assert(self@.handshake =~= before.handshake.update(i as int, moved@));
                    },
                    SecretKind::Application => {
                        self.application[i] = moved;
                        assert(self@.application =~= before.application.update(i as int, moved@));
                    },
                }
                Ok((key, nonce))
            },
        }
    }

    /// The key and nonce that `derive_message_key` would hand out, without
    /// moving the ratchet.
    pub fn peek_message_key(&self, leaf: u32, generation: u32, kind: SecretKind) -> (r: Result<
        (Vec<u8>, Vec<u8>),
        EngineError,
    >)
        requires
            self.wf(),
        ensures
            match self@.derive(leaf as nat, generation as nat, kind) {
                Ok((key, after)) => r matches Ok(pair) && pair.0@ == key.key && pair.1@ == key.nonce
                    && pair.0@.len() == KEY_LEN && pair.1@.len() == NONCE_LEN,
                Err(e) => r == Err::<(Vec<u8>, Vec<u8>), EngineError>(e),
            },
    {
        match self.compute(leaf, generation, kind) {
            Err(e) => Err(e),
            Ok((key, nonce, _)) => Ok((key, nonce)),
        }
    }

    /// The next generation of a ratchet: the lowest that can still be asked
    /// for. `None` for a leaf outside the tree.
    pub fn next_generation(&self, leaf: u32, kind: SecretKind) -> (g: Option<u64>)
        requires
            self.wf(),
        ensures
            match g {
                Some(n) => leaf < self@.leaves() && n == self@.ratchets(kind)[leaf as int].generation,
                None => leaf >= self@.leaves(),
            },
    {
        let i = leaf as usize;
        if i >= self.handshake.len() {
            return None;
        }
        match kind {
            SecretKind::Handshake => Some(self.handshake[i].generation),
            SecretKind::Application => Some(self.application[i].generation),
        }
    }

    /// The number of leaves of this tree.
    pub fn leaf_count(&self) -> (n: usize)
        ensures
            n == self@.leaves(),
    {
        self.handshake.len()
    }
}

} // verus!
