//! The store of message secrets: the secret tree of the current epoch and
//! those of a bounded number of epochs before it, oldest evicted first.

use crate::crypto::{KEY_LEN, NONCE_LEN};
use crate::errors::EngineError;
use crate::secret_tree::{
    tree_parts_valid, MessageKeyView, SecretKind, SecretTree, SecretTreeParts, SecretTreeView,
};
use vstd::prelude::*;

verus! {

/// The retained secret trees, oldest first, with the epoch of the oldest, the
/// epoch at which the store began, and the number of past epochs to keep.
pub struct StoreView {
    pub max_past_epochs: nat,
    pub origin: nat,
    pub first_epoch: nat,
    pub trees: Seq<SecretTreeView>,
}

impl StoreView {
    /// The epoch of the newest tree.
    pub open spec fn current_epoch(self) -> nat {
        (self.first_epoch + self.trees.len() - 1) as nat
    }

    /// Whether the secrets of `epoch` are retained.
    pub open spec fn retained(self, epoch: nat) -> bool {
        self.first_epoch <= epoch <= self.current_epoch()
    }

    /// The tree of a retained epoch.
    pub open spec fn tree(self, epoch: nat) -> SecretTreeView {
        self.trees[epoch - self.first_epoch]
    }

    /// The store holds the current epoch and the epochs before it, back to
    /// the origin or as far as the window reaches, whichever is later.
    pub open spec fn wf(self) -> bool {
        &&& self.trees.len() >= 1
        &&& self.origin <= self.first_epoch
        &&& self.first_epoch == if self.current_epoch() - self.origin > self.max_past_epochs {
            (self.current_epoch() - self.max_past_epochs) as nat
        } else {
            self.origin
        }
        &&& forall|i: int| 0 <= i < self.trees.len() ==> (#[trigger] self.trees[i]).wf()
    }

    /// The store after the tree of the next epoch was pushed: the new tree is
    /// the newest, and the oldest has left if the window was full.
    pub open spec fn push(self, tree: SecretTreeView) -> StoreView {
        if self.trees.len() > self.max_past_epochs {
            StoreView {
                first_epoch: self.first_epoch + 1,
                trees: self.trees.skip(1).push(tree),
                ..self
            }
        } else {
            StoreView { trees: self.trees.push(tree), ..self }
        }
    }

    /// What asking for a message key of `epoch` gives: `WrongEpoch` for an
    /// epoch that has not begun, `TooDistantInThePast` for one that is no
    /// longer (or was never) retained, and otherwise what the tree of that
    /// epoch gives, with the store holding the moved tree.
    pub open spec fn derive(self, epoch: nat, leaf: nat, generation: nat, kind: SecretKind) -> Result<
        (MessageKeyView, StoreView),
        EngineError,
    > {
        if epoch > self.current_epoch() {
            Err(EngineError::WrongEpoch)
        } else if epoch < self.first_epoch {
            Err(EngineError::TooDistantInThePast)
        } else {
            match self.tree(epoch).derive(leaf, generation, kind) {
                Ok((key, tree)) => Ok(
                    (
                        key,
                        StoreView {
                            trees: self.trees.update(epoch - self.first_epoch, tree),
                            ..self
                        },
                    ),
                ),
                Err(e) => Err(e),
            }
        }
    }
}

/// The retention window: the secrets of an epoch that the store has seen are
/// retained exactly while the current epoch is at most `max_past_epochs`
/// ahead of it.
pub proof fn lemma_retention_window(s: StoreView, epoch: nat)
    requires
        s.wf(),
        s.origin <= epoch <= s.current_epoch(),
    ensures
        s.retained(epoch) <==> s.current_epoch() - epoch <= s.max_past_epochs,
{
}

/// Pushing the tree of the next epoch keeps the store well formed, moves the
/// current epoch forward by one, and never holds more than
/// `max_past_epochs + 1` trees.
pub proof fn lemma_push(s: StoreView, tree: SecretTreeView)
    requires
        s.wf(),
        tree.wf(),
    ensures
        s.push(tree).wf(),
        s.push(tree).current_epoch() == s.current_epoch() + 1,
        s.push(tree).tree(s.current_epoch() + 1) == tree,
        s.push(tree).origin == s.origin,
        s.push(tree).max_past_epochs == s.max_past_epochs,
        s.trees.len() <= s.max_past_epochs + 1 ==> s.push(tree).trees.len() <= s.max_past_epochs + 1,
        forall|e: nat|
            s.push(tree).retained(e) && e <= s.current_epoch() ==> s.retained(e) && s.push(
                tree,
            ).tree(e) == s.tree(e),
{
}

/// Handing out a message key keeps the store well formed and changes neither
/// which epochs are retained nor how many leaves or how wide a forward window
/// any tree has.
pub proof fn lemma_derive_keeps_shape(
    s: StoreView,
    epoch: nat,
    leaf: nat,
    generation: nat,
    kind: SecretKind,
)
    requires
        s.wf(),
        s.derive(epoch, leaf, generation, kind) is Ok,
    ensures
        ({
            let after = s.derive(epoch, leaf, generation, kind)->Ok_0.1;
            &&& after.wf()
            &&& after.first_epoch == s.first_epoch
            &&& after.origin == s.origin
            &&& after.max_past_epochs == s.max_past_epochs
            &&& after.trees.len() == s.trees.len()
            &&& forall|e: nat|
                s.retained(e) ==> after.tree(e).leaves() == s.tree(e).leaves() && after.tree(
                    e,
                ).max_forward == s.tree(e).max_forward
        }),
{
    crate::secret_tree::lemma_derive_moves_forward(s.tree(epoch), leaf, generation, kind);
    let after = s.derive(epoch, leaf, generation, kind)->Ok_0.1;
    assert forall|e: nat| s.retained(e) implies after.tree(e).leaves() == s.tree(e).leaves()
        && after.tree(e).max_forward == s.tree(e).max_forward by {
        if e != epoch {
            assert(after.tree(e) == s.tree(e));
        }
    }
}

/// A well-formed store holds at most `max_past_epochs + 1` trees.
pub proof fn lemma_store_size(s: StoreView)
    requires
        s.wf(),
    ensures
        s.trees.len() <= s.max_past_epochs + 1,
{
}

/// The content of a store, as it is kept outside the engine.
#[derive(Debug, Clone, PartialEq, Eq)]
pub struct StoreParts {
    pub max_past_epochs: usize,
    pub origin: u64,
    pub first_epoch: u64,
    pub trees: Vec<SecretTreeParts>,
}

impl View for StoreParts {
    type V = StoreView;

    open spec fn view(&self) -> StoreView {
        StoreView {
            max_past_epochs: self.max_past_epochs as nat,
            origin: self.origin as nat,
            first_epoch: self.first_epoch as nat,
            trees: Seq::new(self.trees@.len(), |i: int| self.trees@[i]@),
        }
    }
}

/// Whether the content of a store is that of a store: it is well formed,
/// every tree is a secret tree, and its current epoch is one that the
/// counter can hold.
pub open spec fn store_parts_valid(v: StoreView) -> bool {
    &&& v.wf()
    &&& v.current_epoch() <= u64::MAX
    &&& forall|i: int| 0 <= i < v.trees.len() ==> tree_parts_valid(#[trigger] v.trees[i])
}

/// The store of message secrets of one group.
#[derive(Debug)]
pub struct MessageSecretsStore {
    max_past_epochs: usize,
    origin: u64,
    first_epoch: u64,
    trees: Vec<SecretTree>,
}

impl View for MessageSecretsStore {
    type V = StoreView;

    closed spec fn view(&self) -> StoreView {
        StoreView {
            max_past_epochs: self.max_past_epochs as nat,
            origin: self.origin as nat,
            first_epoch: self.first_epoch as nat,
            trees: Seq::new(self.trees@.len(), |i: int| self.trees@[i]@),
        }
    }
}

impl MessageSecretsStore {
    /// What every store built by this module keeps.
    pub closed spec fn wf(&self) -> bool {
        &&& self@.wf()
        &&& self.first_epoch + self.trees@.len() - 1 <= u64::MAX
        &&& forall|i: int| 0 <= i < self.trees@.len() ==> (#[trigger] self.trees@[i]).wf()
    }

    /// The content of this store, to be kept outside the engine.
    pub fn to_parts(&self) -> (parts: StoreParts)
        requires
            self.wf(),
        ensures
            parts@ == self@,
            store_parts_valid(parts@),
    {
        let mut trees: Vec<SecretTreeParts> = Vec::new();
        let mut i: usize = 0;
        while i < self.trees.len()
            invariant
                self.wf(),
                i <= self.trees@.len(),
                trees@.len() == i,
                forall|k: int|
                    0 <= k < i ==> (#[trigger] trees@[k])@ == self.trees@[k]@ && tree_parts_valid(
                        trees@[k]@,
                    ),
            decreases self.trees@.len() - i,
        {
            trees.push(self.trees[i].to_parts());
            i += 1;
        }
        let parts = StoreParts {
            max_past_epochs: self.max_past_epochs,
            origin: self.origin,
            first_epoch: self.first_epoch,
            trees,
        };
        assert(parts@.trees =~= self@.trees);
        assert forall|k: int| 0 <= k < parts@.trees.len() implies tree_parts_valid(
            #[trigger] parts@.trees[k],
        ) by {
            assert(parts@.trees[k] == trees@[k]@);
        }
        parts
    }

    /// The store with a content that was kept outside the engine; `None`
    /// exactly where the content is not that of a store.
    pub fn from_parts(parts: StoreParts) -> (r: Option<MessageSecretsStore>)
        ensures
            r is Some <==> store_parts_valid(parts@),
            r matches Some(store) ==> store.wf() && store@ == parts@,
    {
        let ghost v = parts@;
        let StoreParts { max_past_epochs, origin, first_epoch, trees: tree_parts } = parts;
        let n = tree_parts.len();
        if n == 0 || origin > first_epoch || (n - 1) as u64 > u64::MAX - first_epoch {
            return None;
        }
        let current = first_epoch + (n - 1) as u64;
        let expected_first = if current - origin > max_past_epochs as u64 {
            current - max_past_epochs as u64
        } else {
            origin
        };
        if first_epoch != expected_first {
            return None;
        }
        let mut trees: Vec<SecretTree> = Vec::new();
        let mut rest = tree_parts;
        // the trees are taken from the end of `rest` and put in order afterwards
        while rest.len() > 0
            invariant
                v == parts@,
                rest@.len() + trees@.len() == n,
                n == v.trees.len(),
                forall|k: int| 0 <= k < rest@.len() ==> (#[trigger] rest@[k])@ == v.trees[k],
                forall|k: int|
                    0 <= k < trees@.len() ==> (#[trigger] trees@[k]).wf() && trees@[k]@
                        == v.trees[n - 1 - k] && tree_parts_valid(v.trees[n - 1 - k]),
            decreases rest@.len(),
        {
            let ghost at = rest@.len() - 1;
            assert(rest@[at]@ == v.trees[at]);
            let last = match rest.pop() {
                Some(x) => x,
                None => vstd::pervasive::unreached(),
            };
            match SecretTree::from_parts(last) {
                Some(tree) => {
                    trees.push(tree);
                },
                None => {
                    assert(!tree_parts_valid(v.trees[at]));
                    return None;
                },
            }
        }
        let mut ordered: Vec<SecretTree> = Vec::new();
        while trees.len() > 0
            invariant
                ordered@.len() + trees@.len() == n,
                n == v.trees.len(),
                forall|k: int|
                    0 <= k < trees@.len() ==> (#[trigger] trees@[k]).wf() && trees@[k]@
                        == v.trees[n - 1 - k] && tree_parts_valid(v.trees[n - 1 - k]),
                forall|k: int|
                    0 <= k < ordered@.len() ==> (#[trigger] ordered@[k]).wf() && ordered@[k]@
                        == v.trees[k] && tree_parts_valid(v.trees[k]),
            decreases trees@.len(),
        {
            let tree = match trees.pop() {
                Some(x) => x,
                None => vstd::pervasive::unreached(),
            };
            ordered.push(tree);
        }
        let store = MessageSecretsStore { max_past_epochs, origin, first_epoch, trees: ordered };
        assert(store@.trees =~= v.trees);
        proof {
            assert forall|k: int| 0 <= k < store@.trees.len() implies (
            #[trigger] store@.trees[k]).wf() by {
                assert(store@.trees[k] == ordered@[k]@);
                ordered@[k].lemma_view_wf();
            }
        }
        Some(store)
    }

    /// A well-formed store has a well-formed view.
    pub proof fn lemma_view_wf(&self)
        requires
            self.wf(),
        ensures
            self@.wf(),
            self@.current_epoch() <= u64::MAX,
    {
    }

    /// A store that begins at `epoch` with the secret tree of that epoch.
    pub fn new(max_past_epochs: usize, epoch: u64, tree: SecretTree) -> (store: MessageSecretsStore)
        requires
            tree.wf(),
        ensures
            store.wf(),
            store@ == (StoreView {
                max_past_epochs: max_past_epochs as nat,
                origin: epoch as nat,
                first_epoch: epoch as nat,
                trees: seq![tree@],
            }),
    {
        let ghost t = tree@;
        proof {
            tree.lemma_view_wf();
        }
        let mut trees: Vec<SecretTree> = Vec::new();
        trees.push(tree);
        let store = MessageSecretsStore { max_past_epochs, origin: epoch, first_epoch: epoch, trees };
        assert(store@.trees =~= seq![t]);
        store
    }

    /// The current epoch.
    pub fn current_epoch(&self) -> (epoch: u64)
        requires
            self.wf(),
        ensures
            epoch == self@.current_epoch(),
    {
        self.first_epoch + (self.trees.len() as u64 - 1)
    }

    /// The number of past epochs that the store keeps.
    pub fn max_past_epochs(&self) -> (n: usize)
        ensures
            n == self@.max_past_epochs,
    {
        self.max_past_epochs
    }

    /// The number of leaves of the secret tree of the current epoch.
    pub fn current_leaf_count(&self) -> (n: usize)
        requires
            self.wf(),
        ensures
            n == self@.tree(self@.current_epoch()).leaves(),
    {
        let index = self.trees.len() - 1;
        self.trees[index].leaf_count()
    }

    /// The oldest epoch whose secrets are retained.
    pub fn oldest_epoch(&self) -> (epoch: u64)
        requires
            self.wf(),
        ensures
            epoch == self@.first_epoch,
    {
        self.first_epoch
    }

    /// Makes `tree` the secret tree of the next epoch and evicts the oldest
    /// tree if more than `max_past_epochs` past epochs would be kept.
    pub fn push(&mut self, tree: SecretTree)
        requires
            old(self).wf(),
            tree.wf(),
            old(self)@.current_epoch() < u64::MAX,
        ensures
            final(self).wf(),
            final(self)@ == old(self)@.push(tree@),
    {
        let ghost before = self@;
        let ghost t = tree@;
        proof {
            tree.lemma_view_wf();
            lemma_push(before, t);
        }
        if self.trees.len() > self.max_past_epochs {
            let evicted = self.trees.remove(0);
            self.first_epoch = self.first_epoch + 1;
        }
        self.trees.push(tree);
        assert(self@.trees =~= before.push(t).trees);
    }

    /// The key and nonce that `derive_message_key` would hand out, without
    /// moving any ratchet.
    pub fn peek_message_key(&self, epoch: u64, leaf: u32, generation: u32, kind: SecretKind) -> (r:
        Result<(Vec<u8>, Vec<u8>), EngineError>)
        requires
            self.wf(),
        ensures
            match self@.derive(epoch as nat, leaf as nat, generation as nat, kind) {
                Ok((key, after)) => r matches Ok(pair) && pair.0@ == key.key && pair.1@ == key.nonce
                    && pair.0@.len() == KEY_LEN && pair.1@.len() == NONCE_LEN,
                Err(e) => r == Err::<(Vec<u8>, Vec<u8>), EngineError>(e),
            },
    {
        if epoch > self.current_epoch() {
            return Err(EngineError::WrongEpoch);
        }
        if epoch < self.first_epoch {
            return Err(EngineError::TooDistantInThePast);
        }
        let index = (epoch - self.first_epoch) as usize;
        self.trees[index].peek_message_key(leaf, generation, kind)
    }

    /// The next generation of a ratchet of the current epoch. `None` for a
    /// leaf outside the tree of that epoch.
    pub fn next_generation(&self, leaf: u32, kind: SecretKind) -> (g: Option<u64>)
        requires
            self.wf(),
        ensures
            match g {
                Some(n) => leaf < self@.tree(self@.current_epoch()).leaves() && n == self@.tree(
                    self@.current_epoch(),
                ).ratchets(kind)[leaf as int].generation,
                None => leaf >= self@.tree(self@.current_epoch()).leaves(),
            },
    {
        let index = self.trees.len() - 1;
        self.trees[index].next_generation(leaf, kind)
    }

    /// Whether the secrets of `epoch` are retained.
    pub fn is_retained(&self, epoch: u64) -> (yes: bool)
        requires
            self.wf(),
        ensures
            yes == self@.retained(epoch as nat),
    {
        self.first_epoch <= epoch && epoch <= self.current_epoch()
    }

    /// Hands out the key and nonce of `(leaf, generation, kind)` in `epoch`.
    /// Fails with `WrongEpoch` for an epoch after the current one, with
    /// `TooDistantInThePast` for an epoch whose secrets are not retained, and
    /// as the secret tree of the epoch does otherwise. On failure the store
    /// is as before.
    pub fn derive_message_key(
        &mut self,
        epoch: u64,
        leaf: u32,
        generation: u32,
        kind: SecretKind,
    ) -> (r: Result<(Vec<u8>, Vec<u8>), EngineError>)
        requires
            old(self).wf(),
        ensures
            final(self).wf(),
            match old(self)@.derive(epoch as nat, leaf as nat, generation as nat, kind) {
                Ok((key, after)) => r matches Ok(pair) && pair.0@ == key.key && pair.1@ == key.nonce
                    && pair.0@.len() == KEY_LEN && pair.1@.len() == NONCE_LEN && final(self)@
                    == after,
                Err(e) => r == Err::<(Vec<u8>, Vec<u8>), EngineError>(e) && final(self)@ == old(
                    self,
                )@,
            },
    {
        if epoch > self.current_epoch() {
            return Err(EngineError::WrongEpoch);
        }
        if epoch < self.first_epoch {
            return Err(EngineError::TooDistantInThePast);
        }
        let index = (epoch - self.first_epoch) as usize;
        let ghost before = self@;
        let ghost old_trees = self.trees@;
        let r = self.trees[index].derive_message_key(leaf, generation, kind);
        proof {
            assert(before.tree(epoch as nat) == old_trees[index as int]@);
            match r {
                Ok(_) => {
                    assert(self@.trees =~= before.trees.update(
                        index as int,
                        self.trees@[index as int]@,
                    ));
                },
                Err(_) => {
                    assert(self@.trees =~= before.trees);
                },
            }
        }
        r
    }
}

} // verus!
