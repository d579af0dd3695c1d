//! The epoch transition, as a function of plain values: what a member makes
//! of a commit, step by step, from the authentication of the message to the
//! state that waits to be merged.

use crate::bytes::spec_prefixed;
use crate::crypto::{
    hpke_opened, signature_shaped, signature_valid, signed, HASH_LEN, MAX_AEAD_LEN,
};
use crate::errors::{EngineError, ValidationReason};
use crate::framing::{
    spec_confirmed_transcript_hash, spec_group_context, spec_interim_transcript_hash, BodyView,
    CommitView, MessageView, PlaintextView, ProposalView, QueuedProposalView, SealedSecretView,
    UpdatePathView,
};
use crate::group::{BundleView, GroupView};
use crate::key_package::KeyPackageView;
use crate::key_schedule::{spec_derive_epoch_secrets, spec_mac, spec_zero_key, SecretsView};
use crate::proposals::{identity_at, is_member, proposals_ok, spec_apply_proposals};
use crate::ratchet_tree::{
    leaf_at, leaf_count, spec_apply_path, spec_chain, spec_path_public_keys, spec_private_key,
    spec_public_key, spec_tree_hash, spec_try_set_leaf, NodeView,
};
use crate::secret_tree::{spec_new_tree, SecretTreeView};
use crate::treemath::{depth, spec_common_level};
use crate::welcome::{sealed_for, spec_welcome_info, spec_welcome_payload, WelcomeView};
use vstd::prelude::*;
use vstd::string::*;

verus! {

/// The state that a commit leads to, before it is merged.
pub struct StagedView {
    /// The epoch that the commit opens.
    pub epoch: nat,
    /// The interim transcript hash of the state the commit was staged on.
    pub parent: Seq<u8>,
    /// The leaf of the member for whom the commit was staged.
    pub own_leaf: nat,
    pub tree: Seq<NodeView>,
    pub secrets: SecretsView,
    pub secret_tree: SecretTreeView,
    pub interim_transcript_hash: Seq<u8>,
    pub own_private_key: Seq<u8>,
}

impl StagedView {
    /// What holds of every staged commit: the tree has the shape of a tree
    /// and holds the member, the secrets have their length, and the secret
    /// tree has one leaf per leaf of the tree.
    pub open spec fn wf(self) -> bool {
        &&& crate::ratchet_tree::tree_wf(self.tree)
        &&& is_member(self.tree, self.own_leaf)
        &&& self.secrets.wf()
        &&& self.secret_tree.wf()
        &&& self.secret_tree.leaves() == leaf_count(self.tree)
        &&& self.interim_transcript_hash.len() == HASH_LEN
        &&& self.epoch >= 1
    }
}

/// What staging a message gives.
pub enum StagedMessageView {
    StagedCommit(StagedView),
    ApplicationMessage(Seq<u8>),
    ProposalMessage(QueuedProposalView),
}

/// The info string under which path secrets are sealed.
pub open spec fn spec_path_info() -> Seq<u8> {
    "path secret".spec_bytes()
}

/// The signature key of the member at a leaf; empty for a blank leaf.
pub open spec fn signature_key_at(t: Seq<NodeView>, leaf: nat) -> Seq<u8> {
    match leaf_at(t, leaf) {
        NodeView::Leaf(kp) => kp.signature_key,
        _ => Seq::empty(),
    }
}

/// The HPKE key of the member at a leaf; empty for a blank leaf.
pub open spec fn init_key_at(t: Seq<NodeView>, leaf: nat) -> Seq<u8> {
    match leaf_at(t, leaf) {
        NodeView::Leaf(kp) => kp.init_key,
        _ => Seq::empty(),
    }
}

/// The first sealed secret at or after place `from` that is addressed to
/// `leaf`.
pub open spec fn find_sealed(secrets: Seq<SealedSecretView>, leaf: nat, from: nat) -> Option<
    SealedSecretView,
>
    decreases secrets.len() - from,
{
    if from >= secrets.len() {
        None
    } else if secrets[from as int].recipient == leaf {
        Some(secrets[from as int])
    } else {
        find_sealed(secrets, leaf, from + 1)
    }
}

/// The private key of the first bundle at or after place `from` whose HPKE
/// key is `init_key`.
pub open spec fn find_bundle(bundles: Seq<BundleView>, init_key: Seq<u8>, from: nat) -> Option<
    Seq<u8>,
>
    decreases bundles.len() - from,
{
    if from >= bundles.len() {
        None
    } else if bundles[from as int].key_package.init_key == init_key {
        Some(bundles[from as int].private_key)
    } else {
        find_bundle(bundles, init_key, from + 1)
    }
}

/// A sealed secret that is found is one of the list, addressed to the leaf
/// asked for.
pub proof fn lemma_find_sealed_some(secrets: Seq<SealedSecretView>, leaf: nat, from: nat)
    requires
        find_sealed(secrets, leaf, from) is Some,
    ensures
        exists|i: int|
            from <= i < secrets.len() && #[trigger] secrets[i] == find_sealed(
                secrets,
                leaf,
                from,
            )->Some_0 && secrets[i].recipient == leaf,
    decreases secrets.len() - from,
{
    if secrets[from as int].recipient == leaf {
        assert(secrets[from as int] == find_sealed(secrets, leaf, from)->Some_0);
    } else {
        lemma_find_sealed_some(secrets, leaf, from + 1);
    }
}

/// Appending a sealed secret keeps what is found, and makes the appended
/// one found where nothing was found for its leaf.
pub proof fn lemma_find_sealed_push(
    secrets: Seq<SealedSecretView>,
    x: SealedSecretView,
    leaf: nat,
    from: nat,
)
    requires
        from <= secrets.len(),
    ensures
        find_sealed(secrets, leaf, from) is Some ==> find_sealed(secrets.push(x), leaf, from)
            == find_sealed(secrets, leaf, from),
        find_sealed(secrets, leaf, from) is None && x.recipient == leaf ==> find_sealed(
            secrets.push(x),
            leaf,
            from,
        ) == Some(x),
        find_sealed(secrets, leaf, from) is None && x.recipient != leaf ==> find_sealed(
            secrets.push(x),
            leaf,
            from,
        ) is None,
    decreases secrets.len() - from,
{
    let pushed = secrets.push(x);
    if from < secrets.len() {
        assert(pushed[from as int] == secrets[from as int]);
        if secrets[from as int].recipient != leaf {
            lemma_find_sealed_push(secrets, x, leaf, from + 1);
        }
    } else {
        assert(pushed[from as int] == x);
        assert(find_sealed(pushed, leaf, from + 1) is None);
    }
}

/// The state with which a new member enters a group by a welcome. The
/// welcome must name the member's key package (`InvalidKeyPackage`); a tree
/// must come with it or beside it (`MalformedMessage`); the seal must open
/// under the member's private key (`DecryptionFailed`) to an epoch and a
/// joiner secret (`MalformedMessage`); the tree must hold the member's key
/// package (`UnknownLeaf`); and the confirmation tag must be the one that the
/// joiner secret gives in the context of the group, the epoch, the tree and
/// the confirmed transcript (`BadConfirmationTag`). The store of the new
/// state begins at the epoch entered.
pub open spec fn spec_join(
    w: WelcomeView,
    tree: Option<Seq<NodeView>>,
    bundle: BundleView,
    config: crate::group::GroupConfig,
) -> Result<GroupView, EngineError> {
    let chosen = if tree is Some {
        tree
    } else {
        w.tree
    };
    if w.recipient != bundle.key_package.hash_ref() {
        Err(EngineError::Validation(ValidationReason::InvalidKeyPackage))
    } else if chosen is None {
        Err(EngineError::Validation(ValidationReason::MalformedMessage))
    } else {
        let t = chosen->Some_0;
        match hpke_opened(
            bundle.private_key,
            spec_welcome_info(),
            w.recipient,
            w.kem_output,
            w.ciphertext,
        ) {
            None => Err(EngineError::Validation(ValidationReason::DecryptionFailed)),
            Some(payload) => if payload.len() != crate::welcome::WELCOME_PAYLOAD_LEN {
                Err(EngineError::Validation(ValidationReason::MalformedMessage))
            } else {
                let epoch = crate::bytes::spec_u64_from_be(payload.subrange(0, 8)) as nat;
                let joiner_secret = payload.subrange(8, 40);
                match crate::ratchet_tree::find_package_from(t, bundle.key_package, 0) {
                    None => Err(EngineError::UnknownLeaf),
                    Some(leaf) => {
                        let context = spec_group_context(
                            w.group_id,
                            epoch,
                            spec_tree_hash(t),
                            w.confirmed_transcript_hash,
                        );
                        let secrets = crate::key_schedule::spec_secrets_from_joiner(
                            joiner_secret,
                            context,
                        );
                        if w.confirmation_tag != spec_mac(
                            secrets.confirmation_key,
                            w.confirmed_transcript_hash,
                        ) {
                            Err(EngineError::Validation(ValidationReason::BadConfirmationTag))
                        } else {
                            Ok(
                                GroupView {
                                    group_id: w.group_id,
                                    epoch,
                                    tree: t,
                                    own_leaf: leaf,
                                    own_private_key: bundle.private_key,
                                    secrets,
                                    store: crate::message_secrets::StoreView {
                                        max_past_epochs: config.max_past_epochs as nat,
                                        origin: epoch,
                                        first_epoch: epoch,
                                        trees: seq![
                                            spec_new_tree(
                                                secrets.encryption_secret,
                                                leaf_count(t),
                                                config.max_forward_distance as nat,
                                            ),
                                        ],
                                    },
                                    interim_transcript_hash: spec_interim_transcript_hash(
                                        w.confirmed_transcript_hash,
                                        w.confirmation_tag,
                                    ),
                                    config,
                                    pending_commit: None,
                                    bundles: Seq::empty(),
                                },
                            )
                        }
                    },
                }
            },
        }
    }
}

/// The key packages that a list of proposals adds, in order.
pub open spec fn added_packages(qs: Seq<QueuedProposalView>) -> Seq<KeyPackageView>
    decreases qs.len(),
{
    if qs.len() == 0 {
        Seq::empty()
    } else {
        match qs.last().proposal {
            ProposalView::Add(kp) => added_packages(qs.drop_last()).push(kp),
            _ => added_packages(qs.drop_last()),
        }
    }
}

/// Whether the sealed secrets of a path reach every member of tree `t` but
/// `own`: to each, the secret of the place where its leaf meets `own` on the
/// path from `leaf_secret` is sealed.
pub open spec fn path_reaches_all(
    group_id: Seq<u8>,
    own: nat,
    t: Seq<NodeView>,
    secrets: Seq<SealedSecretView>,
    leaf_secret: Seq<u8>,
) -> bool {
    forall|b: nat|
        is_member(t, b) && b != own ==> (#[trigger] find_sealed(secrets, b, 0) matches Some(e)
            && sealed_for(
            init_key_at(t, b),
            spec_path_info(),
            group_id,
            e.kem_output,
            e.ciphertext,
            spec_chain(leaf_secret, spec_common_level(own, b)),
        ))
}

/// Whether a welcome is the one for key package `kp` into `epoch`: it names
/// the key package, carries what the commit confirmed, and seals the epoch
/// and its joiner secret to the HPKE key of the package.
pub open spec fn welcome_for(
    w: WelcomeView,
    kp: KeyPackageView,
    group_id: Seq<u8>,
    epoch: nat,
    joiner_secret: Seq<u8>,
    confirmed: Seq<u8>,
    tag: Seq<u8>,
) -> bool {
    &&& w.recipient == kp.hash_ref()
    &&& w.group_id == group_id
    &&& w.confirmed_transcript_hash == confirmed
    &&& w.confirmation_tag == tag
    &&& w.tree is None
    &&& sealed_for(
        kp.init_key,
        spec_welcome_info(),
        w.recipient,
        w.kem_output,
        w.ciphertext,
        spec_welcome_payload(epoch, joiner_secret),
    )
}

/// Whether `message` and `welcomes` are what the member in state `g` makes
/// when it commits `proposals`, with a path from `leaf_secret` if there is
/// one, and `after` is its state then: the state keeps the leaf secret as
/// pending and is otherwise unchanged; the message holds the proposals and
/// the member's own path, is signed and tagged as a message of `g`, and is
/// one that the member itself stages without error; and there is one welcome
/// per added key package, each for the epoch and joiner secret that the
/// commit leads to.
pub open spec fn commit_made(
    g: GroupView,
    after: GroupView,
    proposals: Seq<QueuedProposalView>,
    leaf_secret: Option<Seq<u8>>,
    signing_key: Seq<u8>,
    authenticated_data: Seq<u8>,
    message: PlaintextView,
    welcomes: Seq<WelcomeView>,
) -> bool {
    &&& after == GroupView { pending_commit: leaf_secret, ..g }
    &&& message.body matches BodyView::Commit(c)
    &&& c.proposals == proposals
    &&& match leaf_secret {
        None => c.path is None,
        Some(s) => c.path matches Some(p) && g.is_own_path(proposals, p, s, signing_key),
    }
    &&& Some(message) == g.signed_frame(
        message.body,
        signing_key,
        authenticated_data,
        message.confirmation_tag,
    )
    &&& after.stage_commit(message, c) matches Ok(staged)
    &&& message.confirmation_tag is Some
    &&& welcomes.len() == added_packages(proposals).len()
    &&& forall|i: int|
        0 <= i < welcomes.len() ==> welcome_for(
            #[trigger] welcomes[i],
            added_packages(proposals)[i],
            g.group_id,
            staged.epoch,
            staged.secrets.joiner_secret,
            g.confirmed_hash(message.authenticated_content()),
            message.confirmation_tag->Some_0,
        )
}

impl GroupView {
    /// The handshake message that this member sends with a body: the header
    /// of the current epoch, the signature under `signing_key`, and the
    /// membership tag. `None` where the signing key is no key pair.
    pub open spec fn signed_frame(
        self,
        body: BodyView,
        signing_key: Seq<u8>,
        authenticated_data: Seq<u8>,
        confirmation_tag: Option<Seq<u8>>,
    ) -> Option<PlaintextView> {
        let header = self.header(body.content_type(), authenticated_data);
        let tbs = header.encode() + body.encode();
        match signed(signing_key, tbs) {
            None => None,
            Some(signature) => Some(
                PlaintextView {
                    header,
                    body,
                    signature,
                    confirmation_tag,
                    membership_tag: spec_mac(
                        self.secrets.membership_key,
                        tbs + spec_prefixed(signature),
                    ),
                },
            ),
        }
    }

    /// The message that proposes `p`, or `BadSigningKey`.
    pub open spec fn propose(self, p: ProposalView, signing_key: Seq<u8>, authenticated_data: Seq<u8>) -> Result<
        PlaintextView,
        EngineError,
    > {
        match self.signed_frame(BodyView::Proposal(p), signing_key, authenticated_data, None) {
            Some(f) => Ok(f),
            None => Err(EngineError::BadSigningKey),
        }
    }

    /// Why a commit of these proposals cannot be made, if it cannot: it
    /// would be empty (`EmptyCommit`), the epoch counter is at its end
    /// (`EpochExhausted`), the group identifier is too long to be sealed with
    /// (`PayloadTooLong`), the leaf secret has not the hash length
    /// (`InvalidPath`), or the proposals cannot be committed
    /// (`MalformedProposals`).
    pub open spec fn commit_refusal(self, proposals: Seq<QueuedProposalView>, leaf_secret: Option<Seq<u8>>) -> Option<
        EngineError,
    > {
        if proposals.len() == 0 && leaf_secret is None && !self.config.allow_empty_commit {
            Some(EngineError::EmptyCommit)
        } else if self.epoch >= u64::MAX {
            Some(EngineError::EpochExhausted)
        } else if self.group_id.len() > MAX_AEAD_LEN {
            Some(EngineError::PayloadTooLong)
        } else if leaf_secret matches Some(s) && s.len() != HASH_LEN {
            Some(EngineError::InvalidPath)
        } else if !proposals_ok(self.tree, self.own_leaf, proposals) || spec_apply_proposals(
            self.tree,
            proposals,
            0,
        ) is Err {
            Some(EngineError::Validation(ValidationReason::MalformedProposals))
        } else {
            None
        }
    }

    /// Why a commit of these proposals, with a fresh path or without one,
    /// cannot be made, if it cannot. The content of a leaf secret plays no
    /// part in this, only that there is one of hash length.
    pub open spec fn commit_refusal_for(self, proposals: Seq<QueuedProposalView>, with_path: bool) -> Option<
        EngineError,
    > {
        self.commit_refusal(
            proposals,
            if with_path {
                Some(spec_zero_key())
            } else {
                None
            },
        )
    }

    /// The key package that a committer puts at its leaf: its identity and
    /// signature key as before, the HPKE key of the leaf secret, signed with
    /// `signing_key`. `None` where the signing key is no key pair.
    pub open spec fn own_leaf_package(self, leaf_secret: Seq<u8>, signing_key: Seq<u8>) -> Option<
        KeyPackageView,
    > {
        let unsigned = KeyPackageView {
            identity: identity_at(self.tree, self.own_leaf),
            signature_key: signature_key_at(self.tree, self.own_leaf),
            init_key: spec_public_key(leaf_secret),
            signature: Seq::empty(),
        };
        match signed(signing_key, unsigned.to_be_signed()) {
            Some(signature) => Some(KeyPackageView { signature, ..unsigned }),
            None => None,
        }
    }

    /// Whether `path` is the path that this member, as committer with leaf
    /// secret `leaf_secret`, attaches to a commit of `proposals`: its new key
    /// package, the public keys that follow from the leaf secret, and sealed
    /// secrets that reach every other member of the new tree.
    pub open spec fn is_own_path(
        self,
        proposals: Seq<QueuedProposalView>,
        path: UpdatePathView,
        leaf_secret: Seq<u8>,
        signing_key: Seq<u8>,
    ) -> bool {
        let t = spec_apply_proposals(self.tree, proposals, 0)->Ok_0;
        &&& Some(path.leaf_key_package) == self.own_leaf_package(leaf_secret, signing_key)
        &&& path.public_keys == spec_path_public_keys(leaf_secret, depth(leaf_count(t)))
        &&& path_reaches_all(
            self.group_id,
            self.own_leaf,
            t.update((2 * self.own_leaf) as int, NodeView::Leaf(path.leaf_key_package)),
            path.secrets,
            leaf_secret,
        )
    }

    /// The associated data under which path secrets of a commit made in this
    /// state are sealed.
    pub open spec fn path_aad(self) -> Seq<u8> {
        self.group_id
    }

    /// Whether a handshake message is authentic: it passes the first look,
    /// its sender is a member (`UnknownSender`), its signature has the shape
    /// of a signature and verifies under the sender's key or the key given
    /// in its place (`BadSignature`),
    /// and its membership tag is the expected one (`BadMembershipTag`).
    pub open spec fn authenticate(self, f: PlaintextView, signature_key: Option<Seq<u8>>) -> Result<
        (),
        EngineError,
    > {
        match self.parse_message(MessageView::Handshake(f)) {
            Err(e) => Err(e),
            Ok(_) => {
                if !is_member(self.tree, f.header.sender) {
                    Err(EngineError::Validation(ValidationReason::UnknownSender))
                } else {
                    let key = match signature_key {
                        Some(k) => k,
                        None => signature_key_at(self.tree, f.header.sender),
                    };
                    if !signature_shaped(f.signature) || !signature_valid(
                        key,
                        f.to_be_signed(),
                        f.signature,
                    ) {
                        Err(EngineError::Validation(ValidationReason::BadSignature))
                    } else if f.membership_tag != spec_mac(
                        self.secrets.membership_key,
                        f.authenticated_content(),
                    ) {
                        Err(EngineError::Validation(ValidationReason::BadMembershipTag))
                    } else {
                        Ok(())
                    }
                }
            },
        }
    }

    /// The tree that a commit of `sender` leads to, before the public keys of
    /// its path are written: the proposals applied in order, then the
    /// sender's new key package put at its leaf. The proposals must be
    /// committable and apply (`MalformedProposals`), a commit without a path
    /// must hold a proposal unless the configuration allows an empty commit
    /// (`MalformedProposals`), and the new key package of the sender must be
    /// valid and keep its identity (`InvalidPath`).
    pub open spec fn commit_tree(self, sender: nat, c: CommitView) -> Result<
        Seq<NodeView>,
        EngineError,
    > {
        if !proposals_ok(self.tree, sender, c.proposals) {
            Err(EngineError::Validation(ValidationReason::MalformedProposals))
        } else {
            match spec_apply_proposals(self.tree, c.proposals, 0) {
                Err(_) => Err(EngineError::Validation(ValidationReason::MalformedProposals)),
                Ok(t) => match c.path {
                    None => if c.proposals.len() == 0 && !self.config.allow_empty_commit {
                        Err(EngineError::Validation(ValidationReason::MalformedProposals))
                    } else {
                        Ok(t)
                    },
                    Some(p) => if !p.leaf_key_package.valid() || p.leaf_key_package.identity
                        != identity_at(self.tree, sender) {
                        Err(EngineError::Validation(ValidationReason::InvalidPath))
                    } else {
                        match spec_try_set_leaf(t, sender, p.leaf_key_package) {
                            Ok(t2) => Ok(t2),
                            Err(_) => Err(EngineError::Validation(ValidationReason::InvalidPath)),
                        }
                    },
                },
            }
        }
    }

    /// This member's private key after a commit of `sender` that leads to
    /// tree `t`. For its own commit with a path it is the key of the path
    /// secret it kept, which must be the one the commit was made from
    /// (`MissingPendingCommit`). Otherwise it is the key it has, unless the
    /// commit changed its HPKE key; then it is the private key of the bundle
    /// it registered for that key (`InvalidKeyPackage` where there is none).
    pub open spec fn new_own_key(self, t: Seq<NodeView>, sender: nat, c: CommitView) -> Result<
        Seq<u8>,
        EngineError,
    > {
        if sender == self.own_leaf && c.path is Some {
            match self.pending_commit {
                Some(s) => if spec_public_key(s) == c.path->Some_0.leaf_key_package.init_key {
                    Ok(spec_private_key(s))
                } else {
                    Err(EngineError::MissingPendingCommit)
                },
                None => Err(EngineError::MissingPendingCommit),
            }
        } else if init_key_at(t, self.own_leaf) == init_key_at(self.tree, self.own_leaf) {
            Ok(self.own_private_key)
        } else {
            match find_bundle(self.bundles, init_key_at(t, self.own_leaf), 0) {
                Some(k) => Ok(k),
                None => Err(EngineError::Validation(ValidationReason::InvalidKeyPackage)),
            }
        }
    }

    /// The path secret that this member holds for a commit of `sender`, and
    /// its place on the sender's path. For its own commit it is the leaf
    /// secret it kept, at place zero. Otherwise it is what the secret sealed
    /// to its leaf opens to under `own_key`, at the level where the two
    /// leaves meet (`InvalidPath` where nothing is sealed to it,
    /// `DecryptionFailed` where it does not open).
    pub open spec fn own_path_secret(self, own_key: Seq<u8>, sender: nat, path: UpdatePathView) -> Result<
        (nat, Seq<u8>),
        EngineError,
    > {
        if sender == self.own_leaf {
            match self.pending_commit {
                Some(s) => Ok((0, s)),
                None => Err(EngineError::MissingPendingCommit),
            }
        } else {
            match find_sealed(path.secrets, self.own_leaf, 0) {
                None => Err(EngineError::Validation(ValidationReason::InvalidPath)),
                Some(e) => match hpke_opened(
                    own_key,
                    spec_path_info(),
                    self.path_aad(),
                    e.kem_output,
                    e.ciphertext,
                ) {
                    None => Err(EngineError::Validation(ValidationReason::DecryptionFailed)),
                    Some(s) => Ok((spec_common_level(sender, self.own_leaf), s)),
                },
            }
        }
    }

    /// The tree with the path of a commit written to it, and the shared
    /// secret of the commit: all zero for a commit without a path, and else
    /// the secret one place above the root of the sender's path
    /// (`InvalidPath` where the path does not fit the tree or the secret).
    pub open spec fn commit_secret(
        self,
        t: Seq<NodeView>,
        own_key: Seq<u8>,
        sender: nat,
        c: CommitView,
    ) -> Result<(Seq<NodeView>, Seq<u8>), EngineError> {
        match c.path {
            None => Ok((t, spec_zero_key())),
            Some(p) => match self.own_path_secret(own_key, sender, p) {
                Err(e) => Err(e),
                Ok((at, s)) => match spec_apply_path(t, sender, p.public_keys, at, s) {
                    Ok(x) => Ok(x),
                    Err(_) => Err(EngineError::Validation(ValidationReason::InvalidPath)),
                },
            },
        }
    }

    /// The transcript hash that a commit with authenticated content
    /// `content` confirms on this state.
    pub open spec fn confirmed_hash(self, content: Seq<u8>) -> Seq<u8> {
        spec_confirmed_transcript_hash(self.interim_transcript_hash, content)
    }

    /// The secrets of the epoch that a commit opens on this state, given its
    /// authenticated content, the tree it leads to and its shared secret.
    pub open spec fn next_secrets(self, content: Seq<u8>, t: Seq<NodeView>, commit_secret: Seq<u8>) -> SecretsView {
        spec_derive_epoch_secrets(
            self.secrets.init_secret,
            commit_secret,
            spec_group_context(
                self.group_id,
                self.epoch + 1,
                spec_tree_hash(t),
                self.confirmed_hash(content),
            ),
        )
    }

    /// The confirmation tag that a commit must carry to lead from this state
    /// to tree `t` with shared secret `commit_secret`.
    pub open spec fn expected_confirmation_tag(
        self,
        content: Seq<u8>,
        t: Seq<NodeView>,
        commit_secret: Seq<u8>,
    ) -> Seq<u8> {
        spec_mac(
            self.next_secrets(content, t, commit_secret).confirmation_key,
            self.confirmed_hash(content),
        )
    }

    /// The state that a commit leads to, given the tree and the shared
    /// secret: the secrets of the next epoch, derived from this epoch's init
    /// secret, the shared secret and the new group context, with a fresh
    /// secret tree. The commit's confirmation tag must be the one that these
    /// secrets give (`BadConfirmationTag`).
    pub open spec fn staged(
        self,
        content: Seq<u8>,
        confirmation_tag: Option<Seq<u8>>,
        t: Seq<NodeView>,
        commit_secret: Seq<u8>,
        own_key: Seq<u8>,
    ) -> Result<StagedView, EngineError> {
        let secrets = self.next_secrets(content, t, commit_secret);
        let tag = self.expected_confirmation_tag(content, t, commit_secret);
        if confirmation_tag != Some(tag) {
            Err(EngineError::Validation(ValidationReason::BadConfirmationTag))
        } else {
            Ok(
                StagedView {
                    epoch: self.epoch + 1,
                    parent: self.interim_transcript_hash,
                    own_leaf: self.own_leaf,
                    tree: t,
                    secrets,
                    secret_tree: spec_new_tree(
                        secrets.encryption_secret,
                        leaf_count(t),
                        self.config.max_forward_distance as nat,
                    ),
                    interim_transcript_hash: spec_interim_transcript_hash(
                        self.confirmed_hash(content),
                        tag,
                    ),
                    own_private_key: own_key,
                },
            )
        }
    }

    /// Where a commit of `sender` leads: the tree after the proposals, in
    /// which this member must still be a member (`Removed`), with the path
    /// written to it; the shared secret; and this member's private key.
    /// Nothing follows the last epoch that the counter can hold
    /// (`EpochExhausted`).
    pub open spec fn advance(self, sender: nat, c: CommitView) -> Result<
        (Seq<NodeView>, Seq<u8>, Seq<u8>),
        EngineError,
    > {
        if self.epoch >= u64::MAX {
            Err(EngineError::EpochExhausted)
        } else {
            match self.commit_tree(sender, c) {
                Err(e) => Err(e),
                Ok(t) => if !is_member(t, self.own_leaf) {
                    Err(EngineError::Removed)
                } else {
                    match self.new_own_key(t, sender, c) {
                        Err(e) => Err(e),
                        Ok(own_key) => match self.commit_secret(t, own_key, sender, c) {
                            Err(e) => Err(e),
                            Ok((t2, secret)) => Ok((t2, secret, own_key)),
                        },
                    }
                },
            }
        }
    }

    /// What this member makes of an authentic commit: where the commit
    /// leads, and the state staged from that.
    pub open spec fn stage_commit(self, f: PlaintextView, c: CommitView) -> Result<
        StagedView,
        EngineError,
    > {
        match self.advance(f.header.sender, c) {
            Err(e) => Err(e),
            Ok((t, secret, own_key)) => self.staged(
                f.authenticated_content(),
                f.confirmation_tag,
                t,
                secret,
                own_key,
            ),
        }
    }

    /// What staging a message gives, with the state after it. A handshake
    /// message is authenticated and leaves the state as it is: a proposal is
    /// handed back with its proposer, a commit is staged. An application
    /// message is opened, which moves the sender's ratchet.
    pub open spec fn stage(self, m: MessageView, signature_key: Option<Seq<u8>>) -> Result<
        (StagedMessageView, GroupView),
        EngineError,
    > {
        match m {
            MessageView::Application(f) => match self.decrypt(f) {
                Ok((payload, after)) => Ok((StagedMessageView::ApplicationMessage(payload), after)),
                Err(e) => Err(e),
            },
            MessageView::Handshake(f) => match self.authenticate(f, signature_key) {
                Err(e) => Err(e),
                Ok(_) => match f.body {
                    BodyView::Proposal(p) => Ok(
                        (
                            StagedMessageView::ProposalMessage(
                                QueuedProposalView { sender: f.header.sender, proposal: p },
                            ),
                            self,
                        ),
                    ),
                    BodyView::Commit(c) => match self.stage_commit(f, c) {
                        Ok(s) => Ok((StagedMessageView::StagedCommit(s), self)),
                        Err(e) => Err(e),
                    },
                },
            },
        }
    }

    /// The state after a staged commit was merged: the next epoch, with the
    /// staged tree, secrets and key, the staged secret tree pushed to the
    /// store, and nothing pending. A staged commit that was not made on this
    /// state is refused with `StaleCommit`.
    pub open spec fn merge(self, s: StagedView) -> Result<GroupView, EngineError> {
        if s.epoch != self.epoch + 1 || s.parent != self.interim_transcript_hash || s.own_leaf
            != self.own_leaf {
            Err(EngineError::StaleCommit)
        } else {
            Ok(
                GroupView {
                    epoch: s.epoch,
                    tree: s.tree,
                    own_private_key: s.own_private_key,
                    secrets: s.secrets,
                    store: self.store.push(s.secret_tree),
                    interim_transcript_hash: s.interim_transcript_hash,
                    pending_commit: None,
                    ..self
                },
            )
        }
    }
}

} // verus!
