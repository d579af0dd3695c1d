//! The group state machine.
//!
//! A `GroupState` is one member's view of one group in one epoch: the
//! ratchet tree, the secrets of the key schedule, and the store of message
//! secrets. It moves to the next epoch only by merging a staged commit, and
//! sealing or opening application messages moves only the ratchets of the
//! store.

use crate::bytes::{byte_views, copy, equal, zeros};
use crate::crypto::{
    aead_decrypt, aead_encrypt, aead_opened, aead_sealed, derive_hpke_keypair, hpke_open,
    random_bytes, sign, signed, verify_signature, HASH_LEN, HPKE_KEY_LEN, MAX_AEAD_LEN,
};
use crate::errors::{EngineError, ValidationReason};
use crate::framing::{
    authenticated_content, confirmed_transcript_hash, group_context, interim_transcript_hash,
    proposal_views, sealed_views, spec_group_context, to_be_signed, BodyView, CiphertextFrame,
    CiphertextView, Commit, ContentType, FrameHeader, HandshakeBody, HeaderView, MessageView,
    PlaintextFrame, Proposal, ProposalView, QueuedProposal, QueuedProposalView,
    SealedSecret, UnverifiedMessage, UpdatePath, WireMessage,
};
use crate::key_package::{KeyPackage, KeyPackageBundle, KeyPackageView};
use crate::key_schedule::{
    derive_epoch_secrets, derive_secret, mac, spec_derive_epoch_secrets, spec_zero_key,
    KeyScheduleSecrets, SecretsView,
};
use crate::message_secrets::{store_parts_valid, MessageSecretsStore, StoreParts, StoreView};
use crate::proposals::{
    apply_proposals, check_proposals, identity_of, is_member, spec_apply_proposals,
};
use crate::ratchet_tree::{
    derive_path, leaf_at, leaf_count, node_views, spec_chain, spec_path_public_keys, spec_tree_hash,
    tree_wf, Node, NodeView, RatchetTree,
};
use crate::secret_tree::{spec_new_tree, MessageKeyView, SecretKind, SecretTree};
use crate::transition::{
    added_packages, commit_made, find_bundle, find_sealed, init_key_at, lemma_find_sealed_push,
    lemma_find_sealed_some, path_reaches_all, spec_join, spec_path_info, welcome_for,
    StagedMessageView, StagedView,
};
use crate::treemath::{common_level, depth, lemma_common_level, spec_common_level, tree_depth};
use crate::welcome::{
    seal_to, sealed_for, spec_welcome_payload, welcome_payload, welcome_views, Welcome,
};
use vstd::pervasive::unreached;
use vstd::prelude::*;
use vstd::string::*;

verus! {

/// The settings of a group instance.
#[derive(Debug, Clone, Copy, PartialEq, Eq, Structural)]
pub struct GroupConfig {
    /// How many epochs before the current one keep their message secrets.
    pub max_past_epochs: usize,
    /// How many generations ahead of a ratchet a message key may be asked for.
    pub max_forward_distance: u32,
    /// Whether a commit without proposals and without a path is accepted.
    pub allow_empty_commit: bool,
}

/// A key package with its private key, as byte strings.
pub struct BundleView {
    pub key_package: KeyPackageView,
    pub private_key: Seq<u8>,
}

/// The views of a sequence of key package bundles.
pub open spec fn bundle_views(v: Seq<KeyPackageBundle>) -> Seq<BundleView> {
    Seq::new(
        v.len(),
        |i: int| BundleView { key_package: v[i].key_package@, private_key: v[i].private_key@ },
    )
}

/// One member's state of a group, as plain values.
pub struct GroupView {
    pub group_id: Seq<u8>,
    pub epoch: nat,
    pub tree: Seq<NodeView>,
    pub own_leaf: nat,
    pub own_private_key: Seq<u8>,
    pub secrets: SecretsView,
    pub store: StoreView,
    pub interim_transcript_hash: Seq<u8>,
    pub config: GroupConfig,
    pub pending_commit: Option<Seq<u8>>,
    pub bundles: Seq<BundleView>,
}

impl GroupView {
    /// What holds of every state: the tree has the shape of a tree and holds
    /// this member, the secrets have their length, and the store's newest
    /// tree is that of the current epoch, with one leaf per leaf of the tree.
    pub open spec fn wf(self) -> bool {
        &&& tree_wf(self.tree)
        &&& is_member(self.tree, self.own_leaf)
        &&& self.secrets.wf()
        &&& self.store.wf()
        &&& self.store.current_epoch() == self.epoch
        &&& self.store.max_past_epochs == self.config.max_past_epochs
        &&& self.store.tree(self.epoch).leaves() == leaf_count(self.tree)
        &&& self.interim_transcript_hash.len() <= HASH_LEN
        &&& self.pending_commit matches Some(s) ==> s.len() == HASH_LEN
    }

    /// The header of a message that this member sends in the current epoch.
    pub open spec fn header(self, content_type: ContentType, authenticated_data: Seq<u8>) -> HeaderView {
        HeaderView {
            group_id: self.group_id,
            epoch: self.epoch,
            sender: self.own_leaf,
            content_type,
            authenticated_data,
        }
    }

    /// The next generation of this member's application ratchet.
    pub open spec fn own_generation(self) -> nat {
        self.store.tree(self.epoch).application[self.own_leaf as int].generation
    }

    /// What sealing an application message gives: the frame, and the state
    /// with this member's ratchet moved by one. Sealing is refused with
    /// `PayloadTooLong` beyond the limits of the cipher and with
    /// `RatchetExhausted` when the ratchet has no generation left.
    pub open spec fn encrypt(self, payload: Seq<u8>, authenticated_data: Seq<u8>) -> Result<
        (CiphertextView, GroupView),
        EngineError,
    > {
        let header = self.header(ContentType::Application, authenticated_data);
        let generation = self.own_generation();
        if payload.len() > MAX_AEAD_LEN || header.encode().len() > MAX_AEAD_LEN {
            Err(EngineError::PayloadTooLong)
        } else if generation > u32::MAX {
            Err(EngineError::RatchetExhausted)
        } else {
            match self.store.derive(self.epoch, self.own_leaf, generation, SecretKind::Application) {
                Ok((key, store)) => Ok(
                    (
                        CiphertextView {
                            header,
                            generation,
                            ciphertext: aead_sealed(key.key, key.nonce, header.encode(), payload),
                        },
                        GroupView { store, ..self },
                    ),
                ),
                Err(e) => Err(e),
            }
        }
    }

    /// The key under which an application frame is sealed, as this member
    /// derives it, with the store after the derivation.
    pub open spec fn frame_key(self, frame: CiphertextView) -> Result<
        (MessageKeyView, StoreView),
        EngineError,
    > {
        self.store.derive(
            frame.header.epoch,
            frame.header.sender,
            frame.generation,
            SecretKind::Application,
        )
    }

    /// What opening an application frame gives: the payload, and the state
    /// with the sender's ratchet moved past the frame's generation. A frame
    /// of another group is refused with `WrongGroup`, one that is no
    /// application message with `MalformedMessage`; then the store decides
    /// (`WrongEpoch`, `TooDistantInThePast`, `UnknownLeaf`, `SecretReuse`,
    /// `TooDistantInTheFuture`); a frame that does not open under its key is
    /// refused with `DecryptionFailed`. A refusal leaves the state as it is.
    pub open spec fn decrypt(self, frame: CiphertextView) -> Result<(Seq<u8>, GroupView), EngineError> {
        if frame.header.group_id != self.group_id {
            Err(EngineError::WrongGroup)
        } else if frame.header.content_type != ContentType::Application {
            Err(EngineError::Validation(ValidationReason::MalformedMessage))
        } else {
            match self.frame_key(frame) {
                Err(e) => Err(e),
                Ok((key, store)) => match aead_opened(
                    key.key,
                    key.nonce,
                    frame.header.encode(),
                    frame.ciphertext,
                ) {
                    None => Err(EngineError::Validation(ValidationReason::DecryptionFailed)),
                    Some(payload) => Ok((payload, GroupView { store, ..self })),
                },
            }
        }
    }
}

/// Whether `frame` opens to `payload` under the key that state `g` derives
/// for it.
pub open spec fn opens_to(g: GroupView, frame: CiphertextView, payload: Seq<u8>) -> bool {
    g.frame_key(frame) matches Ok((key, _)) && aead_opened(
        key.key,
        key.nonce,
        frame.header.encode(),
        frame.ciphertext,
    ) == Some(payload)
}

impl GroupView {
    /// Whether a message passes the first look: it belongs to this group and
    /// to an epoch that this state can serve, and it has the shape that its
    /// content type announces. A handshake message must be of the current
    /// epoch (`WrongEpoch`); an application message may be older, as long as
    /// its secrets are retained (`TooDistantInThePast`), but not newer
    /// (`WrongEpoch`).
    pub open spec fn parse_message(self, message: MessageView) -> Result<(), EngineError> {
        match message {
            MessageView::Handshake(f) => {
                if f.header.group_id != self.group_id {
                    Err(EngineError::WrongGroup)
                } else if f.header.epoch != self.epoch {
                    Err(EngineError::WrongEpoch)
                } else if f.body.content_type() != f.header.content_type {
                    Err(EngineError::Validation(ValidationReason::MalformedMessage))
                } else {
                    Ok(())
                }
            },
            MessageView::Application(f) => {
                if f.header.group_id != self.group_id {
                    Err(EngineError::WrongGroup)
                } else if f.header.epoch > self.epoch {
                    Err(EngineError::WrongEpoch)
                } else if !self.store.retained(f.header.epoch) {
                    Err(EngineError::TooDistantInThePast)
                } else if f.header.content_type != ContentType::Application {
                    Err(EngineError::Validation(ValidationReason::MalformedMessage))
                } else {
                    Ok(())
                }
            },
        }
    }
}

/// The state that a commit leads to, waiting to be merged. It owns a
/// complete snapshot of the next epoch; dropping it has no effect.
#[derive(Debug)]
pub struct StagedCommit {
    epoch: u64,
    parent: Vec<u8>,
    own_leaf: u32,
    tree: RatchetTree,
    secrets: KeyScheduleSecrets,
    secret_tree: SecretTree,
    interim_transcript_hash: Vec<u8>,
    own_private_key: Vec<u8>,
}

impl View for StagedCommit {
    type V = StagedView;

    closed spec fn view(&self) -> StagedView {
        StagedView {
            epoch: self.epoch as nat,
            parent: self.parent@,
            own_leaf: self.own_leaf as nat,
            tree: self.tree@,
            secrets: self.secrets@,
            secret_tree: self.secret_tree@,
            interim_transcript_hash: self.interim_transcript_hash@,
            own_private_key: self.own_private_key@,
        }
    }
}

impl StagedCommit {
    /// What every staged commit built by this module keeps.
    pub closed spec fn wf(&self) -> bool {
        &&& self.tree.wf()
        &&& self.secret_tree.wf()
        &&& self.secrets.wf()
        &&& tree_wf(self.tree@)
        &&& is_member(self.tree@, self.own_leaf as nat)
        &&& self.secret_tree@.wf()
        &&& self.secret_tree@.leaves() == leaf_count(self.tree@)
        &&& self.interim_transcript_hash@.len() == HASH_LEN
        &&& self.epoch >= 1
    }

    /// A well-formed staged commit has a well-formed view.
    pub proof fn lemma_view_wf(&self)
        requires
            self.wf(),
        ensures
            self@.wf(),
    {
    }

    /// The epoch that merging this commit opens.
    pub fn epoch(&self) -> (e: u64)
        ensures
            e == self@.epoch,
    {
        self.epoch
    }

    /// The secrets of the epoch that merging this commit opens.
    pub fn secrets(&self) -> (s: &KeyScheduleSecrets)
        ensures
            s@ == self@.secrets,
    {
        &self.secrets
    }

    /// The tree of the epoch that merging this commit opens.
    pub fn tree(&self) -> (t: &RatchetTree)
        requires
            self.wf(),
        ensures
            t@ == self@.tree,
            t.wf(),
    {
        &self.tree
    }
}

/// What staging a message gives.
#[derive(Debug)]
pub enum StagedMessage {
    /// A commit, validated and ready to be merged.
    StagedCommit(StagedCommit),
    /// The payload of an application message.
    ApplicationMessage(Vec<u8>),
    /// A proposal, with its proposer, to be kept for a later commit.
    ProposalMessage(QueuedProposal),
}

impl View for StagedMessage {
    type V = StagedMessageView;

    open spec fn view(&self) -> StagedMessageView {
        match self {
            StagedMessage::StagedCommit(s) => StagedMessageView::StagedCommit(s@),
            StagedMessage::ApplicationMessage(p) => StagedMessageView::ApplicationMessage(p@),
            StagedMessage::ProposalMessage(q) => StagedMessageView::ProposalMessage(q@),
        }
    }
}

/// The byte string behind an optional reference.
pub open spec fn option_view(o: Option<&[u8]>) -> Option<Seq<u8>> {
    match o {
        Some(k) => Some(k@),
        None => None,
    }
}

/// The byte string behind an optional vector.
pub open spec fn option_vec_view(o: Option<Vec<u8>>) -> Option<Seq<u8>> {
    match o {
        Some(k) => Some(k@),
        None => None,
    }
}

/// What a committer sends: the commit message for the group, and one
/// welcome for each member that the commit adds.
#[derive(Debug, Clone, PartialEq, Eq)]
pub struct CommitBundle {
    pub message: PlaintextFrame,
    pub welcomes: Vec<Welcome>,
}

/// The content of a group state, as it is kept outside the engine.
#[derive(Debug, Clone, PartialEq, Eq)]
pub struct GroupParts {
    pub group_id: Vec<u8>,
    pub epoch: u64,
    pub nodes: Vec<Node>,
    pub own_leaf: u32,
    pub own_private_key: Vec<u8>,
    pub secrets: KeyScheduleSecrets,
    pub store: StoreParts,
    pub interim_transcript_hash: Vec<u8>,
    pub config: GroupConfig,
    pub pending_commit: Option<Vec<u8>>,
    pub bundles: Vec<KeyPackageBundle>,
}

impl View for GroupParts {
    type V = GroupView;

    open spec fn view(&self) -> GroupView {
        GroupView {
            group_id: self.group_id@,
            epoch: self.epoch as nat,
            tree: node_views(self.nodes@),
            own_leaf: self.own_leaf as nat,
            own_private_key: self.own_private_key@,
            secrets: self.secrets@,
            store: self.store@,
            interim_transcript_hash: self.interim_transcript_hash@,
            config: self.config,
            pending_commit: option_vec_view(self.pending_commit),
            bundles: bundle_views(self.bundles@),
        }
    }
}

/// Whether the content of a group state is that of a group state: it is
/// well formed, and so is the content of its store.
pub open spec fn group_parts_valid(v: GroupView) -> bool {
    v.wf() && store_parts_valid(v.store)
}

impl GroupView {
    /// What parsing the bytes of a message gives: the message that the bytes
    /// spell, if they spell one (`MalformedMessage` if not) and if it passes
    /// the first look.
    pub open spec fn parse(self, raw: Seq<u8>) -> Result<MessageView, EngineError> {
        match crate::wire::spec_decode_message(raw) {
            None => Err(EngineError::Validation(ValidationReason::MalformedMessage)),
            Some(m) => match self.parse_message(m) {
                Ok(_) => Ok(m),
                Err(e) => Err(e),
            },
        }
    }
}

/// One member's state of a group.
#[derive(Debug)]
pub struct GroupState {
    group_id: Vec<u8>,
    epoch: u64,
    tree: RatchetTree,
    own_leaf: u32,
    own_private_key: Vec<u8>,
    secrets: KeyScheduleSecrets,
    store: MessageSecretsStore,
    interim_transcript_hash: Vec<u8>,
    config: GroupConfig,
    pending_commit: Option<Vec<u8>>,
    bundles: Vec<KeyPackageBundle>,
}

impl View for GroupState {
    type V = GroupView;

    closed spec fn view(&self) -> GroupView {
        GroupView {
            group_id: self.group_id@,
            epoch: self.epoch as nat,
            tree: self.tree@,
            own_leaf: self.own_leaf as nat,
            own_private_key: self.own_private_key@,
            secrets: self.secrets@,
            store: self.store@,
            interim_transcript_hash: self.interim_transcript_hash@,
            config: self.config,
            pending_commit: match self.pending_commit {
                None => None,
                Some(s) => Some(s@),
            },
            bundles: bundle_views(self.bundles@),
        }
    }
}

/// The state of a group that its founder creates, given the seed of its
/// first epoch: the founder alone at leaf zero, in epoch zero.
pub open spec fn spec_create(
    group_id: Seq<u8>,
    founder: KeyPackageView,
    private_key: Seq<u8>,
    config: GroupConfig,
    seed: Seq<u8>,
) -> GroupView {
    let tree = seq![NodeView::Leaf(founder)];
    let context = spec_group_context(group_id, 0, spec_tree_hash(tree), Seq::empty());
    let secrets = spec_derive_epoch_secrets(seed, spec_zero_key(), context);
    GroupView {
        group_id,
        epoch: 0,
        tree,
        own_leaf: 0,
        own_private_key: private_key,
        secrets,
        store: StoreView {
            max_past_epochs: config.max_past_epochs as nat,
            origin: 0,
            first_epoch: 0,
            trees: seq![
                spec_new_tree(secrets.encryption_secret, 1, config.max_forward_distance as nat),
            ],
        },
        interim_transcript_hash: Seq::empty(),
        config,
        pending_commit: None,
        bundles: Seq::empty(),
    }
}

impl GroupState {
    /// What every state built by this module keeps.
    pub closed spec fn wf(&self) -> bool {
        &&& self@.wf()
        &&& self.tree.wf()
        &&& self.store.wf()
    }

    /// A well-formed state has a well-formed view.
    pub proof fn lemma_view_wf(&self)
        requires
            self.wf(),
        ensures
            self@.wf(),
    {
    }

    /// Creates a group with `seed` as the init secret before its first
    /// epoch. Fails with `InvalidKeyPackage` exactly where the founder's
    /// HPKE key has not the length of such a key.
    pub fn create_with_seed(
        group_id: &[u8],
        founder: KeyPackageBundle,
        config: GroupConfig,
        seed: &[u8],
    ) -> (r: Result<GroupState, EngineError>)
        ensures
            founder.key_package@.init_key.len() == crate::crypto::HPKE_KEY_LEN ==> (r matches Ok(
                group,
            ) && group.wf() && group@ == spec_create(
                group_id@,
                founder.key_package@,
                founder.private_key@,
                config,
                seed@,
            )),
            founder.key_package@.init_key.len() != crate::crypto::HPKE_KEY_LEN ==> (r matches Err(e)
                && e == EngineError::Validation(ValidationReason::InvalidKeyPackage)),
    {
        let KeyPackageBundle { key_package, private_key } = founder;
        let tree = match RatchetTree::new(key_package) {
            Ok(t) => t,
            Err(e) => {
                return Err(e);
            },
        };
        let tree_hash = tree.tree_hash();
        let empty: Vec<u8> = Vec::new();
        assert(empty@ =~= Seq::<u8>::empty());
        let context = group_context(group_id, 0, tree_hash.as_slice(), empty.as_slice());
        let zero = zeros(HASH_LEN);
        let secrets = derive_epoch_secrets(seed, zero.as_slice(), context.as_slice());
        proof {
            assert(crate::treemath::is_pow2(1));
        }
        let secret_tree = SecretTree::new(
            secrets.encryption_secret.as_slice(),
            1,
            config.max_forward_distance,
        );
        let store = MessageSecretsStore::new(config.max_past_epochs, 0, secret_tree);
        let group = GroupState {
            group_id: copy(group_id),
            epoch: 0,
            tree,
            own_leaf: 0,
            own_private_key: private_key,
            secrets,
            store,
            interim_transcript_hash: empty,
            config,
            pending_commit: None,
            bundles: Vec::new(),
        };
        assert(group@.bundles =~= Seq::<BundleView>::empty());
        Ok(group)
    }

    /// Creates a group with a fresh random init secret. What comes back is
    /// `create_with_seed` of some 32 random bytes; `NoRandomness` is returned
    /// where the random source fails.
    pub fn create(group_id: &[u8], founder: KeyPackageBundle, config: GroupConfig) -> (r: Result<
        GroupState,
        EngineError,
    >)
        ensures
            r matches Ok(group) ==> group.wf() && exists|seed: Seq<u8>|
                seed.len() == HASH_LEN && group@ == #[trigger] spec_create(
                    group_id@,
                    founder.key_package@,
                    founder.private_key@,
                    config,
                    seed,
                ),
            r matches Err(e) ==> e == EngineError::NoRandomness || e == EngineError::Validation(
                ValidationReason::InvalidKeyPackage,
            ),
    {
        match random_bytes(HASH_LEN) {
            Ok(seed) => GroupState::create_with_seed(group_id, founder, config, seed.as_slice()),
            Err(_) => Err(EngineError::NoRandomness),
        }
    }

    /// Reads a message from the bytes that the transport delivered and takes
    /// a first look at it. Bytes that spell no message are refused with
    /// `MalformedMessage`; a message is handed on for validation or refused
    /// as `GroupView::parse_message` says. The state is not touched.
    pub fn parse(&self, raw: &[u8]) -> (r: Result<UnverifiedMessage, EngineError>)
        requires
            self.wf(),
        ensures
            match self@.parse(raw@) {
                Ok(m) => r matches Ok(u) && u@ == m,
                Err(e) => r matches Err(x) && x == e,
            },
    {
        match crate::wire::decode_message(raw) {
            None => Err(EngineError::Validation(ValidationReason::MalformedMessage)),
            Some(message) => self.parse_message(message),
        }
    }

    /// Takes a first look at a message and hands it on for validation, or
    /// refuses it as `GroupView::parse_message` says. The state is not
    /// touched.
    pub fn parse_message(&self, message: WireMessage) -> (r: Result<UnverifiedMessage, EngineError>)
        requires
            self.wf(),
        ensures
            match self@.parse_message(message@) {
                Ok(_) => r matches Ok(u) && u@ == message@,
                Err(e) => r matches Err(x) && x == e,
            },
    {
        match message {
            WireMessage::Handshake(f) => {
                if !equal(f.header.group_id.as_slice(), self.group_id.as_slice()) {
                    return Err(EngineError::WrongGroup);
                }
                if f.header.epoch != self.epoch {
                    return Err(EngineError::WrongEpoch);
                }
                let announced = match &f.body {
                    HandshakeBody::Proposal(_) => ContentType::Proposal,
                    HandshakeBody::Commit(_) => ContentType::Commit,
                };
                if announced != f.header.content_type {
                    return Err(EngineError::Validation(ValidationReason::MalformedMessage));
                }
                Ok(UnverifiedMessage::Handshake(f))
            },
            WireMessage::Application(f) => {
                if !equal(f.header.group_id.as_slice(), self.group_id.as_slice()) {
                    return Err(EngineError::WrongGroup);
                }
                if f.header.epoch > self.epoch {
                    return Err(EngineError::WrongEpoch);
                }
                if !self.store.is_retained(f.header.epoch) {
                    return Err(EngineError::TooDistantInThePast);
                }
                if f.header.content_type != ContentType::Application {
                    return Err(EngineError::Validation(ValidationReason::MalformedMessage));
                }
                Ok(UnverifiedMessage::Application(f))
            },
        }
    }

    /// Signs a handshake body as a message of this member in the current
    /// epoch.
    fn signed_frame(
        &self,
        body: HandshakeBody,
        signing_key: &[u8],
        authenticated_data: &[u8],
        confirmation_tag: Option<Vec<u8>>,
    ) -> (r: Option<PlaintextFrame>)
        requires
            self.wf(),
        ensures
            match self@.signed_frame(
                body@,
                signing_key@,
                authenticated_data@,
                option_vec_view(confirmation_tag),
            ) {
                Some(f) => r matches Some(frame) && frame@ == f,
                None => r is None,
            },
    {
        let content_type = match &body {
            HandshakeBody::Proposal(_) => ContentType::Proposal,
            HandshakeBody::Commit(_) => ContentType::Commit,
        };
        let header = FrameHeader {
            group_id: copy(self.group_id.as_slice()),
            epoch: self.epoch,
            sender: self.own_leaf,
            content_type,
            authenticated_data: copy(authenticated_data),
        };
        let tbs = to_be_signed(&header, &body);
        let signature = match sign(signing_key, tbs.as_slice()) {
            Ok(s) => s,
            Err(_) => {
                return None;
            },
        };
        let content = authenticated_content(tbs.as_slice(), signature.as_slice());
        let membership_tag = mac(self.secrets.membership_key.as_slice(), content.as_slice());
        Some(PlaintextFrame { header, body, signature, confirmation_tag, membership_tag })
    }

    /// Makes the message that proposes a change to the group. The state is
    /// not touched. Fails with `BadSigningKey` exactly where the signing key
    /// is no key pair.
    pub fn propose(&self, proposal: Proposal, signing_key: &[u8], authenticated_data: &[u8]) -> (r:
        Result<PlaintextFrame, EngineError>)
        requires
            self.wf(),
        ensures
            match self@.propose(proposal@, signing_key@, authenticated_data@) {
                Ok(f) => r matches Ok(frame) && frame@ == f,
                Err(e) => r matches Err(x) && x == e,
            },
    {
        match self.signed_frame(
            HandshakeBody::Proposal(proposal),
            signing_key,
            authenticated_data,
            None,
        ) {
            Some(f) => Ok(f),
            None => Err(EngineError::BadSigningKey),
        }
    }

    /// Keeps a key package bundle of this member, so that the private key is
    /// at hand when a commit puts the key package at this member's leaf.
    pub fn register_bundle(&mut self, bundle: KeyPackageBundle)
        requires
            old(self).wf(),
        ensures
            final(self).wf(),
            final(self)@ == (GroupView {
                bundles: old(self)@.bundles.push(
                    BundleView {
                        key_package: bundle.key_package@,
                        private_key: bundle.private_key@,
                    },
                ),
                ..old(self)@
            }),
    {
        let ghost before = self@;
        let ghost b = BundleView {
            key_package: bundle.key_package@,
            private_key: bundle.private_key@,
        };
        self.bundles.push(bundle);
        assert(self@.bundles =~= before.bundles.push(b));
    }

    /// Seals the secrets of a fresh path to the members of `tree` other than
    /// this one: to each the secret of the place where its leaf meets this
    /// member's.
    fn seal_path_secrets(&self, tree: &RatchetTree, secrets: &Vec<Vec<u8>>) -> (out: Vec<
        SealedSecret,
    >)
        requires
            self.wf(),
            tree.wf(),
            is_member(tree@, self@.own_leaf),
            self@.group_id.len() <= MAX_AEAD_LEN,
            secrets@.len() == depth(leaf_count(tree@)) + 1,
            forall|k: int|
                0 <= k < secrets@.len() ==> 0 < (#[trigger] secrets@[k])@.len() <= MAX_AEAD_LEN,
        ensures
            forall|b: nat|
                is_member(tree@, b) && b != self@.own_leaf ==> (#[trigger] find_sealed(
                    sealed_views(out@),
                    b,
                    0,
                ) matches Some(e) && sealed_for(
                    init_key_at(tree@, b),
                    spec_path_info(),
                    self@.group_id,
                    e.kem_output,
                    e.ciphertext,
                    secrets@[spec_common_level(self@.own_leaf, b) as int]@,
                )),
    {
        let n = tree.leaf_count();
        let own = self.own_leaf;
        let mut out: Vec<SealedSecret> = Vec::new();
        let mut b: u32 = 0;
        proof {
            tree.lemma_view_wf();
        }
        while b < n
            invariant
                self.wf(),
                tree.wf(),
                tree_wf(tree@),
                own == self.own_leaf,
                n == leaf_count(tree@),
                own < n,
                b <= n,
                self@.group_id.len() <= MAX_AEAD_LEN,
                secrets@.len() == depth(leaf_count(tree@)) + 1,
                forall|k: int|
                    0 <= k < secrets@.len() ==> 0 < (#[trigger] secrets@[k])@.len() <= MAX_AEAD_LEN,
                forall|i: int|
                    0 <= i < out@.len() ==> #[trigger] sealed_for(
                        init_key_at(tree@, sealed_views(out@)[i].recipient),
                        spec_path_info(),
                        self@.group_id,
                        sealed_views(out@)[i].kem_output,
                        sealed_views(out@)[i].ciphertext,
                        secrets@[spec_common_level(
                            own as nat,
                            sealed_views(out@)[i].recipient,
                        ) as int]@,
                    ),
                forall|m: nat|
                    m < b && is_member(tree@, m) && m != own ==> #[trigger] find_sealed(
                        sealed_views(out@),
                        m,
                        0,
                    ) is Some,
                forall|m: nat| m >= b ==> #[trigger] find_sealed(sealed_views(out@), m, 0) is None,
            decreases n - b,
        {
            let ghost prev = sealed_views(out@);
            if b != own {
                match tree.member(b) {
                    Some(kp) => {
                        let level = common_level(own, b) as usize;
                        proof {
                            lemma_common_level(own as nat, b as nat, n as nat);
                            assert(crate::ratchet_tree::node_ok(leaf_at(tree@, b as nat)));
                        }
                        let (kem_output, ciphertext) = seal_to(
                            kp.init_key.as_slice(),
                            "path secret".as_bytes(),
                            self.group_id.as_slice(),
                            secrets[level].as_slice(),
                        );
                        let entry = SealedSecret { recipient: b, kem_output, ciphertext };
                        let ghost ev = entry@;
                        out.push(entry);
                        proof {
                            assert(sealed_views(out@) =~= prev.push(ev));
                            assert forall|m: nat| true implies (m < b + 1 && is_member(tree@, m) && m
                                != own ==> #[trigger] find_sealed(sealed_views(out@), m, 0) is Some)
                                && (m >= b + 1 ==> find_sealed(sealed_views(out@), m, 0) is None) by {
                                lemma_find_sealed_push(prev, ev, m, 0);
                            }
                            assert forall|i: int| 0 <= i < out@.len() implies #[trigger] sealed_for(
                                init_key_at(tree@, sealed_views(out@)[i].recipient),
                                spec_path_info(),
                                self@.group_id,
                                sealed_views(out@)[i].kem_output,
                                sealed_views(out@)[i].ciphertext,
                                secrets@[spec_common_level(
                                    own as nat,
                                    sealed_views(out@)[i].recipient,
                                ) as int]@,
                            ) by {
                                if i < prev.len() {
                                    assert(sealed_views(out@)[i] == prev[i]);
                                }
                            }
                        }
                    },
                    None => {},
                }
            }
            b += 1;
        }
        proof {
            let sv = sealed_views(out@);
            assert forall|m: nat| is_member(tree@, m) && m != self@.own_leaf implies (
            #[trigger] find_sealed(sv, m, 0) matches Some(e) && sealed_for(
                init_key_at(tree@, m),
                spec_path_info(),
                self@.group_id,
                e.kem_output,
                e.ciphertext,
                secrets@[spec_common_level(self@.own_leaf, m) as int]@,
            )) by {
                lemma_find_sealed_some(sv, m, 0);
            }
        }
        out
    }

    /// Makes one welcome for each key package that `proposals` add.
    fn make_welcomes(
        &self,
        proposals: &Vec<QueuedProposal>,
        epoch: u64,
        joiner_secret: &[u8],
        confirmed: &[u8],
        tag: &[u8],
    ) -> (out: Vec<Welcome>)
        requires
            joiner_secret@.len() == HASH_LEN,
            forall|i: int|
                0 <= i < proposals@.len() ==> (#[trigger] proposals@[i]@.proposal matches ProposalView::Add(
                    kp,
                ) ==> kp.init_key.len() == HPKE_KEY_LEN),
        ensures
            out@.len() == added_packages(proposal_views(proposals@)).len(),
            forall|i: int|
                0 <= i < out@.len() ==> welcome_for(
                    #[trigger] welcome_views(out@)[i],
                    added_packages(proposal_views(proposals@))[i],
                    self@.group_id,
                    epoch as nat,
                    joiner_secret@,
                    confirmed@,
                    tag@,
                ),
    {
        let ghost views = proposal_views(proposals@);
        let payload = welcome_payload(epoch, joiner_secret);
        let mut out: Vec<Welcome> = Vec::new();
        let mut i: usize = 0;
        assert(views.subrange(0, 0) =~= Seq::<QueuedProposalView>::empty());
        while i < proposals.len()
            invariant
                i <= proposals@.len(),
                views == proposal_views(proposals@),
                joiner_secret@.len() == HASH_LEN,
                payload@ == spec_welcome_payload(epoch as nat, joiner_secret@),
                payload@.len() == 8 + HASH_LEN,
                forall|k: int|
                    0 <= k < proposals@.len() ==> (
                    #[trigger] proposals@[k]@.proposal matches ProposalView::Add(kp)
                        ==> kp.init_key.len() == HPKE_KEY_LEN),
                out@.len() == added_packages(views.subrange(0, i as int)).len(),
                forall|k: int|
                    0 <= k < out@.len() ==> welcome_for(
                        #[trigger] welcome_views(out@)[k],
                        added_packages(views.subrange(0, i as int))[k],
                        self@.group_id,
                        epoch as nat,
                        joiner_secret@,
                        confirmed@,
                        tag@,
                    ),
            decreases proposals@.len() - i,
        {
            let ghost before = welcome_views(out@);
            let ghost added_before = added_packages(views.subrange(0, i as int));
            assert(views.subrange(0, i + 1).drop_last() =~= views.subrange(0, i as int));
            assert(views.subrange(0, i + 1).last() == proposals@[i as int]@);
            match &proposals[i].proposal {
                Proposal::Add(kp) => {
                    assert(proposals@[i as int]@.proposal == ProposalView::Add(kp@));
                    let recipient = kp.hash_ref();
                    let (kem_output, ciphertext) = seal_to(
                        kp.init_key.as_slice(),
                        "welcome".as_bytes(),
                        recipient.as_slice(),
                        payload.as_slice(),
                    );
                    let w = Welcome {
                        recipient,
                        group_id: copy(self.group_id.as_slice()),
                        kem_output,
                        ciphertext,
                        confirmed_transcript_hash: copy(confirmed),
                        confirmation_tag: copy(tag),
                        tree: None,
                    };
                    let ghost wv = w@;
                    out.push(w);
                    proof {
                        assert(welcome_views(out@) =~= before.push(wv));
                        assert(added_packages(views.subrange(0, i + 1)) == added_before.push(kp@));
                        assert forall|k: int| 0 <= k < out@.len() implies welcome_for(
                            #[trigger] welcome_views(out@)[k],
                            added_packages(views.subrange(0, i + 1))[k],
                            self@.group_id,
                            epoch as nat,
                            joiner_secret@,
                            confirmed@,
                            tag@,
                        ) by {
                            if k < before.len() {
                                assert(welcome_views(out@)[k] == before[k]);
                            }
                        }
                    }
                },
                _ => {
                    assert(added_packages(views.subrange(0, i + 1)) == added_before);
                },
            }
            i += 1;
        }
        assert(views.subrange(0, i as int) =~= views);
        out
    }

    /// Builds the path that this member attaches to a commit that leads to
    /// `tree` (the tree after the proposals), and puts its new key package at
    /// its leaf in `tree`. `None` where the signing key is no key pair.
    fn make_path(&self, tree: &mut RatchetTree, leaf_secret: &[u8], signing_key: &[u8]) -> (r: Option<
        UpdatePath,
    >)
        requires
            self.wf(),
            old(tree).wf(),
            is_member(old(tree)@, self@.own_leaf),
            leaf_secret@.len() == HASH_LEN,
            self@.group_id.len() <= MAX_AEAD_LEN,
        ensures
            final(tree).wf(),
            match self@.own_leaf_package(leaf_secret@, signing_key@) {
                None => r is None,
                Some(kp) => r matches Some(p) && p@.leaf_key_package == kp && p@.public_keys
                    == spec_path_public_keys(leaf_secret@, depth(leaf_count(old(tree)@)))
                    && final(tree)@ == old(tree)@.update(
                    (2 * self@.own_leaf) as int,
                    NodeView::Leaf(kp),
                ) && path_reaches_all(
                    self@.group_id,
                    self@.own_leaf,
                    final(tree)@,
                    p@.secrets,
                    leaf_secret@,
                ),
            },
    {
        let n = tree.leaf_count();
        let d = tree_depth(n) as usize;
        let derived = derive_path(leaf_secret, d);
        let crate::ratchet_tree::DerivedPath {
            secrets,
            public_keys,
            leaf_private_key,
            leaf_public_key,
        } = derived;
        let identity = identity_of(&self.tree, self.own_leaf);
        let signature_key = match self.tree.member(self.own_leaf) {
            Some(kp) => copy(kp.signature_key.as_slice()),
            None => unreached(),
        };
        let mut package = KeyPackage {
            identity,
            signature_key,
            init_key: leaf_public_key,
            signature: Vec::new(),
        };
        let tbs = package.to_be_signed();
        match sign(signing_key, tbs.as_slice()) {
            Err(_) => None,
            Ok(signature) => {
                package.signature = signature;
                let ghost before = tree@;
                match tree.set_leaf(self.own_leaf, package.duplicate()) {
                    Ok(_) => {},
                    Err(_) => unreached(),
                }
                proof {
                    assert(leaf_count(tree@) == leaf_count(before));
                    assert(leaf_at(tree@, self@.own_leaf) is Leaf);
                }
                let sealed = self.seal_path_secrets(tree, &secrets);
                let path = UpdatePath { leaf_key_package: package, public_keys, secrets: sealed };
                proof {
                    assert forall|b: nat|
                        is_member(tree@, b) && b != self@.own_leaf implies (#[trigger] find_sealed(
                        path@.secrets,
                        b,
                        0,
                    ) matches Some(e) && sealed_for(
                        init_key_at(tree@, b),
                        spec_path_info(),
                        self@.group_id,
                        e.kem_output,
                        e.ciphertext,
                        spec_chain(leaf_secret@, spec_common_level(self@.own_leaf, b)),
                    )) by {
                        lemma_common_level(self@.own_leaf, b, leaf_count(tree@));
                    }
                }
                Some(path)
            },
        }
    }

    /// Tells whether a commit of `proposals` can be made, with a path from
    /// `leaf_secret` if one is given, and returns the tree after the
    /// proposals, or the reason why the commit cannot be made.
    fn committable(&self, proposals: &Vec<QueuedProposal>, leaf_secret: Option<&[u8]>) -> (r: Result<
        RatchetTree,
        EngineError,
    >)
        requires
            self.wf(),
        ensures
            match self@.commit_refusal(proposal_views(proposals@), option_view(leaf_secret)) {
                Some(e) => r matches Err(x) && x == e,
                None => r matches Ok(tree) && tree.wf() && spec_apply_proposals(
                    self@.tree,
                    proposal_views(proposals@),
                    0,
                ) == Ok::<Seq<NodeView>, EngineError>(tree@),
            },
    {
        if proposals.len() == 0 && leaf_secret.is_none() && !self.config.allow_empty_commit {
            return Err(EngineError::EmptyCommit);
        }
        if self.epoch >= u64::MAX {
            return Err(EngineError::EpochExhausted);
        }
        if self.group_id.len() as u64 > MAX_AEAD_LEN {
            return Err(EngineError::PayloadTooLong);
        }
        match leaf_secret {
            Some(s) => {
                if s.len() != HASH_LEN {
                    return Err(EngineError::InvalidPath);
                }
            },
            None => {},
        }
        if !check_proposals(&self.tree, self.own_leaf, proposals) {
            return Err(EngineError::Validation(ValidationReason::MalformedProposals));
        }
        let mut tree = self.tree.duplicate();
        match apply_proposals(&mut tree, proposals) {
            Ok(_) => Ok(tree),
            Err(_) => Err(EngineError::Validation(ValidationReason::MalformedProposals)),
        }
    }

    /// Commits `proposals`, with a path that starts from `leaf_secret` if one
    /// is given. On success the state keeps the leaf secret, so that this
    /// member can stage its own commit, and is otherwise unchanged; what is
    /// returned is what `commit_made` says. A commit that
    /// `GroupView::commit_refusal` refuses fails with the error named there.
    /// Otherwise the commit fails only with `BadSigningKey`, where the
    /// signing key is no key pair, or with `InvalidPath`, where the key
    /// package signed for the path does not verify under this member's
    /// signature key; with a signing key that signs everything and a key
    /// package that verifies, the commit is made. A failure leaves the state
    /// as it was.
    pub fn commit_with_secret(
        &mut self,
        proposals: Vec<QueuedProposal>,
        leaf_secret: Option<&[u8]>,
        signing_key: &[u8],
        authenticated_data: &[u8],
    ) -> (r: Result<CommitBundle, EngineError>)
        requires
            old(self).wf(),
        ensures
            final(self).wf(),
            r matches Ok(b) ==> commit_made(
                old(self)@,
                final(self)@,
                proposal_views(proposals@),
                option_view(leaf_secret),
                signing_key@,
                authenticated_data@,
                b.message@,
                welcome_views(b.welcomes@),
            ),
            r is Err ==> final(self)@ == old(self)@,
            old(self)@.commit_refusal(proposal_views(proposals@), option_view(leaf_secret))
                matches Some(e) ==> (r matches Err(x) && x == e),
            old(self)@.commit_refusal(proposal_views(proposals@), option_view(leaf_secret)) is None
                ==> (r matches Err(x) ==> x == EngineError::BadSigningKey || x
                == EngineError::Validation(ValidationReason::InvalidPath)),
            old(self)@.commit_refusal(proposal_views(proposals@), option_view(leaf_secret)) is None
                && (forall|d: Seq<u8>| (#[trigger] signed(signing_key@, d)) is Some) && (
            leaf_secret matches Some(s) ==> old(self)@.own_leaf_package(
                s@,
                signing_key@,
            )->Some_0.valid()) ==> r is Ok,
    {
        let ghost g = self@;
        let ghost pv = proposal_views(proposals@);
        let mut tree = match self.committable(&proposals, leaf_secret) {
            Ok(t) => t,
            Err(e) => {
                return Err(e);
            },
        };
        proof {
            crate::proposals::lemma_committable_spare_committer(g.tree, g.own_leaf, pv);
            crate::proposals::lemma_proposals_keep_member(g.tree, pv, 0, g.own_leaf);
        }
        let path: Option<UpdatePath> = match leaf_secret {
            None => None,
            Some(s) => match self.make_path(&mut tree, s, signing_key) {
                None => {
                    return Err(EngineError::BadSigningKey);
                },
                Some(p) => Some(p),
            },
        };
        let commit = Commit { proposals, path };
        let ghost cv = commit@;
        let mut message = match self.signed_frame(
            HandshakeBody::Commit(commit),
            signing_key,
            authenticated_data,
            None,
        ) {
            None => {
                return Err(EngineError::BadSigningKey);
            },
            Some(f) => f,
        };
        let tbs = to_be_signed(&message.header, &message.body);
        let content = authenticated_content(tbs.as_slice(), message.signature.as_slice());
        let mut pending: Option<Vec<u8>> = match leaf_secret {
            Some(s) => Some(copy(s)),
            None => None,
        };
        core::mem::swap(&mut self.pending_commit, &mut pending);
        let ghost after = self@;
        assert(after == GroupView { pending_commit: option_view(leaf_secret), ..g });
        proof {
            crate::laws::lemma_own_commit_advances(
                g,
                pv,
                option_view(leaf_secret),
                signing_key@,
                cv,
            );
        }
        let advanced = match &message.body {
            HandshakeBody::Commit(c) => self.advance(self.own_leaf, c),
            HandshakeBody::Proposal(_) => unreached(),
        };
        match advanced {
            Err(e) => {
                core::mem::swap(&mut self.pending_commit, &mut pending);
                Err(e)
            },
            Ok((new_tree, commit_secret, own_key)) => {
                let (secrets, confirmed, tag) = self.next_epoch(
                    content.as_slice(),
                    &new_tree,
                    commit_secret.as_slice(),
                );
                let welcomes = match &message.body {
                    HandshakeBody::Commit(c) => {
                        proof {
                            assert forall|i: int| 0 <= i < c.proposals@.len() implies (
                            #[trigger] c.proposals@[i]@.proposal matches ProposalView::Add(kp)
                                ==> kp.init_key.len() == HPKE_KEY_LEN) by {
                                assert(pv[i] == c.proposals@[i]@);
                                assert(crate::proposals::proposal_ok(
                                    g.tree,
                                    g.own_leaf,
                                    pv[i],
                                ));
                            }
                        }
                        self.make_welcomes(
                            &c.proposals,
                            self.epoch + 1,
                            secrets.joiner_secret.as_slice(),
                            confirmed.as_slice(),
                            tag.as_slice(),
                        )
                    },
                    HandshakeBody::Proposal(_) => unreached(),
                };
                message.confirmation_tag = Some(tag);
                proof {
                    assert(message@.body == BodyView::Commit(cv));
                    assert(after.stage_commit(message@, cv) is Ok);
                }
                Ok(CommitBundle { message, welcomes })
            },
        }
    }

    /// Commits `proposals`, with a fresh path if `with_path` is set. A commit
    /// that `GroupView::commit_refusal_for` refuses fails with the error
    /// named there, before any randomness is drawn. Otherwise what comes back
    /// is `commit_with_secret` with some 32 random bytes as the leaf secret,
    /// or without one: the commit fails only with `NoRandomness`, where a
    /// path is asked for and the random source fails, with `BadSigningKey`
    /// or with `InvalidPath`. A commit without a path is made whenever it is
    /// not refused and the signing key signs; one with a path is made
    /// whenever, beside that, the random source gives and the key package of
    /// the path verifies. A failure leaves the state as it was.
    pub fn commit(
        &mut self,
        proposals: Vec<QueuedProposal>,
        with_path: bool,
        signing_key: &[u8],
        authenticated_data: &[u8],
    ) -> (r: Result<CommitBundle, EngineError>)
        requires
            old(self).wf(),
        ensures
            final(self).wf(),
            r matches Ok(b) ==> exists|leaf_secret: Option<Seq<u8>>|
                (leaf_secret is Some <==> with_path) && #[trigger] commit_made(
                    old(self)@,
                    final(self)@,
                    proposal_views(proposals@),
                    leaf_secret,
                    signing_key@,
                    authenticated_data@,
                    b.message@,
                    welcome_views(b.welcomes@),
                ),
            r is Err ==> final(self)@ == old(self)@,
            old(self)@.commit_refusal_for(proposal_views(proposals@), with_path) matches Some(e)
                ==> (r matches Err(x) && x == e),
            old(self)@.commit_refusal_for(proposal_views(proposals@), with_path) is None ==> (
            r matches Err(x) ==> (with_path && x == EngineError::NoRandomness) || x
                == EngineError::BadSigningKey || x == EngineError::Validation(
                ValidationReason::InvalidPath,
            )),
            old(self)@.commit_refusal_for(proposal_views(proposals@), with_path) is None
                && !with_path && (forall|d: Seq<u8>| (#[trigger] signed(signing_key@, d)) is Some)
                ==> r is Ok,
            old(self)@.commit_refusal_for(proposal_views(proposals@), with_path) is None
                && with_path && (forall|d: Seq<u8>| (#[trigger] signed(signing_key@, d)) is Some)
                && (forall|s: Seq<u8>|
                s.len() == HASH_LEN ==> (#[trigger] old(self)@.own_leaf_package(
                    s,
                    signing_key@,
                ))->Some_0.valid()) ==> (r matches Err(x) ==> x == EngineError::NoRandomness),
    {
        if with_path {
            let placeholder = zeros(HASH_LEN);
            match self.committable(&proposals, Some(placeholder.as_slice())) {
                Ok(_) => {},
                Err(e) => {
                    return Err(e);
                },
            }
            match random_bytes(HASH_LEN) {
                Err(_) => Err(EngineError::NoRandomness),
                Ok(secret) => {
                    let r = self.commit_with_secret(
                        proposals,
                        Some(secret.as_slice()),
                        signing_key,
                        authenticated_data,
                    );
                    proof {
                        if r is Ok {
                            assert(commit_made(
                                old(self)@,
                                self@,
                                proposal_views(proposals@),
                                Some(secret@),
                                signing_key@,
                                authenticated_data@,
                                r->Ok_0.message@,
                                welcome_views(r->Ok_0.welcomes@),
                            ));
                        }
                    }
                    r
                },
            }
        } else {
            let r = self.commit_with_secret(proposals, None, signing_key, authenticated_data);
            proof {
                if r is Ok {
                    assert(commit_made(
                        old(self)@,
                        self@,
                        proposal_views(proposals@),
                        None,
                        signing_key@,
                        authenticated_data@,
                        r->Ok_0.message@,
                        welcome_views(r->Ok_0.welcomes@),
                    ));
                }
            }
            r
        }
    }

    /// Authenticates a handshake message and returns its authenticated
    /// content.
    fn authenticate(&self, f: &PlaintextFrame, signature_key: Option<&[u8]>) -> (r: Result<
        Vec<u8>,
        EngineError,
    >)
        requires
            self.wf(),
        ensures
            match self@.authenticate(f@, option_view(signature_key)) {
                Ok(_) => r matches Ok(content) && content@ == f@.authenticated_content(),
                Err(e) => r matches Err(x) && x == e,
            },
    {
        if !equal(f.header.group_id.as_slice(), self.group_id.as_slice()) {
            return Err(EngineError::WrongGroup);
        }
        if f.header.epoch != self.epoch {
            return Err(EngineError::WrongEpoch);
        }
        let announced = match &f.body {
            HandshakeBody::Proposal(_) => ContentType::Proposal,
            HandshakeBody::Commit(_) => ContentType::Commit,
        };
        if announced != f.header.content_type {
            return Err(EngineError::Validation(ValidationReason::MalformedMessage));
        }
        let tbs = to_be_signed(&f.header, &f.body);
        let shaped = crate::key_package::has_signature_shape(f.signature.as_slice());
        let verified = match self.tree.member(f.header.sender) {
            None => {
                return Err(EngineError::Validation(ValidationReason::UnknownSender));
            },
            Some(kp) => {
                if !shaped {
                    return Err(EngineError::Validation(ValidationReason::BadSignature));
                }
                match signature_key {
                    Some(k) => verify_signature(k, tbs.as_slice(), f.signature.as_slice()),
                    None => verify_signature(
                        kp.signature_key.as_slice(),
                        tbs.as_slice(),
                        f.signature.as_slice(),
                    ),
                }
            },
        };
        if verified.is_err() {
            return Err(EngineError::Validation(ValidationReason::BadSignature));
        }
        let content = authenticated_content(tbs.as_slice(), f.signature.as_slice());
        let tag = mac(self.secrets.membership_key.as_slice(), content.as_slice());
        if !equal(tag.as_slice(), f.membership_tag.as_slice()) {
            return Err(EngineError::Validation(ValidationReason::BadMembershipTag));
        }
        Ok(content)
    }

    /// The tree that a commit of `sender` leads to, before the public keys of
    /// its path are written.
    fn commit_tree(&self, sender: u32, c: &Commit) -> (r: Result<RatchetTree, EngineError>)
        requires
            self.wf(),
        ensures
            match self@.commit_tree(sender as nat, c@) {
                Ok(t) => r matches Ok(tree) && tree@ == t && tree.wf(),
                Err(e) => r matches Err(x) && x == e,
            },
    {
        if !check_proposals(&self.tree, sender, &c.proposals) {
            return Err(EngineError::Validation(ValidationReason::MalformedProposals));
        }
        let mut tree = self.tree.duplicate();
        match apply_proposals(&mut tree, &c.proposals) {
            Ok(_) => {},
            Err(_) => {
                return Err(EngineError::Validation(ValidationReason::MalformedProposals));
            },
        }
        match &c.path {
            None => {
                if c.proposals.len() == 0 && !self.config.allow_empty_commit {
                    return Err(EngineError::Validation(ValidationReason::MalformedProposals));
                }
                Ok(tree)
            },
            Some(p) => {
                if !p.leaf_key_package.verify() {
                    return Err(EngineError::Validation(ValidationReason::InvalidPath));
                }
                let current = identity_of(&self.tree, sender);
                if !equal(p.leaf_key_package.identity.as_slice(), current.as_slice()) {
                    return Err(EngineError::Validation(ValidationReason::InvalidPath));
                }
                match tree.set_leaf(sender, p.leaf_key_package.duplicate()) {
                    Ok(_) => Ok(tree),
                    Err(_) => Err(EngineError::Validation(ValidationReason::InvalidPath)),
                }
            },
        }
    }

    /// The HPKE key of the member at a leaf; empty for a blank leaf.
    fn init_key_of(tree: &RatchetTree, leaf: u32) -> (key: Vec<u8>)
        requires
            tree.wf(),
            leaf < leaf_count(tree@),
        ensures
            key@ == init_key_at(tree@, leaf as nat),
    {
        match tree.member(leaf) {
            Some(kp) => copy(kp.init_key.as_slice()),
            None => {
                let key: Vec<u8> = Vec::new();
                assert(key@ =~= Seq::<u8>::empty());
                key
            },
        }
    }

    /// The private key of the first registered bundle whose HPKE key is
    /// `init_key`.
    fn bundle_key(&self, init_key: &[u8]) -> (r: Option<Vec<u8>>)
        ensures
            option_vec_view(r) == find_bundle(self@.bundles, init_key@, 0),
    {
        let mut i: usize = 0;
        while i < self.bundles.len()
            invariant
                i <= self.bundles@.len(),
                self@.bundles.len() == self.bundles@.len(),
                find_bundle(self@.bundles, init_key@, 0) == find_bundle(
                    self@.bundles,
                    init_key@,
                    i as nat,
                ),
            decreases self.bundles@.len() - i,
        {
            assert(self@.bundles[i as int].key_package == self.bundles@[i as int].key_package@);
            assert(self@.bundles[i as int].private_key == self.bundles@[i as int].private_key@);
            if equal(self.bundles[i].key_package.init_key.as_slice(), init_key) {
                return Some(copy(self.bundles[i].private_key.as_slice()));
            }
            i += 1;
        }
        None
    }

    /// This member's private key after a commit of `sender` that leads to
    /// tree `t`.
    fn new_own_key(&self, t: &RatchetTree, sender: u32, c: &Commit) -> (r: Result<
        Vec<u8>,
        EngineError,
    >)
        requires
            self.wf(),
            t.wf(),
            is_member(t@, self@.own_leaf),
        ensures
            match self@.new_own_key(t@, sender as nat, c@) {
                Ok(k) => r matches Ok(key) && key@ == k,
                Err(e) => r matches Err(x) && x == e,
            },
    {
        if sender == self.own_leaf && c.path.is_some() {
            match (&self.pending_commit, &c.path) {
                (Some(s), Some(p)) => {
                    let node_secret = derive_secret(s.as_slice(), "node");
                    let (private_key, public_key) = derive_hpke_keypair(node_secret.as_slice());
                    if equal(public_key.as_slice(), p.leaf_key_package.init_key.as_slice()) {
                        Ok(private_key)
                    } else {
                        Err(EngineError::MissingPendingCommit)
                    }
                },
                _ => Err(EngineError::MissingPendingCommit),
            }
        } else {
            let new_key = Self::init_key_of(t, self.own_leaf);
            let old_key = Self::init_key_of(&self.tree, self.own_leaf);
            if equal(new_key.as_slice(), old_key.as_slice()) {
                Ok(copy(self.own_private_key.as_slice()))
            } else {
                match self.bundle_key(new_key.as_slice()) {
                    Some(k) => Ok(k),
                    None => Err(EngineError::Validation(ValidationReason::InvalidKeyPackage)),
                }
            }
        }
    }

    /// The path secret that this member holds for a commit of `sender`, and
    /// its place on the sender's path.
    fn own_path_secret(&self, own_key: &[u8], sender: u32, path: &UpdatePath) -> (r: Result<
        (usize, Vec<u8>),
        EngineError,
    >)
        requires
            self.wf(),
        ensures
            match self@.own_path_secret(own_key@, sender as nat, path@) {
                Ok((at, s)) => r matches Ok(pair) && pair.0 == at && pair.1@ == s,
                Err(e) => r matches Err(x) && x == e,
            },
    {
        if sender == self.own_leaf {
            return match &self.pending_commit {
                Some(s) => Ok((0, copy(s.as_slice()))),
                None => Err(EngineError::MissingPendingCommit),
            };
        }
        let ghost sealed = sealed_views(path.secrets@);
        let mut i: usize = 0;
        while i < path.secrets.len()
            invariant
                i <= path.secrets@.len(),
                sender != self.own_leaf,
                sealed == sealed_views(path.secrets@),
                sealed == path@.secrets,
                find_sealed(sealed, self@.own_leaf, 0) == find_sealed(
                    sealed,
                    self@.own_leaf,
                    i as nat,
                ),
            decreases path.secrets@.len() - i,
        {
            assert(sealed[i as int] == path.secrets@[i as int]@);
            if path.secrets[i].recipient == self.own_leaf {
                let e = &path.secrets[i];
                return match hpke_open(
                    own_key,
                    "path secret".as_bytes(),
                    self.group_id.as_slice(),
                    e.kem_output.as_slice(),
                    e.ciphertext.as_slice(),
                ) {
                    Ok(s) => Ok((common_level(sender, self.own_leaf) as usize, s)),
                    Err(_) => Err(EngineError::Validation(ValidationReason::DecryptionFailed)),
                };
            }
            i += 1;
        }
        Err(EngineError::Validation(ValidationReason::InvalidPath))
    }

    /// The secrets of the epoch that a commit opens, with the transcript
    /// hash it confirms and the confirmation tag it must carry.
    fn next_epoch(&self, content: &[u8], tree: &RatchetTree, commit_secret: &[u8]) -> (out: (
        KeyScheduleSecrets,
        Vec<u8>,
        Vec<u8>,
    ))
        requires
            self.wf(),
            tree.wf(),
            self@.epoch < u64::MAX,
        ensures
            out.0@ == self@.next_secrets(content@, tree@, commit_secret@),
            out.0.wf(),
            out.1@ == self@.confirmed_hash(content@),
            out.1@.len() == HASH_LEN,
            out.2@ == self@.expected_confirmation_tag(content@, tree@, commit_secret@),
            out.2@.len() == HASH_LEN,
    {
        let confirmed = confirmed_transcript_hash(self.interim_transcript_hash.as_slice(), content);
        let tree_hash = tree.tree_hash();
        let context = group_context(
            self.group_id.as_slice(),
            self.epoch + 1,
            tree_hash.as_slice(),
            confirmed.as_slice(),
        );
        let secrets = derive_epoch_secrets(
            self.secrets.init_secret.as_slice(),
            commit_secret,
            context.as_slice(),
        );
        let tag = mac(secrets.confirmation_key.as_slice(), confirmed.as_slice());
        (secrets, confirmed, tag)
    }

    /// The state that a commit leads to, given the tree and the shared
    /// secret.
    fn staged(
        &self,
        content: &[u8],
        confirmation_tag: &Option<Vec<u8>>,
        tree: RatchetTree,
        commit_secret: &[u8],
        own_key: Vec<u8>,
    ) -> (r: Result<StagedCommit, EngineError>)
        requires
            self.wf(),
            tree.wf(),
            is_member(tree@, self@.own_leaf),
            self@.epoch < u64::MAX,
        ensures
            match self@.staged(
                content@,
                option_vec_view(*confirmation_tag),
                tree@,
                commit_secret@,
                own_key@,
            ) {
                Ok(s) => r matches Ok(staged) && staged@ == s && staged.wf(),
                Err(e) => r matches Err(x) && x == e,
            },
    {
        let (secrets, confirmed, tag) = self.next_epoch(content, &tree, commit_secret);
        let tag_ok = match confirmation_tag {
            Some(t) => equal(t.as_slice(), tag.as_slice()),
            None => false,
        };
        if !tag_ok {
            return Err(EngineError::Validation(ValidationReason::BadConfirmationTag));
        }
        let leaves = tree.leaf_count();
        proof {
            tree.lemma_view_wf();
        }
        let secret_tree = SecretTree::new(
            secrets.encryption_secret.as_slice(),
            leaves,
            self.config.max_forward_distance,
        );
        let interim = interim_transcript_hash(confirmed.as_slice(), tag.as_slice());
        Ok(
            StagedCommit {
                epoch: self.epoch + 1,
                parent: copy(self.interim_transcript_hash.as_slice()),
                own_leaf: self.own_leaf,
                tree,
                secrets,
                secret_tree,
                interim_transcript_hash: interim,
                own_private_key: own_key,
            },
        )
    }

    /// Where a commit of `sender` leads: the tree, the shared secret and this
    /// member's private key.
    fn advance(&self, sender: u32, c: &Commit) -> (r: Result<
        (RatchetTree, Vec<u8>, Vec<u8>),
        EngineError,
    >)
        requires
            self.wf(),
        ensures
            match self@.advance(sender as nat, c@) {
                Ok((t, secret, key)) => r matches Ok(out) && out.0@ == t && out.1@ == secret
                    && out.2@ == key && out.0.wf() && is_member(t, self@.own_leaf)
                    && self@.epoch < u64::MAX,
                Err(e) => r matches Err(x) && x == e,
            },
    {
        if self.epoch >= u64::MAX {
            return Err(EngineError::EpochExhausted);
        }
        let mut tree = match self.commit_tree(sender, c) {
            Ok(t) => t,
            Err(e) => {
                return Err(e);
            },
        };
        if !tree.is_member(self.own_leaf) {
            return Err(EngineError::Removed);
        }
        let own_key = match self.new_own_key(&tree, sender, c) {
            Ok(k) => k,
            Err(e) => {
                return Err(e);
            },
        };
        let commit_secret = match &c.path {
            None => zeros(HASH_LEN),
            Some(p) => {
                let (at, secret) = match self.own_path_secret(own_key.as_slice(), sender, p) {
                    Ok(pair) => pair,
                    Err(e) => {
                        return Err(e);
                    },
                };
                let ghost before = tree@;
                proof {
                    tree.lemma_view_wf();
                }
                match tree.apply_path_update(sender, &p.public_keys, at, secret.as_slice()) {
                    Ok(root) => {
                        proof {
                            crate::ratchet_tree::lemma_path_keeps_leaves(
                                before,
                                sender as nat,
                                byte_views(p.public_keys@),
                                at as nat,
                                secret@,
                                self@.own_leaf,
                            );
                        }
                        root
                    },
                    Err(_) => {
                        return Err(EngineError::Validation(ValidationReason::InvalidPath));
                    },
                }
            },
        };
        Ok((tree, commit_secret, own_key))
    }

    /// What this member makes of an authentic commit.
    fn stage_commit(&self, f: &PlaintextFrame, c: &Commit, content: &[u8]) -> (r: Result<
        StagedCommit,
        EngineError,
    >)
        requires
            self.wf(),
            content@ == f@.authenticated_content(),
        ensures
            match self@.stage_commit(f@, c@) {
                Ok(s) => r matches Ok(staged) && staged@ == s && staged.wf(),
                Err(e) => r matches Err(x) && x == e,
            },
    {
        match self.advance(f.header.sender, c) {
            Err(e) => Err(e),
            Ok((tree, commit_secret, own_key)) => self.staged(
                content,
                &f.confirmation_tag,
                tree,
                commit_secret.as_slice(),
                own_key,
            ),
        }
    }

    /// Validates a message and stages what it brings. A proposal is handed
    /// back with its proposer, a commit is staged without being installed,
    /// and an application message is opened. The optional `signature_key`
    /// takes the place of the sender's key when the signature of a handshake
    /// message is checked. What comes back is what `GroupView::stage` says.
    /// Only opening an application message changes the state, and a refusal
    /// changes nothing.
    pub fn stage(&mut self, unverified: UnverifiedMessage, signature_key: Option<&[u8]>) -> (r:
        Result<StagedMessage, EngineError>)
        requires
            old(self).wf(),
        ensures
            final(self).wf(),
            match old(self)@.stage(unverified@, option_view(signature_key)) {
                Ok((staged, after)) => r matches Ok(s) && s@ == staged && final(self)@ == after
                    && (s matches StagedMessage::StagedCommit(c) ==> c.wf()),
                Err(e) => r matches Err(x) && x == e && final(self)@ == old(self)@,
            },
    {
        match unverified {
            UnverifiedMessage::Application(f) => match self.decrypt(&f) {
                Ok(payload) => Ok(StagedMessage::ApplicationMessage(payload)),
                Err(e) => Err(e),
            },
            UnverifiedMessage::Handshake(f) => {
                let content = match self.authenticate(&f, signature_key) {
                    Ok(c) => c,
                    Err(e) => {
                        return Err(e);
                    },
                };
                match &f.body {
                    HandshakeBody::Proposal(p) => Ok(
                        StagedMessage::ProposalMessage(
                            QueuedProposal { sender: f.header.sender, proposal: p.duplicate() },
                        ),
                    ),
                    HandshakeBody::Commit(c) => match self.stage_commit(&f, c, content.as_slice()) {
                        Ok(s) => Ok(StagedMessage::StagedCommit(s)),
                        Err(e) => Err(e),
                    },
                }
            },
        }
    }

    /// Installs a staged commit: the tree, the secrets and this member's key
    /// of the next epoch take the place of the current ones, the epoch
    /// moves forward by exactly one, and the new secret tree is pushed to the
    /// store, which evicts its oldest tree if the window is exceeded. A
    /// staged commit that was not made on this state is refused with
    /// `StaleCommit`, and the state stays as it was.
    pub fn merge(&mut self, staged: StagedCommit) -> (r: Result<(), EngineError>)
        requires
            old(self).wf(),
            staged.wf(),
        ensures
            final(self).wf(),
            match old(self)@.merge(staged@) {
                Ok(after) => r is Ok && final(self)@ == after && final(self)@.epoch == old(
                    self,
                )@.epoch + 1,
                Err(e) => r matches Err(x) && x == e && final(self)@ == old(self)@,
            },
    {
        if self.epoch == u64::MAX || staged.epoch != self.epoch + 1 || !equal(
            staged.parent.as_slice(),
            self.interim_transcript_hash.as_slice(),
        ) || staged.own_leaf != self.own_leaf {
            return Err(EngineError::StaleCommit);
        }
        let StagedCommit {
            epoch,
            parent,
            own_leaf,
            tree,
            secrets,
            secret_tree,
            interim_transcript_hash,
            own_private_key,
        } = staged;
        let ghost before = self@;
        proof {
            self.store.lemma_view_wf();
            secret_tree.lemma_view_wf();
            crate::message_secrets::lemma_push(before.store, secret_tree@);
        }
        self.store.push(secret_tree);
        self.epoch = epoch;
        self.tree = tree;
        self.secrets = secrets;
        self.interim_transcript_hash = interim_transcript_hash;
        self.own_private_key = own_private_key;
        self.pending_commit = None;
        Ok(())
    }

    /// Seals an application message under the next key of this member's
    /// application ratchet. The epoch, the tree and the key schedule are not
    /// touched. What comes back is what `GroupView::encrypt` says, and the
    /// frame opens to the payload under the key of its generation.
    pub fn encrypt_application_message(&mut self, payload: &[u8], authenticated_data: &[u8]) -> (r:
        Result<CiphertextFrame, EngineError>)
        requires
            old(self).wf(),
        ensures
            final(self).wf(),
            match old(self)@.encrypt(payload@, authenticated_data@) {
                Ok((frame, after)) => r matches Ok(f) && f@ == frame && final(self)@ == after
                    && opens_to(old(self)@, f@, payload@),
                Err(e) => r matches Err(x) && x == e && final(self)@ == old(self)@,
            },
    {
        let header = FrameHeader {
            group_id: copy(self.group_id.as_slice()),
            epoch: self.epoch,
            sender: self.own_leaf,
            content_type: ContentType::Application,
            authenticated_data: copy(authenticated_data),
        };
        let aad = header.encode();
        if payload.len() as u64 > MAX_AEAD_LEN || aad.len() as u64 > MAX_AEAD_LEN {
            return Err(EngineError::PayloadTooLong);
        }
        let generation: u64 = match self.store.next_generation(
            self.own_leaf,
            SecretKind::Application,
        ) {
            Some(g) => g,
            None => vstd::pervasive::unreached(),
        };
        if generation > u32::MAX as u64 {
            return Err(EngineError::RatchetExhausted);
        }
        let ghost before = self@;
        match self.store.derive_message_key(
            self.epoch,
            self.own_leaf,
            generation as u32,
            SecretKind::Application,
        ) {
            Err(e) => Err(e),
            Ok((key, nonce)) => {
                let ciphertext = match aead_encrypt(
                    key.as_slice(),
                    nonce.as_slice(),
                    aad.as_slice(),
                    payload,
                ) {
                    Ok(ct) => ct,
                    Err(_) => vstd::pervasive::unreached(),
                };
                proof {
                    crate::message_secrets::lemma_derive_keeps_shape(
                        before.store,
                        before.epoch,
                        before.own_leaf,
                        generation as nat,
                        SecretKind::Application,
                    );
                }
                Ok(CiphertextFrame { header, generation: generation as u32, ciphertext })
            },
        }
    }

    /// Opens an application message and moves the sender's ratchet past its
    /// generation. The epoch, the tree and the key schedule are not touched.
    /// What comes back is what `GroupView::decrypt` says; a refusal leaves
    /// the state as it was.
    pub fn decrypt(&mut self, frame: &CiphertextFrame) -> (r: Result<Vec<u8>, EngineError>)
        requires
            old(self).wf(),
        ensures
            final(self).wf(),
            match old(self)@.decrypt(frame@) {
                Ok((payload, after)) => r matches Ok(p) && p@ == payload && final(self)@ == after,
                Err(e) => r matches Err(x) && x == e && final(self)@ == old(self)@,
            },
    {
        if !equal(frame.header.group_id.as_slice(), self.group_id.as_slice()) {
            return Err(EngineError::WrongGroup);
        }
        if frame.header.content_type != ContentType::Application {
            return Err(EngineError::Validation(ValidationReason::MalformedMessage));
        }
        let (key, nonce) = match self.store.peek_message_key(
            frame.header.epoch,
            frame.header.sender,
            frame.generation,
            SecretKind::Application,
        ) {
            Ok(pair) => pair,
            Err(e) => {
                return Err(e);
            },
        };
        let aad = frame.header.encode();
        let payload = match aead_decrypt(
            key.as_slice(),
            nonce.as_slice(),
            aad.as_slice(),
            frame.ciphertext.as_slice(),
        ) {
            Ok(p) => p,
            Err(_) => {
                return Err(EngineError::Validation(ValidationReason::DecryptionFailed));
            },
        };
        let ghost before = self@;
        proof {
            crate::message_secrets::lemma_derive_keeps_shape(
                before.store,
                frame@.header.epoch,
                frame@.header.sender,
                frame@.generation,
                SecretKind::Application,
            );
        }
        match self.store.derive_message_key(
            frame.header.epoch,
            frame.header.sender,
            frame.generation,
            SecretKind::Application,
        ) {
            Ok(_) => Ok(payload),
            Err(_) => vstd::pervasive::unreached(),
        }
    }

    /// Enters a group by a welcome, with the tree given beside the welcome
    /// or, where none is given, the snapshot that travels with it. What comes
    /// back is what `spec_join` says.
    pub fn join(
        welcome: Welcome,
        tree: Option<RatchetTree>,
        bundle: KeyPackageBundle,
        config: GroupConfig,
    ) -> (r: Result<GroupState, EngineError>)
        requires
            welcome.wf(),
            tree matches Some(t) ==> t.wf(),
        ensures
            match spec_join(
                welcome@,
                match tree {
                    Some(t) => Some(t@),
                    None => None,
                },
                BundleView { key_package: bundle.key_package@, private_key: bundle.private_key@ },
                config,
            ) {
                Ok(g) => r matches Ok(group) && group@ == g && group.wf(),
                Err(e) => r matches Err(x) && x == e,
            },
    {
        let Welcome {
            recipient,
            group_id,
            kem_output,
            ciphertext,
            confirmed_transcript_hash,
            confirmation_tag,
            tree: snapshot,
        } = welcome;
        let KeyPackageBundle { key_package, private_key } = bundle;
        let reference = key_package.hash_ref();
        if !equal(recipient.as_slice(), reference.as_slice()) {
            return Err(EngineError::Validation(ValidationReason::InvalidKeyPackage));
        }
        let chosen = match tree {
            Some(t) => Some(t),
            None => snapshot,
        };
        let tree = match chosen {
            Some(t) => t,
            None => {
                return Err(EngineError::Validation(ValidationReason::MalformedMessage));
            },
        };
        let payload = match hpke_open(
            private_key.as_slice(),
            "welcome".as_bytes(),
            recipient.as_slice(),
            kem_output.as_slice(),
            ciphertext.as_slice(),
        ) {
            Ok(p) => p,
            Err(_) => {
                return Err(EngineError::Validation(ValidationReason::DecryptionFailed));
            },
        };
        if payload.len() != crate::welcome::WELCOME_PAYLOAD_LEN {
            return Err(EngineError::Validation(ValidationReason::MalformedMessage));
        }
        let epoch = crate::bytes::u64_from_be(payload.as_slice());
        let joiner_secret = crate::bytes::copy_range(payload.as_slice(), 8, 40);
        let own_leaf = match tree.find_package(&key_package) {
            Some(leaf) => leaf,
            None => {
                return Err(EngineError::UnknownLeaf);
            },
        };
        let tree_hash = tree.tree_hash();
        let context = group_context(
            group_id.as_slice(),
            epoch,
            tree_hash.as_slice(),
            confirmed_transcript_hash.as_slice(),
        );
        let secrets = crate::key_schedule::secrets_from_joiner(
            joiner_secret.as_slice(),
            context.as_slice(),
        );
        let tag = mac(secrets.confirmation_key.as_slice(), confirmed_transcript_hash.as_slice());
        if !equal(tag.as_slice(), confirmation_tag.as_slice()) {
            return Err(EngineError::Validation(ValidationReason::BadConfirmationTag));
        }
        let leaves = tree.leaf_count();
        proof {
            tree.lemma_view_wf();
        }
        let secret_tree = SecretTree::new(
            secrets.encryption_secret.as_slice(),
            leaves,
            config.max_forward_distance,
        );
        let store = MessageSecretsStore::new(config.max_past_epochs, epoch, secret_tree);
        let interim = interim_transcript_hash(
            confirmed_transcript_hash.as_slice(),
            confirmation_tag.as_slice(),
        );
        let group = GroupState {
            group_id,
            epoch,
            tree,
            own_leaf,
            own_private_key: private_key,
            secrets,
            store,
            interim_transcript_hash: interim,
            config,
            pending_commit: None,
            bundles: Vec::new(),
        };
        assert(group@.bundles =~= Seq::<BundleView>::empty());
        Ok(group)
    }

    /// The content of this state, to be kept outside the engine.
    pub fn to_parts(&self) -> (parts: GroupParts)
        requires
            self.wf(),
        ensures
            parts@ == self@,
            group_parts_valid(parts@),
    {
        let mut bundles: Vec<KeyPackageBundle> = Vec::new();
        let mut i: usize = 0;
        while i < self.bundles.len()
            invariant
                i <= self.bundles@.len(),
                bundles@.len() == i,
                forall|k: int|
                    0 <= k < i ==> (#[trigger] bundles@[k]).key_package@
                        == self.bundles@[k].key_package@ && bundles@[k].private_key@
                        == self.bundles@[k].private_key@,
            decreases self.bundles@.len() - i,
        {
            bundles.push(self.bundles[i].duplicate());
            i += 1;
        }
        let parts = GroupParts {
            group_id: copy(self.group_id.as_slice()),
            epoch: self.epoch,
            nodes: self.tree.duplicate().into_nodes(),
            own_leaf: self.own_leaf,
            own_private_key: copy(self.own_private_key.as_slice()),
            secrets: self.secrets.duplicate(),
            store: self.store.to_parts(),
            interim_transcript_hash: copy(self.interim_transcript_hash.as_slice()),
            config: self.config,
            pending_commit: match &self.pending_commit {
                Some(s) => Some(copy(s.as_slice())),
                None => None,
            },
            bundles,
        };
        assert(parts@.bundles =~= self@.bundles);
        parts
    }

    /// The state with a content that was kept outside the engine; `None`
    /// exactly where the content is not that of a group state.
    pub fn from_parts(parts: GroupParts) -> (r: Option<GroupState>)
        ensures
            r is Some <==> group_parts_valid(parts@),
            r matches Some(group) ==> group.wf() && group@ == parts@,
    {
        let GroupParts {
            group_id,
            epoch,
            nodes,
            own_leaf,
            own_private_key,
            secrets,
            store,
            interim_transcript_hash,
            config,
            pending_commit,
            bundles,
        } = parts;
        let tree = match RatchetTree::from_nodes(nodes) {
            Some(t) => t,
            None => {
                return None;
            },
        };
        proof {
            tree.lemma_view_wf();
        }
        if !tree.is_member(own_leaf) || !secrets.has_lengths() || interim_transcript_hash.len()
            > HASH_LEN {
            return None;
        }
        match &pending_commit {
            Some(s) => {
                if s.len() != HASH_LEN {
                    return None;
                }
            },
            None => {},
        }
        let store = match MessageSecretsStore::from_parts(store) {
            Some(s) => s,
            None => {
                return None;
            },
        };
        proof {
            store.lemma_view_wf();
        }
        if store.current_epoch() != epoch || store.max_past_epochs() != config.max_past_epochs
            || store.current_leaf_count() != tree.leaf_count() as usize {
            return None;
        }
        Some(
            GroupState {
                group_id,
                epoch,
                tree,
                own_leaf,
                own_private_key,
                secrets,
                store,
                interim_transcript_hash,
                config,
                pending_commit,
                bundles,
            },
        )
    }

    /// The current epoch.
    pub fn epoch(&self) -> (e: u64)
        ensures
            e == self@.epoch,
    {
        self.epoch
    }

    /// The identifier of the group.
    pub fn group_id(&self) -> (id: &Vec<u8>)
        ensures
            id@ == self@.group_id,
    {
        &self.group_id
    }

    /// The leaf of this member.
    pub fn own_leaf(&self) -> (leaf: u32)
        ensures
            leaf == self@.own_leaf,
    {
        self.own_leaf
    }

    /// The secrets of the current epoch.
    pub fn secrets(&self) -> (s: &KeyScheduleSecrets)
        ensures
            s@ == self@.secrets,
    {
        &self.secrets
    }

    /// The ratchet tree of the current epoch.
    pub fn tree(&self) -> (t: &RatchetTree)
        requires
            self.wf(),
        ensures
            t@ == self@.tree,
            t.wf(),
    {
        &self.tree
    }

    /// A copy of the ratchet tree, to be handed to a new member.
    pub fn export_ratchet_tree(&self) -> (t: RatchetTree)
        requires
            self.wf(),
        ensures
            t@ == self@.tree,
            t.wf(),
    {
        self.tree.duplicate()
    }
}

} // verus!
