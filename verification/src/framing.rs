//! Framing: the two shapes in which protocol messages travel, and the
//! canonical encodings that are signed, authenticated and hashed.
//!
//! A handshake message (a proposal or a commit) travels in the clear; its
//! integrity rests on a signature, a membership tag and, for a commit, a
//! confirmation tag over the transcript. An application message travels
//! sealed under a key of the secret tree. Both shapes carry the same header,
//! and both bind it: the header is part of what is signed, and it is the
//! associated data of the seal.

use crate::bytes::{
    append, append_prefixed, byte_views, copy, encode_list, spec_list, spec_prefixed, spec_u64_be,
    u64_be,
};
use crate::crypto::{hash, hashed, HASH_LEN};
use crate::key_package::{KeyPackage, KeyPackageView};
use vstd::pervasive::unreached;
use vstd::prelude::*;

verus! {

/// What a message carries.
#[derive(Debug, Clone, Copy, PartialEq, Eq, Structural)]
pub enum ContentType {
    /// Application data, sealed.
    Application,
    /// A proposal.
    Proposal,
    /// A commit.
    Commit,
}

/// The byte that stands for a content type.
pub open spec fn spec_content_type_byte(t: ContentType) -> u8 {
    match t {
        ContentType::Application => 1,
        ContentType::Proposal => 2,
        ContentType::Commit => 3,
    }
}

/// The header of a message, as plain values.
pub struct HeaderView {
    pub group_id: Seq<u8>,
    pub epoch: nat,
    pub sender: nat,
    pub content_type: ContentType,
    pub authenticated_data: Seq<u8>,
}

impl HeaderView {
    /// The canonical encoding of the header. It is the associated data of a
    /// sealed message and the first part of what a handshake message signs.
    pub open spec fn encode(self) -> Seq<u8> {
        spec_prefixed(self.group_id) + spec_u64_be(self.epoch as u64) + spec_u64_be(
            self.sender as u64,
        ) + seq![spec_content_type_byte(self.content_type)] + spec_prefixed(self.authenticated_data)
    }
}

/// The header that every message carries.
#[derive(Debug, Clone, PartialEq, Eq)]
pub struct FrameHeader {
    /// The group the message belongs to.
    pub group_id: Vec<u8>,
    /// The epoch in which it was made.
    pub epoch: u64,
    /// The leaf of its sender.
    pub sender: u32,
    /// What it carries.
    pub content_type: ContentType,
    /// Data of the application that is authenticated with the message.
    pub authenticated_data: Vec<u8>,
}

impl View for FrameHeader {
    type V = HeaderView;

    open spec fn view(&self) -> HeaderView {
        HeaderView {
            group_id: self.group_id@,
            epoch: self.epoch as nat,
            sender: self.sender as nat,
            content_type: self.content_type,
            authenticated_data: self.authenticated_data@,
        }
    }
}

impl FrameHeader {
    /// The canonical encoding of the header.
    pub fn encode(&self) -> (out: Vec<u8>)
        ensures
            out@ == self@.encode(),
    {
        let mut out: Vec<u8> = Vec::new();
        append_prefixed(&mut out, self.group_id.as_slice());
        let epoch = u64_be(self.epoch);
        append(&mut out, epoch.as_slice());
        let sender = u64_be(self.sender as u64);
        append(&mut out, sender.as_slice());
        let tag: u8 = match self.content_type {
            ContentType::Application => 1,
            ContentType::Proposal => 2,
            ContentType::Commit => 3,
        };
        out.push(tag);
        append_prefixed(&mut out, self.authenticated_data.as_slice());
        assert(out@ =~= self@.encode());
        out
    }

    /// A copy of this header.
    pub fn duplicate(&self) -> (out: FrameHeader)
        ensures
            out@ == self@,
    {
        FrameHeader {
            group_id: copy(self.group_id.as_slice()),
            epoch: self.epoch,
            sender: self.sender,
            content_type: self.content_type,
            authenticated_data: copy(self.authenticated_data.as_slice()),
        }
    }
}

/// A proposal, as plain values.
pub enum ProposalView {
    Add(KeyPackageView),
    Remove(nat),
    Update(KeyPackageView),
}

/// A change to the group that a member proposes.
#[derive(Debug, Clone, PartialEq, Eq)]
pub enum Proposal {
    /// Add the member with this key package.
    Add(KeyPackage),
    /// Remove the member at this leaf.
    Remove(u32),
    /// Replace the proposer's key package by this one.
    Update(KeyPackage),
}

impl View for Proposal {
    type V = ProposalView;

    open spec fn view(&self) -> ProposalView {
        match self {
            Proposal::Add(kp) => ProposalView::Add(kp@),
            Proposal::Remove(leaf) => ProposalView::Remove(*leaf as nat),
            Proposal::Update(kp) => ProposalView::Update(kp@),
        }
    }
}

impl ProposalView {
    /// The canonical encoding of the proposal.
    pub open spec fn encode(self) -> Seq<u8> {
        match self {
            ProposalView::Add(kp) => seq![1u8] + kp.encode(),
            ProposalView::Remove(leaf) => seq![2u8] + spec_u64_be(leaf as u64),
            ProposalView::Update(kp) => seq![3u8] + kp.encode(),
        }
    }
}

impl Proposal {
    /// The canonical encoding of the proposal.
    pub fn encode(&self) -> (out: Vec<u8>)
        ensures
            out@ == self@.encode(),
    {
        let mut out: Vec<u8> = Vec::new();
        match self {
            Proposal::Add(kp) => {
                out.push(1u8);
                let body = kp.encode();
                append(&mut out, body.as_slice());
                assert(out@ =~= self@.encode());
            },
            Proposal::Remove(leaf) => {
                out.push(2u8);
                let body = u64_be(*leaf as u64);
                append(&mut out, body.as_slice());
                assert(out@ =~= self@.encode());
            },
            Proposal::Update(kp) => {
                out.push(3u8);
                let body = kp.encode();
                append(&mut out, body.as_slice());
                assert(out@ =~= self@.encode());
            },
        }
        out
    }

    /// A copy of this proposal.
    pub fn duplicate(&self) -> (out: Proposal)
        ensures
            out@ == self@,
    {
        match self {
            Proposal::Add(kp) => Proposal::Add(kp.duplicate()),
            Proposal::Remove(leaf) => Proposal::Remove(*leaf),
            Proposal::Update(kp) => Proposal::Update(kp.duplicate()),
        }
    }
}

/// A proposal with its proposer, as plain values.
pub struct QueuedProposalView {
    pub sender: nat,
    pub proposal: ProposalView,
}

impl QueuedProposalView {
    /// The canonical encoding.
    pub open spec fn encode(self) -> Seq<u8> {
        spec_u64_be(self.sender as u64) + self.proposal.encode()
    }

    /// The reference by which the proposal is named: the hash of its
    /// encoding. Two proposals with the same reference are taken for one.
    pub open spec fn reference(self) -> Seq<u8> {
        hashed(self.encode())
    }
}

/// A proposal together with the leaf of the member who made it. This is how
/// a proposal waits to be committed and how a commit refers to it.
#[derive(Debug, Clone, PartialEq, Eq)]
pub struct QueuedProposal {
    pub sender: u32,
    pub proposal: Proposal,
}

impl View for QueuedProposal {
    type V = QueuedProposalView;

    open spec fn view(&self) -> QueuedProposalView {
        QueuedProposalView { sender: self.sender as nat, proposal: self.proposal@ }
    }
}

impl QueuedProposal {
    /// The canonical encoding.
    pub fn encode(&self) -> (out: Vec<u8>)
        ensures
            out@ == self@.encode(),
    {
        let mut out = u64_be(self.sender as u64);
        let body = self.proposal.encode();
        append(&mut out, body.as_slice());
        out
    }

    /// The reference by which the proposal is named.
    pub fn reference(&self) -> (out: Vec<u8>)
        ensures
            out@ == self@.reference(),
            out@.len() == HASH_LEN,
    {
        let encoded = self.encode();
        match hash(encoded.as_slice()) {
            Ok(v) => v,
            Err(_) => unreached(),
        }
    }

    /// A copy of this proposal.
    pub fn duplicate(&self) -> (out: QueuedProposal)
        ensures
            out@ == self@,
    {
        QueuedProposal { sender: self.sender, proposal: self.proposal.duplicate() }
    }
}

/// The views of a sequence of queued proposals.
pub open spec fn proposal_views(v: Seq<QueuedProposal>) -> Seq<QueuedProposalView> {
    Seq::new(v.len(), |i: int| v[i]@)
}

/// A path secret sealed to one member, as plain values.
pub struct SealedSecretView {
    pub recipient: nat,
    pub kem_output: Seq<u8>,
    pub ciphertext: Seq<u8>,
}

impl SealedSecretView {
    /// The canonical encoding.
    pub open spec fn encode(self) -> Seq<u8> {
        spec_u64_be(self.recipient as u64) + spec_prefixed(self.kem_output) + spec_prefixed(
            self.ciphertext,
        )
    }
}

/// A path secret sealed to the member at leaf `recipient`.
#[derive(Debug, Clone, PartialEq, Eq)]
pub struct SealedSecret {
    pub recipient: u32,
    pub kem_output: Vec<u8>,
    pub ciphertext: Vec<u8>,
}

impl View for SealedSecret {
    type V = SealedSecretView;

    open spec fn view(&self) -> SealedSecretView {
        SealedSecretView {
            recipient: self.recipient as nat,
            kem_output: self.kem_output@,
            ciphertext: self.ciphertext@,
        }
    }
}

impl SealedSecret {
    /// The canonical encoding.
    pub fn encode(&self) -> (out: Vec<u8>)
        ensures
            out@ == self@.encode(),
    {
        let mut out = u64_be(self.recipient as u64);
        append_prefixed(&mut out, self.kem_output.as_slice());
        append_prefixed(&mut out, self.ciphertext.as_slice());
        out
    }

    /// A copy of this sealed secret.
    pub fn duplicate(&self) -> (out: SealedSecret)
        ensures
            out@ == self@,
    {
        SealedSecret {
            recipient: self.recipient,
            kem_output: copy(self.kem_output.as_slice()),
            ciphertext: copy(self.ciphertext.as_slice()),
        }
    }
}

/// The views of a sequence of sealed secrets.
pub open spec fn sealed_views(v: Seq<SealedSecret>) -> Seq<SealedSecretView> {
    Seq::new(v.len(), |i: int| v[i]@)
}

/// A path update, as plain values.
pub struct UpdatePathView {
    pub leaf_key_package: KeyPackageView,
    pub public_keys: Seq<Seq<u8>>,
    pub secrets: Seq<SealedSecretView>,
}

impl UpdatePathView {
    /// Whether the encodings of the parts fit into memory, as they do for
    /// every path that was held in memory.
    pub open spec fn fits(self) -> bool {
        &&& self.leaf_key_package.encode().len() <= usize::MAX
        &&& forall|i: int|
            0 <= i < self.secrets.len() ==> (#[trigger] self.secrets[i]).encode().len()
                <= usize::MAX
    }

    /// The canonical encoding.
    pub open spec fn encode(self) -> Seq<u8> {
        spec_prefixed(self.leaf_key_package.encode()) + spec_list(self.public_keys) + spec_list(
            Seq::new(self.secrets.len(), |i: int| self.secrets[i].encode()),
        )
    }
}

/// The path update of a commit: the committer's new key package, the new
/// public keys of its ancestors from the parent to the root, and the path
/// secrets sealed to the other members.
#[derive(Debug, Clone, PartialEq, Eq)]
pub struct UpdatePath {
    pub leaf_key_package: KeyPackage,
    pub public_keys: Vec<Vec<u8>>,
    pub secrets: Vec<SealedSecret>,
}

impl View for UpdatePath {
    type V = UpdatePathView;

    open spec fn view(&self) -> UpdatePathView {
        UpdatePathView {
            leaf_key_package: self.leaf_key_package@,
            public_keys: byte_views(self.public_keys@),
            secrets: sealed_views(self.secrets@),
        }
    }
}

impl UpdatePath {
    /// The canonical encoding.
    pub fn encode(&self) -> (out: Vec<u8>)
        ensures
            out@ == self@.encode(),
            self@.fits(),
    {
        let mut out: Vec<u8> = Vec::new();
        let kp = self.leaf_key_package.encode();
        assert(kp.len() == kp@.len());
        append_prefixed(&mut out, kp.as_slice());
        let keys = encode_list(&self.public_keys);
        append(&mut out, keys.as_slice());
        let mut encoded: Vec<Vec<u8>> = Vec::new();
        let mut i: usize = 0;
        while i < self.secrets.len()
            invariant
                i <= self.secrets@.len(),
                encoded@.len() == i,
                forall|j: int| 0 <= j < i ==> (#[trigger] encoded@[j])@ == self.secrets@[j]@.encode(),
            decreases self.secrets@.len() - i,
        {
            encoded.push(self.secrets[i].encode());
            i += 1;
        }
        assert(byte_views(encoded@) =~= Seq::new(
            self@.secrets.len(),
            |i: int| self@.secrets[i].encode(),
        ));
        assert forall|i: int| 0 <= i < self@.secrets.len() implies (
        #[trigger] self@.secrets[i]).encode().len() <= usize::MAX by {
            assert(encoded@[i]@ == self.secrets@[i]@.encode());
            assert(encoded@[i].len() == encoded@[i]@.len());
        }
        let secrets = encode_list(&encoded);
        append(&mut out, secrets.as_slice());
        assert(out@ =~= self@.encode());
        out
    }
}

/// A commit, as plain values.
pub struct CommitView {
    pub proposals: Seq<QueuedProposalView>,
    pub path: Option<UpdatePathView>,
}

impl CommitView {
    /// Whether the encodings of the parts fit into memory, as they do for
    /// every commit that was held in memory.
    pub open spec fn fits(self) -> bool {
        &&& forall|i: int|
            0 <= i < self.proposals.len() ==> (#[trigger] self.proposals[i]).encode().len()
                <= usize::MAX
        &&& self.path matches Some(p) ==> p.fits()
    }

    /// The canonical encoding.
    pub open spec fn encode(self) -> Seq<u8> {
        spec_list(Seq::new(self.proposals.len(), |i: int| self.proposals[i].encode())) + match self.path {
            None => seq![0u8],
            Some(path) => seq![1u8] + path.encode(),
        }
    }
}

/// A commit: the proposals it puts into effect, in order, and an optional
/// path update.
#[derive(Debug, Clone, PartialEq, Eq)]
pub struct Commit {
    pub proposals: Vec<QueuedProposal>,
    pub path: Option<UpdatePath>,
}

impl View for Commit {
    type V = CommitView;

    open spec fn view(&self) -> CommitView {
        CommitView {
            proposals: proposal_views(self.proposals@),
            path: match self.path {
                None => None,
                Some(p) => Some(p@),
            },
        }
    }
}

impl Commit {
    /// The canonical encoding.
    pub fn encode(&self) -> (out: Vec<u8>)
        ensures
            out@ == self@.encode(),
            self@.fits(),
    {
        let mut encoded: Vec<Vec<u8>> = Vec::new();
        let mut i: usize = 0;
        while i < self.proposals.len()
            invariant
                i <= self.proposals@.len(),
                encoded@.len() == i,
                forall|j: int|
                    0 <= j < i ==> (#[trigger] encoded@[j])@ == self.proposals@[j]@.encode(),
            decreases self.proposals@.len() - i,
        {
            encoded.push(self.proposals[i].encode());
            i += 1;
        }
        assert(byte_views(encoded@) =~= Seq::new(
            self@.proposals.len(),
            |i: int| self@.proposals[i].encode(),
        ));
        assert forall|i: int| 0 <= i < self@.proposals.len() implies (
        #[trigger] self@.proposals[i]).encode().len() <= usize::MAX by {
            assert(encoded@[i]@ == self.proposals@[i]@.encode());
            assert(encoded@[i].len() == encoded@[i]@.len());
        }
        let mut out = encode_list(&encoded);
        match &self.path {
            None => {
                out.push(0u8);
                assert(out@ =~= self@.encode());
            },
            Some(path) => {
                out.push(1u8);
                let body = path.encode();
                append(&mut out, body.as_slice());
                assert(out@ =~= self@.encode());
            },
        }
        out
    }
}

/// The body of a handshake message, as plain values.
pub enum BodyView {
    Proposal(ProposalView),
    Commit(CommitView),
}

impl BodyView {
    /// The canonical encoding.
    pub open spec fn encode(self) -> Seq<u8> {
        match self {
            BodyView::Proposal(p) => p.encode(),
            BodyView::Commit(c) => c.encode(),
        }
    }

    /// The content type that announces this body.
    pub open spec fn content_type(self) -> ContentType {
        match self {
            BodyView::Proposal(_) => ContentType::Proposal,
            BodyView::Commit(_) => ContentType::Commit,
        }
    }
}

/// The body of a handshake message.
#[derive(Debug, Clone, PartialEq, Eq)]
pub enum HandshakeBody {
    Proposal(Proposal),
    Commit(Commit),
}

impl View for HandshakeBody {
    type V = BodyView;

    open spec fn view(&self) -> BodyView {
        match self {
            HandshakeBody::Proposal(p) => BodyView::Proposal(p@),
            HandshakeBody::Commit(c) => BodyView::Commit(c@),
        }
    }
}

/// A handshake message, as plain values.
pub struct PlaintextView {
    pub header: HeaderView,
    pub body: BodyView,
    pub signature: Seq<u8>,
    pub confirmation_tag: Option<Seq<u8>>,
    pub membership_tag: Seq<u8>,
}

impl PlaintextView {
    /// The bytes that the sender signs: the header and the body.
    pub open spec fn to_be_signed(self) -> Seq<u8> {
        self.header.encode() + self.body.encode()
    }

    /// The bytes that the membership tag covers and that enter the
    /// transcript: what was signed, and the signature.
    pub open spec fn authenticated_content(self) -> Seq<u8> {
        self.to_be_signed() + spec_prefixed(self.signature)
    }
}

/// A handshake message: a proposal or a commit in the clear, with the
/// sender's signature, the membership tag and, for a commit, the
/// confirmation tag.
#[derive(Debug, Clone, PartialEq, Eq)]
pub struct PlaintextFrame {
    pub header: FrameHeader,
    pub body: HandshakeBody,
    pub signature: Vec<u8>,
    pub confirmation_tag: Option<Vec<u8>>,
    pub membership_tag: Vec<u8>,
}

impl View for PlaintextFrame {
    type V = PlaintextView;

    open spec fn view(&self) -> PlaintextView {
        PlaintextView {
            header: self.header@,
            body: self.body@,
            signature: self.signature@,
            confirmation_tag: match self.confirmation_tag {
                None => None,
                Some(t) => Some(t@),
            },
            membership_tag: self.membership_tag@,
        }
    }
}

/// The bytes that the sender of a handshake message signs.
pub fn to_be_signed(header: &FrameHeader, body: &HandshakeBody) -> (out: Vec<u8>)
    ensures
        out@ == header@.encode() + body@.encode(),
        body@ matches BodyView::Commit(c) ==> c.fits(),
{
    let mut out = header.encode();
    let encoded = match body {
        HandshakeBody::Proposal(p) => p.encode(),
        HandshakeBody::Commit(c) => c.encode(),
    };
    append(&mut out, encoded.as_slice());
    out
}

/// What was signed, followed by the signature.
pub fn authenticated_content(tbs: &[u8], signature: &[u8]) -> (out: Vec<u8>)
    ensures
        out@ == tbs@ + spec_prefixed(signature@),
{
    let mut out = copy(tbs);
    append_prefixed(&mut out, signature);
    out
}

/// An application message, as plain values.
pub struct CiphertextView {
    pub header: HeaderView,
    pub generation: nat,
    pub ciphertext: Seq<u8>,
}

/// An application message: the header, the generation of the sender's
/// ratchet whose key sealed it, and the sealed payload.
#[derive(Debug, Clone, PartialEq, Eq)]
pub struct CiphertextFrame {
    pub header: FrameHeader,
    pub generation: u32,
    pub ciphertext: Vec<u8>,
}

impl View for CiphertextFrame {
    type V = CiphertextView;

    open spec fn view(&self) -> CiphertextView {
        CiphertextView {
            header: self.header@,
            generation: self.generation as nat,
            ciphertext: self.ciphertext@,
        }
    }
}

/// The transcript hash that a commit confirms: the hash of the interim hash
/// of the epoch before and the authenticated content of the commit.
pub open spec fn spec_confirmed_transcript_hash(interim: Seq<u8>, content: Seq<u8>) -> Seq<u8> {
    hashed(spec_prefixed(interim) + content)
}

/// The interim transcript hash of an epoch: the hash of the confirmed hash
/// and the confirmation tag.
pub open spec fn spec_interim_transcript_hash(confirmed: Seq<u8>, tag: Seq<u8>) -> Seq<u8> {
    hashed(spec_prefixed(confirmed) + spec_prefixed(tag))
}

/// The group context: what the secrets of an epoch are bound to.
pub open spec fn spec_group_context(
    group_id: Seq<u8>,
    epoch: nat,
    tree_hash: Seq<u8>,
    confirmed_transcript_hash: Seq<u8>,
) -> Seq<u8> {
    spec_prefixed(group_id) + spec_u64_be(epoch as u64) + spec_prefixed(tree_hash) + spec_prefixed(
        confirmed_transcript_hash,
    )
}

/// The transcript hash that a commit confirms.
pub fn confirmed_transcript_hash(interim: &[u8], content: &[u8]) -> (out: Vec<u8>)
    ensures
        out@ == spec_confirmed_transcript_hash(interim@, content@),
        out@.len() == HASH_LEN,
{
    let mut input: Vec<u8> = Vec::new();
    append_prefixed(&mut input, interim);
    append(&mut input, content);
    match hash(input.as_slice()) {
        Ok(v) => v,
        Err(_) => unreached(),
    }
}

/// The interim transcript hash of an epoch.
pub fn interim_transcript_hash(confirmed: &[u8], tag: &[u8]) -> (out: Vec<u8>)
    ensures
        out@ == spec_interim_transcript_hash(confirmed@, tag@),
        out@.len() == HASH_LEN,
{
    let mut input: Vec<u8> = Vec::new();
    append_prefixed(&mut input, confirmed);
    append_prefixed(&mut input, tag);
    match hash(input.as_slice()) {
        Ok(v) => v,
        Err(_) => unreached(),
    }
}

/// The group context of an epoch.
pub fn group_context(group_id: &[u8], epoch: u64, tree_hash: &[u8], confirmed: &[u8]) -> (out: Vec<
    u8,
>)
    ensures
        out@ == spec_group_context(group_id@, epoch as nat, tree_hash@, confirmed@),
{
    let mut out: Vec<u8> = Vec::new();
    append_prefixed(&mut out, group_id);
    let e = u64_be(epoch);
    append(&mut out, e.as_slice());
    append_prefixed(&mut out, tree_hash);
    append_prefixed(&mut out, confirmed);
    assert(out@ =~= spec_group_context(group_id@, epoch as nat, tree_hash@, confirmed@));
    out
}

/// A message, as plain values.
pub enum MessageView {
    Handshake(PlaintextView),
    Application(CiphertextView),
}

/// A message as it arrives from the transport.
#[derive(Debug, Clone, PartialEq, Eq)]
pub enum WireMessage {
    /// A proposal or a commit.
    Handshake(PlaintextFrame),
    /// Application data.
    Application(CiphertextFrame),
}

impl View for WireMessage {
    type V = MessageView;

    open spec fn view(&self) -> MessageView {
        match self {
            WireMessage::Handshake(f) => MessageView::Handshake(f@),
            WireMessage::Application(f) => MessageView::Application(f@),
        }
    }
}

/// A message that was parsed and belongs to this group, but whose
/// authenticity is not yet checked.
#[derive(Debug, Clone, PartialEq, Eq)]
pub enum UnverifiedMessage {
    /// A proposal or a commit.
    Handshake(PlaintextFrame),
    /// Application data.
    Application(CiphertextFrame),
}

impl View for UnverifiedMessage {
    type V = MessageView;

    open spec fn view(&self) -> MessageView {
        match self {
            UnverifiedMessage::Handshake(f) => MessageView::Handshake(f@),
            UnverifiedMessage::Application(f) => MessageView::Application(f@),
        }
    }
}

} // verus!
