//! What holds of the engine as a whole: agreement between members, the
//! steady advance of the epoch, the retention window, the round trip of
//! application messages, the fate of a tampered commit, and the entry of a
//! new member by a welcome.

use crate::bytes::{spec_prefixed, spec_u64_be};
use crate::crypto::{hpke_key_pair, HASH_LEN};
use crate::errors::{EngineError, ValidationReason};
use crate::framing::{
    spec_content_type_byte, BodyView, CiphertextView, CommitView, ContentType, MessageView,
    PlaintextView, QueuedProposalView, UpdatePathView,
};
use crate::group::{opens_to, BundleView, GroupConfig, GroupView};
use crate::message_secrets::lemma_push;
use crate::proposals::is_member;
use crate::ratchet_tree::{
    find_package_from, leaf_count, lemma_chain_add, spec_apply_path, spec_chain, NodeView,
};
use crate::secret_tree::{lemma_advance_generation, spec_advance, SecretKind};
use crate::transition::{
    commit_made, find_sealed, init_key_at, path_reaches_all, spec_join, welcome_for,
    StagedMessageView, StagedView,
};
use crate::treemath::{depth, spec_common_level};
use crate::welcome::{lemma_welcome_payload, WelcomeView};
use vstd::prelude::*;

verus! {

/// Whether two members agree on the state of their group: the same group in
/// the same epoch, with the same tree, the same secrets and the same
/// transcript.
pub open spec fn in_agreement(a: GroupView, b: GroupView) -> bool {
    &&& a.group_id == b.group_id
    &&& a.epoch == b.epoch
    &&& a.tree == b.tree
    &&& a.secrets == b.secrets
    &&& a.interim_transcript_hash == b.interim_transcript_hash
}

/// Whether the path secret that member `m` holds for a commit of `sender` is
/// the one at its place on the path that the committer drew from
/// `leaf_secret`.
pub open spec fn holds_honest_secret(m: GroupView, sender: nat, c: CommitView, leaf_secret: Seq<u8>) -> bool {
    match (c.path, m.commit_tree(sender, c)) {
        (Some(p), Ok(t)) => match m.new_own_key(t, sender, c) {
            Ok(key) => match m.own_path_secret(key, sender, p) {
                Ok((at, x)) => x == spec_chain(leaf_secret, at),
                Err(_) => true,
            },
            Err(_) => true,
        },
        _ => true,
    }
}

/// State agreement. Two members that agree on the state of their group and
/// both stage the same commit, each holding the path secret of its own place
/// on the committer's path, stage the same epoch, tree, secrets and
/// transcript; and after merging they agree again. By induction, members
/// that start in agreement and merge the same commits in the same order
/// stay in agreement.
pub proof fn lemma_state_agreement(
    a: GroupView,
    b: GroupView,
    f: PlaintextView,
    c: CommitView,
    leaf_secret: Seq<u8>,
)
    requires
        in_agreement(a, b),
        a.stage_commit(f, c) is Ok,
        b.stage_commit(f, c) is Ok,
        holds_honest_secret(a, f.header.sender, c, leaf_secret),
        holds_honest_secret(b, f.header.sender, c, leaf_secret),
    ensures
        a.stage_commit(f, c)->Ok_0.epoch == b.stage_commit(f, c)->Ok_0.epoch,
        a.stage_commit(f, c)->Ok_0.tree == b.stage_commit(f, c)->Ok_0.tree,
        a.stage_commit(f, c)->Ok_0.secrets == b.stage_commit(f, c)->Ok_0.secrets,
        a.stage_commit(f, c)->Ok_0.interim_transcript_hash == b.stage_commit(
            f,
            c,
        )->Ok_0.interim_transcript_hash,
        a.merge(a.stage_commit(f, c)->Ok_0) is Ok,
        b.merge(b.stage_commit(f, c)->Ok_0) is Ok,
        in_agreement(
            a.merge(a.stage_commit(f, c)->Ok_0)->Ok_0,
            b.merge(b.stage_commit(f, c)->Ok_0)->Ok_0,
        ),
{
    let sender = f.header.sender;
    let ta = a.commit_tree(sender, c)->Ok_0;
    let tb = b.commit_tree(sender, c)->Ok_0;
    assert(ta == tb);
    let ka = a.new_own_key(ta, sender, c)->Ok_0;
    let kb = b.new_own_key(tb, sender, c)->Ok_0;
    match c.path {
        None => {},
        Some(p) => {
            let (at_a, xa) = a.own_path_secret(ka, sender, p)->Ok_0;
            let (at_b, xb) = b.own_path_secret(kb, sender, p)->Ok_0;
            assert(a.own_path_secret(ka, sender, p) == Ok::<(nat, Seq<u8>), EngineError>(
                (at_a, xa),
            ));
            assert(b.own_path_secret(kb, sender, p) == Ok::<(nat, Seq<u8>), EngineError>(
                (at_b, xb),
            ));
            assert(xa == spec_chain(leaf_secret, at_a));
            assert(xb == spec_chain(leaf_secret, at_b));
            let d = depth(leaf_count(ta));
            lemma_chain_add(leaf_secret, at_a, (d + 1 - at_a) as nat);
            lemma_chain_add(leaf_secret, at_b, (d + 1 - at_b) as nat);
        },
    }
}

/// One commit on the way of a group: the message, the commit it carries,
/// and the leaf secret from which its committer drew the path.
pub struct CommitStep {
    pub frame: PlaintextView,
    pub commit: CommitView,
    pub leaf_secret: Seq<u8>,
}

/// The state of a member after it staged and merged a commit; `None` where
/// it refused the commit.
pub open spec fn follow(g: GroupView, step: CommitStep) -> Option<GroupView> {
    match g.stage_commit(step.frame, step.commit) {
        Ok(staged) => match g.merge(staged) {
            Ok(next) => Some(next),
            Err(_) => None,
        },
        Err(_) => None,
    }
}

/// Whether a member follows a sequence of commits from the `i`-th on: it
/// stages and merges each in turn, holding for each the path secret of its
/// own place on the committer's path.
pub open spec fn follows(g: GroupView, steps: Seq<CommitStep>, i: nat) -> bool
    decreases steps.len() - i,
{
    if i >= steps.len() {
        true
    } else {
        &&& follow(g, steps[i as int]) is Some
        &&& holds_honest_secret(
            g,
            steps[i as int].frame.header.sender,
            steps[i as int].commit,
            steps[i as int].leaf_secret,
        )
        &&& follows(follow(g, steps[i as int])->Some_0, steps, i + 1)
    }
}

/// The state of a member after it followed a sequence of commits from the
/// `i`-th on.
pub open spec fn state_after(g: GroupView, steps: Seq<CommitStep>, i: nat) -> GroupView
    decreases steps.len() - i,
{
    if i >= steps.len() || follow(g, steps[i as int]) is None {
        g
    } else {
        state_after(follow(g, steps[i as int])->Some_0, steps, i + 1)
    }
}

/// State agreement over time. Members that agree and follow the same
/// commits, one epoch at a time and in the same order, agree at the end, and
/// their epoch has advanced by one for every commit.
pub proof fn lemma_agreement_is_kept(a: GroupView, b: GroupView, steps: Seq<CommitStep>, i: nat)
    requires
        i <= steps.len(),
        in_agreement(a, b),
        follows(a, steps, i),
        follows(b, steps, i),
    ensures
        in_agreement(state_after(a, steps, i), state_after(b, steps, i)),
        state_after(a, steps, i).epoch == a.epoch + (steps.len() - i),
    decreases steps.len() - i,
{
    if i < steps.len() {
        let step = steps[i as int];
        lemma_state_agreement(a, b, step.frame, step.commit, step.leaf_secret);
        lemma_agreement_is_kept(
            follow(a, step)->Some_0,
            follow(b, step)->Some_0,
            steps,
            i + 1,
        );
    }
}

/// A member can stage its own commit. A commit that the member is not
/// refused, with its own path or with none, leads it to a next state unless
/// the key package of its path does not verify, which is the case only when
/// it signed with a key that is not the key pair of its signature key.
pub proof fn lemma_own_commit_advances(
    g: GroupView,
    proposals: Seq<QueuedProposalView>,
    leaf_secret: Option<Seq<u8>>,
    signing_key: Seq<u8>,
    c: CommitView,
)
    requires
        g.wf(),
        g.commit_refusal(proposals, leaf_secret) is None,
        c.proposals == proposals,
        match leaf_secret {
            None => c.path is None,
            Some(s) => c.path matches Some(p) && g.is_own_path(proposals, p, s, signing_key),
        },
    ensures
        ({
            let after = GroupView { pending_commit: leaf_secret, ..g };
            &&& after.advance(g.own_leaf, c) is Ok <==> (c.path matches Some(p)
                ==> p.leaf_key_package.valid())
            &&& after.advance(g.own_leaf, c) matches Err(e) ==> e == EngineError::Validation(
                ValidationReason::InvalidPath,
            )
        }),
{
    let after = GroupView { pending_commit: leaf_secret, ..g };
    let own = g.own_leaf;
    let t = crate::proposals::spec_apply_proposals(g.tree, proposals, 0)->Ok_0;
    crate::proposals::lemma_committable_spare_committer(g.tree, own, proposals);
    crate::proposals::lemma_proposals_keep_member(g.tree, proposals, 0, own);
    match c.path {
        None => {},
        Some(p) => {
            let s = leaf_secret->Some_0;
            if p.leaf_key_package.valid() {
                let t2 = t.update((2 * own) as int, NodeView::Leaf(p.leaf_key_package));
                assert(after.commit_tree(own, c) == Ok::<Seq<NodeView>, EngineError>(t2));
                assert(leaf_count(t2) == leaf_count(t));
                let d = depth(leaf_count(t2));
                crate::ratchet_tree::lemma_own_path_consistent(s, d, 0);
                assert(spec_chain(s, 0) == s);
                assert(spec_apply_path(t2, own, p.public_keys, 0, s) is Ok);
            }
        },
    }
}

/// The header is bound without confusion. Two headers with the same
/// encoding are the same header: the same group, epoch, sender, content type
/// and authenticated data. Since the encoding is what a handshake message
/// signs and what an application message is sealed with, no message can be
/// taken for one of another group, epoch, sender or kind.
pub proof fn lemma_header_encoding_injective(
    a: crate::framing::HeaderView,
    b: crate::framing::HeaderView,
)
    requires
        a.epoch <= u64::MAX,
        b.epoch <= u64::MAX,
        a.sender <= u64::MAX,
        b.sender <= u64::MAX,
        a.group_id.len() <= u64::MAX,
        b.group_id.len() <= u64::MAX,
        a.authenticated_data.len() <= u64::MAX,
        b.authenticated_data.len() <= u64::MAX,
        a.encode() == b.encode(),
    ensures
        a == b,
{
    let tail_a3 = seq![spec_content_type_byte(a.content_type)] + spec_prefixed(
        a.authenticated_data,
    );
    let tail_b3 = seq![spec_content_type_byte(b.content_type)] + spec_prefixed(
        b.authenticated_data,
    );
    let tail_a2 = spec_u64_be(a.sender as u64) + tail_a3;
    let tail_b2 = spec_u64_be(b.sender as u64) + tail_b3;
    let tail_a1 = spec_u64_be(a.epoch as u64) + tail_a2;
    let tail_b1 = spec_u64_be(b.epoch as u64) + tail_b2;
    assert(a.encode() =~= spec_prefixed(a.group_id) + tail_a1);
    assert(b.encode() =~= spec_prefixed(b.group_id) + tail_b1);
    crate::bytes::lemma_prefixed_split(a.group_id, tail_a1, b.group_id, tail_b1);
    crate::bytes::lemma_u64_be_split(a.epoch as u64, tail_a2, b.epoch as u64, tail_b2);
    crate::bytes::lemma_u64_be_split(a.sender as u64, tail_a3, b.sender as u64, tail_b3);
    assert(tail_a3[0] == tail_b3[0]);
    assert(tail_a3.subrange(1, tail_a3.len() as int) =~= spec_prefixed(a.authenticated_data));
    assert(tail_b3.subrange(1, tail_b3.len() as int) =~= spec_prefixed(b.authenticated_data));
    crate::bytes::lemma_prefixed_split(
        a.authenticated_data,
        Seq::empty(),
        b.authenticated_data,
        Seq::empty(),
    );
}

/// The epoch advances by exactly one with every merge, and a merge that is
/// refused leaves every epoch where it was: no merge decreases or repeats an
/// epoch.
pub proof fn lemma_epoch_step(g: GroupView, s: StagedView)
    ensures
        g.merge(s) matches Ok(after) ==> after.epoch == g.epoch + 1,
        g.merge(s) matches Ok(after) ==> after.tree == s.tree && after.secrets == s.secrets,
        g.merge(s) matches Err(e) ==> e == EngineError::StaleCommit,
{
}

/// Merging keeps a state well formed, and the store then holds the staged
/// secret tree as the tree of the new epoch.
pub proof fn lemma_merge_wf(g: GroupView, s: StagedView)
    requires
        g.wf(),
        g.merge(s) is Ok,
        crate::ratchet_tree::tree_wf(s.tree),
        is_member(s.tree, s.own_leaf),
        s.secrets.wf(),
        s.secret_tree.wf(),
        s.secret_tree.leaves() == leaf_count(s.tree),
        s.interim_transcript_hash.len() <= HASH_LEN,
    ensures
        g.merge(s)->Ok_0.wf(),
        g.merge(s)->Ok_0.store.tree(g.epoch + 1) == s.secret_tree,
{
    lemma_push(g.store, s.secret_tree);
}

/// The retention window. An application message of this group from an epoch
/// that the member has seen is refused as too distant in the past exactly
/// when the current epoch is more than `max_past_epochs` ahead of it.
pub proof fn lemma_past_epoch_window(g: GroupView, frame: CiphertextView)
    requires
        g.wf(),
        frame.header.group_id == g.group_id,
        frame.header.content_type == ContentType::Application,
        g.store.origin <= frame.header.epoch <= g.epoch,
    ensures
        g.decrypt(frame) == Err::<(Seq<u8>, GroupView), EngineError>(
            EngineError::TooDistantInThePast,
        ) <==> g.epoch - frame.header.epoch > g.config.max_past_epochs,
        g.parse_message(MessageView::Application(frame)) is Ok <==> g.epoch - frame.header.epoch
            <= g.config.max_past_epochs,
{
}

/// The round trip. A frame that a member sealed opens, for every member of
/// the same group that retains the sender's epoch and whose ratchet for the
/// sender is at most its forward window behind the sender's, to the payload
/// that was sealed. (The first two premises are what
/// `encrypt_application_message` returns.)
pub proof fn lemma_round_trip(
    sender: GroupView,
    receiver: GroupView,
    payload: Seq<u8>,
    authenticated_data: Seq<u8>,
    behind: nat,
)
    requires
        sender.wf(),
        receiver.wf(),
        sender.encrypt(payload, authenticated_data) is Ok,
        opens_to(sender, sender.encrypt(payload, authenticated_data)->Ok_0.0, payload),
        receiver.group_id == sender.group_id,
        receiver.store.retained(sender.epoch),
        sender.own_leaf < receiver.store.tree(sender.epoch).leaves(),
        behind <= receiver.store.tree(sender.epoch).max_forward,
        spec_advance(
            receiver.store.tree(sender.epoch).application[sender.own_leaf as int],
            behind,
        ) == sender.store.tree(sender.epoch).application[sender.own_leaf as int],
    ensures
        receiver.decrypt(sender.encrypt(payload, authenticated_data)->Ok_0.0) matches Ok(out)
            && out.0 == payload,
{
    let frame = sender.encrypt(payload, authenticated_data)->Ok_0.0;
    let e = sender.epoch;
    let l = sender.own_leaf;
    let r = receiver.store.tree(e).application[l as int];
    let s = sender.store.tree(e).application[l as int];
    lemma_advance_generation(r, behind);
    assert(spec_advance(s, 0) == s);
}

/// No key twice, for messages: a frame that was opened is refused with
/// `SecretReuse` when it is presented again.
pub proof fn lemma_replay_refused(g: GroupView, frame: CiphertextView)
    requires
        g.wf(),
        g.decrypt(frame) is Ok,
    ensures
        g.decrypt(frame)->Ok_0.1.decrypt(frame) == Err::<(Seq<u8>, GroupView), EngineError>(
            EngineError::SecretReuse,
        ),
{
    let e = frame.header.epoch;
    let l = frame.header.sender;
    let t = g.store.tree(e);
    crate::secret_tree::lemma_no_key_twice(t, l, frame.generation, SecretKind::Application);
}

/// A byte with one of its bits flipped.
pub open spec fn flip_bit(x: u8, bit: u8) -> u8 {
    x ^ (1u8 << bit)
}

/// A tag with one bit of one byte flipped.
pub open spec fn flip_tag_bit(tag: Seq<u8>, at: int, bit: u8) -> Seq<u8> {
    tag.update(at, flip_bit(tag[at], bit))
}

/// Flipping a bit of a tag gives another tag.
pub proof fn lemma_flip_changes(tag: Seq<u8>, at: int, bit: u8)
    requires
        0 <= at < tag.len(),
        bit < 8,
    ensures
        flip_tag_bit(tag, at, bit) != tag,
{
    let x = tag[at];
    assert(x ^ (1u8 << bit) != x) by (bit_vector)
        requires
            bit < 8,
    ;
    assert(flip_tag_bit(tag, at, bit)[at] != tag[at]);
}

/// A tampered commit never reaches merge. If a commit is staged without
/// error, the same commit with one bit of its confirmation tag flipped is
/// refused by `stage`, whatever signature key is given, and so yields no
/// staged commit that could be merged. Where the untampered message passes
/// `stage` under the same signature key, the refusal is
/// `BadConfirmationTag`.
pub proof fn lemma_tampered_commit_refused(
    g: GroupView,
    f: PlaintextView,
    c: CommitView,
    at: int,
    bit: u8,
    signature_key: Option<Seq<u8>>,
)
    requires
        f.body == BodyView::Commit(c),
        g.stage_commit(f, c) is Ok,
        f.confirmation_tag is Some,
        0 <= at < f.confirmation_tag->Some_0.len(),
        bit < 8,
    ensures
        g.stage(
            MessageView::Handshake(
                PlaintextView {
                    confirmation_tag: Some(flip_tag_bit(f.confirmation_tag->Some_0, at, bit)),
                    ..f
                },
            ),
            signature_key,
        ) is Err,
        g.stage(MessageView::Handshake(f), signature_key) is Ok ==> g.stage(
            MessageView::Handshake(
                PlaintextView {
                    confirmation_tag: Some(flip_tag_bit(f.confirmation_tag->Some_0, at, bit)),
                    ..f
                },
            ),
            signature_key,
        ) == Err::<(StagedMessageView, GroupView), EngineError>(
            EngineError::Validation(ValidationReason::BadConfirmationTag),
        ),
{
    lemma_flip_changes(f.confirmation_tag->Some_0, at, bit);
    let f2 = PlaintextView {
        confirmation_tag: Some(flip_tag_bit(f.confirmation_tag->Some_0, at, bit)),
        ..f
    };
    assert(f2.authenticated_content() == f.authenticated_content());
    assert(g.advance(f2.header.sender, c) == g.advance(f.header.sender, c));
}

/// Entry by a welcome. After a commit that adds a key package, the member
/// that holds the derived key pair of that package and enters by the
/// welcome made for it, with the committer's tree of the new epoch, has the
/// committer's epoch, tree, secrets and transcript, without having seen any
/// commit.
pub proof fn lemma_join_agrees(
    committer: GroupView,
    staged: StagedView,
    content: Seq<u8>,
    tag: Seq<u8>,
    commit_secret: Seq<u8>,
    w: WelcomeView,
    bundle: BundleView,
    ikm: Seq<u8>,
    config: GroupConfig,
)
    requires
        committer.epoch < u64::MAX,
        committer.staged(content, Some(tag), staged.tree, commit_secret, staged.own_private_key)
            == Ok::<StagedView, EngineError>(staged),
        welcome_for(
            w,
            bundle.key_package,
            committer.group_id,
            staged.epoch,
            staged.secrets.joiner_secret,
            committer.confirmed_hash(content),
            tag,
        ),
        hpke_key_pair(ikm) == (bundle.private_key, bundle.key_package.init_key),
        find_package_from(staged.tree, bundle.key_package, 0) is Some,
        staged.secrets.joiner_secret.len() == HASH_LEN,
    ensures
        spec_join(w, Some(staged.tree), bundle, config) matches Ok(j) && j.epoch == staged.epoch
            && j.tree == staged.tree && j.secrets == staged.secrets && j.group_id
            == committer.group_id && j.interim_transcript_hash == staged.interim_transcript_hash,
{
    let e = (committer.epoch + 1) as u64;
    lemma_welcome_payload(e, staged.secrets.joiner_secret);
    assert(staged.epoch == e as nat);
}

/// Entry by a welcome, for what `commit` returns: each welcome of a commit
/// lets the holder of the derived key pair of its key package enter the
/// epoch that the commit opens, with the tree and the secrets that the
/// committer stages, provided the tree of that epoch is handed to it.
pub proof fn lemma_welcome_after_commit(
    g: GroupView,
    after: GroupView,
    proposals: Seq<QueuedProposalView>,
    leaf_secret: Option<Seq<u8>>,
    signing_key: Seq<u8>,
    authenticated_data: Seq<u8>,
    message: PlaintextView,
    welcomes: Seq<WelcomeView>,
    i: int,
    bundle: BundleView,
    ikm: Seq<u8>,
    config: GroupConfig,
)
    requires
        g.wf(),
        commit_made(
            g,
            after,
            proposals,
            leaf_secret,
            signing_key,
            authenticated_data,
            message,
            welcomes,
        ),
        0 <= i < welcomes.len(),
        bundle.key_package == crate::transition::added_packages(proposals)[i],
        hpke_key_pair(ikm) == (bundle.private_key, bundle.key_package.init_key),
        after.stage_commit(message, message.body->Commit_0)->Ok_0.wf(),
        find_package_from(
            after.stage_commit(message, message.body->Commit_0)->Ok_0.tree,
            bundle.key_package,
            0,
        ) is Some,
    ensures
        ({
            let staged = after.stage_commit(message, message.body->Commit_0)->Ok_0;
            spec_join(welcomes[i], Some(staged.tree), bundle, config) matches Ok(j) && j.epoch
                == staged.epoch && j.tree == staged.tree && j.secrets == staged.secrets
                && j.interim_transcript_hash == staged.interim_transcript_hash
        }),
{
    let c = message.body->Commit_0;
    let staged = after.stage_commit(message, c)->Ok_0;
    let (t, secret, key) = after.advance(message.header.sender, c)->Ok_0;
    assert(after.confirmed_hash(message.authenticated_content()) == g.confirmed_hash(
        message.authenticated_content(),
    ));
    lemma_join_agrees(
        after,
        staged,
        message.authenticated_content(),
        message.confirmation_tag->Some_0,
        secret,
        welcomes[i],
        bundle,
        ikm,
        config,
    );
}

/// A commit reaches its members. To every member of the new tree other than
/// the committer that holds the derived key pair of its leaf, the secret
/// sealed by the committer opens to the path secret of the place where its
/// leaf meets the committer's: the premise of state agreement holds for
/// what `commit` returns.
pub proof fn lemma_commit_reaches(
    group_id: Seq<u8>,
    committer_leaf: nat,
    new_tree: Seq<NodeView>,
    path: UpdatePathView,
    leaf_secret: Seq<u8>,
    member: GroupView,
    member_key: Seq<u8>,
    ikm: Seq<u8>,
)
    requires
        path_reaches_all(group_id, committer_leaf, new_tree, path.secrets, leaf_secret),
        member.group_id == group_id,
        member.own_leaf != committer_leaf,
        is_member(new_tree, member.own_leaf),
        hpke_key_pair(ikm) == (member_key, init_key_at(new_tree, member.own_leaf)),
    ensures
        member.own_path_secret(member_key, committer_leaf, path) == Ok::<
            (nat, Seq<u8>),
            EngineError,
        >(
            (
                spec_common_level(committer_leaf, member.own_leaf),
                spec_chain(leaf_secret, spec_common_level(committer_leaf, member.own_leaf)),
            ),
        ),
{
    let found = find_sealed(path.secrets, member.own_leaf, 0);
    assert(found is Some);
    assert(hpke_key_pair(ikm).1 == init_key_at(new_tree, member.own_leaf));
}

} // verus!
