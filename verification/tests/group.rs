use mls_engine::errors::{EngineError, ErrorClass, ValidationReason};
use mls_engine::framing::{
    CiphertextFrame, ContentType, HandshakeBody, PlaintextFrame, Proposal, QueuedProposal,
    WireMessage,
};
use mls_engine::group::{CommitBundle, GroupConfig, GroupState, StagedMessage};
use mls_engine::key_package::{has_signature_shape, KeyPackageBundle};
use mls_engine::proposals::deduplicate;
use mls_engine::ratchet_tree::derive_path;
use mls_engine::welcome::Welcome;
use openmls_rust_crypto::RustCrypto;
use openmls_traits::crypto::OpenMlsCrypto;
use openmls_traits::types::SignatureScheme;

struct Keys {
    signing_key: Vec<u8>,
    public_key: Vec<u8>,
    bundle: KeyPackageBundle,
}

fn keys(name: &str) -> Keys {
    let (signing_key, public_key) = RustCrypto::default()
        .signature_key_gen(SignatureScheme::ED25519)
        .expect("key generation");
    let bundle = KeyPackageBundle::generate(name.as_bytes(), &public_key, &signing_key)
        .expect("key package");
    Keys { signing_key, public_key, bundle }
}

fn settings(max_past_epochs: usize) -> GroupConfig {
    GroupConfig { max_past_epochs, max_forward_distance: 100, allow_empty_commit: false }
}

fn handshake(message: &PlaintextFrame) -> WireMessage {
    WireMessage::Handshake(message.clone())
}

fn application(frame: &CiphertextFrame) -> WireMessage {
    WireMessage::Application(frame.clone())
}

fn merge_commit(group: &mut GroupState, message: &PlaintextFrame) {
    let unverified = group.parse_message(handshake(message)).expect("parse");
    match group.stage(unverified, None).expect("stage") {
        StagedMessage::StagedCommit(staged) => group.merge(staged).expect("merge"),
        _ => unreachable!("expected a staged commit"),
    }
}

fn stage_error(group: &mut GroupState, message: &PlaintextFrame) -> EngineError {
    let unverified = group.parse_message(handshake(message)).expect("parse");
    match group.stage(unverified, None) {
        Ok(_) => unreachable!("expected a refusal"),
        Err(e) => e,
    }
}

fn add_of(sender: u32, joiner: &Keys) -> QueuedProposal {
    QueuedProposal { sender, proposal: Proposal::Add(joiner.bundle.key_package.clone()) }
}

fn remove_of(sender: u32, leaf: u32) -> QueuedProposal {
    QueuedProposal { sender, proposal: Proposal::Remove(leaf) }
}

fn invite(
    committer: &Keys,
    group: &mut GroupState,
    others: &mut [&mut GroupState],
    joiner: &Keys,
    max_past_epochs: usize,
) -> GroupState {
    let leaf = group.own_leaf();
    let CommitBundle { message, mut welcomes } = group
        .commit(vec![add_of(leaf, joiner)], true, &committer.signing_key, b"")
        .expect("commit");
    merge_commit(group, &message);
    for other in others.iter_mut() {
        merge_commit(other, &message);
    }
    assert_eq!(welcomes.len(), 1);
    GroupState::join(
        welcomes.remove(0),
        Some(group.export_ratchet_tree()),
        joiner.bundle.clone(),
        settings(max_past_epochs),
    )
    .expect("join")
}

fn pair(max_past_epochs: usize) -> (Keys, GroupState, Keys, GroupState) {
    let alice = keys("Alice");
    let bob = keys("Bob");
    let mut alice_group =
        GroupState::create(b"Test Group", alice.bundle.clone(), settings(max_past_epochs))
            .expect("create");
    let bob_group = invite(&alice, &mut alice_group, &mut [], &bob, max_past_epochs);
    (alice, alice_group, bob, bob_group)
}

fn self_update(committer: &Keys, group: &mut GroupState, others: &mut [&mut GroupState]) {
    let update = group.commit(vec![], true, &committer.signing_key, b"").expect("update");
    merge_commit(group, &update.message);
    for other in others.iter_mut() {
        merge_commit(other, &update.message);
    }
}

fn assert_agree(a: &GroupState, b: &GroupState) {
    assert_eq!(a.epoch(), b.epoch());
    assert_eq!(a.group_id(), b.group_id());
    assert_eq!(a.secrets(), b.secrets());
    assert_eq!(a.export_ratchet_tree(), b.export_ratchet_tree());
}

#[test]
fn a_new_group_is_in_epoch_zero() {
    let alice = keys("Alice");
    let group = GroupState::create(b"g", alice.bundle.clone(), settings(0)).expect("create");
    assert_eq!(group.epoch(), 0);
    assert_eq!(group.own_leaf(), 0);
    assert_eq!(group.group_id(), &b"g".to_vec());
    assert_eq!(group.tree().leaf_count(), 1);
    assert_eq!(group.tree().member(0), Some(&alice.bundle.key_package));
}

#[test]
fn creation_from_a_seed_is_a_function_of_the_seed() {
    let alice = keys("Alice");
    let a = GroupState::create_with_seed(b"g", alice.bundle.clone(), settings(0), &[1; 32])
        .expect("create");
    let b = GroupState::create_with_seed(b"g", alice.bundle.clone(), settings(0), &[1; 32])
        .expect("create");
    let c = GroupState::create_with_seed(b"g", alice.bundle.clone(), settings(0), &[2; 32])
        .expect("create");
    let d = GroupState::create_with_seed(b"h", alice.bundle.clone(), settings(0), &[1; 32])
        .expect("create");
    assert_eq!(a.secrets(), b.secrets());
    assert_ne!(a.secrets(), c.secrets());
    assert_ne!(a.secrets(), d.secrets());
    let random = GroupState::create(b"g", alice.bundle.clone(), settings(0)).expect("create");
    let other = GroupState::create(b"g", alice.bundle.clone(), settings(0)).expect("create");
    assert_ne!(random.secrets(), other.secrets());
}

#[test]
fn creation_refuses_a_malformed_key_package() {
    let mut alice = keys("Alice");
    alice.bundle.key_package.init_key.pop();
    let refused = GroupState::create(b"g", alice.bundle.clone(), settings(0));
    assert!(matches!(
        refused,
        Err(EngineError::Validation(ValidationReason::InvalidKeyPackage))
    ));
}

#[test]
fn every_merge_advances_the_epoch_by_one() {
    let (alice, mut alice_group, bob, mut bob_group) = pair(2);
    let mut expected = 1;
    for round in 0..6 {
        assert_eq!(alice_group.epoch(), expected);
        assert_eq!(bob_group.epoch(), expected);
        if round % 2 == 0 {
            self_update(&alice, &mut alice_group, &mut [&mut bob_group]);
        } else {
            self_update(&bob, &mut bob_group, &mut [&mut alice_group]);
        }
        expected += 1;
        assert_agree(&alice_group, &bob_group);
    }
}

#[test]
fn three_members_stay_in_agreement() {
    let (alice, mut alice_group, bob, mut bob_group) = pair(2);
    let carol = keys("Carol");
    let mut carol_group = invite(&bob, &mut bob_group, &mut [&mut alice_group], &carol, 2);
    assert_eq!(carol_group.own_leaf(), 2);
    assert_agree(&alice_group, &bob_group);
    assert_agree(&alice_group, &carol_group);

    self_update(&carol, &mut carol_group, &mut [&mut alice_group, &mut bob_group]);
    assert_agree(&alice_group, &bob_group);
    assert_agree(&alice_group, &carol_group);

    let dave = keys("Dave");
    let mut dave_group =
        invite(&alice, &mut alice_group, &mut [&mut bob_group, &mut carol_group], &dave, 2);
    assert_eq!(dave_group.own_leaf(), 3);
    assert_agree(&dave_group, &bob_group);
    assert_agree(&dave_group, &carol_group);

    // every member reads what any member sends
    let frame = dave_group.encrypt_application_message(b"from dave", b"ad").expect("seal");
    for group in [&mut alice_group, &mut bob_group, &mut carol_group] {
        assert_eq!(group.decrypt(&frame), Ok(b"from dave".to_vec()));
    }
    let frame = bob_group.encrypt_application_message(b"from bob", b"").expect("seal");
    for group in [&mut alice_group, &mut dave_group, &mut carol_group] {
        assert_eq!(group.decrypt(&frame), Ok(b"from bob".to_vec()));
    }
}

#[test]
fn a_removed_member_is_shut_out() {
    let (alice, mut alice_group, _bob, mut bob_group) = pair(2);
    let carol = keys("Carol");
    let mut carol_group = invite(&alice, &mut alice_group, &mut [&mut bob_group], &carol, 2);

    let removal = carol_group
        .commit(vec![remove_of(2, 1)], true, &carol.signing_key, b"")
        .expect("commit");
    merge_commit(&mut carol_group, &removal.message);
    merge_commit(&mut alice_group, &removal.message);
    assert_eq!(stage_error(&mut bob_group, &removal.message), EngineError::Removed);
    assert!(EngineError::Removed.is_fatal());
    assert_eq!(bob_group.epoch(), 2);
    assert_agree(&alice_group, &carol_group);
    assert!(!alice_group.tree().is_member(1));

    let frame = alice_group.encrypt_application_message(b"without bob", b"").expect("seal");
    assert_eq!(carol_group.decrypt(&frame), Ok(b"without bob".to_vec()));
    assert_eq!(bob_group.decrypt(&frame), Err(EngineError::WrongEpoch));

    // the blank leaf is given to the next member
    let dave = keys("Dave");
    let dave_group = invite(&alice, &mut alice_group, &mut [&mut carol_group], &dave, 2);
    assert_eq!(dave_group.own_leaf(), 1);
    assert_agree(&dave_group, &carol_group);
}

#[test]
fn an_update_proposal_replaces_the_key_package() {
    let (alice, mut alice_group, bob, mut bob_group) = pair(2);
    let fresh = KeyPackageBundle::generate(b"Bob", &bob.public_key, &bob.signing_key)
        .expect("key package");
    bob_group.register_bundle(fresh.clone());
    let proposal = bob_group
        .propose(Proposal::Update(fresh.key_package.clone()), &bob.signing_key, b"")
        .expect("propose");
    let unverified = alice_group.parse_message(handshake(&proposal)).expect("parse");
    let queued = match alice_group.stage(unverified, None).expect("stage") {
        StagedMessage::ProposalMessage(q) => q,
        _ => unreachable!("expected a proposal"),
    };
    assert_eq!(queued.sender, 1);
    assert_eq!(queued.proposal, Proposal::Update(fresh.key_package.clone()));
    let commit =
        alice_group.commit(vec![queued], true, &alice.signing_key, b"").expect("commit");
    assert!(commit.welcomes.is_empty());
    merge_commit(&mut alice_group, &commit.message);
    merge_commit(&mut bob_group, &commit.message);
    assert_agree(&alice_group, &bob_group);
    assert_eq!(alice_group.tree().member(1), Some(&fresh.key_package));

    // bob can still follow the group with the new key
    self_update(&alice, &mut alice_group, &mut [&mut bob_group]);
    assert_agree(&alice_group, &bob_group);
}

#[test]
fn an_update_without_a_registered_bundle_is_refused_by_its_owner() {
    let (alice, mut alice_group, bob, mut bob_group) = pair(2);
    let fresh = KeyPackageBundle::generate(b"Bob", &bob.public_key, &bob.signing_key)
        .expect("key package");
    let queued = QueuedProposal { sender: 1, proposal: Proposal::Update(fresh.key_package) };
    let commit =
        alice_group.commit(vec![queued], true, &alice.signing_key, b"").expect("commit");
    assert_eq!(
        stage_error(&mut bob_group, &commit.message),
        EngineError::Validation(ValidationReason::InvalidKeyPackage)
    );
}

#[test]
fn messages_older_than_the_window_are_refused() {
    // with two past epochs kept, one message per epoch over five updates:
    // the first two are too old after catching up, the last three open
    let (alice, mut alice_group, _bob, mut bob_group) = pair(2);
    let mut frames = Vec::new();
    let mut commits = Vec::new();
    for _ in 0..5 {
        let update = alice_group.commit(vec![], true, &alice.signing_key, b"").expect("update");
        merge_commit(&mut alice_group, &update.message);
        commits.push(update.message);
        frames.push(alice_group.encrypt_application_message(&[1, 2, 3], b"").expect("seal"));
    }
    for commit in &commits {
        merge_commit(&mut bob_group, commit);
    }
    assert_eq!(bob_group.epoch(), 6);
    for frame in &frames[..2] {
        assert_eq!(
            bob_group.parse_message(application(frame)).err(),
            Some(EngineError::TooDistantInThePast)
        );
        assert_eq!(bob_group.decrypt(frame), Err(EngineError::TooDistantInThePast));
    }
    for frame in &frames[2..] {
        let unverified = bob_group.parse_message(application(frame)).expect("parse");
        match bob_group.stage(unverified, None).expect("stage") {
            StagedMessage::ApplicationMessage(payload) => assert_eq!(payload, vec![1, 2, 3]),
            _ => unreachable!("expected an application message"),
        }
    }
}

#[test]
fn past_secrets_in_group() {
    for max_epochs in (0..10usize).step_by(2) {
        let (alice, mut alice_group, _bob, mut bob_group) = pair(max_epochs / 2);
        let mut application_messages = Vec::new();
        let mut update_commits = Vec::new();
        for _ in 0..max_epochs {
            application_messages
                .push(alice_group.encrypt_application_message(&[1, 2, 3], b"").expect("seal"));
            let update =
                alice_group.commit(vec![], true, &alice.signing_key, b"").expect("update");
            merge_commit(&mut alice_group, &update.message);
            update_commits.push(update.message);
        }
        for commit in &update_commits {
            merge_commit(&mut bob_group, commit);
        }
        for message in application_messages.iter().take(max_epochs / 2) {
            assert_eq!(
                bob_group.parse_message(application(message)).err(),
                Some(EngineError::TooDistantInThePast)
            );
        }
        for message in application_messages.iter().skip(max_epochs / 2) {
            let unverified = bob_group.parse_message(application(message)).expect("parse");
            match bob_group.stage(unverified, None).expect("stage") {
                StagedMessage::ApplicationMessage(payload) => assert_eq!(payload, vec![1, 2, 3]),
                _ => unreachable!("expected an application message"),
            }
        }
    }
}

#[test]
fn a_joiner_cannot_read_what_was_sent_before_it_joined() {
    let alice = keys("Alice");
    let bob = keys("Bob");
    let mut alice_group =
        GroupState::create(b"Test Group", alice.bundle.clone(), settings(5)).expect("create");
    let early = alice_group.encrypt_application_message(b"early", b"").expect("seal");
    let mut bob_group = invite(&alice, &mut alice_group, &mut [], &bob, 5);
    assert_eq!(bob_group.epoch(), 1);
    assert_eq!(bob_group.decrypt(&early), Err(EngineError::TooDistantInThePast));
}

#[test]
fn sealed_frames_carry_the_header_and_the_generation() {
    let (_alice, mut alice_group, _bob, mut bob_group) = pair(2);
    let first = alice_group.encrypt_application_message(b"one", b"meta").expect("seal");
    let second = alice_group.encrypt_application_message(b"two", b"").expect("seal");
    assert_eq!(first.header.group_id, b"Test Group".to_vec());
    assert_eq!(first.header.epoch, 1);
    assert_eq!(first.header.sender, 0);
    assert_eq!(first.header.content_type, ContentType::Application);
    assert_eq!(first.header.authenticated_data, b"meta".to_vec());
    assert_eq!(first.generation, 0);
    assert_eq!(second.generation, 1);
    assert_eq!(first.ciphertext.len(), 3 + 16);
    assert_ne!(first.ciphertext[..3], b"one"[..]);
    // out of order within the forward window: the later one first
    assert_eq!(bob_group.decrypt(&second), Ok(b"two".to_vec()));
    assert_eq!(bob_group.decrypt(&first), Err(EngineError::SecretReuse));
    let empty = alice_group.encrypt_application_message(b"", b"").expect("seal");
    assert_eq!(empty.ciphertext.len(), 16);
    assert_eq!(bob_group.decrypt(&empty), Ok(vec![]));
}

#[test]
fn a_frame_opens_only_once() {
    let (_alice, mut alice_group, _bob, mut bob_group) = pair(2);
    let frame = alice_group.encrypt_application_message(b"once", b"").expect("seal");
    assert_eq!(bob_group.decrypt(&frame), Ok(b"once".to_vec()));
    assert_eq!(bob_group.decrypt(&frame), Err(EngineError::SecretReuse));
    assert!(EngineError::SecretReuse.is_fatal());
    // the sender has used the key itself
    assert_eq!(alice_group.decrypt(&frame), Err(EngineError::SecretReuse));
}

#[test]
fn a_tampered_frame_does_not_burn_the_key() {
    let (_alice, mut alice_group, _bob, mut bob_group) = pair(2);
    let frame = alice_group.encrypt_application_message(b"payload", b"ad").expect("seal");
    let refused = Err(EngineError::Validation(ValidationReason::DecryptionFailed));

    let mut flipped = frame.clone();
    flipped.ciphertext[0] ^= 1;
    assert_eq!(bob_group.decrypt(&flipped), refused);
    let mut other_data = frame.clone();
    other_data.header.authenticated_data = b"AD".to_vec();
    assert_eq!(bob_group.decrypt(&other_data), refused);
    let mut other_sender = frame.clone();
    other_sender.header.sender = 1;
    assert_eq!(bob_group.decrypt(&other_sender), refused);
    let mut other_generation = frame.clone();
    other_generation.generation = 1;
    assert_eq!(bob_group.decrypt(&other_generation), refused);
    let mut truncated = frame.clone();
    truncated.ciphertext.truncate(3);
    assert_eq!(bob_group.decrypt(&truncated), refused);

    assert_eq!(bob_group.decrypt(&frame), Ok(b"payload".to_vec()));
}

#[test]
fn frames_of_other_groups_and_epochs_are_refused() {
    let (alice, mut alice_group, _bob, mut bob_group) = pair(2);
    let frame = alice_group.encrypt_application_message(b"x", b"").expect("seal");

    let mut other_group = frame.clone();
    other_group.header.group_id = b"Other Group".to_vec();
    assert_eq!(bob_group.decrypt(&other_group), Err(EngineError::WrongGroup));
    assert_eq!(bob_group.parse_message(application(&other_group)).err(), Some(EngineError::WrongGroup));

    let mut future = frame.clone();
    future.header.epoch = 2;
    assert_eq!(bob_group.decrypt(&future), Err(EngineError::WrongEpoch));
    assert_eq!(bob_group.parse_message(application(&future)).err(), Some(EngineError::WrongEpoch));

    let mut not_application = frame.clone();
    not_application.header.content_type = ContentType::Commit;
    let malformed = EngineError::Validation(ValidationReason::MalformedMessage);
    assert_eq!(bob_group.decrypt(&not_application), Err(malformed));
    assert_eq!(bob_group.parse_message(application(&not_application)).err(), Some(malformed));

    let mut stranger = frame.clone();
    stranger.header.sender = 9;
    assert_eq!(bob_group.decrypt(&stranger), Err(EngineError::UnknownLeaf));

    let mut far = frame.clone();
    far.generation = 101;
    assert_eq!(bob_group.decrypt(&far), Err(EngineError::TooDistantInTheFuture));

    let update = alice_group.commit(vec![], true, &alice.signing_key, b"").expect("update");
    let mut wrong_group = update.message.clone();
    wrong_group.header.group_id = b"Other Group".to_vec();
    assert_eq!(bob_group.parse_message(handshake(&wrong_group)).err(), Some(EngineError::WrongGroup));
    let mut wrong_epoch = update.message.clone();
    wrong_epoch.header.epoch = 0;
    assert_eq!(bob_group.parse_message(handshake(&wrong_epoch)).err(), Some(EngineError::WrongEpoch));
    let mut wrong_type = update.message.clone();
    wrong_type.header.content_type = ContentType::Proposal;
    assert_eq!(bob_group.parse_message(handshake(&wrong_type)).err(), Some(malformed));
    assert_eq!(bob_group.epoch(), 1);

    // a commit that arrives after its epoch has passed
    merge_commit(&mut bob_group, &update.message);
    assert_eq!(bob_group.parse_message(handshake(&update.message)).err(), Some(EngineError::WrongEpoch));
}

#[test]
fn handshake_messages_are_authenticated() {
    let (alice, mut alice_group, bob, mut bob_group) = pair(2);
    let update = alice_group.commit(vec![], true, &alice.signing_key, b"ad").expect("update");

    let mut other_data = update.message.clone();
    other_data.header.authenticated_data = b"da".to_vec();
    assert_eq!(
        stage_error(&mut bob_group, &other_data),
        EngineError::Validation(ValidationReason::BadSignature)
    );
    let mut other_signature = update.message.clone();
    other_signature.signature[5] ^= 0x10;
    assert_eq!(
        stage_error(&mut bob_group, &other_signature),
        EngineError::Validation(ValidationReason::BadSignature)
    );
    let mut other_sender = update.message.clone();
    other_sender.header.sender = 1;
    assert_eq!(
        stage_error(&mut bob_group, &other_sender),
        EngineError::Validation(ValidationReason::BadSignature)
    );
    let mut stranger = update.message.clone();
    stranger.header.sender = 7;
    assert_eq!(
        stage_error(&mut bob_group, &stranger),
        EngineError::Validation(ValidationReason::UnknownSender)
    );
    let mut other_tag = update.message.clone();
    other_tag.membership_tag[31] ^= 0x80;
    assert_eq!(
        stage_error(&mut bob_group, &other_tag),
        EngineError::Validation(ValidationReason::BadMembershipTag)
    );
    let mut no_tag = update.message.clone();
    no_tag.confirmation_tag = None;
    assert_eq!(
        stage_error(&mut bob_group, &no_tag),
        EngineError::Validation(ValidationReason::BadConfirmationTag)
    );
    for bit in 0..8 {
        let mut flipped = update.message.clone();
        let mut tag = flipped.confirmation_tag.clone().expect("tag");
        tag[17] ^= 1 << bit;
        flipped.confirmation_tag = Some(tag);
        assert_eq!(
            stage_error(&mut bob_group, &flipped),
            EngineError::Validation(ValidationReason::BadConfirmationTag)
        );
    }

    // a signature key given in place of the sender's
    let unverified = bob_group.parse_message(handshake(&update.message)).expect("parse");
    assert_eq!(
        bob_group.stage(unverified, Some(&bob.public_key)).err(),
        Some(EngineError::Validation(ValidationReason::BadSignature))
    );
    let unverified = bob_group.parse_message(handshake(&update.message)).expect("parse");
    assert!(bob_group.stage(unverified, Some(&alice.public_key)).is_ok());

    // nothing above has touched the state
    assert_eq!(bob_group.epoch(), 1);
    merge_commit(&mut bob_group, &update.message);
    merge_commit(&mut alice_group, &update.message);
    assert_agree(&alice_group, &bob_group);
}

#[test]
fn a_commit_signed_with_another_key_is_not_made() {
    let (_alice, mut alice_group, bob, _bob_group) = pair(2);
    let refused = alice_group.commit(vec![], true, &bob.signing_key, b"");
    assert_eq!(refused.err(), Some(EngineError::Validation(ValidationReason::InvalidPath)));
    let refused = alice_group.commit(vec![], true, &[1, 2, 3], b"");
    assert_eq!(refused.err(), Some(EngineError::BadSigningKey));
    let refused = alice_group.propose(Proposal::Remove(1), &[1, 2, 3], b"");
    assert_eq!(refused.err(), Some(EngineError::BadSigningKey));
}

#[test]
fn empty_commits() {
    let (alice, mut alice_group, _bob, _bob_group) = pair(2);
    let refused = alice_group.commit(vec![], false, &alice.signing_key, b"");
    assert_eq!(refused.err(), Some(EngineError::EmptyCommit));
    let refused = alice_group.commit_with_secret(vec![], None, &alice.signing_key, b"");
    assert_eq!(refused.err(), Some(EngineError::EmptyCommit));
    assert_eq!(EngineError::EmptyCommit.class(), ErrorClass::Validation);

    let permissive =
        GroupConfig { max_past_epochs: 1, max_forward_distance: 10, allow_empty_commit: true };
    let carol = keys("Carol");
    let mut open_group =
        GroupState::create(b"open", carol.bundle.clone(), permissive).expect("create");
    let empty = open_group.commit(vec![], false, &carol.signing_key, b"").expect("commit");
    match &empty.message.body {
        HandshakeBody::Commit(c) => {
            assert!(c.proposals.is_empty());
            assert!(c.path.is_none());
        }
        _ => unreachable!("expected a commit"),
    }
    merge_commit(&mut open_group, &empty.message);
    assert_eq!(open_group.epoch(), 1);

    // a received commit without proposals and path is malformed for a
    // member that does not allow it
    let dave = keys("Dave");
    let mut strict = invite(&carol, &mut open_group, &mut [], &dave, 1);
    let empty = open_group.commit(vec![], false, &carol.signing_key, b"").expect("commit");
    assert_eq!(
        stage_error(&mut strict, &empty.message),
        EngineError::Validation(ValidationReason::MalformedProposals)
    );
}

#[test]
fn a_commit_without_a_path_adds_a_member() {
    let (alice, mut alice_group, _bob, mut bob_group) = pair(2);
    let carol = keys("Carol");
    let CommitBundle { message, mut welcomes } = alice_group
        .commit(vec![add_of(0, &carol)], false, &alice.signing_key, b"")
        .expect("commit");
    merge_commit(&mut alice_group, &message);
    merge_commit(&mut bob_group, &message);
    let carol_group = GroupState::join(
        welcomes.remove(0),
        Some(bob_group.export_ratchet_tree()),
        carol.bundle.clone(),
        settings(2),
    )
    .expect("join");
    assert_agree(&alice_group, &bob_group);
    assert_agree(&alice_group, &carol_group);
}

#[test]
fn malformed_proposals_are_refused() {
    let (alice, mut alice_group, bob, mut bob_group) = pair(2);
    let carol = keys("Carol");
    let malformed = Some(EngineError::Validation(ValidationReason::MalformedProposals));
    let sets: Vec<Vec<QueuedProposal>> = vec![
        // removing oneself
        vec![remove_of(0, 0)],
        // removing a blank leaf or a leaf outside the tree
        vec![remove_of(0, 2)],
        // adding a member twice
        vec![add_of(0, &carol), add_of(1, &carol)],
        // adding a member that is in the group
        vec![add_of(0, &bob)],
        // removing a member twice
        vec![remove_of(0, 1), remove_of(0, 1)],
        // a proposal of somebody who is no member
        vec![add_of(5, &carol)],
        // an update of the committer itself
        vec![QueuedProposal {
            sender: 0,
            proposal: Proposal::Update(alice.bundle.key_package.clone()),
        }],
        // an update that changes the identity
        vec![QueuedProposal {
            sender: 1,
            proposal: Proposal::Update(carol.bundle.key_package.clone()),
        }],
        // an update and a removal of the same member
        vec![
            QueuedProposal { sender: 1, proposal: Proposal::Update(bob.bundle.key_package.clone()) },
            remove_of(0, 1),
        ],
    ];
    for set in sets {
        let refused = alice_group.commit(set, true, &alice.signing_key, b"");
        assert_eq!(refused.err(), malformed);
    }
    let mut forged = carol.bundle.key_package.clone();
    forged.identity = b"Mallory".to_vec();
    let refused = alice_group.commit(
        vec![QueuedProposal { sender: 0, proposal: Proposal::Add(forged) }],
        true,
        &alice.signing_key,
        b"",
    );
    assert_eq!(refused.err(), malformed);

    // a member refuses what it would not commit itself: bob's commit that
    // removes bob is staged by alice
    let update = bob_group.commit(vec![], true, &bob.signing_key, b"").expect("update");
    let mut with_removal = update.message.clone();
    if let HandshakeBody::Commit(c) = &mut with_removal.body {
        c.proposals.push(remove_of(1, 1));
    }
    let refusal = stage_error(&mut alice_group, &with_removal);
    assert_eq!(refusal, EngineError::Validation(ValidationReason::BadSignature));
    assert_eq!(alice_group.epoch(), 1);
}

#[test]
fn a_staged_commit_is_merged_once() {
    let (alice, mut alice_group, _bob, mut bob_group) = pair(2);
    let update = alice_group.commit(vec![], true, &alice.signing_key, b"").expect("update");
    let stage = |group: &mut GroupState| {
        let unverified = group.parse_message(handshake(&update.message)).expect("parse");
        match group.stage(unverified, None).expect("stage") {
            StagedMessage::StagedCommit(staged) => staged,
            _ => unreachable!("expected a staged commit"),
        }
    };
    let first = stage(&mut bob_group);
    let second = stage(&mut bob_group);
    assert_eq!(first.epoch(), 2);
    assert_eq!(first.secrets(), second.secrets());
    assert_eq!(bob_group.epoch(), 1);
    assert_eq!(bob_group.merge(first), Ok(()));
    assert_eq!(bob_group.epoch(), 2);
    assert_eq!(bob_group.merge(second), Err(EngineError::StaleCommit));
    assert_eq!(bob_group.epoch(), 2);
    assert!(EngineError::StaleCommit.is_fatal());

    // a commit staged by one member is not merged by another
    let for_alice = stage(&mut alice_group);
    let carol = keys("Carol");
    let mut elsewhere =
        GroupState::create(b"Test Group", carol.bundle.clone(), settings(2)).expect("create");
    assert_eq!(elsewhere.merge(for_alice), Err(EngineError::StaleCommit));
    assert_eq!(elsewhere.epoch(), 0);
}

#[test]
fn dropping_a_staged_commit_changes_nothing() {
    let (alice, mut alice_group, _bob, mut bob_group) = pair(2);
    let before = bob_group.secrets().clone();
    let update = alice_group.commit(vec![], true, &alice.signing_key, b"").expect("update");
    let unverified = bob_group.parse_message(handshake(&update.message)).expect("parse");
    let staged = bob_group.stage(unverified, None).expect("stage");
    drop(staged);
    assert_eq!(bob_group.epoch(), 1);
    assert_eq!(bob_group.secrets(), &before);
    let frame = alice_group.encrypt_application_message(b"still here", b"").expect("seal");
    assert_eq!(bob_group.decrypt(&frame), Ok(b"still here".to_vec()));
}

#[test]
fn only_the_latest_own_commit_can_be_staged_by_its_author() {
    let (alice, mut alice_group, _bob, mut bob_group) = pair(2);
    let first = alice_group.commit(vec![], true, &alice.signing_key, b"").expect("commit");
    let second = alice_group.commit(vec![], true, &alice.signing_key, b"").expect("commit");
    assert_eq!(
        stage_error(&mut alice_group, &first.message),
        EngineError::MissingPendingCommit
    );
    assert!(EngineError::MissingPendingCommit.is_fatal());
    merge_commit(&mut alice_group, &second.message);
    merge_commit(&mut bob_group, &second.message);
    assert_agree(&alice_group, &bob_group);
}

#[test]
fn a_commit_from_a_given_leaf_secret() {
    let (alice, mut alice_group, _bob, mut bob_group) = pair(2);
    let secret = [9u8; 32];
    let bundle = alice_group
        .commit_with_secret(vec![], Some(&secret), &alice.signing_key, b"")
        .expect("commit");
    let expected = derive_path(&secret, 1);
    match &bundle.message.body {
        HandshakeBody::Commit(c) => {
            let path = c.path.as_ref().expect("a path");
            assert_eq!(path.public_keys, expected.public_keys);
            assert_eq!(path.leaf_key_package.init_key, expected.leaf_public_key);
            assert_eq!(path.leaf_key_package.identity, b"Alice".to_vec());
            assert_eq!(path.leaf_key_package.signature_key, alice.public_key);
            assert!(path.leaf_key_package.verify());
            assert_eq!(path.secrets.len(), 1);
            assert_eq!(path.secrets[0].recipient, 1);
            assert_eq!(path.secrets[0].ciphertext.len(), 32 + 16);
        }
        _ => unreachable!("expected a commit"),
    }
    assert_eq!(bundle.message.header.sender, 0);
    assert_eq!(bundle.message.header.epoch, 1);
    assert_eq!(bundle.message.header.content_type, ContentType::Commit);
    merge_commit(&mut bob_group, &bundle.message);
    merge_commit(&mut alice_group, &bundle.message);
    assert_agree(&alice_group, &bob_group);

    let refused =
        alice_group.commit_with_secret(vec![], Some(&[9u8; 31]), &alice.signing_key, b"");
    assert_eq!(refused.err(), Some(EngineError::InvalidPath));
}

#[test]
fn a_forged_path_is_refused() {
    let (alice, mut alice_group, _bob, mut bob_group) = pair(2);
    let update = alice_group.commit(vec![], true, &alice.signing_key, b"").expect("update");
    // the author of the commit re-signs a path with a forged root key:
    // staging by bob fails at the path, not at the signature
    let mut forged = update.message.clone();
    if let HandshakeBody::Commit(c) = &mut forged.body {
        c.path.as_mut().expect("path").public_keys[0][0] ^= 1;
    }
    let resigned = resign(&alice_group, &alice, forged);
    assert_eq!(
        stage_error(&mut bob_group, &resigned),
        EngineError::Validation(ValidationReason::InvalidPath)
    );
    let mut unreadable = update.message.clone();
    if let HandshakeBody::Commit(c) = &mut unreadable.body {
        c.path.as_mut().expect("path").secrets[0].ciphertext[0] ^= 1;
    }
    let resigned = resign(&alice_group, &alice, unreadable);
    assert_eq!(
        stage_error(&mut bob_group, &resigned),
        EngineError::Validation(ValidationReason::DecryptionFailed)
    );
    let mut unaddressed = update.message.clone();
    if let HandshakeBody::Commit(c) = &mut unaddressed.body {
        c.path.as_mut().expect("path").secrets.clear();
    }
    let resigned = resign(&alice_group, &alice, unaddressed);
    assert_eq!(
        stage_error(&mut bob_group, &resigned),
        EngineError::Validation(ValidationReason::InvalidPath)
    );
    merge_commit(&mut bob_group, &update.message);
}

fn resign(group: &GroupState, author: &Keys, mut message: PlaintextFrame) -> PlaintextFrame {
    let tbs = mls_engine::framing::to_be_signed(&message.header, &message.body);
    message.signature = RustCrypto::default()
        .sign(SignatureScheme::ED25519, &tbs, &author.signing_key)
        .expect("sign");
    let content = mls_engine::framing::authenticated_content(&tbs, &message.signature);
    message.membership_tag =
        mls_engine::key_schedule::mac(&group.secrets().membership_key, &content);
    message
}

#[test]
fn joining_by_a_welcome() {
    let alice = keys("Alice");
    let bob = keys("Bob");
    let carol = keys("Carol");
    let mut alice_group =
        GroupState::create(b"Test Group", alice.bundle.clone(), settings(2)).expect("create");
    let CommitBundle { message, welcomes } = alice_group
        .commit(vec![add_of(0, &bob), add_of(0, &carol)], true, &alice.signing_key, b"")
        .expect("commit");
    merge_commit(&mut alice_group, &message);
    assert_eq!(welcomes.len(), 2);
    let tree = alice_group.export_ratchet_tree();
    let join = |welcome: &Welcome, bundle: &KeyPackageBundle| {
        GroupState::join(welcome.clone(), Some(tree.clone()), bundle.clone(), settings(2))
    };

    let bob_group = join(&welcomes[0], &bob.bundle).expect("join");
    let carol_group = join(&welcomes[1], &carol.bundle).expect("join");
    assert_eq!(bob_group.own_leaf(), 1);
    assert_eq!(carol_group.own_leaf(), 2);
    assert_agree(&alice_group, &bob_group);
    assert_agree(&alice_group, &carol_group);
    assert_eq!(welcomes[0].recipient, mls_engine::client::hash_kp(&bob.bundle.key_package));

    // the tree may travel with the welcome
    let with_tree = welcomes[0].clone().with_tree(tree.clone());
    let joined =
        GroupState::join(with_tree, None, bob.bundle.clone(), settings(2)).expect("join");
    assert_agree(&alice_group, &joined);

    let invalid = Some(EngineError::Validation(ValidationReason::InvalidKeyPackage));
    assert_eq!(join(&welcomes[0], &carol.bundle).err(), invalid);
    let malformed = Some(EngineError::Validation(ValidationReason::MalformedMessage));
    let no_tree = GroupState::join(welcomes[0].clone(), None, bob.bundle.clone(), settings(2));
    assert_eq!(no_tree.err(), malformed);
    let failed = Some(EngineError::Validation(ValidationReason::DecryptionFailed));
    let mut flipped = welcomes[0].clone();
    flipped.ciphertext[0] ^= 1;
    assert_eq!(join(&flipped, &bob.bundle).err(), failed);
    let mut wrong_key = bob.bundle.clone();
    wrong_key.private_key = carol.bundle.private_key.clone();
    assert_eq!(join(&welcomes[0], &wrong_key).err(), failed);
    let bad_tag = Some(EngineError::Validation(ValidationReason::BadConfirmationTag));
    let mut other_tag = welcomes[0].clone();
    other_tag.confirmation_tag[0] ^= 1;
    assert_eq!(join(&other_tag, &bob.bundle).err(), bad_tag);
    let mut other_transcript = welcomes[0].clone();
    other_transcript.confirmed_transcript_hash[0] ^= 1;
    assert_eq!(join(&other_transcript, &bob.bundle).err(), bad_tag);
    let mut other_group = welcomes[0].clone();
    other_group.group_id = b"Other".to_vec();
    assert_eq!(join(&other_group, &bob.bundle).err(), bad_tag);

    // a tree that is not the committer's
    let mut stale_tree = tree.clone();
    stale_tree.blank(2).expect("blank");
    let stale =
        GroupState::join(welcomes[0].clone(), Some(stale_tree), bob.bundle.clone(), settings(2));
    assert_eq!(stale.err(), bad_tag);
    let mut without_bob = tree.clone();
    without_bob.blank(1).expect("blank");
    let missing =
        GroupState::join(welcomes[0].clone(), Some(without_bob), bob.bundle.clone(), settings(2));
    assert_eq!(missing.err(), Some(EngineError::UnknownLeaf));
}

#[test]
fn error_classes() {
    let validation = [
        EngineError::Validation(ValidationReason::BadSignature),
        EngineError::Validation(ValidationReason::BadConfirmationTag),
        EngineError::Validation(ValidationReason::MalformedProposals),
        EngineError::InvalidPath,
        EngineError::EmptyCommit,
        EngineError::WrongGroup,
        EngineError::UnknownLeaf,
        EngineError::TreeFull,
        EngineError::PayloadTooLong,
        EngineError::NoRandomness,
        EngineError::BadSigningKey,
        EngineError::RatchetExhausted,
    ];
    for e in validation {
        assert_eq!(e.class(), ErrorClass::Validation);
        assert!(!e.is_fatal());
    }
    let freshness = [
        EngineError::TooDistantInThePast,
        EngineError::TooDistantInTheFuture,
        EngineError::WrongEpoch,
    ];
    for e in freshness {
        assert_eq!(e.class(), ErrorClass::Freshness);
        assert!(!e.is_fatal());
    }
    let fatal = [
        EngineError::SecretReuse,
        EngineError::MissingPendingCommit,
        EngineError::StaleCommit,
        EngineError::Removed,
        EngineError::EpochExhausted,
    ];
    for e in fatal {
        assert_eq!(e.class(), ErrorClass::Invariant);
        assert!(e.is_fatal());
    }
}

#[test]
fn proposals_are_deduplicated_by_reference() {
    let carol = keys("Carol");
    let list = vec![
        remove_of(0, 1),
        add_of(0, &carol),
        remove_of(0, 1),
        remove_of(1, 1),
        add_of(0, &carol),
        remove_of(0, 2),
        remove_of(0, 1),
    ];
    let kept = deduplicate(list);
    assert_eq!(
        kept,
        vec![remove_of(0, 1), add_of(0, &carol), remove_of(1, 1), remove_of(0, 2)]
    );
    assert_eq!(deduplicate(vec![]), vec![]);
    assert_eq!(deduplicate(vec![remove_of(3, 4)]), vec![remove_of(3, 4)]);

    // a proposal that arrives twice is committed once
    let (alice, mut alice_group, _bob, mut bob_group) = pair(2);
    let twice = vec![add_of(0, &carol), add_of(0, &carol)];
    let refused = alice_group.commit(twice.clone(), true, &alice.signing_key, b"");
    assert_eq!(
        refused.err(),
        Some(EngineError::Validation(ValidationReason::MalformedProposals))
    );
    let commit = alice_group
        .commit(deduplicate(twice), true, &alice.signing_key, b"")
        .expect("commit");
    assert_eq!(commit.welcomes.len(), 1);
    merge_commit(&mut alice_group, &commit.message);
    merge_commit(&mut bob_group, &commit.message);
    assert_agree(&alice_group, &bob_group);
}

#[test]
fn a_signature_with_high_bits_set_is_refused() {
    let (alice, mut alice_group, _bob, mut bob_group) = pair(2);
    let update = alice_group.commit(vec![], true, &alice.signing_key, b"").expect("update");
    let bad_signature = EngineError::Validation(ValidationReason::BadSignature);

    let mut all_ones = update.message.clone();
    all_ones.signature = vec![0xff; 64];
    assert_eq!(stage_error(&mut bob_group, &all_ones), bad_signature);
    for bit in [0x20u8, 0x40, 0x80] {
        let mut high = update.message.clone();
        high.signature[63] |= bit;
        assert_eq!(stage_error(&mut bob_group, &high), bad_signature);
    }
    let mut short = update.message.clone();
    short.signature = vec![0xff; 63];
    assert_eq!(stage_error(&mut bob_group, &short), bad_signature);
    let mut long = update.message.clone();
    long.signature = vec![0xff; 65];
    assert_eq!(stage_error(&mut bob_group, &long), bad_signature);
    let mut empty = update.message.clone();
    empty.signature = vec![];
    assert_eq!(stage_error(&mut bob_group, &empty), bad_signature);

    // the same through the bytes of the message
    let raw = mls_engine::wire::encode_message(&handshake(&all_ones));
    let unverified = bob_group.parse(&raw).expect("parse");
    assert_eq!(bob_group.stage(unverified, None).err(), Some(bad_signature));
    let unverified = bob_group.parse_message(handshake(&all_ones)).expect("parse");
    assert_eq!(bob_group.stage(unverified, Some(&alice.public_key)).err(), Some(bad_signature));

    // a key package with such a signature does not verify, and is not added
    let carol = keys("Carol");
    assert!(carol.bundle.key_package.verify());
    let mut forged = carol.bundle.key_package.clone();
    forged.signature = vec![0xff; 64];
    assert!(!forged.verify());
    let mut high = carol.bundle.key_package.clone();
    high.signature[63] |= 0x80;
    assert!(!high.verify());
    let refused = alice_group.commit(
        vec![QueuedProposal { sender: 0, proposal: Proposal::Add(forged) }],
        true,
        &alice.signing_key,
        b"",
    );
    assert_eq!(
        refused.err(),
        Some(EngineError::Validation(ValidationReason::MalformedProposals))
    );

    // nothing above has touched the state
    merge_commit(&mut bob_group, &update.message);
    merge_commit(&mut alice_group, &update.message);
    assert_agree(&alice_group, &bob_group);
}

#[test]
fn signature_shapes() {
    assert!(has_signature_shape(&[0u8; 64]));
    assert!(has_signature_shape(&[0x1f; 64]));
    assert!(!has_signature_shape(&[0xff; 64]));
    let mut sig = [0u8; 64];
    sig[63] = 0x20;
    assert!(!has_signature_shape(&sig));
    sig[63] = 0x1f;
    sig[0] = 0xff;
    assert!(has_signature_shape(&sig));
    // other lengths are refused by the verification itself
    assert!(has_signature_shape(&[0xff; 63]));
    assert!(has_signature_shape(&[]));
}

#[test]
fn a_valid_invitation_and_a_valid_removal_are_committed() {
    let (alice, mut alice_group, _bob, mut bob_group) = pair(2);
    let carol = keys("Carol");
    let invitation = alice_group
        .commit(vec![add_of(0, &carol)], true, &alice.signing_key, b"")
        .expect("a valid invitation is committed");
    assert_eq!(invitation.welcomes.len(), 1);
    assert_eq!(invitation.message.header.epoch, 1);
    merge_commit(&mut alice_group, &invitation.message);
    merge_commit(&mut bob_group, &invitation.message);
    assert_eq!(alice_group.epoch(), 2);
    assert_eq!(alice_group.group_id(), &b"Test Group".to_vec());
    assert_eq!(alice_group.tree().member(2), Some(&carol.bundle.key_package));
    assert!(alice_group.tree().is_member(1));

    let removal = alice_group
        .commit(vec![remove_of(0, 1)], true, &alice.signing_key, b"")
        .expect("a valid removal is committed");
    assert!(removal.welcomes.is_empty());
    merge_commit(&mut alice_group, &removal.message);
    assert_eq!(alice_group.epoch(), 3);
    assert!(!alice_group.tree().is_member(1));
    assert!(alice_group.tree().is_member(0));
    assert_eq!(alice_group.tree().member(2), Some(&carol.bundle.key_package));
    assert_eq!(alice_group.tree().leaf_count(), 4);
}
