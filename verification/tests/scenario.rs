use mls_engine::errors::{EngineError, ValidationReason};
use mls_engine::framing::{
    PlaintextFrame, Proposal, QueuedProposal, UnverifiedMessage, WireMessage,
};
use mls_engine::group::{CommitBundle, GroupConfig, GroupState, StagedMessage};
use mls_engine::key_package::KeyPackageBundle;
use openmls_rust_crypto::RustCrypto;
use openmls_traits::crypto::OpenMlsCrypto;
use openmls_traits::types::SignatureScheme;

struct Member {
    signing_key: Vec<u8>,
    bundle: KeyPackageBundle,
}

fn member(name: &str) -> Member {
    let (signing_key, public_key) = RustCrypto::default()
        .signature_key_gen(SignatureScheme::ED25519)
        .expect("key generation");
    let bundle = KeyPackageBundle::generate(name.as_bytes(), &public_key, &signing_key)
        .expect("key package");
    Member { signing_key, bundle }
}

fn config(max_past_epochs: usize) -> GroupConfig {
    GroupConfig { max_past_epochs, max_forward_distance: 1000, allow_empty_commit: false }
}

fn process_commit(group: &mut GroupState, message: &PlaintextFrame) {
    let unverified = group.parse_message(WireMessage::Handshake(message.clone())).expect("parse");
    match group.stage(unverified, None).expect("stage") {
        StagedMessage::StagedCommit(staged) => group.merge(staged).expect("merge"),
        _ => unreachable!("expected a staged commit"),
    }
}

fn add(sender: u32, joiner: &Member) -> QueuedProposal {
    QueuedProposal { sender, proposal: Proposal::Add(joiner.bundle.key_package.clone()) }
}

fn two_members(max_past_epochs: usize) -> (Member, GroupState, Member, GroupState) {
    let alice = member("Alice");
    let bob = member("Bob");
    let mut alice_group =
        GroupState::create(b"Test Group", alice.bundle.clone(), config(max_past_epochs))
            .expect("create");
    let CommitBundle { message, mut welcomes } = alice_group
        .commit(vec![add(0, &bob)], true, &alice.signing_key, b"")
        .expect("commit");
    process_commit(&mut alice_group, &message);
    assert_eq!(welcomes.len(), 1);
    let welcome = welcomes.remove(0);
    let bob_group = GroupState::join(
        welcome,
        Some(alice_group.export_ratchet_tree()),
        bob.bundle.clone(),
        config(max_past_epochs),
    )
    .expect("join");
    (alice, alice_group, bob, bob_group)
}

#[test]
fn create_add_send_update_and_read() {
    let (alice, mut alice_group, _bob, mut bob_group) = two_members(1);
    assert_eq!(alice_group.epoch(), 1);
    assert_eq!(bob_group.epoch(), 1);
    assert_eq!(bob_group.own_leaf(), 1);

    let hello = alice_group.encrypt_application_message(b"hello", b"").expect("seal");
    let opened = bob_group.decrypt(&hello).expect("open");
    assert_eq!(opened, b"hello".to_vec());

    let at_one = alice_group.encrypt_application_message(b"sent at one", b"").expect("seal");

    let update = alice_group.commit(vec![], true, &alice.signing_key, b"").expect("update");
    process_commit(&mut alice_group, &update.message);
    process_commit(&mut bob_group, &update.message);
    assert_eq!(alice_group.epoch(), 2);
    assert_eq!(bob_group.epoch(), 2);
    assert_eq!(alice_group.secrets(), bob_group.secrets());
    assert_eq!(alice_group.export_ratchet_tree(), bob_group.export_ratchet_tree());

    let opened = bob_group.decrypt(&at_one).expect("open within the window");
    assert_eq!(opened, b"sent at one".to_vec());

    let update = alice_group.commit(vec![], true, &alice.signing_key, b"").expect("update");
    process_commit(&mut alice_group, &update.message);
    process_commit(&mut bob_group, &update.message);
    assert_eq!(bob_group.epoch(), 3);
    let late = bob_group.decrypt(&hello);
    assert_eq!(late, Err(EngineError::TooDistantInThePast));
}

#[test]
fn joiner_has_the_state_of_the_committer() {
    let (_alice, alice_group, _bob, bob_group) = two_members(2);
    assert_eq!(alice_group.epoch(), bob_group.epoch());
    assert_eq!(alice_group.secrets(), bob_group.secrets());
    assert_eq!(alice_group.export_ratchet_tree(), bob_group.export_ratchet_tree());
    assert_eq!(alice_group.group_id(), bob_group.group_id());
}

#[test]
fn tampered_confirmation_tag_is_refused() {
    let (alice, mut alice_group, _bob, mut bob_group) = two_members(2);
    let update = alice_group.commit(vec![], true, &alice.signing_key, b"").expect("update");
    let mut tampered = update.message.clone();
    let mut tag = tampered.confirmation_tag.clone().expect("a commit carries a tag");
    tag[0] ^= 0x01;
    tampered.confirmation_tag = Some(tag);
    let unverified = bob_group.parse_message(WireMessage::Handshake(tampered)).expect("parse");
    let refused = bob_group.stage(unverified, None);
    assert!(matches!(
        refused,
        Err(EngineError::Validation(ValidationReason::BadConfirmationTag))
    ));
    assert_eq!(bob_group.epoch(), 1);
    process_commit(&mut bob_group, &update.message);
    assert_eq!(bob_group.epoch(), 2);
}

#[test]
fn unverified_message_keeps_the_frame() {
    let (alice, mut alice_group, _bob, bob_group) = two_members(2);
    let update = alice_group.commit(vec![], true, &alice.signing_key, b"").expect("update");
    let unverified = bob_group.parse_message(WireMessage::Handshake(update.message.clone())).expect("parse");
    assert_eq!(unverified, UnverifiedMessage::Handshake(update.message));
}
