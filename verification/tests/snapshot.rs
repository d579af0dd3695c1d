use mls_engine::errors::EngineError;
use mls_engine::framing::{Proposal, QueuedProposal, WireMessage};
use mls_engine::group::{GroupConfig, GroupParts, GroupState, StagedMessage};
use mls_engine::key_package::KeyPackageBundle;
use mls_engine::message_secrets::MessageSecretsStore;
use mls_engine::ratchet_tree::Node;
use mls_engine::secret_tree::{Ratchet, SecretKind, SecretTree, SecretTreeParts};
use openmls_rust_crypto::RustCrypto;
use openmls_traits::crypto::OpenMlsCrypto;
use openmls_traits::types::SignatureScheme;

fn bundle(name: &str) -> (Vec<u8>, KeyPackageBundle) {
    let (signing_key, public_key) =
        RustCrypto::default().signature_key_gen(SignatureScheme::ED25519).expect("keys");
    let bundle =
        KeyPackageBundle::generate(name.as_bytes(), &public_key, &signing_key).expect("bundle");
    (signing_key, bundle)
}

fn two_groups() -> (Vec<u8>, GroupState, GroupState) {
    let config =
        GroupConfig { max_past_epochs: 2, max_forward_distance: 10, allow_empty_commit: false };
    let (alice_key, alice) = bundle("Alice");
    let (_, bob) = bundle("Bob");
    let mut alice_group = GroupState::create(b"g", alice, config).expect("create");
    let add = QueuedProposal { sender: 0, proposal: Proposal::Add(bob.key_package.clone()) };
    let mut committed = alice_group.commit(vec![add], true, &alice_key, b"").expect("commit");
    let unverified =
        alice_group.parse_message(WireMessage::Handshake(committed.message)).expect("parse");
    match alice_group.stage(unverified, None).expect("stage") {
        StagedMessage::StagedCommit(staged) => alice_group.merge(staged).expect("merge"),
        _ => unreachable!("expected a staged commit"),
    }
    let bob_group = GroupState::join(
        committed.welcomes.remove(0),
        Some(alice_group.export_ratchet_tree()),
        bob,
        config,
    )
    .expect("join");
    (alice_key, alice_group, bob_group)
}

#[test]
fn secret_tree_parts_round_trip() {
    let mut tree = SecretTree::new(&[1u8; 32], 2, 10);
    tree.derive_message_key(1, 3, SecretKind::Application).expect("key");
    let parts = tree.to_parts();
    assert_eq!(parts.max_forward, 10);
    assert_eq!(parts.handshake.len(), 2);
    assert_eq!(parts.application[0].generation, 0);
    assert_eq!(parts.application[1].generation, 4);
    let mut restored = SecretTree::from_parts(parts.clone()).expect("a tree");
    assert_eq!(restored.to_parts(), parts);
    assert_eq!(
        restored.derive_message_key(1, 4, SecretKind::Application),
        tree.derive_message_key(1, 4, SecretKind::Application)
    );

    let mut short = parts.clone();
    short.application[0].secret.truncate(31);
    assert!(SecretTree::from_parts(short).is_none());
    let mut uneven = parts.clone();
    uneven.handshake.pop();
    assert!(SecretTree::from_parts(uneven).is_none());
    let mut worn = parts.clone();
    worn.handshake[1].generation = (1u64 << 32) + 1;
    assert!(SecretTree::from_parts(worn).is_none());
    let mut at_the_end = parts;
    at_the_end.handshake[1].generation = 1u64 << 32;
    assert!(SecretTree::from_parts(at_the_end).is_some());
    let empty = SecretTreeParts { handshake: vec![], application: vec![], max_forward: 0 };
    assert!(SecretTree::from_parts(empty).is_some());
    let one = SecretTreeParts {
        handshake: vec![Ratchet { generation: 0, secret: vec![0; 32] }],
        application: vec![Ratchet { generation: 5, secret: vec![0; 40] }],
        max_forward: 1,
    };
    assert!(SecretTree::from_parts(one).is_some());
}

#[test]
fn store_parts_round_trip() {
    let tree = |epoch: u8| SecretTree::new(&[epoch; 32], 2, 10);
    let mut store = MessageSecretsStore::new(2, 5, tree(5));
    for epoch in 6..10u8 {
        store.push(tree(epoch));
    }
    let parts = store.to_parts();
    assert_eq!(parts.max_past_epochs, 2);
    assert_eq!(parts.origin, 5);
    assert_eq!(parts.first_epoch, 7);
    assert_eq!(parts.trees.len(), 3);
    assert_eq!(parts.trees[0], tree(7).to_parts());
    assert_eq!(parts.trees[2], tree(9).to_parts());
    let restored = MessageSecretsStore::from_parts(parts.clone()).expect("a store");
    assert_eq!(restored.to_parts(), parts);
    assert_eq!(restored.current_epoch(), 9);
    assert_eq!(restored.max_past_epochs(), 2);
    assert_eq!(restored.current_leaf_count(), 2);

    let mut no_trees = parts.clone();
    no_trees.trees.clear();
    assert!(MessageSecretsStore::from_parts(no_trees).is_none());
    let mut too_many = parts.clone();
    too_many.trees.push(tree(10).to_parts());
    assert!(MessageSecretsStore::from_parts(too_many).is_none());
    let mut too_few = parts.clone();
    too_few.trees.pop();
    assert!(MessageSecretsStore::from_parts(too_few).is_none());
    let mut late_origin = parts.clone();
    late_origin.origin = 8;
    assert!(MessageSecretsStore::from_parts(late_origin).is_none());
    let mut bad_tree = parts.clone();
    bad_tree.trees[1].handshake.pop();
    assert!(MessageSecretsStore::from_parts(bad_tree).is_none());
    let mut overflow = parts;
    overflow.first_epoch = u64::MAX - 1;
    overflow.origin = 0;
    assert!(MessageSecretsStore::from_parts(overflow).is_none());
}

#[test]
fn group_parts_round_trip() {
    let (alice_key, mut alice_group, mut bob_group) = two_groups();
    let sent = alice_group.encrypt_application_message(b"before", b"").expect("seal");
    let parts = bob_group.to_parts();
    assert_eq!(parts.epoch, 1);
    assert_eq!(parts.own_leaf, 1);
    assert_eq!(parts.group_id, b"g".to_vec());
    assert_eq!(parts.nodes.len(), 3);
    assert_eq!(&parts.secrets, bob_group.secrets());
    assert_eq!(parts.pending_commit, None);
    let mut restored = GroupState::from_parts(parts.clone()).expect("a state");
    assert_eq!(restored.to_parts(), parts);
    assert_eq!(restored.decrypt(&sent), Ok(b"before".to_vec()));
    assert_eq!(bob_group.decrypt(&sent), Ok(b"before".to_vec()));

    // a state with a pending commit survives, and the commit can be staged
    let update = alice_group.commit(vec![], true, &alice_key, b"").expect("commit");
    let alice_parts = alice_group.to_parts();
    assert!(alice_parts.pending_commit.is_some());
    let mut alice_restored = GroupState::from_parts(alice_parts).expect("a state");
    for group in [&mut alice_restored, &mut restored] {
        let unverified =
            group.parse_message(WireMessage::Handshake(update.message.clone())).expect("parse");
        match group.stage(unverified, None).expect("stage") {
            StagedMessage::StagedCommit(staged) => group.merge(staged).expect("merge"),
            _ => unreachable!("expected a staged commit"),
        }
    }
    assert_eq!(alice_restored.epoch(), 2);
    assert_eq!(alice_restored.secrets(), restored.secrets());
}

#[test]
fn malformed_group_parts_are_refused() {
    let (_, _, bob_group) = two_groups();
    let parts = bob_group.to_parts();
    let refused = |change: &dyn Fn(&mut GroupParts)| {
        let mut changed = parts.clone();
        change(&mut changed);
        GroupState::from_parts(changed).is_none()
    };
    assert!(refused(&|p| p.epoch = 2));
    assert!(refused(&|p| p.own_leaf = 2));
    assert!(refused(&|p| p.nodes[2] = Node::Blank));
    assert!(refused(&|p| {
        p.nodes.pop();
    }));
    assert!(refused(&|p| p.nodes[1] = p.nodes[0].clone()));
    assert!(refused(&|p| {
        p.secrets.init_secret.pop();
    }));
    assert!(refused(&|p| p.secrets.confirmation_key.push(0)));
    assert!(refused(&|p| p.interim_transcript_hash = vec![0; 33]));
    assert!(refused(&|p| p.pending_commit = Some(vec![0; 31])));
    assert!(refused(&|p| p.config.max_past_epochs = 3));
    assert!(refused(&|p| p.store.max_past_epochs = 3));
    assert!(refused(&|p| p.store.first_epoch = 0));
    assert!(refused(&|p| {
        p.store.trees[0].application.pop();
        p.store.trees[0].handshake.pop();
    }));
    assert!(!refused(&|p| p.pending_commit = Some(vec![0; 32])));
    assert!(!refused(&|p| p.own_private_key = vec![]));
    assert!(!refused(&|p| p.config.max_forward_distance = 0));
    assert!(!refused(&|p| p.nodes[1] = Node::Parent(vec![1, 2, 3])));
}

#[test]
fn the_last_epoch_and_the_last_generation() {
    let (alice_key, alice_group, _) = two_groups();
    let mut parts = alice_group.to_parts();
    assert_eq!(parts.store.trees.len(), 2);
    parts.epoch = u64::MAX;
    parts.store.origin = u64::MAX - 1;
    parts.store.first_epoch = u64::MAX - 1;
    let mut at_the_end = GroupState::from_parts(parts).expect("a state");
    assert_eq!(at_the_end.epoch(), u64::MAX);
    let refused = at_the_end.commit(vec![], true, &alice_key, b"");
    assert_eq!(refused.err(), Some(EngineError::EpochExhausted));
    assert!(EngineError::EpochExhausted.is_fatal());
    assert!(at_the_end.encrypt_application_message(b"still", b"").is_ok());

    let mut parts = alice_group.to_parts();
    parts.store.trees[1].application[0].generation = 1u64 << 32;
    let mut worn = GroupState::from_parts(parts).expect("a state");
    let refused = worn.encrypt_application_message(b"one more", b"");
    assert_eq!(refused.err(), Some(EngineError::RatchetExhausted));
    assert!(!EngineError::RatchetExhausted.is_fatal());

    let mut parts = alice_group.to_parts();
    parts.store.trees[1].application[0].generation = u32::MAX as u64;
    let mut last = GroupState::from_parts(parts).expect("a state");
    let frame = last.encrypt_application_message(b"the last", b"").expect("seal");
    assert_eq!(frame.generation, u32::MAX);
    let refused = last.encrypt_application_message(b"one more", b"");
    assert_eq!(refused.err(), Some(EngineError::RatchetExhausted));
}
