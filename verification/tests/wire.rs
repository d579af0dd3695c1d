use mls_engine::errors::{EngineError, ValidationReason};
use mls_engine::framing::{
    CiphertextFrame, Commit, ContentType, FrameHeader, HandshakeBody, PlaintextFrame, Proposal,
    QueuedProposal, SealedSecret, UnverifiedMessage, UpdatePath, WireMessage,
};
use mls_engine::group::{GroupConfig, GroupState, StagedMessage};
use mls_engine::key_package::{KeyPackage, KeyPackageBundle};
use mls_engine::ratchet_tree::RatchetTree;
use mls_engine::welcome::Welcome;
use mls_engine::wire::{
    decode_key_package, decode_message, decode_welcome, encode_key_package, encode_message,
    encode_welcome, take_bytes, take_list, take_u32, take_u64,
};
use openmls_rust_crypto::RustCrypto;
use openmls_traits::crypto::OpenMlsCrypto;
use openmls_traits::types::SignatureScheme;

fn package(name: &str) -> KeyPackage {
    KeyPackage {
        identity: name.as_bytes().to_vec(),
        signature_key: vec![1; 32],
        init_key: vec![2; 32],
        signature: vec![3; 64],
    }
}

fn header(content_type: ContentType) -> FrameHeader {
    FrameHeader {
        group_id: b"gid".to_vec(),
        epoch: 5,
        sender: 2,
        content_type,
        authenticated_data: b"ad".to_vec(),
    }
}

fn commit_frame() -> PlaintextFrame {
    let path = UpdatePath {
        leaf_key_package: package("me"),
        public_keys: vec![vec![4; 32], vec![], vec![5; 3]],
        secrets: vec![
            SealedSecret { recipient: 0, kem_output: vec![6; 32], ciphertext: vec![7; 48] },
            SealedSecret { recipient: u32::MAX, kem_output: vec![], ciphertext: vec![] },
        ],
    };
    let commit = Commit {
        proposals: vec![
            QueuedProposal { sender: 1, proposal: Proposal::Add(package("new")) },
            QueuedProposal { sender: 2, proposal: Proposal::Remove(7) },
            QueuedProposal { sender: 3, proposal: Proposal::Update(package("old")) },
        ],
        path: Some(path),
    };
    PlaintextFrame {
        header: header(ContentType::Commit),
        body: HandshakeBody::Commit(commit),
        signature: vec![8; 64],
        confirmation_tag: Some(vec![9; 32]),
        membership_tag: vec![10; 32],
    }
}

#[test]
fn header_encoding() {
    let expected: Vec<u8> = vec![
        0, 0, 0, 0, 0, 0, 0, 3, b'g', b'i', b'd', 0, 0, 0, 0, 0, 0, 0, 5, 0, 0, 0, 0, 0, 0, 0, 2,
        1, 0, 0, 0, 0, 0, 0, 0, 2, b'a', b'd',
    ];
    assert_eq!(header(ContentType::Application).encode(), expected);
    let mut proposal = expected.clone();
    proposal[27] = 2;
    assert_eq!(header(ContentType::Proposal).encode(), proposal);
    let mut commit = expected;
    commit[27] = 3;
    assert_eq!(header(ContentType::Commit).encode(), commit);
    assert_eq!(header(ContentType::Commit).duplicate(), header(ContentType::Commit));
}

#[test]
fn proposal_encodings() {
    let remove = Proposal::Remove(0x0102_0304);
    assert_eq!(remove.encode(), vec![2, 0, 0, 0, 0, 1, 2, 3, 4]);
    let add = Proposal::Add(package("a"));
    let mut expected = vec![1u8];
    expected.extend(package("a").encode());
    assert_eq!(add.encode(), expected);
    let update = Proposal::Update(package("a"));
    expected[0] = 3;
    assert_eq!(update.encode(), expected);
    let queued = QueuedProposal { sender: 9, proposal: remove.duplicate() };
    assert_eq!(queued.encode(), vec![0, 0, 0, 0, 0, 0, 0, 9, 2, 0, 0, 0, 0, 1, 2, 3, 4]);
    let digest = RustCrypto::default()
        .hash(openmls_traits::types::HashType::Sha2_256, &queued.encode())
        .expect("hash");
    assert_eq!(queued.reference(), digest);
    assert_eq!(queued.duplicate(), queued);
    let other = QueuedProposal { sender: 8, proposal: remove };
    assert_ne!(other.reference(), queued.reference());
}

#[test]
fn primitive_readers() {
    assert_eq!(take_u64(&[0, 0, 0, 0, 0, 0, 1, 2, 9], 0), Some((258, 8)));
    assert_eq!(take_u64(&[9, 0, 0, 0, 0, 0, 0, 1, 2], 1), Some((258, 9)));
    assert_eq!(take_u64(&[0; 7], 0), None);
    assert_eq!(take_u64(&[0; 8], 1), None);
    assert_eq!(take_u32(&[0, 0, 0, 0, 0xff, 0xff, 0xff, 0xff], 0), Some((u32::MAX, 8)));
    assert_eq!(take_u32(&[0, 0, 0, 1, 0, 0, 0, 0], 0), None);
    assert_eq!(take_bytes(&[0, 0, 0, 0, 0, 0, 0, 2, 7, 8, 9], 0), Some((vec![7, 8], 10)));
    assert_eq!(take_bytes(&[0, 0, 0, 0, 0, 0, 0, 0], 0), Some((vec![], 8)));
    assert_eq!(take_bytes(&[0, 0, 0, 0, 0, 0, 0, 3, 7, 8], 0), None);
    assert_eq!(take_bytes(&[0xff; 12], 0), None);
    let list = mls_engine::bytes::encode_list(&vec![vec![1], vec![], vec![2, 3]]);
    assert_eq!(take_list(&list, 0), Some((vec![vec![1], vec![], vec![2, 3]], list.len())));
    assert_eq!(take_list(&list[..list.len() - 1], 0), None);
    assert_eq!(take_list(&[0xff; 8], 0), None);
    assert_eq!(take_list(&[0; 8], 0), Some((vec![], 8)));
}

#[test]
fn key_packages_round_trip() {
    let kp = package("Alice");
    let bytes = encode_key_package(&kp);
    assert_eq!(bytes, kp.encode());
    assert_eq!(decode_key_package(&bytes), Some(kp.clone()));
    let empty =
        KeyPackage { identity: vec![], signature_key: vec![], init_key: vec![], signature: vec![] };
    assert_eq!(encode_key_package(&empty), vec![0; 32]);
    assert_eq!(decode_key_package(&[0; 32]), Some(empty));
    assert_eq!(decode_key_package(&bytes[..bytes.len() - 1]), None);
    let mut longer = bytes.clone();
    longer.push(0);
    assert_eq!(decode_key_package(&longer), None);
    assert_eq!(decode_key_package(&[]), None);
}

#[test]
fn messages_round_trip() {
    let commit = WireMessage::Handshake(commit_frame());
    let bytes = encode_message(&commit);
    assert_eq!(bytes[0], 1);
    assert_eq!(decode_message(&bytes), Some(commit));

    let mut without_path = commit_frame();
    without_path.body = HandshakeBody::Commit(Commit { proposals: vec![], path: None });
    without_path.confirmation_tag = None;
    let message = WireMessage::Handshake(without_path);
    assert_eq!(decode_message(&encode_message(&message)), Some(message));

    for proposal in [
        Proposal::Add(package("x")),
        Proposal::Remove(3),
        Proposal::Update(package("y")),
    ] {
        let frame = PlaintextFrame {
            header: header(ContentType::Proposal),
            body: HandshakeBody::Proposal(proposal),
            signature: vec![],
            confirmation_tag: None,
            membership_tag: vec![1],
        };
        let message = WireMessage::Handshake(frame);
        assert_eq!(decode_message(&encode_message(&message)), Some(message));
    }

    let sealed = WireMessage::Application(CiphertextFrame {
        header: header(ContentType::Application),
        generation: 77,
        ciphertext: vec![1, 2, 3],
    });
    let bytes = encode_message(&sealed);
    assert_eq!(bytes[0], 2);
    let mut expected = vec![2u8];
    expected.extend(header(ContentType::Application).encode());
    expected.extend([0, 0, 0, 0, 0, 0, 0, 77]);
    expected.extend([0, 0, 0, 0, 0, 0, 0, 3, 1, 2, 3]);
    assert_eq!(bytes, expected);
    assert_eq!(decode_message(&bytes), Some(sealed));
}

#[test]
fn bytes_that_spell_no_message_are_refused() {
    let bytes = encode_message(&WireMessage::Handshake(commit_frame()));
    assert_eq!(decode_message(&[]), None);
    assert_eq!(decode_message(&[1]), None);
    assert_eq!(decode_message(&[3]), None);
    for cut in [1usize, 9, 40, bytes.len() / 2, bytes.len() - 1] {
        assert_eq!(decode_message(&bytes[..cut]), None);
    }
    let mut longer = bytes.clone();
    longer.push(0);
    assert_eq!(decode_message(&longer), None);
    let mut other_shape = bytes.clone();
    other_shape[0] = 2;
    assert_eq!(decode_message(&other_shape), None);
    // the content type byte of the header: 28 = 1 + 27
    let mut unknown_type = bytes.clone();
    unknown_type[28] = 4;
    assert_eq!(decode_message(&unknown_type), None);
    let mut application_in_the_clear = bytes.clone();
    application_in_the_clear[28] = 1;
    assert_eq!(decode_message(&application_in_the_clear), None);
    // a frame whose header does not announce its body is written, but not read back
    let mut frame = commit_frame();
    frame.header.content_type = ContentType::Proposal;
    let written = encode_message(&WireMessage::Handshake(frame));
    assert_eq!(decode_message(&written), None);
}

#[test]
fn welcomes_round_trip() {
    let mut tree = RatchetTree::new(package("a")).expect("tree");
    tree.add_leaf(package("b")).expect("add");
    tree.add_leaf(package("c")).expect("add");
    let welcome = Welcome {
        recipient: vec![1; 32],
        group_id: b"gid".to_vec(),
        kem_output: vec![2; 32],
        ciphertext: vec![3; 56],
        confirmed_transcript_hash: vec![4; 32],
        confirmation_tag: vec![5; 32],
        tree: None,
    };
    let bytes = encode_welcome(&welcome);
    assert_eq!(decode_welcome(&bytes), Some(welcome.clone()));
    assert_eq!(*bytes.last().expect("a byte"), 0);
    let with_tree = welcome.clone().with_tree(tree.clone());
    let bytes = encode_welcome(&with_tree);
    let decoded = decode_welcome(&bytes).expect("a welcome");
    assert_eq!(decoded, with_tree);
    assert_eq!(decoded.tree, Some(tree));
    assert_eq!(decode_welcome(&bytes[..bytes.len() - 1]), None);
    assert_eq!(decode_welcome(&[]), None);
    // a node list that is no tree: two nodes
    let mut no_tree = encode_welcome(&welcome);
    no_tree.pop();
    no_tree.push(1);
    no_tree.extend(mls_engine::bytes::encode_list(&vec![vec![0u8], vec![0u8]]));
    assert_eq!(decode_welcome(&no_tree), None);
    let mut blank_tree = encode_welcome(&welcome);
    blank_tree.pop();
    blank_tree.push(1);
    blank_tree.extend(mls_engine::bytes::encode_list(&vec![vec![0u8], vec![0u8], vec![0u8]]));
    assert!(decode_welcome(&blank_tree).is_some());
}

#[test]
fn a_group_parses_the_bytes_of_its_messages() {
    let (signing_key, public_key) =
        RustCrypto::default().signature_key_gen(SignatureScheme::ED25519).expect("keys");
    let alice = KeyPackageBundle::generate(b"Alice", &public_key, &signing_key).expect("bundle");
    let (bob_signing, bob_public) =
        RustCrypto::default().signature_key_gen(SignatureScheme::ED25519).expect("keys");
    let bob = KeyPackageBundle::generate(b"Bob", &bob_public, &bob_signing).expect("bundle");
    let config =
        GroupConfig { max_past_epochs: 1, max_forward_distance: 10, allow_empty_commit: false };
    let mut group = GroupState::create(b"g", alice, config).expect("create");
    let add = QueuedProposal { sender: 0, proposal: Proposal::Add(bob.key_package.clone()) };
    let bundle = group.commit(vec![add], true, &signing_key, b"").expect("commit");
    let raw = encode_message(&WireMessage::Handshake(bundle.message.clone()));
    let unverified = group.parse(&raw).expect("parse");
    assert_eq!(unverified, UnverifiedMessage::Handshake(bundle.message.clone()));
    match group.stage(unverified, None).expect("stage") {
        StagedMessage::StagedCommit(staged) => group.merge(staged).expect("merge"),
        _ => unreachable!("expected a staged commit"),
    }
    let sent = encode_welcome(&bundle.welcomes[0].clone().with_tree(group.export_ratchet_tree()));
    let received = decode_welcome(&sent).expect("welcome");
    let mut bob_group = GroupState::join(received, None, bob, config).expect("join");
    let frame = group.encrypt_application_message(b"over the wire", b"").expect("seal");
    let raw = encode_message(&WireMessage::Application(frame));
    let unverified = bob_group.parse(&raw).expect("parse");
    match bob_group.stage(unverified, None).expect("stage") {
        StagedMessage::ApplicationMessage(payload) => {
            assert_eq!(payload, b"over the wire".to_vec())
        }
        _ => unreachable!("expected an application message"),
    }
    let malformed = Some(EngineError::Validation(ValidationReason::MalformedMessage));
    assert_eq!(bob_group.parse(&raw[..raw.len() - 1]).err(), malformed);
    assert_eq!(bob_group.parse(&[]).err(), malformed);
    // the commit of the epoch that has passed
    let old = encode_message(&WireMessage::Handshake(bundle.message));
    assert_eq!(bob_group.parse(&old).err(), Some(EngineError::WrongEpoch));
}
