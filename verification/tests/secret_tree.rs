use mls_engine::errors::EngineError;
use mls_engine::message_secrets::MessageSecretsStore;
use mls_engine::secret_tree::{SecretKind, SecretTree};

fn hex(s: &str) -> Vec<u8> {
    (0..s.len() / 2).map(|i| u8::from_str_radix(&s[2 * i..2 * i + 2], 16).expect("hex")).collect()
}

#[test]
fn message_keys_known_answer() {
    let mut tree = SecretTree::new(&[1u8; 32], 2, 10);
    assert_eq!(tree.leaf_count(), 2);
    let (key, nonce) = tree.derive_message_key(0, 0, SecretKind::Application).expect("key");
    assert_eq!(key, hex("e28ebe5056752ca7a746f5a100d17660"));
    assert_eq!(nonce, hex("352c48d3083d72e18a0dd2e6"));
    let (key, _) = tree.derive_message_key(0, 1, SecretKind::Application).expect("key");
    assert_eq!(key, hex("eb9b720758acbde768a90f838bd12a3c"));
    let (key, _) = tree.derive_message_key(1, 3, SecretKind::Application).expect("key");
    assert_eq!(key, hex("b6be6b528c269dac033f880c5633c10e"));
    let (_, nonce) = tree.derive_message_key(1, 0, SecretKind::Handshake).expect("key");
    assert_eq!(nonce, hex("96189941090fba71e58a98e7"));
}

#[test]
fn single_leaf_tree() {
    let mut tree = SecretTree::new(&[1u8; 32], 1, 0);
    assert_eq!(tree.leaf_count(), 1);
    let (key, nonce) = tree.derive_message_key(0, 0, SecretKind::Application).expect("key");
    assert_eq!(key, hex("d73452384677f3c0dcb2fba054157093"));
    assert_eq!(nonce.len(), 12);
}

#[test]
fn a_key_is_handed_out_once() {
    let mut tree = SecretTree::new(&[1u8; 32], 4, 10);
    assert!(tree.derive_message_key(2, 0, SecretKind::Application).is_ok());
    assert_eq!(
        tree.derive_message_key(2, 0, SecretKind::Application),
        Err(EngineError::SecretReuse)
    );
    // the other kind and the other leaves are untouched
    assert!(tree.derive_message_key(2, 0, SecretKind::Handshake).is_ok());
    assert!(tree.derive_message_key(3, 0, SecretKind::Application).is_ok());
}

#[test]
fn a_generation_that_was_passed_over_is_gone() {
    let mut tree = SecretTree::new(&[1u8; 32], 4, 10);
    assert!(tree.derive_message_key(1, 5, SecretKind::Application).is_ok());
    for generation in 0..=5 {
        assert_eq!(
            tree.derive_message_key(1, generation, SecretKind::Application),
            Err(EngineError::SecretReuse)
        );
    }
    assert!(tree.derive_message_key(1, 6, SecretKind::Application).is_ok());
    assert_eq!(tree.next_generation(1, SecretKind::Application), Some(7));
    assert_eq!(tree.next_generation(1, SecretKind::Handshake), Some(0));
    assert_eq!(tree.next_generation(4, SecretKind::Handshake), None);
}

#[test]
fn forward_window() {
    let mut tree = SecretTree::new(&[1u8; 32], 2, 3);
    assert_eq!(
        tree.derive_message_key(0, 4, SecretKind::Application),
        Err(EngineError::TooDistantInTheFuture)
    );
    assert!(tree.derive_message_key(0, 3, SecretKind::Application).is_ok());
    assert_eq!(
        tree.derive_message_key(0, 8, SecretKind::Application),
        Err(EngineError::TooDistantInTheFuture)
    );
    assert!(tree.derive_message_key(0, 7, SecretKind::Application).is_ok());
}

#[test]
fn leaf_outside_the_tree() {
    let mut tree = SecretTree::new(&[1u8; 32], 2, 3);
    assert_eq!(
        tree.derive_message_key(2, 0, SecretKind::Application),
        Err(EngineError::UnknownLeaf)
    );
    assert_eq!(tree.peek_message_key(2, 0, SecretKind::Application), Err(EngineError::UnknownLeaf));
}

#[test]
fn peeking_does_not_move_the_ratchet() {
    let mut tree = SecretTree::new(&[1u8; 32], 2, 3);
    let peeked = tree.peek_message_key(1, 2, SecretKind::Application).expect("peek");
    let again = tree.peek_message_key(1, 2, SecretKind::Application).expect("peek");
    assert_eq!(peeked, again);
    let derived = tree.derive_message_key(1, 2, SecretKind::Application).expect("derive");
    assert_eq!(peeked, derived);
    assert_eq!(tree.peek_message_key(1, 2, SecretKind::Application), Err(EngineError::SecretReuse));
}

#[test]
fn ratchets_derive_the_same_keys_in_two_trees() {
    let mut sender = SecretTree::new(&[3u8; 32], 8, 100);
    let mut receiver = SecretTree::new(&[3u8; 32], 8, 100);
    for generation in [0u32, 1, 2, 7, 30] {
        let a = sender.derive_message_key(5, generation, SecretKind::Application).expect("key");
        let b = receiver.derive_message_key(5, generation, SecretKind::Application).expect("key");
        assert_eq!(a, b);
        assert_eq!(a.0.len(), 16);
        assert_eq!(a.1.len(), 12);
    }
}

#[test]
fn store_keeps_the_window() {
    let tree = |epoch: u8| SecretTree::new(&[epoch; 32], 2, 10);
    let mut store = MessageSecretsStore::new(2, 5, tree(5));
    assert_eq!(store.current_epoch(), 5);
    assert_eq!(store.oldest_epoch(), 5);
    store.push(tree(6));
    store.push(tree(7));
    assert_eq!(store.current_epoch(), 7);
    assert_eq!(store.oldest_epoch(), 5);
    store.push(tree(8));
    assert_eq!(store.current_epoch(), 8);
    assert_eq!(store.oldest_epoch(), 6);
    assert!(!store.is_retained(5));
    assert!(store.is_retained(6));
    assert!(store.is_retained(8));
    assert!(!store.is_retained(9));
    assert_eq!(
        store.derive_message_key(5, 0, 0, SecretKind::Application),
        Err(EngineError::TooDistantInThePast)
    );
    assert_eq!(
        store.derive_message_key(4, 0, 0, SecretKind::Application),
        Err(EngineError::TooDistantInThePast)
    );
    assert_eq!(
        store.derive_message_key(9, 0, 0, SecretKind::Application),
        Err(EngineError::WrongEpoch)
    );
    let old = store.derive_message_key(6, 1, 0, SecretKind::Application).expect("retained");
    let mut same = tree(6);
    assert_eq!(old, same.derive_message_key(1, 0, SecretKind::Application).expect("key"));
    assert_eq!(
        store.derive_message_key(6, 1, 0, SecretKind::Application),
        Err(EngineError::SecretReuse)
    );
    assert_eq!(store.next_generation(0, SecretKind::Application), Some(0));
}

#[test]
fn store_without_past_epochs() {
    let tree = |epoch: u8| SecretTree::new(&[epoch; 32], 1, 10);
    let mut store = MessageSecretsStore::new(0, 0, tree(0));
    store.push(tree(1));
    assert_eq!(store.oldest_epoch(), 1);
    assert_eq!(store.current_epoch(), 1);
    assert_eq!(
        store.peek_message_key(0, 0, 0, SecretKind::Application),
        Err(EngineError::TooDistantInThePast)
    );
    assert!(store.peek_message_key(1, 0, 0, SecretKind::Application).is_ok());
}
