use mls_engine::errors::{EngineError, ValidationReason};
use mls_engine::key_package::KeyPackage;
use mls_engine::key_schedule::derive_secret;
use mls_engine::ratchet_tree::{derive_path, Node, RatchetTree};

fn hex(s: &str) -> Vec<u8> {
    (0..s.len() / 2).map(|i| u8::from_str_radix(&s[2 * i..2 * i + 2], 16).expect("hex")).collect()
}

fn package(name: &str) -> KeyPackage {
    KeyPackage {
        identity: name.as_bytes().to_vec(),
        signature_key: vec![1; 32],
        init_key: vec![name.len() as u8; 32],
        signature: vec![],
    }
}

fn tree_of(names: &[&str]) -> RatchetTree {
    let mut tree = RatchetTree::new(package(names[0])).expect("tree");
    for name in &names[1..] {
        tree.add_leaf(package(name)).expect("add");
    }
    tree
}

#[test]
fn a_new_tree_holds_its_founder() {
    let tree = RatchetTree::new(package("a")).expect("tree");
    assert_eq!(tree.leaf_count(), 1);
    assert!(tree.is_member(0));
    assert!(!tree.is_member(1));
    assert_eq!(tree.member(0), Some(&package("a")));
    assert_eq!(tree.into_nodes(), vec![Node::Leaf(package("a"))]);
}

#[test]
fn a_key_package_with_a_short_key_is_refused() {
    let mut bad = package("a");
    bad.init_key = vec![0; 31];
    assert_eq!(
        RatchetTree::new(bad.clone()),
        Err(EngineError::Validation(ValidationReason::InvalidKeyPackage))
    );
    let mut tree = tree_of(&["a"]);
    assert_eq!(
        tree.add_leaf(bad.clone()),
        Err(EngineError::Validation(ValidationReason::InvalidKeyPackage))
    );
    assert_eq!(
        tree.set_leaf(0, bad),
        Err(EngineError::Validation(ValidationReason::InvalidKeyPackage))
    );
    assert_eq!(tree, tree_of(&["a"]));
}

#[test]
fn adding_extends_a_full_tree_by_one_level() {
    let mut tree = tree_of(&["a"]);
    assert_eq!(tree.add_leaf(package("bb")), Ok(1));
    assert_eq!(tree.leaf_count(), 2);
    assert_eq!(
        tree.clone().into_nodes(),
        vec![Node::Leaf(package("a")), Node::Blank, Node::Leaf(package("bb"))]
    );
    assert_eq!(tree.add_leaf(package("ccc")), Ok(2));
    assert_eq!(tree.leaf_count(), 4);
    assert_eq!(
        tree.clone().into_nodes(),
        vec![
            Node::Leaf(package("a")),
            Node::Blank,
            Node::Leaf(package("bb")),
            Node::Blank,
            Node::Leaf(package("ccc")),
            Node::Blank,
            Node::Blank,
        ]
    );
    assert_eq!(tree.add_leaf(package("dddd")), Ok(3));
    assert_eq!(tree.leaf_count(), 4);
    assert_eq!(tree.add_leaf(package("eeeee")), Ok(4));
    assert_eq!(tree.leaf_count(), 8);
}

#[test]
fn adding_fills_the_leftmost_blank_leaf() {
    let mut tree = tree_of(&["a", "bb", "ccc", "dddd"]);
    tree.blank(2).expect("blank");
    tree.blank(1).expect("blank");
    assert_eq!(tree.first_blank_leaf(), Some(1));
    assert_eq!(tree.add_leaf(package("x")), Ok(1));
    assert_eq!(tree.add_leaf(package("y")), Ok(2));
    assert_eq!(tree.first_blank_leaf(), None);
    assert_eq!(tree.leaf_count(), 4);
    assert_eq!(tree.member(1), Some(&package("x")));
    assert_eq!(tree.member(2), Some(&package("y")));
}

#[test]
fn blanking_clears_ancestors_without_members() {
    let mut tree = tree_of(&["a", "bb", "ccc", "dddd"]);
    let keys = vec![vec![7u8; 32], vec![8u8; 32]];
    let secret = [5u8; 32];
    // a path for leaf 3 that claims no knowledge of the secrets below the
    // top: only the length is checked for the places below `at`
    assert!(tree.apply_path_update(3, &keys, 3, &secret).is_err());
    let path = derive_path(&secret, 2);
    tree.apply_path_update(3, &path.public_keys, 0, &secret).expect("path");
    let left = derive_path(&[6u8; 32], 2);
    tree.apply_path_update(0, &left.public_keys, 0, &[6u8; 32]).expect("path");
    let nodes = tree.clone().into_nodes();
    assert_eq!(nodes[1], Node::Parent(left.public_keys[0].clone()));
    assert_eq!(nodes[3], Node::Parent(left.public_keys[1].clone()));
    assert_eq!(nodes[5], Node::Parent(path.public_keys[0].clone()));

    tree.blank(2).expect("blank");
    let nodes = tree.clone().into_nodes();
    assert_eq!(nodes[4], Node::Blank);
    // leaf 3 is still below node 5 and the root
    assert_eq!(nodes[5], Node::Parent(path.public_keys[0].clone()));
    assert_eq!(nodes[3], Node::Parent(left.public_keys[1].clone()));

    tree.blank(3).expect("blank");
    let nodes = tree.clone().into_nodes();
    assert_eq!(nodes[6], Node::Blank);
    assert_eq!(nodes[5], Node::Blank);
    // leaves 0 and 1 are still below the root
    assert_eq!(nodes[3], Node::Parent(left.public_keys[1].clone()));
    assert_eq!(nodes[1], Node::Parent(left.public_keys[0].clone()));

    tree.blank(0).expect("blank");
    tree.blank(1).expect("blank");
    assert_eq!(tree.into_nodes(), vec![Node::Blank; 7]);
}

#[test]
fn blanking_outside_the_tree_is_refused() {
    let mut tree = tree_of(&["a", "bb"]);
    assert_eq!(tree.blank(2), Err(EngineError::UnknownLeaf));
    assert_eq!(tree.set_leaf(2, package("x")), Err(EngineError::UnknownLeaf));
    assert_eq!(tree.direct_path(2), Err(EngineError::UnknownLeaf));
    assert_eq!(tree, tree_of(&["a", "bb"]));
}

#[test]
fn direct_path_of_a_leaf() {
    let tree = tree_of(&["a", "bb", "ccc"]);
    assert_eq!(tree.direct_path(0), Ok(vec![1, 3]));
    assert_eq!(tree.direct_path(2), Ok(vec![5, 3]));
    assert_eq!(tree.direct_path(3), Ok(vec![5, 3]));
    assert_eq!(tree_of(&["a"]).direct_path(0), Ok(vec![]));
}

#[test]
fn path_secrets_form_a_chain() {
    let path = derive_path(&[7u8; 32], 2);
    assert_eq!(path.secrets.len(), 3);
    assert_eq!(path.secrets[0], vec![7u8; 32]);
    assert_eq!(
        path.secrets[1],
        hex("57294199d94bd55c01d3b4b117d6fcc6633ee38fb53242ee94780c76ca993801")
    );
    assert_eq!(
        path.secrets[2],
        hex("313223a8438a412683b14d493ee531b5a53c336618d0fca69e1016607f05f135")
    );
    assert_eq!(path.public_keys.len(), 2);
    assert_eq!(path.leaf_public_key.len(), 32);
    assert_eq!(path.leaf_private_key.len(), 32);
    assert_ne!(path.leaf_public_key, path.leaf_private_key);
    assert_ne!(path.public_keys[0], path.public_keys[1]);
    // the keys of a place depend on its secret alone
    let upper = derive_path(&path.secrets[1], 1);
    assert_eq!(upper.leaf_public_key, path.public_keys[0]);
    assert_eq!(upper.public_keys[0], path.public_keys[1]);
}

#[test]
fn path_update_returns_the_secret_above_the_root() {
    let mut tree = tree_of(&["a", "bb", "ccc", "dddd"]);
    let secret = [7u8; 32];
    let path = derive_path(&secret, 2);
    let root = tree.apply_path_update(1, &path.public_keys, 0, &secret).expect("path");
    assert_eq!(
        root,
        hex("489e2c5250e9fb4ab0e3713176cfa4f2244e07f1a607b8e5833eba4687212f8a")
    );
    assert_eq!(root, derive_secret(&path.secrets[2], "path"));
    // a member that learns the secret of a higher place gets the same secret
    let mut other = tree_of(&["a", "bb", "ccc", "dddd"]);
    let from_parent = other.apply_path_update(1, &path.public_keys, 1, &path.secrets[1]);
    assert_eq!(from_parent, Ok(root.clone()));
    assert_eq!(other, tree);
    let mut third = tree_of(&["a", "bb", "ccc", "dddd"]);
    let from_root = third.apply_path_update(1, &path.public_keys, 2, &path.secrets[2]);
    assert_eq!(from_root, Ok(root));
    assert_eq!(third, tree);
}

#[test]
fn path_update_of_a_single_leaf() {
    let mut tree = tree_of(&["a"]);
    let root = tree.apply_path_update(0, &vec![], 0, &[7u8; 32]).expect("path");
    assert_eq!(root, hex("57294199d94bd55c01d3b4b117d6fcc6633ee38fb53242ee94780c76ca993801"));
    assert_eq!(tree, tree_of(&["a"]));
}

#[test]
fn invalid_paths_are_refused() {
    let fresh = tree_of(&["a", "bb", "ccc", "dddd"]);
    let secret = [7u8; 32];
    let path = derive_path(&secret, 2);

    let mut tree = fresh.clone();
    // wrong length
    assert_eq!(
        tree.apply_path_update(1, &path.public_keys[..1].to_vec(), 0, &secret),
        Err(EngineError::InvalidPath)
    );
    let mut long = path.public_keys.clone();
    long.push(vec![0; 32]);
    assert_eq!(tree.apply_path_update(1, &long, 0, &secret), Err(EngineError::InvalidPath));
    // leaf outside the tree
    assert_eq!(
        tree.apply_path_update(4, &path.public_keys, 0, &secret),
        Err(EngineError::InvalidPath)
    );
    // secret placed above the root
    assert_eq!(
        tree.apply_path_update(1, &path.public_keys, 3, &secret),
        Err(EngineError::InvalidPath)
    );
    // short secret
    assert_eq!(
        tree.apply_path_update(1, &path.public_keys, 0, &[7u8; 31]),
        Err(EngineError::InvalidPath)
    );
    // a public key that does not follow from the secret
    let mut forged = path.public_keys.clone();
    forged[1][0] ^= 1;
    assert_eq!(tree.apply_path_update(1, &forged, 0, &secret), Err(EngineError::InvalidPath));
    assert_eq!(
        tree.apply_path_update(1, &forged, 2, &path.secrets[2]),
        Err(EngineError::InvalidPath)
    );
    // the secret of another place
    assert_eq!(
        tree.apply_path_update(1, &path.public_keys, 1, &secret),
        Err(EngineError::InvalidPath)
    );
    assert_eq!(tree, fresh);
    // a forged key below the place of the secret is not detected by this member
    let mut forged_low = path.public_keys.clone();
    forged_low[0][0] ^= 1;
    assert!(tree.apply_path_update(1, &forged_low, 2, &path.secrets[2]).is_ok());
}

#[test]
fn tree_hash_changes_with_the_tree() {
    let tree = tree_of(&["a", "bb"]);
    let same = tree_of(&["a", "bb"]);
    assert_eq!(tree.tree_hash(), same.tree_hash());
    assert_eq!(tree.tree_hash().len(), 32);
    assert_ne!(tree.tree_hash(), tree_of(&["a", "bc"]).tree_hash());
    assert_ne!(tree.tree_hash(), tree_of(&["a"]).tree_hash());
    let mut blanked = tree.clone();
    blanked.blank(1).expect("blank");
    assert_ne!(tree.tree_hash(), blanked.tree_hash());
    assert_eq!(tree.duplicate().tree_hash(), tree.tree_hash());
}

#[test]
fn looking_up_members() {
    let tree = tree_of(&["a", "bb", "ccc"]);
    assert_eq!(tree.find_identity(b"bb"), Some(1));
    assert_eq!(tree.find_identity(b"ccc"), Some(2));
    assert_eq!(tree.find_identity(b"zz"), None);
    assert_eq!(tree.find_package(&package("ccc")), Some(2));
    let mut other = package("ccc");
    other.signature = vec![1];
    assert_eq!(tree.find_package(&other), None);
    assert!(tree.range_is_blank(3, 4));
    assert!(!tree.range_is_blank(2, 4));
    assert!(tree.range_is_blank(2, 2));
}

#[test]
fn trees_from_nodes() {
    let nodes = tree_of(&["a", "bb", "ccc"]).into_nodes();
    let tree = RatchetTree::from_nodes(nodes.clone()).expect("a tree");
    assert_eq!(tree, tree_of(&["a", "bb", "ccc"]));
    assert_eq!(RatchetTree::from_nodes(vec![]), None);
    assert_eq!(RatchetTree::from_nodes(nodes[..6].to_vec()), None);
    assert_eq!(RatchetTree::from_nodes(nodes[..5].to_vec()), None);
    assert!(RatchetTree::from_nodes(nodes[..3].to_vec()).is_some());
    let mut leaf_at_odd = nodes.clone();
    leaf_at_odd[1] = Node::Leaf(package("x"));
    assert_eq!(RatchetTree::from_nodes(leaf_at_odd), None);
    let mut parent_at_even = nodes.clone();
    parent_at_even[0] = Node::Parent(vec![1; 32]);
    assert_eq!(RatchetTree::from_nodes(parent_at_even), None);
    let mut short_key = nodes;
    short_key[0] = Node::Leaf(KeyPackage {
        identity: vec![],
        signature_key: vec![],
        init_key: vec![1; 5],
        signature: vec![],
    });
    assert_eq!(RatchetTree::from_nodes(short_key), None);
}
