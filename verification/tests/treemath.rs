use mls_engine::treemath::{common_level, direct_path, is_power_of_two, tree_depth, MAX_LEAVES};

#[test]
fn depth_of_small_trees() {
    assert_eq!(tree_depth(1), 0);
    assert_eq!(tree_depth(2), 1);
    assert_eq!(tree_depth(4), 2);
    assert_eq!(tree_depth(8), 3);
    assert_eq!(tree_depth(MAX_LEAVES), 30);
}

#[test]
fn powers_of_two() {
    assert!(is_power_of_two(1));
    assert!(is_power_of_two(2));
    assert!(is_power_of_two(1024));
    assert!(is_power_of_two(MAX_LEAVES));
    assert!(!is_power_of_two(0));
    assert!(!is_power_of_two(3));
    assert!(!is_power_of_two(6));
    assert!(!is_power_of_two(1023));
}

#[test]
fn direct_path_of_a_single_leaf_is_empty() {
    assert_eq!(direct_path(0, 1), Vec::<u32>::new());
}

#[test]
fn direct_paths_in_a_tree_of_four() {
    // nodes: 0 1 2 3 4 5 6, leaves at 0 2 4 6, root at 3
    assert_eq!(direct_path(0, 4), vec![1, 3]);
    assert_eq!(direct_path(1, 4), vec![1, 3]);
    assert_eq!(direct_path(2, 4), vec![5, 3]);
    assert_eq!(direct_path(3, 4), vec![5, 3]);
}

#[test]
fn direct_paths_in_a_tree_of_eight() {
    assert_eq!(direct_path(0, 8), vec![1, 3, 7]);
    assert_eq!(direct_path(3, 8), vec![5, 3, 7]);
    assert_eq!(direct_path(4, 8), vec![9, 11, 7]);
    assert_eq!(direct_path(7, 8), vec![13, 11, 7]);
}

#[test]
fn direct_path_ends_at_the_root_and_has_depth_nodes() {
    for leaves in [2u32, 4, 8, 16, 64] {
        for leaf in 0..leaves {
            let path = direct_path(leaf, leaves);
            assert_eq!(path.len() as u32, tree_depth(leaves));
            assert_eq!(*path.last().expect("a path"), leaves - 1);
            for node in &path {
                assert!(*node < 2 * leaves - 1);
                assert_eq!(*node % 2, 1);
            }
        }
    }
}

#[test]
fn common_levels() {
    assert_eq!(common_level(5, 5), 0);
    assert_eq!(common_level(0, 1), 1);
    assert_eq!(common_level(2, 3), 1);
    assert_eq!(common_level(0, 2), 2);
    assert_eq!(common_level(1, 3), 2);
    assert_eq!(common_level(0, 7), 3);
    assert_eq!(common_level(7, 0), 3);
    assert_eq!(common_level(0, u32::MAX), 32);
}
