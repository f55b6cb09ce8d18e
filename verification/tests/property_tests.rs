use bst::BST;

/// Checks that the balance factor of every node lies in `[-1, 1]`.
fn assert_balanced_everywhere(t: &BST) {
    let bf = t.balance_factor();
    assert!(-1 <= bf && bf <= 1, "balance factor {} out of range", bf);
    if let Some(l) = t.left() {
        assert_balanced_everywhere(l);
    }
    if let Some(r) = t.right() {
        assert_balanced_everywhere(r);
    }
}

/// Collects the values of the tree in symmetric (left, root, right) order.
fn collect_inorder(t: &BST, out: &mut Vec<u64>) {
    if let Some(l) = t.left() {
        collect_inorder(l, out);
    }
    if let Some(v) = t.root_value() {
        out.push(*v);
    }
    if let Some(r) = t.right() {
        collect_inorder(r, out);
    }
}

/// Checks the binary-search ordering at every node: the in-order traversal
/// must be strictly increasing.
fn assert_ordered_everywhere(t: &BST) {
    let mut values = Vec::new();
    collect_inorder(t, &mut values);
    for pair in values.windows(2) {
        assert!(pair[0] < pair[1], "values {} and {} out of order", pair[0], pair[1]);
    }
}

#[test]
fn order_holds_after_inserts() {
    let mut tree = BST::new();
    for v in [41, 7, 99, 23, 5, 64, 12, 88, 1, 50] {
        tree.insert(v);
    }
    assert_ordered_everywhere(&tree);
}

#[test]
fn balance_holds_after_inserts_and_removes() {
    let mut tree = BST::new();
    for v in 1..=32u64 {
        tree.insert(v);
        assert_balanced_everywhere(&tree);
    }
    for v in [16, 1, 32, 8, 24, 2, 31] {
        tree.remove(v);
        assert_balanced_everywhere(&tree);
        assert_ordered_everywhere(&tree);
    }
}

#[test]
fn count_matches_distinct_inserts() {
    let mut tree = BST::new();
    for v in [9, 4, 13, 1, 6, 11, 20] {
        tree.insert(v);
    }
    assert_eq!(tree.count_nodes(), 7);
    // A duplicate leaves the count unchanged.
    tree.insert(13);
    assert_eq!(tree.count_nodes(), 7);
}

#[test]
fn removal_clears_value_and_count() {
    let mut tree = BST::new();
    for v in [9, 4, 13, 1, 6, 11, 20] {
        tree.insert(v);
    }
    assert!(tree.contains(6));
    tree.remove(6);
    assert!(!tree.contains(6));
    assert_eq!(tree.count_nodes(), 6);
}

#[test]
fn removal_of_absent_value_is_noop() {
    let mut tree = BST::new();
    for v in [9, 4, 13] {
        tree.insert(v);
    }
    let before = tree.clone();
    tree.remove(77);
    assert_eq!(tree, before);
}

#[test]
fn remove_root_promotes_predecessor() {
    let mut tree = BST::new();
    for v in [5, 3, 8, 2, 4, 7, 9] {
        tree.insert(v);
    }
    tree.remove(5);
    // The deleted position absorbs the maximum of the left subtree.
    assert_eq!(tree.root_value(), Some(&4));
    assert!(!tree.contains(5));
    assert_eq!(tree.count_nodes(), 6);
    assert_ordered_everywhere(&tree);
    assert_balanced_everywhere(&tree);
}

#[test]
fn insert_is_idempotent() {
    let mut once = BST::new();
    for v in [12, 6, 19, 3, 9] {
        once.insert(v);
    }
    once.insert(9);
    let mut twice = once.clone();
    twice.insert(9);
    assert_eq!(once, twice);
}

#[test]
fn clone_is_independent() {
    let mut tree = BST::new();
    for v in [12, 6, 19] {
        tree.insert(v);
    }
    let snapshot = tree.clone();
    let mut copy = tree.clone();
    assert_eq!(copy, tree);
    copy.insert(1);
    copy.remove(19);
    copy.clear();
    assert_eq!(tree, snapshot);
    assert!(copy.is_empty());
}

#[test]
fn rotations_invert_each_other() {
    // A tree whose right subtree is a node: rotate left, then right.
    let mut tree = BST::new();
    for v in [10, 5, 20, 15, 25] {
        tree.insert_unbalanced(v);
    }
    let original = tree.clone();
    tree.rotate_left();
    tree.rotate_right();
    assert_eq!(tree, original);

    // A tree whose left subtree is a node: rotate right, then left.
    let mut tree2 = BST::new();
    for v in [10, 5, 20, 2, 7] {
        tree2.insert_unbalanced(v);
    }
    let original2 = tree2.clone();
    tree2.rotate_right();
    tree2.rotate_left();
    assert_eq!(tree2, original2);
}

#[test]
fn scenario_balanced_insertion_sequence() {
    let mut tree = BST::new();
    for v in [5, 8, 3, 2, 6, 9, 10, 9] {
        tree.insert(v);
    }
    assert_eq!(tree.count_nodes(), 7);
    assert_balanced_everywhere(&tree);

    // The same sequence inserted without rebalancing reaches depth 4.
    let mut unbalanced = BST::new();
    for v in [5, 8, 3, 2, 6, 9, 10, 9] {
        unbalanced.insert_unbalanced(v);
    }
    assert_eq!(unbalanced.depth(), 4);
}

#[test]
fn scenario_single_right_rotation() {
    let mut tree = BST::new();
    tree.insert(5);
    tree.insert(3);
    tree.insert(2);
    assert_eq!(tree.root_value(), Some(&3));
    assert_eq!(tree.left().unwrap().root_value(), Some(&2));
    assert_eq!(tree.right().unwrap().root_value(), Some(&5));
}

#[test]
fn scenario_left_right_double_rotation() {
    let mut tree = BST::new();
    tree.insert(2);
    tree.insert(5);
    tree.insert(3);
    assert_eq!(tree.root_value(), Some(&3));
    assert_eq!(tree.left().unwrap().root_value(), Some(&2));
    assert_eq!(tree.right().unwrap().root_value(), Some(&5));
}

#[test]
fn scenario_removals_keep_balance() {
    let mut tree = BST::new();
    for v in [10, 5, 15, 2, 7, 12, 18, 1] {
        tree.insert(v);
    }
    assert_eq!(tree.count_nodes(), 8);

    let mut expected = 8;
    for v in [18, 12, 15] {
        tree.remove(v);
        expected -= 1;
        assert_eq!(tree.count_nodes(), expected);
        assert_balanced_everywhere(&tree);
    }
    assert!(!tree.contains(18));
    assert!(!tree.contains(12));
    assert!(!tree.contains(15));
}

#[test]
fn empty_tree_queries() {
    let mut tree = BST::new();
    assert!(tree.is_empty());
    assert_eq!(tree.count_nodes(), 0);
    assert_eq!(tree.depth(), 0);
    assert_eq!(tree.balance_factor(), 0);
    assert!(tree.root_value().is_none());
    assert!(tree.left_end().is_none());
    assert!(tree.right_end().is_none());
    assert!(tree.find(1).is_none());
    tree.remove(1);
    assert!(tree.is_empty());
    tree.insert(1);
    assert!(!tree.is_empty());
    tree.clear();
    assert!(tree.is_empty());
}

#[test]
fn render_dumps_right_value_left() {
    let mut tree = BST::new();
    tree.insert(2);
    tree.insert(1);
    tree.insert(3);
    assert_eq!(tree.render(), "\n---3\n2\n---1\n");

    let mut single = BST::new();
    single.insert(305);
    assert_eq!(single.render(), "\n305\n");

    let empty = BST::new();
    assert_eq!(empty.render(), "\n");
}

#[test]
fn render_writes_full_decimal_values() {
    let mut tree = BST::new();
    tree.insert(1234567890123456789);
    tree.insert(0);
    let dump = tree.render();
    assert!(dump.contains("1234567890123456789"));
    assert!(dump.contains("0"));
}
