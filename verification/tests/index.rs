use opendr::index::{BTree, BTreeNode};

#[test]
fn keys_of_one_leaf_are_found() {
    let mut tree = BTree::new(3);
    for key in [5, 1, 3] {
        tree.insert(key, key as usize * 10);
    }
    assert_eq!(tree.search(1), Some(&10));
    assert_eq!(tree.search(3), Some(&30));
    assert_eq!(tree.search(5), Some(&50));
    assert_eq!(tree.search(4), None);
    let root: &BTreeNode = tree.root.as_ref().unwrap();
    assert_eq!(root.keys, vec![1, 3, 5]);
    assert!(root.leaf);
}

#[test]
fn a_full_root_is_split() {
    let mut tree = BTree::new(2);
    for key in [1, 2, 3, 4] {
        tree.insert(key, key as usize * 10);
    }
    let root: &BTreeNode = tree.root.as_ref().unwrap();
    assert!(!root.leaf);
    assert_eq!(root.children.len(), 2);
    assert_eq!(tree.search(1), Some(&10));
}

#[test]
fn keys_of_a_narrow_tree_are_found() {
    let mut tree = BTree::new(1);
    for key in [5, 1, 9, 3, 7, 3] {
        let value = key as usize * 10 + tree.search(key).map_or(0, |_| 1);
        tree.insert(key, value);
    }
    for key in [1, 3, 5, 7, 9] {
        assert_eq!(tree.search(key), Some(&(key as usize * 10)));
    }
    assert_eq!(tree.search(4), None);
    assert!(!tree.root.as_ref().unwrap().leaf);
}

#[test]
fn keys_go_down_to_a_leaf_with_room() {
    let leaf = |keys: Vec<u64>| {
        let values = keys.iter().map(|key| *key as usize).collect();
        Some(Box::new(BTreeNode { keys, values, children: vec![], leaf: true }))
    };
    let root = BTreeNode {
        keys: vec![10],
        values: vec![10],
        children: vec![leaf(vec![5]), leaf(vec![15])],
        leaf: false,
    };
    let mut tree = BTree { root: Some(Box::new(root)), t: 2 };
    tree.insert(12, 1200);
    tree.insert(4, 400);
    tree.insert(10, 1000);
    for (key, value) in [(12, 1200), (4, 400), (10, 10), (5, 5), (15, 15)] {
        assert_eq!(tree.search(key), Some(&value));
    }
}
