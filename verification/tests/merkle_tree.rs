use soroban_sdk::Env;
use zkstash::error::ZkStashError;
use zkstash::merkle::{get_zero_value, hash_left_right, MerkleTree, MAX_LEAVES, TREE_DEPTH};

fn hex32(s: &str) -> [u8; 32] {
    let mut out = [0u8; 32];
    for i in 0..32 {
        out[i] = u8::from_str_radix(&s[2 * i..2 * i + 2], 16).unwrap();
    }
    out
}

#[test]
fn zero_values_are_iterated_digests() {
    let env = Env::default();
    assert_eq!(get_zero_value(&env, 0), [0u8; 32]);
    assert_eq!(
        get_zero_value(&env, 1),
        hex32("f5a5fd42d16a20302798ef6ed309979b43003d2320d9f0e8ea9831a92759fb4b")
    );
    assert_eq!(
        get_zero_value(&env, 2),
        hex32("db56114e00fdd4c1f85c892bf35ac9a89289aaecb1ebd0a96cde606a748b5d71")
    );
    assert_eq!(
        get_zero_value(&env, TREE_DEPTH),
        hex32("cddba7b592e3133393c16194fac7431abf2f5485ed711db282183c819e08ebaa")
    );
}

#[test]
fn hash_left_right_is_sha256_of_concatenation() {
    let env = Env::default();
    assert_eq!(
        hash_left_right(&env, &[7u8; 32], &[8u8; 32]),
        hex32("af0a68e2d2692b58ecda95051d5e7fe5dd3bc9f3d3f0b5260166565c694919f4")
    );
    assert_ne!(
        hash_left_right(&env, &[7u8; 32], &[8u8; 32]),
        hash_left_right(&env, &[8u8; 32], &[7u8; 32])
    );
}

#[test]
fn empty_tree_root_is_zero_value_of_depth() {
    let env = Env::default();
    let mut tree = MerkleTree::new();
    assert_eq!(tree.get_next_index(), 0);
    assert_eq!(tree.get_current_root(&env), get_zero_value(&env, TREE_DEPTH));
    tree.init(&env);
    assert_eq!(tree.get_next_index(), 0);
    assert_eq!(tree.get_current_root(&env), get_zero_value(&env, TREE_DEPTH));
    // A second init leaves the tree as it is.
    tree.init(&env);
    assert_eq!(tree.get_current_root(&env), get_zero_value(&env, TREE_DEPTH));
}

#[test]
fn insert_returns_root_over_all_leaves() {
    let env = Env::default();
    let mut tree = MerkleTree::new();
    let r1 = tree.insert(&env, [1u8; 32]).unwrap();
    assert_eq!(r1, hex32("32fda0577aed68c184536c80f66155ad02a055795c58a9dfead941807cd56041"));
    assert_eq!(tree.get_current_root(&env), r1);
    assert_eq!(tree.get_next_index(), 1);
    let r2 = tree.insert(&env, [3u8; 32]).unwrap();
    assert_eq!(r2, hex32("4bc7ce77afd39d3c1a21a1d69c1bb03c3d841046d3bed77bc2220dfe3b77701d"));
    let r3 = tree.insert(&env, [5u8; 32]).unwrap();
    assert_eq!(r3, hex32("9d5c9c1545ea75df68861af9fde779ae4eaab7c0079865ee43076ff84c12004d"));
    assert_eq!(tree.get_next_index(), 3);
    assert_eq!(tree.get_current_root(&env), r3);
}

#[test]
fn init_stores_zero_values_and_keeps_a_set_up_tree() {
    let env = Env::default();
    let mut tree = MerkleTree::new();
    assert!(!tree.is_initialized());
    assert!(tree.filled_subtrees().is_empty());
    tree.init(&env);
    assert!(tree.is_initialized());
    let zeros: Vec<[u8; 32]> = (0..TREE_DEPTH).map(|i| get_zero_value(&env, i)).collect();
    assert_eq!(tree.filled_subtrees(), &zeros);
    assert_eq!(tree.stored_root(), get_zero_value(&env, TREE_DEPTH));
    tree.insert(&env, [1u8; 32]).unwrap();
    let filled = tree.filled_subtrees().clone();
    let root = tree.stored_root();
    tree.init(&env);
    assert_eq!(tree.filled_subtrees(), &filled);
    assert_eq!(tree.stored_root(), root);
    assert_eq!(tree.get_next_index(), 1);
}

#[test]
fn insert_keeps_latest_left_child_of_each_height() {
    let env = Env::default();
    let mut tree = MerkleTree::new();
    let leaf = [9u8; 32];
    tree.insert(&env, leaf).unwrap();
    // One leaf: the kept node of height i is the path node above it.
    let mut path = leaf;
    for level in 0..TREE_DEPTH {
        assert_eq!(tree.filled_subtrees()[level as usize], path);
        path = hash_left_right(&env, &path, &get_zero_value(&env, level));
    }
    // A second leaf is a right child: height 0 keeps the first leaf, height 1
    // keeps the node over both.
    let second = [4u8; 32];
    tree.insert(&env, second).unwrap();
    assert_eq!(tree.filled_subtrees().len(), 20);
    assert_eq!(tree.filled_subtrees()[0], leaf);
    let pair = hash_left_right(&env, &leaf, &second);
    assert_eq!(tree.filled_subtrees()[1], pair);
    assert_eq!(
        tree.filled_subtrees()[2],
        hash_left_right(&env, &pair, &get_zero_value(&env, 1))
    );
}

#[test]
fn first_leaf_root_is_path_of_zero_siblings() {
    let env = Env::default();
    let mut tree = MerkleTree::new();
    let leaf = [9u8; 32];
    let root = tree.insert(&env, leaf).unwrap();
    let mut expected = leaf;
    for level in 0..TREE_DEPTH {
        expected = hash_left_right(&env, &expected, &get_zero_value(&env, level));
    }
    assert_eq!(root, expected);
}

#[test]
fn capacity_is_two_to_the_depth() {
    assert_eq!(MAX_LEAVES, 1u32 << TREE_DEPTH);
    assert_eq!(ZkStashError::MerkleTreeFull.message(), "Merkle Tree is full");
}
