use parachain_service::hashing::{blake2_256, Hash32};
use parachain_service::head_commitment::{
    changed_leaves, leaf_hash, merkle_root, node_hash, pair_up, HeadTracker, MerkleTree,
};
use parachain_service::types::ParaId;
use tiny_keccak::Hasher;

fn leaf(para_id: u32, head_hash: Hash32) -> Hash32 {
    leaf_hash(ParaId(para_id), head_hash)
}

fn node(left: Hash32, right: Hash32) -> Hash32 {
    node_hash(left, right)
}

#[test]
fn element_encoded_sizes_work() {
    // The commitment pins both widths; they are what makes the 4-octet `para_id` and the
    // covered discriminant verifiable by an external checker.
    assert_eq!(MerkleTree::Leaf { para_id: ParaId(7), head_hash: [1; 32] }.encode().len(), 37);
    assert_eq!(MerkleTree::Node([1; 32], [2; 32]).encode().len(), 65);
}

#[test]
fn leaf_node_images_are_disjoint_works() {
    // Covering the discriminant is what stops a leaf hash ever equalling a node
    // hash, so a proof cannot reinterpret one as the other.
    let a = leaf(1, [1; 32]);
    let b = leaf(2, [2; 32]);
    for l in [a, b] {
        for r in [a, b] {
            assert_ne!(node(l, r), a);
            assert_ne!(node(l, r), b);
        }
    }
}

#[test]
fn root_shape_works() {
    let l = leaf(1, [9; 32]);
    assert_eq!(merkle_root(vec![]), None);
    // A single leaf is its own root, not hashed again.
    assert_eq!(merkle_root(vec![l]), Some(l));
    assert_eq!(merkle_root(vec![l, l]), Some(node(l, l)));
}

#[test]
fn odd_level_promotes_works() {
    // A trailing odd element is promoted unchanged, not duplicated.
    let (a, b, c) = ([1; 32], [2; 32], [3; 32]);
    assert_eq!(pair_up(&[a, b, c]), vec![node(a, b), c]);
    assert_eq!(merkle_root(vec![a, b, c]), Some(node(node(a, b), c)));
}

#[test]
fn four_leaves_balance_works() {
    let (a, b, c, d) = ([1; 32], [2; 32], [3; 32], [4; 32]);
    assert_eq!(merkle_root(vec![a, b, c, d]), Some(node(node(a, b), node(c, d))));
}

#[test]
fn unchanged_head_contributes_no_leaf_works() {
    let h: Hash32 = [5; 32];
    assert!(changed_leaves(vec![(ParaId(1), Some(h), Some((h, [6; 32])))]).is_empty());
}

#[test]
fn newly_registered_para_contributes_leaf_works() {
    let h: Hash32 = [5; 32];
    assert_eq!(changed_leaves(vec![(ParaId(1), None, Some(([4; 32], h)))]), vec![leaf(1, h)]);
}

#[test]
fn removed_para_contributes_no_leaf_works() {
    // `parachain_clean_up` leaves the para with no ending head value.
    assert!(changed_leaves(vec![(ParaId(1), Some([5; 32]), None)]).is_empty());
}

#[test]
fn leaves_order_by_para_id_works() {
    // Ordering must not depend on the order the heads were touched.
    let (h1, h4, h7): (Hash32, Hash32, Hash32) = ([1; 32], [4; 32], [7; 32]);
    assert_eq!(
        changed_leaves(vec![
            (ParaId(7), None, Some(([3; 32], h7))),
            (ParaId(1), None, Some(([2; 32], h1))),
            (ParaId(4), None, Some(([3; 32], h4))),
        ]),
        vec![leaf(1, h1), leaf(4, h4), leaf(7, h7)]
    );
}

#[test]
fn single_changed_head_root_is_its_leaf_works() {
    let h: Hash32 = [9; 32];
    let leaves = changed_leaves(vec![
        (ParaId(2), Some([1; 32]), Some(([8; 32], h))),
        (ParaId(3), Some([2; 32]), Some(([2; 32], [8; 32]))),
    ]);
    assert_eq!(merkle_root(leaves), Some(leaf(2, h)));
}

/// The tracker keeps the first snapshot: a head written twice in a block yields one leaf
/// carrying the value the block ended with, and a head put back to its pre-block value
/// yields none.
#[test]
fn tracker_commits_end_of_block_heads_works() {
    let mut heads = HeadTracker::new();
    heads.touch(ParaId(5), Some(&[1, 2, 3][..]));
    heads.touch(ParaId(5), Some(&[9, 9][..]));
    heads.touch(ParaId(2), Some(&[4][..]));
    assert_eq!(heads.touched(), vec![ParaId(5), ParaId(2)]);
    // Para 5 ends on a new head, para 2 on its old one.
    let current = vec![Some(vec![7u8, 7]), Some(vec![4u8])];
    let root = heads.commitment(&current);
    let end_head = vec![7u8, 7];
    let expected =
        MerkleTree::Leaf { para_id: ParaId(5), head_hash: keccak(&end_head) }.hash();
    assert_eq!(root, Some(expected));
    assert_ne!(blake2_256(&end_head), blake2_256(&[1, 2, 3]));
}

/// A tracker with nothing changed commits to nothing.
#[test]
fn tracker_without_changes_commits_nothing_works() {
    let mut heads = HeadTracker::new();
    heads.touch(ParaId(1), Some(&[1][..]));
    assert_eq!(heads.commitment(&vec![Some(vec![1u8])]), None);
    assert_eq!(HeadTracker::new().commitment(&vec![]), None);
}

fn keccak(data: &[u8]) -> Hash32 {
    let mut keccak = tiny_keccak::Keccak::v256();
    keccak.update(data);
    let mut out = [0u8; 32];
    keccak.finalize(&mut out);
    out
}
