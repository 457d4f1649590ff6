use v2fs::digest::{Digest, Digestible};
use v2fs::hash::{leaf_hash, nonleaf_hash};
use v2fs::mem_tree::MemTree;
use v2fs::node::{MerkleNodeLoader, NodeId};
use v2fs::page::PageId;
use v2fs::read::ReadContext;
use v2fs::write::{find_height, WriteContext};

fn old_name(i: u32) -> String {
    format!("old_page{}", i)
}

fn build_tree() -> MemTree {
    let mut merkle_tree = MemTree::new();
    let mut ctx = WriteContext::new(&merkle_tree, None);
    ctx.update("old_page0".to_digest(), PageId(0)).unwrap();
    ctx.update("old_page1".to_digest(), PageId(1)).unwrap();
    ctx.update("old_page2".to_digest(), PageId(2)).unwrap();
    ctx.update("old_page3".to_digest(), PageId(3)).unwrap();
    ctx.update("old_page4".to_digest(), PageId(4)).unwrap();
    ctx.update("old_page5".to_digest(), PageId(5)).unwrap();
    ctx.update("old_page6".to_digest(), PageId(6)).unwrap();
    ctx.update("old_page7".to_digest(), PageId(7)).unwrap();
    ctx.update("old_page8".to_digest(), PageId(8)).unwrap();

    let changes = ctx.changes();
    merkle_tree.apply(changes);
    merkle_tree
}

fn node_hash(tree: &MemTree, h: u32, w: u32) -> Digest {
    tree.load_node(&NodeId::new(h, w))
        .unwrap()
        .expect("Can't find the node")
        .get_hash()
}

fn expected_root(names: &[String]) -> Digest {
    let hash: Vec<Digest> = (0..9u32)
        .map(|i| leaf_hash(&PageId(i), &names[i as usize].as_str().to_digest()))
        .collect();
    let hash01 = nonleaf_hash(Some(hash[0]), Some(hash[1]));
    let hash23 = nonleaf_hash(Some(hash[2]), Some(hash[3]));
    let hash45 = nonleaf_hash(Some(hash[4]), Some(hash[5]));
    let hash67 = nonleaf_hash(Some(hash[6]), Some(hash[7]));
    let hash89 = nonleaf_hash(Some(hash[8]), None);
    let hash03 = nonleaf_hash(Some(hash01), Some(hash23));
    let hash47 = nonleaf_hash(Some(hash45), Some(hash67));
    let hash811 = nonleaf_hash(Some(hash89), None);
    let hash07 = nonleaf_hash(Some(hash03), Some(hash47));
    let hash815 = nonleaf_hash(Some(hash811), None);
    nonleaf_hash(Some(hash07), Some(hash815))
}

#[test]
fn test_read() {
    let mut merkle_tree = build_tree();
    let mut ctx = ReadContext::new(&merkle_tree, merkle_tree.root_id).unwrap();
    let tree_height = merkle_tree.get_height().expect("empty tree");
    let v0 = ctx.query(PageId(0)).unwrap();
    assert_eq!(leaf_hash(&PageId(0), &"old_page0".to_digest()), v0);
    let v1 = ctx.query(PageId(1)).unwrap();
    assert_eq!(leaf_hash(&PageId(1), &"old_page1".to_digest()), v1);
    let v2 = ctx.query(PageId(2)).unwrap();
    assert_eq!(leaf_hash(&PageId(2), &"old_page2".to_digest()), v2);
    let v3 = ctx.query(PageId(3)).unwrap();
    assert_eq!(leaf_hash(&PageId(3), &"old_page3".to_digest()), v3);
    let v4 = ctx.query(PageId(4)).unwrap();
    assert_eq!(leaf_hash(&PageId(4), &"old_page4".to_digest()), v4);
    let v5 = ctx.query(PageId(5)).unwrap();
    assert_eq!(leaf_hash(&PageId(5), &"old_page5".to_digest()), v5);
    let v6 = ctx.query(PageId(6)).unwrap();
    assert_eq!(leaf_hash(&PageId(6), &"old_page6".to_digest()), v6);
    let v7 = ctx.query(PageId(7)).unwrap();
    assert_eq!(leaf_hash(&PageId(7), &"old_page7".to_digest()), v7);
    let v8 = ctx.query(PageId(8)).unwrap();
    assert_eq!(leaf_hash(&PageId(8), &"old_page8".to_digest()), v8);

    let p = ctx.into_proof();

    // step1: check the computed root hash of query proof
    assert_eq!(
        merkle_tree
            .load_node(&merkle_tree.root_id.unwrap())
            .unwrap()
            .unwrap()
            .get_hash(),
        p.root_hash().unwrap()
    );
    // step2: check the value with returned result
    p.verify_val(v0, PageId(0), tree_height).unwrap();
    p.verify_val(v1, PageId(1), tree_height).unwrap();
    p.verify_val(v2, PageId(2), tree_height).unwrap();
    p.verify_val(v3, PageId(3), tree_height).unwrap();
    p.verify_val(v4, PageId(4), tree_height).unwrap();
    p.verify_val(v5, PageId(5), tree_height).unwrap();
    p.verify_val(v6, PageId(6), tree_height).unwrap();
    p.verify_val(v7, PageId(7), tree_height).unwrap();
    p.verify_val(v8, PageId(8), tree_height).unwrap();

    // update
    let mut ctx = WriteContext::new(&merkle_tree, merkle_tree.root_id);
    ctx.update("new_page1".to_digest(), PageId(1)).unwrap();
    ctx.update("new_page3".to_digest(), PageId(3)).unwrap();
    ctx.update("new_page5".to_digest(), PageId(5)).unwrap();
    ctx.update("new_page7".to_digest(), PageId(7)).unwrap();
    let changes = ctx.changes();
    merkle_tree.apply(changes);

    // read
    let mut ctx = ReadContext::new(&merkle_tree, merkle_tree.root_id).unwrap();
    let tree_height = merkle_tree.get_height().expect("empty tree");
    let v0 = ctx.query(PageId(0)).unwrap();
    assert_eq!(leaf_hash(&PageId(0), &"old_page0".to_digest()), v0);
    let v1 = ctx.query(PageId(1)).unwrap();
    assert_eq!(leaf_hash(&PageId(1), &"new_page1".to_digest()), v1);
    let v2 = ctx.query(PageId(2)).unwrap();
    assert_eq!(leaf_hash(&PageId(2), &"old_page2".to_digest()), v2);
    let v3 = ctx.query(PageId(3)).unwrap();
    assert_eq!(leaf_hash(&PageId(3), &"new_page3".to_digest()), v3);
    let v4 = ctx.query(PageId(4)).unwrap();
    assert_eq!(leaf_hash(&PageId(4), &"old_page4".to_digest()), v4);
    let v5 = ctx.query(PageId(5)).unwrap();
    assert_eq!(leaf_hash(&PageId(5), &"new_page5".to_digest()), v5);
    let v6 = ctx.query(PageId(6)).unwrap();
    assert_eq!(leaf_hash(&PageId(6), &"old_page6".to_digest()), v6);
    let v7 = ctx.query(PageId(7)).unwrap();
    assert_eq!(leaf_hash(&PageId(7), &"new_page7".to_digest()), v7);
    let v8 = ctx.query(PageId(8)).unwrap();
    assert_eq!(leaf_hash(&PageId(8), &"old_page8".to_digest()), v8);

    let p = ctx.into_proof();

    // step1: check the computed root hash of query proof
    assert_eq!(
        merkle_tree
            .load_node(&merkle_tree.root_id.unwrap())
            .unwrap()
            .unwrap()
            .get_hash(),
        p.root_hash().unwrap()
    );
    // step2: check the value with returned result
    p.verify_val(v0, PageId(0), tree_height).unwrap();
    p.verify_val(v1, PageId(1), tree_height).unwrap();
    p.verify_val(v2, PageId(2), tree_height).unwrap();
    p.verify_val(v3, PageId(3), tree_height).unwrap();
    p.verify_val(v4, PageId(4), tree_height).unwrap();
    p.verify_val(v5, PageId(5), tree_height).unwrap();
    p.verify_val(v6, PageId(6), tree_height).unwrap();
    p.verify_val(v7, PageId(7), tree_height).unwrap();
    p.verify_val(v8, PageId(8), tree_height).unwrap();
}

#[test]
fn test_sha256() {
    let a = [1u8, 2, 3, 4, 5];
    let input_slice = &a[1..3];
    let hash = input_slice.to_digest();
    println!("{:?}", hash);
    assert_eq!(1, 1);
}

#[test]
fn test_find_height() {
    assert_eq!(find_height(PageId(0)), 0);
    assert_eq!(find_height(PageId(1)), 1);
    assert_eq!(find_height(PageId(2)), 2);
    assert_eq!(find_height(PageId(3)), 2);
    assert_eq!(find_height(PageId(4)), 3);
    assert_eq!(find_height(PageId(5)), 3);
    assert_eq!(find_height(PageId(6)), 3);
    assert_eq!(find_height(PageId(7)), 3);
    assert_eq!(find_height(PageId(8)), 4);
    assert_eq!(find_height(PageId(15)), 4);
    assert_eq!(find_height(PageId(16)), 5);
    assert_eq!(find_height(PageId(31)), 5);
    assert_eq!(find_height(PageId(32)), 6);
}

#[test]
fn first_write_makes_a_single_leaf() {
    let tree = MemTree::new();
    let mut ctx = WriteContext::new(&tree, None);
    let d0 = "old_page0".to_digest();
    ctx.update(d0, PageId(0)).unwrap();
    let changes = ctx.changes();
    assert_eq!(changes.get_root_id(), Some(NodeId::new(0, 0)));
    let mut tree = MemTree::new();
    tree.apply(changes);
    assert_eq!(tree.len(), 1);
    assert_eq!(node_hash(&tree, 0, 0), leaf_hash(&PageId(0), &d0));
}

#[test]
fn nine_pages_grow_the_tree_to_height_four() {
    let tree = build_tree();
    assert_eq!(tree.root_id, Some(NodeId::new(4, 0)));
    assert_eq!(tree.len(), 20);
    let names: Vec<String> = (0..9u32).map(old_name).collect();
    assert_eq!(node_hash(&tree, 4, 0), expected_root(&names));
    let l8 = leaf_hash(&PageId(8), &"old_page8".to_digest());
    assert_eq!(node_hash(&tree, 0, 8), l8);
    assert_eq!(node_hash(&tree, 1, 4), nonleaf_hash(Some(l8), None));
}

#[test]
fn partial_update_changes_three_leaves() {
    let mut tree = build_tree();
    let root_id = tree.root_id;
    let mut ctx = WriteContext::new(&tree, root_id);
    ctx.update("new_page1".to_digest(), PageId(1)).unwrap();
    ctx.update("new_page3".to_digest(), PageId(3)).unwrap();
    ctx.update("new_page5".to_digest(), PageId(5)).unwrap();
    let changes = ctx.changes();
    let mut names: Vec<String> = (0..9u32).map(old_name).collect();
    names[1] = "new_page1".to_string();
    names[3] = "new_page3".to_string();
    names[5] = "new_page5".to_string();
    // the nodes above the three pages, and no other
    let mut written: Vec<NodeId> = changes.nodes.keys().map(|k| NodeId::from_key(*k)).collect();
    written.sort_by_key(|id| id.key());
    assert_eq!(
        written,
        vec![
            NodeId::new(0, 1),
            NodeId::new(0, 3),
            NodeId::new(0, 5),
            NodeId::new(1, 0),
            NodeId::new(1, 1),
            NodeId::new(1, 2),
            NodeId::new(2, 0),
            NodeId::new(2, 1),
            NodeId::new(3, 0),
            NodeId::new(4, 0),
        ]
    );
    assert!(written.iter().all(|id| tree.nodes.contains_key(&id.key())));
    for p in [1u32, 3, 5] {
        assert_eq!(
            changes.nodes[&NodeId::from_page_id(PageId(p)).key()].get_hash(),
            leaf_hash(&PageId(p), &names[p as usize].as_str().to_digest())
        );
    }
    assert_eq!(changes.nodes[&NodeId::new(4, 0).key()].get_hash(), expected_root(&names));
    tree.apply(changes);
    assert_eq!(tree.root_id, Some(NodeId::new(4, 0)));
    assert_eq!(tree.len(), 20);
    assert_eq!(node_hash(&tree, 4, 0), expected_root(&names));
}

#[test]
fn a_leaf_that_is_written_again_is_in_the_changes() {
    let tree = build_tree();
    let mut ctx = WriteContext::new(&tree, tree.root_id);
    ctx.update("old_page2".to_digest(), PageId(2)).unwrap();
    let changes = ctx.changes();
    assert_eq!(changes.nodes.len(), 5);
    assert_eq!(
        changes.nodes[&NodeId::new(0, 2).key()].get_hash(),
        leaf_hash(&PageId(2), &"old_page2".to_digest())
    );
    assert_eq!(changes.nodes[&NodeId::new(4, 0).key()].get_hash(), node_hash(&tree, 4, 0));
}

#[test]
fn tampered_page_is_detected() {
    let tree = build_tree();
    let mut ctx = ReadContext::new(&tree, tree.root_id).unwrap();
    for i in 0..9u32 {
        ctx.query(PageId(i)).unwrap();
    }
    let p = ctx.into_proof();
    assert_eq!(p.root_hash().unwrap(), node_hash(&tree, 4, 0));
    let mut bytes = "old_page4".as_bytes().to_vec();
    bytes[0] ^= 1;
    let tampered = leaf_hash(&PageId(4), &bytes.to_digest());
    assert_eq!(
        p.verify_val(tampered, PageId(4), 4),
        Err(v2fs::merkle_proof::ProofError::HashMismatch)
    );
    let good = leaf_hash(&PageId(4), &"old_page4".to_digest());
    assert_eq!(p.verify_val(good, PageId(4), 4), Ok(()));
}

#[test]
fn a_page_beyond_the_tree_does_not_verify() {
    let tree = build_tree();
    let mut ctx = ReadContext::new(&tree, tree.root_id).unwrap();
    for i in 0..9u32 {
        ctx.query(PageId(i)).unwrap();
    }
    let p = ctx.into_proof();
    for i in 9..16u32 {
        let claimed = leaf_hash(&PageId(i), &"old_page8".to_digest());
        assert_eq!(
            p.verify_val(claimed, PageId(i), 4),
            Err(v2fs::merkle_proof::ProofError::MissingBranch)
        );
    }
    // the leaf hash of another page is not taken for the page's own
    let other = leaf_hash(&PageId(3), &"old_page3".to_digest());
    assert_eq!(
        p.verify_val(other, PageId(4), 4),
        Err(v2fs::merkle_proof::ProofError::HashMismatch)
    );
}

fn every_node_has_the_hash_of_its_children(tree: &MemTree) -> bool {
    tree.nodes.iter().all(|(key, node)| {
        let id = NodeId::from_key(*key);
        if id.get_height() == 0 {
            return true;
        }
        let child = |w: u32| {
            tree.nodes
                .get(&NodeId::new(id.get_height() - 1, w).key())
                .map(|n| n.get_hash())
        };
        let w = id.get_width();
        node.get_hash() == nonleaf_hash(child(2 * w), child(2 * w + 1))
    })
}

#[test]
fn an_update_that_skips_pages_keeps_the_hashes() {
    let mut tree = build_tree();
    assert!(every_node_has_the_hash_of_its_children(&tree));
    let mut ctx = WriteContext::new(&tree, tree.root_id);
    ctx.update("far".to_digest(), PageId(40)).unwrap();
    ctx.update("farther".to_digest(), PageId(1000)).unwrap();
    ctx.update("near".to_digest(), PageId(3)).unwrap();
    let changes = ctx.changes();
    tree.apply(changes);
    assert_eq!(tree.root_id, Some(NodeId::new(10, 0)));
    assert!(every_node_has_the_hash_of_its_children(&tree));
}

#[test]
fn a_single_leaf_grows_over_its_right_neighbour_only() {
    // page 1 beside page 0: the new root is over its two children
    let mut tree = MemTree::new();
    let mut ctx = WriteContext::new(&tree, None);
    ctx.update("a".to_digest(), PageId(0)).unwrap();
    ctx.update("b".to_digest(), PageId(1)).unwrap();
    let changes = ctx.changes();
    tree.apply(changes);
    assert_eq!(tree.root_id, Some(NodeId::new(1, 0)));
    assert!(every_node_has_the_hash_of_its_children(&tree));

    // page 2 beside page 0 alone: the root is made of the old root and the
    // new leaf, which are not its children
    let mut tree = MemTree::new();
    let mut ctx = WriteContext::new(&tree, None);
    ctx.update("a".to_digest(), PageId(0)).unwrap();
    ctx.update("c".to_digest(), PageId(2)).unwrap();
    let changes = ctx.changes();
    tree.apply(changes);
    assert_eq!(tree.root_id, Some(NodeId::new(1, 1)));
    assert_eq!(
        node_hash(&tree, 1, 1),
        nonleaf_hash(
            Some(leaf_hash(&PageId(0), &"a".to_digest())),
            Some(leaf_hash(&PageId(2), &"c".to_digest()))
        )
    );
    assert!(!every_node_has_the_hash_of_its_children(&tree));
}
