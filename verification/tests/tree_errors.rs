use v2fs::digest::Digestible;
use v2fs::hash::leaf_hash;
use v2fs::mem_tree::MemTree;
use v2fs::merkle_proof::{get_idx_path_rev, Proof, ProofError, ProofNonLeaf, SubProof};
use v2fs::node::{MerkleNode, MerkleNodeLoader, NodeId};
use v2fs::page::PageId;
use v2fs::read::{get_path_rev, inner_query, query_from_beginning, ReadContext, ReadError};
use v2fs::write::{parent_hash, UpdateError, WriteContext};

fn tree_of(n: u32) -> MemTree {
    let mut tree = MemTree::new();
    let mut ctx = WriteContext::new(&tree, None);
    for i in 0..n {
        ctx.update(format!("page{}", i).as_str().to_digest(), PageId(i))
            .unwrap();
    }
    let changes = ctx.changes();
    tree.apply(changes);
    tree
}

#[test]
fn a_tree_without_root_cannot_be_read() {
    let tree = MemTree::new();
    assert!(matches!(
        ReadContext::new(&tree, None),
        Err(ReadError::EmptyTree)
    ));
    assert!(matches!(
        query_from_beginning(&tree, None, PageId(0)),
        Err(ReadError::EmptyTree)
    ));
}

#[test]
fn a_page_beyond_the_tree_has_no_leaf() {
    let tree = tree_of(3);
    let mut ctx = ReadContext::new(&tree, tree.root_id).unwrap();
    assert!(matches!(ctx.query(PageId(3)), Err(ReadError::MissingLeaf)));
    ctx.query(PageId(0)).unwrap();
    assert!(matches!(ctx.query(PageId(7)), Err(ReadError::MissingLeaf)));
    let p = ctx.into_proof();
    assert_eq!(
        p.root_hash().unwrap(),
        tree_node(&tree, 2, 0)
    );
}

fn tree_node(tree: &MemTree, h: u32, w: u32) -> v2fs::digest::Digest {
    tree.load_node(&NodeId::new(h, w)).unwrap().unwrap().get_hash()
}

#[test]
fn proof_errors() {
    let empty = Proof::default();
    assert_eq!(empty.root_hash(), Err(ProofError::EmptyProof));
    let target = "x".to_digest();
    assert_eq!(
        empty.verify_val(target, PageId(0), 0),
        Err(ProofError::EmptyProof)
    );

    // a node whose right side is absent
    let node = ProofNonLeaf {
        l_child: Some(Box::new(SubProof::from_hash(target))),
        r_child: None,
    };
    let proof = Proof::from_subproof(SubProof::from_non_leaf(node));
    assert_eq!(proof.verify_val(target, PageId(0), 1), Ok(()));
    assert_eq!(
        proof.verify_val(target, PageId(1), 1),
        Err(ProofError::MissingBranch)
    );
    assert_eq!(
        proof.verify_val(target, PageId(0), 0),
        Err(ProofError::PathTooShort)
    );
    assert_eq!(
        proof.verify_val("y".to_digest(), PageId(0), 1),
        Err(ProofError::HashMismatch)
    );
}

#[test]
fn paths_to_a_page() {
    assert_eq!(get_idx_path_rev(PageId(5), 4), vec![1, 0, 1, 0]);
    assert_eq!(get_idx_path_rev(PageId(5), 0), Vec::<usize>::new());
    assert_eq!(
        get_path_rev(PageId(5), 3),
        vec![
            (1, NodeId::new(0, 5)),
            (0, NodeId::new(1, 2)),
            (1, NodeId::new(2, 1))
        ]
    );
}

#[test]
fn inner_query_gives_the_leaf_and_the_path_above_it() {
    let tree = tree_of(4);
    let (v, p) = inner_query(&tree, NodeId::new(2, 0), PageId(2)).unwrap();
    assert_eq!(v, leaf_hash(&PageId(2), &"page2".to_digest()));
    assert_eq!(p.digest(), tree_node(&tree, 2, 0));
    let (v, p) = inner_query(&tree, NodeId::new(0, 2), PageId(2)).unwrap();
    assert_eq!(p.digest(), v);
    assert!(matches!(
        inner_query(&tree, NodeId::new(2, 0), PageId(9)),
        Err(ReadError::MissingLeaf)
    ));
}

#[test]
fn an_update_that_needs_a_missing_root_fails() {
    let tree = MemTree::new();
    let mut ctx = WriteContext::new(&tree, Some(NodeId::new(0, 0)));
    assert!(matches!(
        ctx.update("x".to_digest(), PageId(1)),
        Err(UpdateError::MissingRoot)
    ));
    assert_eq!(ctx.get_height(), 0);
    assert_eq!(ctx.changes().get_root_id(), Some(NodeId::new(0, 0)));
}

#[test]
fn the_same_update_twice_changes_nothing() {
    let mut tree = tree_of(5);
    let root = tree_node(&tree, 3, 0);
    let mut ctx = WriteContext::new(&tree, tree.root_id);
    ctx.update("page3".to_digest(), PageId(3)).unwrap();
    let changes = ctx.changes();
    tree.apply(changes);
    assert_eq!(tree_node(&tree, 3, 0), root);
    assert_eq!(tree.len(), 11);
}

#[test]
fn the_parent_hash_puts_the_even_child_left() {
    let a = "a".to_digest();
    let b = MerkleNode::new("b".to_digest());
    assert_eq!(
        parent_hash(&NodeId::new(0, 2), a, Some(b)),
        v2fs::hash::nonleaf_hash(Some(a), Some(b.get_hash()))
    );
    assert_eq!(
        parent_hash(&NodeId::new(0, 3), a, Some(b)),
        v2fs::hash::nonleaf_hash(Some(b.get_hash()), Some(a))
    );
    assert_eq!(
        parent_hash(&NodeId::new(0, 3), a, None),
        v2fs::hash::nonleaf_hash(None, Some(a))
    );
}

#[test]
fn write_then_read_gives_the_new_root() {
    for n in 1..20u32 {
        let tree = tree_of(n);
        let root_id = tree.root_id.unwrap();
        assert_eq!(root_id, NodeId::new(PageId(n - 1).find_height(), 0));
        let mut ctx = ReadContext::new(&tree, tree.root_id).unwrap();
        let mut values = vec![];
        for p in (0..n).rev() {
            values.push((p, ctx.query(PageId(p)).unwrap()));
        }
        let proof = ctx.into_proof();
        assert_eq!(
            proof.root_hash().unwrap(),
            tree_node(&tree, root_id.get_height(), 0)
        );
        for (p, v) in values {
            assert_eq!(v, leaf_hash(&PageId(p), &format!("page{}", p).as_str().to_digest()));
            assert_eq!(proof.verify_val(v, PageId(p), root_id.get_height()), Ok(()));
        }
    }
}

#[test]
fn every_node_has_the_hash_of_its_children() {
    for n in 1..40u32 {
        let tree = tree_of(n);
        let root = tree.root_id.unwrap();
        let mut nodes = 0;
        for h in 0..=root.get_height() {
            for w in 0..n {
                let id = NodeId::new(h, w);
                let node = match tree.load_node(&id).unwrap() {
                    Some(node) => node,
                    None => continue,
                };
                nodes += 1;
                if h > 0 {
                    let (l, r) = id.get_children().unwrap();
                    let l = tree.load_node(&l).unwrap().map(|x| x.get_hash());
                    let r = tree.load_node(&r).unwrap().map(|x| x.get_hash());
                    assert!(l.is_some());
                    assert_eq!(node.get_hash(), v2fs::hash::nonleaf_hash(l, r));
                } else {
                    assert_eq!(
                        node.get_hash(),
                        leaf_hash(&PageId(w), &format!("page{}", w).as_str().to_digest())
                    );
                }
            }
        }
        assert_eq!(nodes, tree.len());
    }
}

#[test]
fn an_update_leaves_the_other_nodes_alone() {
    let mut tree = tree_of(8);
    let before: Vec<_> = (0..8u32).map(|w| tree_node(&tree, 0, w)).collect();
    let side = tree_node(&tree, 2, 1);
    let mut ctx = WriteContext::new(&tree, tree.root_id);
    ctx.update("new".to_digest(), PageId(2)).unwrap();
    let changes = ctx.changes();
    assert_eq!(changes.nodes.len(), 4);
    tree.apply(changes);
    for w in 0..8u32 {
        if w != 2 {
            assert_eq!(tree_node(&tree, 0, w), before[w as usize]);
        }
    }
    assert_eq!(tree_node(&tree, 2, 1), side);
    assert_eq!(tree_node(&tree, 0, 2), leaf_hash(&PageId(2), &"new".to_digest()));
}
