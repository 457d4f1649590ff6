use std::collections::HashSet;
use v2fs::cache_node::{
    CacheLeafNode, CacheNonLeafNode, SVCacheLeafNode, SVCacheNode, SVCacheNonLeafNode,
    VCacheLeafNode, VCacheNonLeafNode,
};
use v2fs::client::reusable_sub_root;
use v2fs::vbf::VersionBloomFilter;
use v2fs::digest::Digestible;
use v2fs::hash::{leaf_hash, merge_hash};
use v2fs::node::NodeId;
use v2fs::page::PageId;
use v2fs::simple_vcache::SVCache;

fn page(fill: u8) -> Box<[u8; 4096]> {
    Box::new([fill; 4096])
}

fn leaf_digest(p: u32, fill: u8) -> v2fs::digest::Digest {
    leaf_hash(&PageId(p), &[fill; 4096].as_slice().to_digest())
}

fn has(cache: &mut SVCache, h: u32, w: u32) -> bool {
    cache.get_node(&NodeId::new(h, w)).is_some()
}

#[test]
fn cache_nodes() {
    let mut leaf = SVCacheLeafNode::new(PageId(3), page(1), 7);
    assert_eq!(leaf.get_id(), NodeId::new(0, 3));
    assert_eq!(leaf.get_version(), 7);
    assert_eq!(leaf.get_bytes(), page(1));
    assert!(leaf.is_valid());
    assert_eq!(leaf.to_digest(), leaf_digest(3, 1));
    leaf.unconfirm();
    assert!(!leaf.is_valid());
    leaf.validate_with_version(9);
    assert!(leaf.is_valid());
    assert_eq!(leaf.get_version(), 9);
    leaf.unconfirm();
    leaf.validate();
    assert!(leaf.is_valid());
    assert_eq!(leaf.get_version(), 9);

    let h = "h".to_digest();
    let mut node = SVCacheNonLeafNode::new(NodeId::new(1, 0), h);
    assert!(node.is_valid());
    assert_eq!(node.to_digest(), h);
    assert_eq!(node.get_id(), NodeId::new(1, 0));
    node.unconfirm();
    assert!(!node.is_valid());
    node.validate();
    assert!(node.is_valid());

    let mut any = SVCacheNode::Leaf(leaf.duplicate());
    assert_eq!(any.get_id(), NodeId::new(0, 3));
    any.unconfirm();
    assert!(!any.is_valid());
    any.validate_with_version(4);
    assert!(any.is_valid());
    assert_eq!(any.to_digest(), leaf_digest(3, 1));
    assert!(matches!(any.duplicate(), SVCacheNode::Leaf(l) if l.get_version() == 4));
}

#[test]
fn siblings_make_a_parent() {
    let mut cache = SVCache::new(16);
    cache.insert(PageId(0), page(0), 1);
    assert!(!has(&mut cache, 1, 0));
    assert!(!cache.has_sib(NodeId::new(0, 0)));
    cache.insert(PageId(1), page(1), 1);
    assert!(cache.has_sib(NodeId::new(0, 0)));
    let parent = cache.find_parent(NodeId::new(0, 1)).unwrap().to_digest();
    assert_eq!(parent, merge_hash(&leaf_digest(0, 0), &leaf_digest(1, 1)));
    cache.insert(PageId(2), page(2), 1);
    cache.insert(PageId(3), page(3), 1);
    let p01 = merge_hash(&leaf_digest(0, 0), &leaf_digest(1, 1));
    let p23 = merge_hash(&leaf_digest(2, 2), &leaf_digest(3, 3));
    assert_eq!(
        cache.get_node(&NodeId::new(2, 0)).unwrap().to_digest(),
        merge_hash(&p01, &p23)
    );
    assert_eq!(cache.cache_size_and_height(), (4 * 4100 + 3 * 40, 2));
    assert!(cache.find_sib(NodeId::new(1, 0)).is_some());
    assert!(cache.find_sib(NodeId::new(2, 0)).is_none());
}

#[test]
fn an_entry_that_leaves_takes_the_nodes_above_it() {
    // room for the two leaves and their parent
    let mut cache = SVCache::new(3);
    cache.insert(PageId(0), page(0), 1);
    cache.insert(PageId(1), page(1), 1);
    assert!(cache.get_node(&NodeId::new(1, 0)).is_some());
    // the leaf of page 0 was used least recently: it leaves, and its parent with it
    cache.get_node(&NodeId::new(0, 1));
    cache.get_node(&NodeId::new(1, 0));
    cache.insert(PageId(5), page(5), 1);
    assert!(!has(&mut cache, 0, 0));
    assert!(!has(&mut cache, 1, 0));
    assert!(has(&mut cache, 0, 1));
    assert!(has(&mut cache, 0, 5));
}

#[test]
fn a_page_that_is_put_again_drops_the_nodes_above_it() {
    let mut cache = SVCache::new(16);
    for p in 0..4u32 {
        cache.insert(PageId(p), page(p as u8), 1);
    }
    assert!(has(&mut cache, 2, 0));
    cache.unconfirm();
    cache.push_node(
        NodeId::new(0, 2),
        SVCacheNode::Leaf(SVCacheLeafNode::new(PageId(2), page(9), 2)),
    );
    assert!(!has(&mut cache, 1, 1));
    assert!(!has(&mut cache, 2, 0));
    assert!(has(&mut cache, 1, 0));
    assert!(matches!(
        cache.get_node(&NodeId::new(0, 2)),
        Some(SVCacheNode::Leaf(l)) if l.get_version() == 2 && l.is_valid()
    ));
}

#[test]
fn a_cache_for_no_entry_stays_empty() {
    let mut cache = SVCache::new(0);
    cache.insert(PageId(0), page(0), 1);
    assert!(!has(&mut cache, 0, 0));
    assert_eq!(cache.cache_size_and_height(), (0, 0));
}

#[test]
fn confirmation_covers_the_nodes_under_the_sub_root() {
    let mut cache = SVCache::new(32);
    for p in 0..8u32 {
        cache.insert(PageId(p), page(p as u8), 1);
    }
    cache.unconfirm();
    for p in 0..8u32 {
        assert!(!cache.get_node(&NodeId::new(0, p)).unwrap().is_valid());
        assert!(cache.find_sib(NodeId::new(0, p)).is_none());
    }
    cache.confirm(NodeId::new(2, 1));
    for p in 0..8u32 {
        assert_eq!(
            cache.get_node(&NodeId::new(0, p)).unwrap().is_valid(),
            p >= 4
        );
    }
    assert!(cache.get_node(&NodeId::new(1, 2)).unwrap().is_valid());
    assert!(cache.get_node(&NodeId::new(2, 1)).unwrap().is_valid());
    assert!(!cache.get_node(&NodeId::new(2, 0)).unwrap().is_valid());
    assert!(!cache.get_node(&NodeId::new(3, 0)).unwrap().is_valid());

    cache.confirm_with_version(NodeId::new(1, 0), 9);
    assert!(matches!(
        cache.get_node(&NodeId::new(0, 1)),
        Some(SVCacheNode::Leaf(l)) if l.is_valid() && l.get_version() == 9
    ));
    assert!(matches!(
        cache.get_node(&NodeId::new(0, 4)),
        Some(SVCacheNode::Leaf(l)) if l.is_valid() && l.get_version() == 1
    ));
    cache.clear();
    assert!(!has(&mut cache, 0, 0));
    assert_eq!(cache.cache_size_and_height(), (0, 0));
}

#[test]
fn nodes_of_the_other_caches() {
    let mut leaf = CacheLeafNode::new(PageId(2), page(2));
    assert_eq!(leaf.get_id(), NodeId::new(0, 2));
    assert_eq!(leaf.get_bytes(), page(2));
    assert_eq!(leaf.to_digest(), leaf_digest(2, 2));
    assert!(leaf.is_valid());
    leaf.unconfirm();
    assert!(!leaf.is_valid());
    leaf.validate();
    assert!(leaf.is_valid());

    let h = "h".to_digest();
    let mut node = CacheNonLeafNode::new(NodeId::new(2, 1), h);
    assert_eq!((node.get_id(), node.to_digest()), (NodeId::new(2, 1), h));
    node.unconfirm();
    assert!(!node.is_valid());
    node.validate();
    assert!(node.is_valid());

    let slots: HashSet<usize> = [1, 5].into_iter().collect();
    let mut leaf = VCacheLeafNode::new(PageId(2), page(2), 3, slots.clone());
    assert_eq!((leaf.get_id(), leaf.get_version()), (NodeId::new(0, 2), 3));
    assert_eq!(leaf.get_set(), &slots);
    assert_eq!(leaf.get_bytes(), page(2));
    assert_eq!(leaf.to_digest(), leaf_digest(2, 2));
    leaf.unconfirm();
    assert!(!leaf.is_valid());
    leaf.validate();
    assert!(leaf.is_valid() && leaf.get_version() == 3);
    leaf.unconfirm();
    leaf.validate_with_version(8);
    assert!(leaf.is_valid() && leaf.get_version() == 8);

    let mut node = VCacheNonLeafNode::new(NodeId::new(1, 1), h, 4, slots.clone());
    assert_eq!((node.get_id(), node.get_version(), node.to_digest()), (NodeId::new(1, 1), 4, h));
    assert_eq!(node.get_set(), &slots);
    node.unconfirm();
    assert!(!node.is_valid());
    node.validate();
    assert!(node.is_valid() && node.get_version() == 4);
    node.validate_with_version(6);
    assert!(node.is_valid() && node.get_version() == 6);
}

#[test]
fn the_highest_node_without_a_later_write_can_be_used() {
    let mut vbf = VersionBloomFilter::new(1000, 2);
    let s5 = vbf.get_bf_pos(PageId(5));
    let s4 = vbf.get_bf_pos(PageId(4));
    let s6 = vbf.get_bf_pos(PageId(6));
    let both: HashSet<usize> = s5.union(&s4).cloned().collect();
    let four: HashSet<usize> = both.union(&s6).cloned().collect();
    let path = vec![(3, s5.clone()), (3, both.clone()), (3, four.clone())];
    assert_eq!(reusable_sub_root(&vbf, PageId(5), &path), Some(NodeId::new(2, 1)));
    // page 6 was written after version 3: the subtree of four pages cannot be used
    vbf.insert(PageId(6), 4);
    if s6.is_disjoint(&both) {
        assert_eq!(reusable_sub_root(&vbf, PageId(5), &path), Some(NodeId::new(1, 2)));
    }
    vbf.insert(PageId(5), 5);
    assert_eq!(reusable_sub_root(&vbf, PageId(5), &path), None);
    let later = vec![(5, s5), (3, both), (9, four)];
    assert_eq!(reusable_sub_root(&vbf, PageId(5), &later), Some(NodeId::new(0, 5)));
    assert_eq!(reusable_sub_root(&vbf, PageId(5), &vec![]), None);
}
