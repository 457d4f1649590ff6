use std::collections::{HashMap, HashSet};
use v2fs::cache_node::VCacheNode;
use v2fs::client::{ClientError, PageStep};
use v2fs::client_bloom::{accept_confirm_bloom, accept_page_bloom, lookup_both_bloom, slots_fit};
use v2fs::digest::Digestible;
use v2fs::hash::{leaf_hash, merge_hash};
use v2fs::node::NodeId;
use v2fs::page::PageId;
use v2fs::vbf::VersionBloomFilter;
use v2fs::version_cache::{copy_slots, covers, join_slots, VCache};

fn page(fill: u8) -> Box<[u8; 4096]> {
    Box::new([fill; 4096])
}

fn leaf_digest(p: u32, fill: u8) -> v2fs::digest::Digest {
    leaf_hash(&PageId(p), &[fill; 4096].as_slice().to_digest())
}

fn slots(xs: &[usize]) -> HashSet<usize> {
    xs.iter().copied().collect()
}

#[test]
fn sets_of_slots_are_copied_and_joined() {
    let a = slots(&[1, 5, 9]);
    let b = slots(&[5, 6]);
    assert_eq!(copy_slots(&a), a);
    assert_eq!(copy_slots(&HashSet::new()), HashSet::new());
    assert_eq!(join_slots(&a, &b), slots(&[1, 5, 6, 9]));
    assert_eq!(join_slots(&a, &HashSet::new()), a);
}

#[test]
fn a_node_covers_what_lies_under_it() {
    let root = NodeId::new(2, 1);
    assert!(covers(root, root));
    assert!(covers(root, NodeId::new(1, 2)));
    assert!(covers(root, NodeId::new(1, 3)));
    assert!(covers(root, NodeId::new(0, 4)));
    assert!(covers(root, NodeId::new(0, 7)));
    assert!(!covers(root, NodeId::new(0, 3)));
    assert!(!covers(root, NodeId::new(0, 8)));
    assert!(!covers(root, NodeId::new(1, 1)));
    assert!(!covers(root, NodeId::new(3, 0)));
    assert!(covers(NodeId::new(32, 0), NodeId::new(0, u32::MAX)));
}

#[test]
fn a_parent_has_the_slots_of_both_pages() {
    let mut cache = VCache::new(16);
    cache.insert(PageId(0), page(1), 4, slots(&[2, 3]));
    assert!(cache.get_node(&NodeId::new(1, 0)).is_none());
    cache.insert(PageId(1), page(2), 9, slots(&[3, 8]));
    let leaf = cache.get_node(&NodeId::new(0, 1)).unwrap();
    assert_eq!(leaf.get_id(), NodeId::new(0, 1));
    assert_eq!(leaf.get_version(), 9);
    assert_eq!(leaf.get_set(), &slots(&[3, 8]));
    assert!(leaf.is_valid());
    assert_eq!(leaf.to_digest(), leaf_digest(1, 2));
    let parent = cache.get_node(&NodeId::new(1, 0)).unwrap();
    assert!(matches!(parent, VCacheNode::NonLeaf(_)));
    assert_eq!(parent.get_version(), 4);
    assert_eq!(parent.get_set(), &slots(&[2, 3, 8]));
    assert_eq!(
        parent.to_digest(),
        merge_hash(&leaf_digest(0, 1), &leaf_digest(1, 2))
    );
    let found = cache.find_parent(NodeId::new(0, 0)).unwrap();
    assert_eq!(found.get_id(), NodeId::new(1, 0));
    assert!(cache.has_sib(NodeId::new(0, 0)));
    assert!(!cache.has_sib(NodeId::new(1, 0)));
    let (size, height) = cache.cache_size_and_height();
    assert_eq!(height, 1);
    assert!(size > 2 * 4096);
}

#[test]
fn a_confirmation_sets_the_versions_under_the_node() {
    let mut cache = VCache::new(16);
    cache.insert(PageId(0), page(1), 4, slots(&[2]));
    cache.insert(PageId(1), page(2), 5, slots(&[3]));
    cache.insert(PageId(2), page(3), 6, slots(&[4]));
    cache.unconfirm();
    assert!(!cache.get_node(&NodeId::new(0, 0)).unwrap().is_valid());
    cache.confirm_with_version(NodeId::new(1, 0), 11);
    for id in [NodeId::new(0, 0), NodeId::new(0, 1), NodeId::new(1, 0)] {
        let n = cache.get_node(&id).unwrap();
        assert!(n.is_valid());
        assert_eq!(n.get_version(), 11);
    }
    let other = cache.get_node(&NodeId::new(0, 2)).unwrap();
    assert!(!other.is_valid());
    assert_eq!(other.get_version(), 6);
    assert_eq!(other.get_set(), &slots(&[4]));
    cache.confirm(NodeId::new(0, 2));
    let other = cache.get_node(&NodeId::new(0, 2)).unwrap();
    assert!(other.is_valid());
    assert_eq!(other.get_version(), 6);
    cache.clear();
    assert!(cache.get_node(&NodeId::new(0, 0)).is_none());
}

#[test]
fn a_page_that_left_the_cache_is_asked_for_again() {
    let mut cache = VCache::new(2);
    let vbf = VersionBloomFilter::new(64, 2);
    cache.insert(PageId(0), page(1), 1, slots(&[1]));
    cache.insert(PageId(2), page(2), 1, slots(&[2]));
    cache.insert(PageId(4), page(3), 1, slots(&[3]));
    assert!(cache.get_node(&NodeId::new(0, 0)).is_none());
    assert!(matches!(
        lookup_both_bloom(&mut cache, &vbf, PageId(0)),
        PageStep::Query
    ));
    assert!(matches!(
        lookup_both_bloom(&mut cache, &vbf, PageId(4)),
        PageStep::Use(b) if b == page(3)
    ));
}

#[test]
fn an_untouched_subtree_is_used_without_the_server() {
    let mut cache = VCache::new(16);
    let mut vbf = VersionBloomFilter::new(10_000, 3);
    let mut map = HashMap::new();
    accept_page_bloom(&mut cache, &vbf, &mut map, PageId(0), page(1), 1);
    accept_page_bloom(&mut cache, &vbf, &mut map, PageId(1), page(2), 1);
    assert_eq!(map[&0], [1u8; 4096].as_slice().to_digest());
    assert_eq!(
        cache.get_node(&NodeId::new(0, 0)).unwrap().get_set(),
        &vbf.get_bf_pos(PageId(0))
    );

    // nothing was written: the whole subtree is confirmed by the filter
    cache.unconfirm();
    assert!(matches!(
        lookup_both_bloom(&mut cache, &vbf, PageId(0)),
        PageStep::Use(b) if b == page(1)
    ));
    assert!(cache.get_node(&NodeId::new(1, 0)).unwrap().is_valid());
    assert!(cache.get_node(&NodeId::new(0, 1)).unwrap().is_valid());

    // page 1 was written after it was read: the server is asked
    vbf.insert(PageId(1), 7);
    cache.unconfirm();
    match lookup_both_bloom(&mut cache, &vbf, PageId(1)) {
        PageStep::Confirm(path, bytes) => {
            assert_eq!(bytes, page(2));
            assert_eq!(
                path,
                vec![
                    leaf_digest(1, 2),
                    merge_hash(&leaf_digest(0, 1), &leaf_digest(1, 2))
                ]
            );
        }
        _ => panic!("the server is to be asked"),
    }
    let shared = vbf
        .get_bf_pos(PageId(0))
        .intersection(&vbf.get_bf_pos(PageId(1)))
        .count();
    match lookup_both_bloom(&mut cache, &vbf, PageId(0)) {
        PageStep::Use(bytes) => {
            assert_eq!(shared, 0);
            assert_eq!(bytes, page(1));
            assert!(cache.get_node(&NodeId::new(0, 0)).unwrap().is_valid());
            assert!(!cache.get_node(&NodeId::new(1, 0)).unwrap().is_valid());
        }
        PageStep::Confirm(path, _) => {
            assert!(shared > 0);
            assert_eq!(path.len(), 2);
        }
        PageStep::Query => panic!("the page is in the cache"),
    }
}

#[test]
fn the_servers_word_confirms_at_the_version() {
    let mut cache = VCache::new(16);
    let vbf = VersionBloomFilter::new(64, 2);
    let mut map = HashMap::new();
    accept_page_bloom(&mut cache, &vbf, &mut map, PageId(0), page(1), 1);
    accept_page_bloom(&mut cache, &vbf, &mut map, PageId(1), page(2), 1);
    cache.unconfirm();
    map.clear();
    let taken = accept_confirm_bloom(
        &mut cache,
        &mut map,
        PageId(1),
        page(2),
        NodeId::new(1, 0),
        8,
    )
    .unwrap();
    assert_eq!(taken.get_bytes(), vec![2u8; 4096]);
    assert_eq!(map[&1], [2u8; 4096].as_slice().to_digest());
    assert!(cache.get_node(&NodeId::new(0, 0)).unwrap().is_valid());
    assert_eq!(cache.get_node(&NodeId::new(1, 0)).unwrap().get_version(), 8);

    let before = map.len();
    let refused = accept_confirm_bloom(
        &mut cache,
        &mut map,
        PageId(1),
        page(2),
        NodeId::new(33, 0),
        9,
    );
    assert!(matches!(refused, Err(ClientError::NodeOutOfRange)));
    assert_eq!(map.len(), before);
    assert_eq!(cache.get_node(&NodeId::new(1, 0)).unwrap().get_version(), 8);
}

#[test]
fn slots_beyond_the_table_do_not_fit() {
    let path = vec![(1u32, slots(&[0, 3])), (1u32, slots(&[3, 7]))];
    assert!(slots_fit(&path, 8));
    assert!(!slots_fit(&path, 7));
    assert!(slots_fit(&Vec::new(), 0));
    let mut cache = VCache::new(4);
    let vbf = VersionBloomFilter::new(4, 1);
    cache.insert(PageId(0), page(1), 1, slots(&[9]));
    cache.unconfirm();
    assert!(matches!(
        lookup_both_bloom(&mut cache, &vbf, PageId(0)),
        PageStep::Confirm(path, _) if path == vec![leaf_digest(0, 1)]
    ));
}
