use std::collections::HashSet;
use v2fs::page::PageId;
use v2fs::vbf::{VersionBloomFilter, VersionMap};

#[test]
fn a_write_is_seen_for_every_earlier_version() {
    let mut vbf = VersionBloomFilter::new(64, 5);
    vbf.insert(PageId(7), 10);
    for v in 0..10 {
        assert!(vbf.contains(PageId(7), v));
    }
    assert!(!vbf.contains(PageId(7), 10));
    // later writes to other pages, at later versions, hide nothing
    for q in 0..200u32 {
        vbf.insert(PageId(q + 100), 11 + q);
        assert!(vbf.contains(PageId(7), 9));
    }
}

#[test]
fn a_fresh_filter_holds_no_write() {
    let vbf = VersionBloomFilter::new(10, 3);
    assert!(!vbf.contains(PageId(1), 0));
    let none = VersionBloomFilter::new(10, 0);
    assert!(none.contains(PageId(1), 0));
    assert_eq!(VersionMap::new(3).map, vec![0, 0, 0]);
}

#[test]
fn the_slots_of_a_page() {
    let mut vbf = VersionBloomFilter::new(1000, 4);
    let pos = vbf.get_bf_pos(PageId(3));
    assert!(!pos.is_empty() && pos.len() <= 4);
    assert!(pos.iter().all(|i| *i < 1000));
    assert_eq!(pos, vbf.get_bf_pos(PageId(3)));
    assert!(!vbf.contains_subroot(&pos, 0));
    vbf.insert(PageId(3), 5);
    assert!(vbf.contains_subroot(&pos, 4));
    assert!(!vbf.contains_subroot(&pos, 5));
    assert!(!vbf.contains_subroot(&HashSet::new(), 0));
}

#[test]
fn a_snapshot_answers_as_the_filter() {
    let mut vbf = VersionBloomFilter::new(50, 3);
    vbf.insert(PageId(1), 4);
    let snap = vbf.snapshot();
    assert_eq!(snap.get_bf_pos(PageId(1)), vbf.get_bf_pos(PageId(1)));
    assert!(snap.contains(PageId(1), 3));
    vbf.insert(PageId(1), 9);
    assert!(!snap.contains(PageId(1), 4));
    assert!(vbf.contains(PageId(1), 4));
}
