use v2fs::page::PageId;
use v2fs::vbf::VersionBloomFilter;

#[test]
fn test_vbf() {
    let mut vbf = VersionBloomFilter::new(100, 4);
    vbf.insert(PageId(1), 0);
    vbf.insert(PageId(2), 0);
    assert!(!vbf.contains(PageId(1), 1));
    vbf.insert(PageId(3), 0);
    assert!(!vbf.contains(PageId(1), 2));
    assert!(!vbf.contains(PageId(2), 1));
    assert!(!vbf.contains(PageId(3), 1));
    assert!(!vbf.contains(PageId(2), 2));
    assert!(!vbf.contains(PageId(2), 0));
    vbf.insert(PageId(4), 1);
    assert!(vbf.contains(PageId(4), 0));
}
