use v2fs::digest::{concat_digest, concat_digest_ref, Digest, Digestible, DIGEST_LEN};
use v2fs::hash::{id_hash, leaf_hash, merge_hash, nonleaf_hash};
use v2fs::node::{MerkleNode, NodeError, NodeId};
use v2fs::page::{Page, PageId};

fn hex(d: &Digest) -> String {
    d.as_bytes().iter().map(|b| format!("{:02x}", b)).collect()
}

#[test]
fn blake2b_256_of_abc_is_the_published_value() {
    let d = b"abc".as_slice().to_digest();
    assert_eq!(
        hex(&d),
        "bddd813c634239723171ef3fee98579b94964e3bb1cb3e427262c8c068d52319"
    );
    assert_eq!(d.as_bytes().len(), DIGEST_LEN);
}

#[test]
fn the_digest_of_a_string_is_the_digest_of_its_bytes() {
    assert_eq!("abc".to_digest(), b"abc".as_slice().to_digest());
    assert_eq!("abc".to_string().to_digest(), b"abc".to_vec().to_digest());
    assert_ne!("abc".to_digest(), "abd".to_digest());
}

#[test]
fn the_digest_of_a_number_is_the_digest_of_its_little_endian_bytes() {
    assert_eq!(0x0403_0201u32.to_digest(), [1u8, 2, 3, 4].as_slice().to_digest());
    assert_eq!(PageId(7).to_digest(), 7u32.to_digest());
    assert_eq!(9u8.to_digest(), [9u8].as_slice().to_digest());
    assert_eq!(0x0201u16.to_digest(), [1u8, 2].as_slice().to_digest());
    assert_eq!(
        1u128.to_digest(),
        [1u8, 0, 0, 0, 0, 0, 0, 0, 0, 0, 0, 0, 0, 0, 0, 0].as_slice().to_digest()
    );
    assert_eq!(
        0x0807_0605_0403_0201u64.to_digest(),
        [1u8, 2, 3, 4, 5, 6, 7, 8].as_slice().to_digest()
    );
}

#[test]
fn zero_digest() {
    assert!(Digest::zero().is_zero());
    assert!(Digest::default().is_zero());
    assert!(!"abc".to_digest().is_zero());
    assert_eq!(Digest::zero().as_bytes(), [0u8; 32].as_slice());
}

#[test]
fn id_hash_is_the_hash_of_height_then_width() {
    let mut bytes = 3u32.to_le_bytes().to_vec();
    bytes.extend_from_slice(&9u32.to_le_bytes());
    assert_eq!(id_hash(3, 9), bytes.to_digest());
    assert_eq!(NodeId::new(3, 9).to_digest(), id_hash(3, 9));
    assert_ne!(id_hash(3, 9), id_hash(9, 3));
}

#[test]
fn leaf_hash_is_the_hash_of_id_then_page_hash() {
    let page_hash = "page".to_digest();
    let mut bytes = 5u32.to_le_bytes().to_vec();
    bytes.extend_from_slice(page_hash.as_bytes());
    assert_eq!(leaf_hash(&PageId(5), &page_hash), bytes.to_digest());
}

#[test]
fn nonleaf_hash_hashes_twice_and_skips_absent_sides() {
    let l = "left".to_digest();
    let r = "right".to_digest();
    let mut both = l.as_bytes().to_vec();
    both.extend_from_slice(r.as_bytes());
    let twice = |bytes: &[u8]| bytes.to_digest().as_bytes().to_digest();
    assert_eq!(nonleaf_hash(Some(l), Some(r)), twice(&both));
    assert_eq!(nonleaf_hash(Some(l), None), twice(l.as_bytes()));
    assert_eq!(nonleaf_hash(None, Some(r)), twice(r.as_bytes()));
    assert_eq!(nonleaf_hash(None, None), twice(&[]));
    assert_ne!(nonleaf_hash(Some(l), Some(r)), nonleaf_hash(Some(r), Some(l)));
    assert_ne!(nonleaf_hash(Some(l), Some(r)), both.to_digest());
    assert_eq!(merge_hash(&l, &r), nonleaf_hash(Some(l), Some(r)));
}

#[test]
fn concat_digest_hashes_the_digests_in_a_row() {
    let a = "a".to_digest();
    let b = "b".to_digest();
    let mut bytes = a.as_bytes().to_vec();
    bytes.extend_from_slice(b.as_bytes());
    assert_eq!(concat_digest(vec![a, b]), bytes.to_digest());
    assert_eq!(concat_digest_ref(&[a, b]), bytes.to_digest());
    assert_eq!(concat_digest(vec![]), [0u8; 0].as_slice().to_digest());
}

#[test]
fn node_arithmetic() {
    let n = NodeId::new(2, 5);
    assert_eq!(n.get_height(), 2);
    assert_eq!(n.get_width(), 5);
    assert_eq!(n.get_parent_id(), NodeId::new(3, 2));
    assert_eq!(n.get_sib_id(), NodeId::new(2, 4));
    assert_eq!(NodeId::new(2, 4).get_sib_id(), NodeId::new(2, 5));
    assert!(!n.is_even());
    assert!(NodeId::new(2, 4).is_even());
    assert!(!n.is_leaf());
    assert!(NodeId::from_page_id(PageId(9)).is_leaf());
    assert_eq!(NodeId::from_page_id(PageId(9)), NodeId::new(0, 9));
    assert_eq!(n.get_children(), Ok((NodeId::new(1, 10), NodeId::new(1, 11))));
    assert_eq!(
        NodeId::new(0, 3).get_children(),
        Err(NodeError::LeafHasNoChildren)
    );
    for id in [NodeId::new(0, u32::MAX), NodeId::new(0, 0x8000_0000), NodeId::new(3, 0)] {
        assert_eq!(id.is_leaf(), id.get_children().is_err());
    }
    assert_eq!(n.key(), (2u64 << 32) + 5);
    assert_eq!(NodeId::from_key(n.key()), n);
    assert_eq!(PageId(9).get_id(), 9);
    assert_eq!(PageId(9).find_height(), 4);
}

#[test]
fn merkle_node_and_page() {
    let h = "x".to_digest();
    assert_eq!(MerkleNode::new(h).get_hash(), h);
    let mut bytes = [0u8; 4096];
    bytes[0] = 7;
    let page = Page::new(PageId(3), Box::new(bytes));
    assert_eq!(page.get_bytes(), bytes.to_vec());
    assert_eq!(page.to_digest(), bytes.as_slice().to_digest());
}
