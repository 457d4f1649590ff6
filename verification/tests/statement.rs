use std::collections::HashMap;
use v2fs::cache_page::CachePage;
use v2fs::digest::{Digest, Digestible};
use v2fs::hash::{leaf_hash, nonleaf_hash};
use v2fs::mem_tree::MemTree;
use v2fs::merkle_proof::ProofError;
use v2fs::node::{
    MerkleNode, MerkleNodeLoader, NodeId, StoreEntries, StoreError, WriteInterface,
};
use v2fs::page::PageId;
use v2fs::page_io::{
    collect_page_bytes_base, collect_page_bytes_batch, compute_page_ids, do_write_base, overlay,
    page_offset, pages_to_fetch,
};
use v2fs::page_map::PageMap;
use v2fs::node_check::{batch_ids, verify_read_base, verify_read_batch, NodeCheckError};
use v2fs::verify::{
    gen_proof, get_origin_root, get_root, needs_proof, predicate_proof_len, read_digests,
    verify_read_map, verify_then_update, RootError, VerifyError,
};
use v2fs::write_set::{
    cal_new_root, check_dig, drain_sorted, keyed_by_digest, page_count, partial_pages_to_read,
    persist,
    sorted_updates, update_merkle_db, update_merkle_tree, verify_write_map_base,
    verify_write_map_batch,
};
use v2fs::vbf::VersionBloomFilter;
use v2fs::write::WriteContext;

fn page(fill: u8) -> Vec<u8> {
    vec![fill; 4096]
}

fn whole(fill: u8) -> CachePage {
    CachePage::new(0, 4096, page(fill))
}

fn tree_of(n: u32) -> MemTree {
    let mut tree = MemTree::new();
    let mut ctx = WriteContext::new(&tree, None);
    for p in 0..n {
        ctx.update(page(p as u8).to_digest(), PageId(p)).unwrap();
    }
    let changes = ctx.changes();
    tree.apply(changes);
    tree
}

fn node(tree: &MemTree, h: u32, w: u32) -> Digest {
    tree.load_node(&NodeId::new(h, w)).unwrap().unwrap().get_hash()
}

#[test]
fn page_map_holds_pages_by_id() {
    let mut m = PageMap::new();
    assert_eq!(m.len(), 0);
    assert!(m.get(3).is_none());
    assert!(m.insert(3, whole(1)).is_none());
    assert_eq!(m.insert(3, whole(2)).unwrap().to_bytes(), page(1));
    m.insert(5, whole(5));
    assert_eq!(m.len(), 2);
    assert_eq!(m.get(3).unwrap().get_bytes(), &page(2));
    let mut keys = m.keys();
    keys.sort();
    assert_eq!(keys, vec![3, 5]);
    assert_eq!(m.remove(3).unwrap().copy_bytes(), page(2));
    assert!(m.remove(3).is_none());
    assert_eq!(m.len(), 1);
    m.clear();
    assert_eq!(m.len(), 0);
    assert!(m.get(5).is_none());
}

#[test]
fn cache_page_keeps_its_range() {
    let p = CachePage::new(7, 9, vec![1, 2, 3]);
    assert_eq!((p.get_offset(), p.get_len()), (7, 9));
    assert_eq!(p.get_bytes(), &vec![1, 2, 3]);
    assert_eq!(p.to_digest(), [1u8, 2, 3].as_slice().to_digest());
}

#[test]
fn the_pages_of_a_range() {
    assert_eq!(compute_page_ids(0, 4096), (0, vec![PageId(0)]));
    assert_eq!(compute_page_ids(0, 4097), (0, vec![PageId(0), PageId(1)]));
    assert_eq!(compute_page_ids(4095, 2), (0, vec![PageId(0), PageId(1)]));
    assert_eq!(compute_page_ids(4096, 1), (4096, vec![PageId(1)]));
    assert_eq!(
        compute_page_ids(10000, 8193),
        (8192, vec![PageId(2), PageId(3), PageId(4)])
    );
    assert_eq!(compute_page_ids(4096, 0), (4096, vec![]));
    assert_eq!(page_offset(PageId(3)), 3 * 4096);
    assert_eq!(page_offset(PageId(u32::MAX)), u32::MAX as u64 * 4096);
}

#[test]
fn overlay_writes_over_the_base() {
    assert_eq!(overlay(&vec![1, 2, 3, 4], 1, &[9, 9]), vec![1, 9, 9, 4]);
    assert_eq!(overlay(&vec![1, 2], 1, &[9, 9]), vec![1, 9, 9]);
    assert_eq!(overlay(&vec![1], 3, &[9]), vec![1, 0, 0, 9]);
    assert_eq!(overlay(&vec![1, 2], 0, &[]), vec![1, 2]);
}

#[test]
fn a_read_records_what_was_not_written() {
    let mut read_map = PageMap::new();
    let mut write_map = PageMap::new();
    write_map.insert(1, whole(9));
    let ids = vec![PageId(0), PageId(1), PageId(0)];
    let pages = vec![page(0), page(1), page(7)];
    let bytes = collect_page_bytes_base(&ids, &pages, &mut read_map, &write_map);
    assert_eq!(bytes.len(), 3 * 4096);
    assert_eq!((bytes[0], bytes[4096], bytes[8192]), (0, 1, 7));
    assert_eq!(read_map.len(), 1);
    assert_eq!(read_map.get(0).unwrap().get_bytes(), &page(0));
}

#[test]
fn a_read_sees_what_the_statement_wrote() {
    let mut read_map = PageMap::new();
    let mut write_map = PageMap::new();
    read_map.insert(2, whole(2));
    write_map.insert(0, whole(9));
    // bytes 10..12 of page 1 and of page 2 were written
    let mut part = page(0);
    part[10] = 0xaa;
    part[11] = 0xbb;
    write_map.insert(1, CachePage::new(10, 2, part.clone()));
    write_map.insert(2, CachePage::new(10, 2, part));
    let ids = vec![PageId(0), PageId(1), PageId(2), PageId(3)];
    assert_eq!(
        pages_to_fetch(&ids, &read_map, &write_map),
        vec![PageId(1), PageId(3)]
    );
    let mut fetched = HashMap::new();
    fetched.insert(1, page(1));
    fetched.insert(3, page(3));
    let bytes = collect_page_bytes_batch(&ids, &fetched, &mut read_map, &write_map);
    assert_eq!(bytes.len(), 4 * 4096);
    assert_eq!(&bytes[..4096], page(9).as_slice());
    assert_eq!(bytes[4096 + 9], 1);
    assert_eq!(bytes[4096 + 10], 0xaa);
    assert_eq!(bytes[4096 + 11], 0xbb);
    assert_eq!(bytes[4096 + 12], 1);
    assert_eq!(bytes[8192 + 9], 2);
    assert_eq!(bytes[8192 + 10], 0xaa);
    assert_eq!(&bytes[3 * 4096..], page(3).as_slice());
    assert_eq!(read_map.len(), 3);
    assert_eq!(read_map.get(1).unwrap().get_bytes(), &page(1));
}

#[test]
fn a_write_enters_the_write_set_page_by_page() {
    let mut write_map = PageMap::new();
    let mut buf = page(1);
    buf.extend(page(2));
    let ids = vec![PageId(1), PageId(2)];
    do_write_base(&ids, &buf, 4094, &mut write_map, &[7, 7, 7, 7]);
    assert_eq!(write_map.len(), 2);
    let first = write_map.get(1).unwrap();
    assert_eq!((first.get_offset(), first.get_len()), (0, 4096));
    assert_eq!(&first.get_bytes()[4092..], &[1, 1, 7, 7]);
    assert_eq!(&write_map.get(2).unwrap().get_bytes()[..4], &[7, 7, 2, 2]);
}

#[test]
fn the_read_set_is_checked_against_the_root() {
    let tree = tree_of(5);
    let mut read_map = PageMap::new();
    read_map.insert(1, whole(1));
    read_map.insert(4, whole(4));
    assert!(needs_proof(&read_map, tree.root_id));
    assert!(!needs_proof(&read_map, None));
    assert!(!needs_proof(&PageMap::new(), tree.root_id));
    let proof = gen_proof(&tree, tree.root_id, &vec![PageId(1), PageId(4)]).unwrap();
    let root_id = tree.root_id.unwrap();
    assert_eq!(verify_read_map(&read_map, &proof, node(&tree, 3, 0), root_id), Ok(()));
    assert_eq!(
        verify_read_map(&read_map, &proof, "x".to_digest(), root_id),
        Err(ProofError::HashMismatch)
    );
    read_map.insert(2, whole(2));
    assert_eq!(
        verify_read_map(&read_map, &proof, node(&tree, 3, 0), root_id),
        Err(ProofError::HashMismatch)
    );
    read_map.remove(2);
    read_map.insert(4, whole(0));
    assert_eq!(
        verify_read_map(&read_map, &proof, node(&tree, 3, 0), root_id),
        Err(ProofError::HashMismatch)
    );
    assert_eq!(read_digests(&read_map)[&1], page(1).to_digest());
    assert_eq!(predicate_proof_len(3, root_id), 5 * 3 * 32);
    assert_eq!(predicate_proof_len(0, NodeId::new(u32::MAX, 0)), 0);
    assert!(gen_proof(&tree, None, &vec![]).is_err());
}

#[test]
fn the_write_set_gives_the_new_root() {
    let tree = tree_of(3);
    let mut write_map = PageMap::new();
    write_map.insert(4, whole(14));
    write_map.insert(1, whole(11));
    write_map.insert(3, whole(13));
    let (modif, res) = verify_write_map_base(&tree, &mut write_map, tree.root_id);
    assert_eq!(write_map.len(), 0);
    assert_eq!(
        modif,
        vec![
            (PageId(1), page(11).to_digest()),
            (PageId(3), page(13).to_digest()),
            (PageId(4), page(14).to_digest())
        ]
    );
    let apply = res.unwrap();
    assert_eq!(apply.get_root_id(), Some(NodeId::new(3, 0)));
    let mut after = tree_of(3);
    after.apply(apply);
    let l = |p: u32, fill: u8| leaf_hash(&PageId(p), &page(fill).to_digest());
    let left = nonleaf_hash(
        Some(nonleaf_hash(Some(l(0, 0)), Some(l(1, 11)))),
        Some(nonleaf_hash(Some(l(2, 2)), Some(l(3, 13)))),
    );
    let right = nonleaf_hash(Some(nonleaf_hash(Some(l(4, 14)), None)), None);
    assert_eq!(node(&after, 3, 0), nonleaf_hash(Some(left), Some(right)));
    assert_eq!(after.len(), 5 + 3 + 2 + 1);

    let again = cal_new_root(&tree, &modif, tree.root_id).unwrap();
    assert_eq!(again.get_root_id(), Some(NodeId::new(3, 0)));
    assert_eq!(again.nodes.len(), 3 + 3 + 2 + 1);
}

#[test]
fn a_statement_is_verified_and_applied() {
    let tree = tree_of(4);
    let root_hash = node(&tree, 2, 0);
    let proof = gen_proof(&tree, tree.root_id, &vec![PageId(0), PageId(2)]).unwrap();
    let mut read_map = PageMap::new();
    let mut write_map = PageMap::new();
    read_map.insert(0, whole(0));
    read_map.insert(2, whole(2));
    write_map.insert(2, whole(22));
    let (modif, apply) =
        verify_then_update(&tree, tree.root_id, root_hash, &proof, &mut read_map, &mut write_map)
            .unwrap();
    assert_eq!(modif, vec![(PageId(2), page(22).to_digest())]);
    assert_eq!(apply.get_root_id(), Some(NodeId::new(2, 0)));
    assert_eq!((read_map.len(), write_map.len()), (0, 0));

    // a page that the statement did not read as the tree has it
    read_map.insert(1, whole(9));
    write_map.insert(1, whole(1));
    let r = verify_then_update(&tree, tree.root_id, root_hash, &proof, &mut read_map, &mut write_map);
    assert!(matches!(r, Err(VerifyError::Proof(ProofError::HashMismatch))));
    assert_eq!((read_map.len(), write_map.len()), (0, 0));

    // nothing read: only the writes are applied, the first one to an empty tree
    let empty = MemTree::new();
    write_map.insert(0, whole(5));
    let (_, apply) = verify_then_update(
        &empty,
        None,
        Digest::zero(),
        &proof,
        &mut read_map,
        &mut write_map,
    )
    .unwrap();
    assert_eq!(apply.get_root_id(), Some(NodeId::new(0, 0)));
    assert_eq!(
        apply.nodes[&0].get_hash(),
        leaf_hash(&PageId(0), &page(5).to_digest())
    );
}

#[test]
fn partial_writes_are_completed() {
    let mut read_map = PageMap::new();
    let mut write_map = PageMap::new();
    read_map.insert(1, whole(1));
    read_map.insert(5, whole(5));
    let mut part = page(0);
    part[100] = 0xcc;
    write_map.insert(1, CachePage::new(100, 1, part.clone()));
    write_map.insert(3, CachePage::new(100, 1, part));
    write_map.insert(0, whole(8));
    assert_eq!(partial_pages_to_read(&read_map, &write_map), vec![PageId(3)]);
    let mut fetched = HashMap::new();
    fetched.insert(3, page(3));
    let (pages, modif) = verify_write_map_batch(&mut read_map, &mut write_map, &fetched);
    assert_eq!(write_map.len(), 0);
    assert_eq!(read_map.len(), 1);
    assert!(read_map.get(5).is_some());
    let mut one = page(1);
    one[100] = 0xcc;
    let mut three = page(3);
    three[100] = 0xcc;
    assert_eq!(pages, vec![(0, page(8)), (1, one.clone()), (3, three.clone())]);
    assert_eq!(
        modif,
        vec![
            (PageId(0), page(8).to_digest()),
            (PageId(1), one.to_digest()),
            (PageId(3), three.to_digest())
        ]
    );
    assert_eq!(drain_sorted(&mut write_map), vec![]);
}

#[test]
fn the_nodes_of_the_old_tree_are_checked() {
    let tree = tree_of(4);
    let modif = vec![(PageId(1), page(9).to_digest())];
    let siblings = verify_read_base(&tree, &modif, tree.root_id.unwrap()).unwrap();
    assert_eq!(siblings.len(), 2);
    assert_eq!(siblings[&NodeId::new(0, 0).key()], node(&tree, 0, 0));
    assert_eq!(siblings[&NodeId::new(1, 1).key()], node(&tree, 1, 1));

    let ids = batch_ids(&modif, tree.root_id.unwrap());
    assert_eq!(
        ids,
        vec![
            NodeId::new(0, 1),
            NodeId::new(0, 0),
            NodeId::new(1, 0),
            NodeId::new(1, 1),
            NodeId::new(2, 0),
            NodeId::new(2, 1)
        ]
    );
    let mut fetched: Vec<(NodeId, Option<MerkleNode>)> = ids
        .iter()
        .map(|id| (*id, tree.load_node(id).unwrap()))
        .collect();
    let siblings = verify_read_batch(&fetched, &modif, tree.root_id.unwrap()).unwrap();
    assert_eq!(siblings.len(), 2);
    // the store gives a wrong hash for the sibling leaf
    fetched[1].1 = Some(MerkleNode::new("wrong".to_digest()));
    assert!(matches!(
        verify_read_batch(&fetched, &modif, tree.root_id.unwrap()),
        Err(NodeCheckError::Inconsistent(id)) if id == NodeId::new(1, 0)
    ));
}

struct Written {
    entries: HashMap<Digest, Digest>,
    fail: bool,
}

impl WriteInterface for Written {
    fn written(&self) -> StoreEntries {
        unreachable!()
    }

    fn always_writes(&self) -> bool {
        unreachable!()
    }

    fn write_node(&mut self, addr: &Digest, node: &MerkleNode) -> Result<(), StoreError> {
        if self.fail {
            return Err(StoreError { message: "full".to_string() });
        }
        self.entries.insert(*addr, node.get_hash());
        Ok(())
    }
}

#[test]
fn the_nodes_of_an_update_are_written_under_the_digest_of_their_id() {
    let tree = tree_of(3);
    let apply = cal_new_root(&tree, &vec![(PageId(3), page(3).to_digest())], tree.root_id).unwrap();
    let mut db = Written { entries: HashMap::new(), fail: false };
    persist(&mut db, &apply).unwrap();
    assert_eq!(db.entries.len(), 3);
    assert_eq!(
        db.entries[&NodeId::new(0, 3).to_digest()],
        leaf_hash(&PageId(3), &page(3).to_digest())
    );
    assert!(db.entries.contains_key(&NodeId::new(2, 0).to_digest()));
    let mut keyed = keyed_by_digest(&apply);
    keyed.sort_by_key(|e| e.0 .0);
    let mut written: Vec<(Digest, Digest)> = db.entries.iter().map(|(k, v)| (*k, *v)).collect();
    written.sort_by_key(|e| e.0 .0);
    assert_eq!(
        keyed.iter().map(|e| (e.0, e.1.get_hash())).collect::<Vec<_>>(),
        written
    );
    let mut broken = Written { entries: HashMap::new(), fail: true };
    assert_eq!(persist(&mut broken, &apply).unwrap_err().message, "full");
    assert!(broken.entries.is_empty());
    // where there is nothing to write, nothing can fail
    let nothing = cal_new_root(&tree, &vec![], tree.root_id).unwrap();
    assert!(nothing.nodes.is_empty());
    assert!(persist(&mut broken, &nothing).is_ok());
}

#[test]
fn the_root_of_the_tree() {
    let tree = tree_of(3);
    assert_eq!(get_root(&tree, tree.root_id).unwrap(), node(&tree, 2, 0));
    assert!(matches!(get_root(&tree, None), Err(RootError::NoRoot)));
    assert!(matches!(
        get_root(&tree, Some(NodeId::new(5, 0))),
        Err(RootError::RootMissing)
    ));
    assert_eq!(
        get_origin_root(&tree, tree.root_id).unwrap(),
        (tree.root_id, node(&tree, 2, 0))
    );
    assert_eq!(
        get_origin_root(&tree, None).unwrap(),
        (None, Digest::zero())
    );
    assert!(matches!(
        get_origin_root(&tree, Some(NodeId::new(5, 0))),
        Err(RootError::RootMissing)
    ));
}

#[test]
fn a_write_of_the_server_is_recorded() {
    let mut vbf = VersionBloomFilter::new(100, 3);
    let mut map = HashMap::new();
    map.insert(9, page(9).to_digest());
    let ids = vec![PageId(1), PageId(2), PageId(3)];
    let pages = vec![page(1), page(0), page(3)];
    update_merkle_tree(&mut vbf, &mut map, &ids, &pages, 4);
    assert!(vbf.contains(PageId(1), 3));
    assert!(vbf.contains(PageId(2), 3));
    assert!(!vbf.contains(PageId(1), 4));
    // a page of zeros is not recorded
    assert_eq!(map.len(), 3);
    assert!(!map.contains_key(&2));
    assert_eq!(map[&3], page(3).to_digest());
    assert!(check_dig(&page(0).to_digest()));
    assert!(!check_dig(&page(1).to_digest()));

    let tree = tree_of(2);
    let (modif, res) = update_merkle_db(&tree, tree.root_id, &mut map);
    assert!(map.is_empty());
    assert_eq!(
        modif,
        vec![
            (PageId(1), page(1).to_digest()),
            (PageId(3), page(3).to_digest()),
            (PageId(9), page(9).to_digest())
        ]
    );
    assert_eq!(res.unwrap().get_root_id(), Some(NodeId::new(4, 0)));
    let mut more = HashMap::new();
    more.insert(7, page(7).to_digest());
    more.insert(2, page(2).to_digest());
    assert_eq!(
        sorted_updates(&mut more),
        vec![(PageId(2), page(2).to_digest()), (PageId(7), page(7).to_digest())]
    );
    assert!(more.is_empty());
}

#[test]
fn the_pages_of_a_file() {
    assert_eq!(page_count(0), 1);
    assert_eq!(page_count(1), 1);
    assert_eq!(page_count(4096), 1);
    assert_eq!(page_count(4097), 2);
    assert_eq!(page_count(3 * 4096), 3);
}
