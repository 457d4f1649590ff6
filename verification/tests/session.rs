use std::collections::HashMap;
use v2fs::client::{
    accept_confirm, accept_page, cached_path, lookup_both, lookup_intra, lookup_simple_bloom,
    node_in_range, record_page, start_statement, ClientError, PageStep,
};
use v2fs::digest::{Digest, Digestible};
use v2fs::hash::leaf_hash;
use v2fs::mem_tree::MemTree;
use v2fs::node::{MerkleNodeLoader, NodeId};
use v2fs::page::{Page, PageId};
use v2fs::page_io::assemble;
use v2fs::protocol::{
    confirm_request, end_request, hand_shake, is_confirmed, receive_proof, require_page,
    HandshakeError, Request, TransferError,
};
use v2fs::server::{confirm, Reply, ServeError, ServerSession};
use v2fs::simple_vcache::SVCache;
use v2fs::vbf::VersionBloomFilter;
use v2fs::verify::verify;
use v2fs::vfs::{Type, BOTH_CACHE, CONFIRM, END, NO_CACHE, NO_FLAG, QUERY, YES_FLAG};
use v2fs::write::WriteContext;

fn page_bytes(p: u32) -> Box<[u8; 4096]> {
    let mut b = [0u8; 4096];
    b[0] = p as u8;
    b[4095] = 0xaa;
    Box::new(b)
}

fn server_tree(n: u32) -> MemTree {
    let mut tree = MemTree::new();
    let mut ctx = WriteContext::new(&tree, None);
    for p in 0..n {
        ctx.update(page_bytes(p).as_slice().to_digest(), PageId(p))
            .unwrap();
    }
    let changes = ctx.changes();
    tree.apply(changes);
    tree
}

fn root_hash(tree: &MemTree) -> Digest {
    tree.load_node(&tree.root_id.unwrap()).unwrap().unwrap().get_hash()
}

fn request_len(r: &Request) -> usize {
    4 + 4 + 8 + 32 * r.digs.len()
}

/// One statement that reads the pages 0..n through a cache whose entries
/// the server confirms. Gives the bytes that went over the wire.
fn statement(tree: &MemTree, cache: &mut SVCache, n: u32) -> usize {
    let mut wire = 0;
    let mut map: HashMap<u32, Digest> = HashMap::new();
    assert!(!start_statement(Type::Both, cache));
    let mut session = ServerSession::open(BOTH_CACHE).unwrap();
    assert_eq!(hand_shake(YES_FLAG), Ok(()));
    wire += 8;
    let mut pages = vec![];
    for p in 0..n {
        let page = match lookup_both(cache, PageId(p)) {
            PageStep::Use(bytes) => Page::new(PageId(p), bytes),
            PageStep::Query => {
                let req = require_page(PageId(p));
                wire += request_len(&req) + 4096;
                let reply = session.handle(tree, req.tag, req.p_id, &req.digs).unwrap();
                assert_eq!(reply, Reply::Page(PageId(p)));
                accept_page(cache, &mut map, PageId(p), page_bytes(p), 0)
            }
            PageStep::Confirm(path, bytes) => {
                let req = confirm_request(PageId(p), path);
                wire += request_len(&req) + 4 + 4;
                match session.handle(tree, req.tag, req.p_id, &req.digs).unwrap() {
                    Reply::Confirmed(h, w) => {
                        wire += 8;
                        accept_confirm(cache, &mut map, PageId(p), bytes, NodeId::new(h, w), None)
                            .unwrap()
                    }
                    Reply::Refuted(q) => {
                        wire += 4096;
                        accept_page(cache, &mut map, q, page_bytes(p), 0)
                    }
                    _ => panic!("no answer to a chain of hashes"),
                }
            }
        };
        assert_eq!(page.get_bytes(), page_bytes(p).to_vec());
        pages.push(page);
    }
    let end = end_request();
    wire += request_len(&end);
    assert_eq!(
        session.handle(tree, end.tag, end.p_id, &end.digs).unwrap(),
        Reply::End
    );
    let proof = session.finish(tree, tree.root_id).unwrap();
    assert_eq!(receive_proof(YES_FLAG), Ok(()));
    let height = tree.get_height().unwrap();
    assert_eq!(verify(height, &proof, &map, root_hash(tree)), Ok(()));
    let all = assemble(pages, 4095, 4097 * 2);
    assert_eq!(all.len(), 4097 * 2);
    assert_eq!(all[0], 0xaa);
    assert_eq!(all[1], 1);
    wire
}

#[test]
fn a_confirmed_cache_saves_traffic() {
    let tree = server_tree(9);
    let mut cache = SVCache::new(64);
    let first = statement(&tree, &mut cache, 9);
    let second = statement(&tree, &mut cache, 9);
    assert!(first >= 9 * 4096);
    assert!(second < first);
    assert!(second < 4096);
}

#[test]
fn a_page_that_changed_is_sent_again() {
    let mut tree = server_tree(4);
    let mut cache = SVCache::new(64);
    statement(&tree, &mut cache, 4);
    // the server's page 2 changes
    let mut ctx = WriteContext::new(&tree, tree.root_id);
    let new_bytes = [9u8; 4096];
    ctx.update(new_bytes.as_slice().to_digest(), PageId(2)).unwrap();
    let changes = ctx.changes();
    tree.apply(changes);

    start_statement(Type::Both, &mut cache);
    let mut session = ServerSession::open(BOTH_CACHE).unwrap();
    let mut map = HashMap::new();
    match lookup_both(&mut cache, PageId(2)) {
        PageStep::Confirm(path, _) => {
            assert_eq!(path.len(), 3);
            assert_eq!(
                session.handle(&tree, CONFIRM, PageId(2), &path).unwrap(),
                Reply::Refuted(PageId(2))
            );
            accept_page(&mut cache, &mut map, PageId(2), Box::new(new_bytes), 1);
        }
        _ => panic!("the page is cached and not confirmed"),
    }
    match lookup_both(&mut cache, PageId(0)) {
        PageStep::Confirm(path, bytes) => {
            // the chain holds for the leaf and its parent, not for the old root
            assert_eq!(
                session.handle(&tree, CONFIRM, PageId(0), &path).unwrap(),
                Reply::Confirmed(1, 0)
            );
            accept_confirm(&mut cache, &mut map, PageId(0), bytes, NodeId::new(1, 0), None)
                .unwrap();
        }
        _ => panic!("the page is cached and not confirmed"),
    }
    assert!(matches!(lookup_both(&mut cache, PageId(1)), PageStep::Use(_)));
    assert!(matches!(lookup_both(&mut cache, PageId(2)), PageStep::Use(b) if b[0] == 9));
    assert!(matches!(
        lookup_both(&mut cache, PageId(3)),
        PageStep::Confirm(_, _)
    ));
    let proof = session.finish(&tree, tree.root_id).unwrap();
    assert_eq!(verify(2, &proof, &map, root_hash(&tree)), Ok(()));
}

#[test]
fn a_stale_page_does_not_verify() {
    let tree = server_tree(4);
    let mut session = ServerSession::open(NO_CACHE).unwrap();
    let mut map = HashMap::new();
    session.handle(&tree, QUERY, PageId(1), &vec![]).unwrap();
    record_page(&mut map, PageId(1), Box::new([7u8; 4096]));
    let proof = session.finish(&tree, tree.root_id).unwrap();
    assert_eq!(
        verify(2, &proof, &map, root_hash(&tree)),
        Err(v2fs::merkle_proof::ProofError::HashMismatch)
    );
    assert_eq!(
        verify(2, &proof, &map, "other root".to_digest()),
        Err(v2fs::merkle_proof::ProofError::HashMismatch)
    );
    assert_eq!(verify(2, &proof, &HashMap::new(), "other root".to_digest()), Ok(()));
    let mut good = HashMap::new();
    record_page(&mut good, PageId(1), page_bytes(1));
    assert_eq!(verify(2, &proof, &good, root_hash(&tree)), Ok(()));
    assert_eq!(
        good[&1],
        page_bytes(1).as_slice().to_digest()
    );
}

#[test]
fn the_version_filter_lets_an_unwritten_page_be_used() {
    let mut cache = SVCache::new(64);
    let mut map = HashMap::new();
    let mut vbf = VersionBloomFilter::new(1000, 3);
    accept_page(&mut cache, &mut map, PageId(0), page_bytes(0), 5);
    accept_page(&mut cache, &mut map, PageId(1), page_bytes(1), 5);
    assert!(start_statement(Type::SimpleBloom, &mut cache));
    // no write since version 5: the page is used and confirmed
    assert!(matches!(
        lookup_simple_bloom(&mut cache, &vbf, PageId(0)),
        PageStep::Use(b) if b == page_bytes(0)
    ));
    assert!(cache.get_node(&NodeId::new(0, 0)).unwrap().is_valid());
    // page 1 was written at version 6: the server is asked
    vbf.insert(PageId(1), 6);
    match lookup_simple_bloom(&mut cache, &vbf, PageId(1)) {
        PageStep::Confirm(path, bytes) => {
            assert_eq!(bytes, page_bytes(1));
            assert_eq!(
                path[0],
                leaf_hash(&PageId(1), &page_bytes(1).as_slice().to_digest())
            );
            assert_eq!(path.len(), 2);
        }
        _ => panic!("the page may have been written"),
    }
    assert!(matches!(
        lookup_simple_bloom(&mut cache, &vbf, PageId(2)),
        PageStep::Query
    ));
    accept_confirm(
        &mut cache,
        &mut map,
        PageId(1),
        page_bytes(1),
        NodeId::new(0, 1),
        Some(7),
    )
    .unwrap();
    assert!(matches!(
        cache.get_node(&NodeId::new(0, 1)),
        Some(v2fs::cache_node::SVCacheNode::Leaf(l)) if l.is_valid() && l.get_version() == 7
    ));
}

#[test]
fn a_cache_for_one_statement() {
    let mut cache = SVCache::new(8);
    let mut map = HashMap::new();
    assert!(matches!(lookup_intra(&mut cache, PageId(3)), PageStep::Query));
    accept_page(&mut cache, &mut map, PageId(3), page_bytes(3), 0);
    assert!(matches!(
        lookup_intra(&mut cache, PageId(3)),
        PageStep::Use(b) if b == page_bytes(3)
    ));
    assert!(!start_statement(Type::Intra, &mut cache));
    assert!(matches!(lookup_intra(&mut cache, PageId(3)), PageStep::Query));
    assert!(!start_statement(Type::NoCache, &mut cache));
}

#[test]
fn a_node_outside_any_tree_is_not_taken() {
    let mut cache = SVCache::new(8);
    let mut map = HashMap::new();
    assert_eq!(
        accept_confirm(
            &mut cache,
            &mut map,
            PageId(0),
            page_bytes(0),
            NodeId::new(33, 0),
            None
        )
        .err(),
        Some(ClientError::NodeOutOfRange)
    );
    assert!(map.is_empty());
    assert!(node_in_range(&NodeId::new(32, 0)));
    assert!(!node_in_range(&NodeId::new(32, 1)));
    assert!(node_in_range(&NodeId::new(0, u32::MAX)));
    assert!(!node_in_range(&NodeId::new(1, 1 << 31)));
    assert!(node_in_range(&NodeId::new(1, (1 << 31) - 1)));
}

#[test]
fn the_chain_above_a_cached_page() {
    let mut cache = SVCache::new(64);
    let mut map = HashMap::new();
    for p in 0..4u32 {
        accept_page(&mut cache, &mut map, PageId(p), page_bytes(p), 0);
    }
    let leaf = leaf_hash(&PageId(2), &page_bytes(2).as_slice().to_digest());
    let path = cached_path(&mut cache, NodeId::new(0, 2), leaf);
    assert_eq!(path.len(), 3);
    assert_eq!(path[0], leaf);
    assert_eq!(
        path[1],
        cache.get_node(&NodeId::new(1, 1)).unwrap().to_digest()
    );
    assert_eq!(
        path[2],
        cache.get_node(&NodeId::new(2, 0)).unwrap().to_digest()
    );
}

#[test]
fn the_server_matches_a_chain() {
    let tree = server_tree(4);
    let node = |h: u32, w: u32| tree.load_node(&NodeId::new(h, w)).unwrap().unwrap().get_hash();
    let bad = "bad".to_digest();
    assert_eq!(
        confirm(&tree, PageId(3), &vec![node(0, 3), node(1, 1), node(2, 0)]).unwrap(),
        (true, (2, 0))
    );
    assert_eq!(
        confirm(&tree, PageId(3), &vec![node(0, 3), bad, node(2, 0)]).unwrap(),
        (true, (0, 3))
    );
    assert_eq!(
        confirm(&tree, PageId(3), &vec![bad, node(1, 1)]).unwrap(),
        (false, (0, 0))
    );
    assert_eq!(confirm(&tree, PageId(3), &vec![]).unwrap(), (false, (0, 0)));
    assert!(matches!(
        confirm(&tree, PageId(9), &vec![bad]),
        Err(ServeError::NodeMissing(id)) if id == NodeId::new(0, 9)
    ));
    // a chain that holds up to the root and goes on: the node above the
    // root is the one that the tree lacks
    assert!(matches!(
        confirm(&tree, PageId(3), &vec![node(0, 3), node(1, 1), node(2, 0), bad]),
        Err(ServeError::NodeMissing(id)) if id == NodeId::new(3, 0)
    ));
    // a chain that breaks below the root does not reach that node
    assert_eq!(
        confirm(&tree, PageId(3), &vec![node(0, 3), bad, node(2, 0), bad]).unwrap(),
        (true, (0, 3))
    );
}

#[test]
fn signals() {
    assert!(ServerSession::open(12).is_none());
    let mut plain = ServerSession::open(NO_CACHE).unwrap();
    let tree = server_tree(2);
    assert!(matches!(
        plain.handle(&tree, CONFIRM, PageId(0), &vec![]),
        Err(ServeError::InvalidSignal)
    ));
    assert!(matches!(
        plain.handle(&tree, 5, PageId(0), &vec![]),
        Err(ServeError::InvalidSignal)
    ));
    assert!(plain.pids.is_empty());
    assert_eq!(
        plain.handle(&tree, QUERY, PageId(1), &vec![]).unwrap(),
        Reply::Page(PageId(1))
    );
    assert!(plain.pids.contains(&1));
    assert_eq!(plain.handle(&tree, END, PageId(0), &vec![]).unwrap(), Reply::End);
    assert!(ServerSession::open(BOTH_CACHE).unwrap().with_cache);

    assert_eq!(hand_shake(NO_FLAG), Err(HandshakeError::Refused));
    assert_eq!(hand_shake(77), Err(HandshakeError::UnknownSignal));
    assert!(is_confirmed(YES_FLAG));
    assert!(!is_confirmed(NO_FLAG));
    assert_eq!(receive_proof(NO_FLAG), Err(TransferError::NotAcknowledged));
    let end = end_request();
    assert_eq!((end.tag, end.p_id, end.digs.len()), (END, PageId(0), 0));
    let q = require_page(PageId(4));
    assert_eq!((q.tag, q.p_id, q.digs.len()), (QUERY, PageId(4), 0));
    assert_eq!(Type::SimpleBloom.signal(), BOTH_CACHE);
    assert_eq!(Type::Intra.signal(), NO_CACHE);
    assert_eq!(Type::from_opt_level(3), Some(Type::SimpleBloom));
    assert_eq!(Type::from_opt_level(0), Some(Type::NoCache));
    assert_eq!(Type::from_opt_level(4), None);
}
