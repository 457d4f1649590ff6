//! The client's side of a page read: whether a page can be served from
//! the cache, what is asked of the server otherwise, and what the answer
//! does to the cache and to the read set.

use vstd::prelude::*;
use std::collections::HashMap;
use crate::cache_node::{SVCacheLeafNode, SVCacheNode};
use crate::digest::{blake2b_256, Digest, Digestible};
use crate::lru_store::{entry_of, has_key, key_pos, lemma_touched, touched};
use crate::node::NodeId;
use crate::page::{Page, PageId};
use crate::simple_vcache::{
    in_range, lemma_parent_in_range, lemma_top_has_no_sibling, spec_confirm,
    spec_insert, SVCache,
};
use crate::vbf::VersionBloomFilter;

verus! {

broadcast use vstd::std_specs::hash::group_hash_axioms;

/// What the client does for one page of a read.
pub enum PageStep {
    /// The page is served from the cache.
    Use(Box<[u8; 4096]>),
    /// The server is asked whether the chain of hashes above the cached
    /// page still holds; the bytes are those of the cached page.
    Confirm(Vec<Digest>, Box<[u8; 4096]>),
    /// The server is asked for the page.
    Query,
}

/// Why an answer of the server was not taken.
#[derive(Clone, Copy, Debug, PartialEq, Eq, Structural)]
pub enum ClientError {
    /// The node that the server names is no node of a tree over 32-bit
    /// page ids.
    NodeOutOfRange,
}

/// The views of a run of digests.
pub open spec fn digest_seq(ds: Seq<Digest>) -> Seq<Seq<u8>> {
    Seq::new(ds.len(), |i: int| ds[i]@)
}

/// The hashes of the cached nodes above `cur`, from the parent upward, as
/// far as the chain goes: it goes on while the sibling and the parent of
/// the node last reached are in the cache.
pub open spec fn spec_cached_path(e: Seq<(u64, SVCacheNode)>, cur: NodeId) -> Seq<Seq<u8>>
    decreases 32 - cur.0,
{
    if cur.0 < 32 && has_key(e, cur.sibling().spec_key()) {
        match entry_of(e, cur.parent().spec_key()) {
            Some(parent) => seq![parent.spec_digest()] + spec_cached_path(e, cur.parent()),
            None => Seq::empty(),
        }
    } else {
        Seq::empty()
    }
}

/// The entries after the chain above `cur` was gathered: each cached node
/// of the chain counts as used.
pub open spec fn spec_path_entries(e: Seq<(u64, SVCacheNode)>, cur: NodeId) -> Seq<
    (u64, SVCacheNode),
>
    decreases 32 - cur.0,
{
    if cur.0 < 32 && has_key(e, cur.sibling().spec_key()) && has_key(
        e,
        cur.parent().spec_key(),
    ) {
        spec_path_entries(touched(e, cur.parent().spec_key()), cur.parent())
    } else {
        e
    }
}

/// Whether two caches hold the same nodes, whatever their order of use.
pub open spec fn same_nodes(a: &SVCache, b: &SVCache) -> bool {
    forall|id: NodeId| #[trigger] a.node(id) == b.node(id)
}

/// Whether a node id is one of a tree over 32-bit page ids.
pub fn node_in_range(id: &NodeId) -> (r: bool)
    ensures
        r == in_range(*id),
{
    proof {
        vstd::arithmetic::power2::lemma2_to64();
    }
    let h = id.get_height();
    if h > 32 {
        return false;
    }
    let mut bound: u64 = 1;
    let mut d: u32 = 0;
    while d < 32 - h
        invariant
            h <= 32,
            d <= 32 - h,
            bound == vstd::arithmetic::power2::pow2(d as nat),
            bound <= 0x1_0000_0000,
        decreases 32 - h - d,
    {
        proof {
            vstd::arithmetic::power2::lemma2_to64();
            vstd::arithmetic::power2::lemma_pow2_unfold((d + 1) as nat);
            if d + 1 < 32 {
                vstd::arithmetic::power2::lemma_pow2_strictly_increases((d + 1) as nat, 32);
            }
        }
        bound = bound * 2;
        d += 1;
    }
    (id.get_width() as u64) < bound
}

/// The chain of hashes that the client shows the server for a cached
/// page: the hash of the leaf, then the hashes of the cached nodes above
/// it, see `spec_cached_path`.
pub fn cached_path(cache: &mut SVCache, leaf_id: NodeId, leaf_dig: Digest) -> (path: Vec<Digest>)
    requires
        old(cache).wf(),
        in_range(leaf_id),
    ensures
        final(cache).wf(),
        final(cache).cap() == old(cache).cap(),
        same_nodes(final(cache), old(cache)),
        final(cache).entries() == spec_path_entries(old(cache).entries(), leaf_id),
        digest_seq(path@) == seq![leaf_dig@] + spec_cached_path(old(cache).entries(), leaf_id),
{
    let mut path: Vec<Digest> = Vec::new();
    path.push(leaf_dig);
    let mut cur_id = leaf_id;
    let ghost e0 = cache.entries();
    assert(digest_seq(path@) =~= seq![leaf_dig@]);
    loop
        invariant_except_break
            cache.wf(),
            cache.cap() == old(cache).cap(),
            in_range(cur_id),
            forall|k: u64| #[trigger] entry_of(cache.entries(), k) == entry_of(e0, k),
            spec_path_entries(cache.entries(), cur_id) == spec_path_entries(e0, leaf_id),
            digest_seq(path@) + spec_cached_path(e0, cur_id) == seq![leaf_dig@] + spec_cached_path(
                e0,
                leaf_id,
            ),
        ensures
            cache.wf(),
            cache.cap() == old(cache).cap(),
            forall|k: u64| #[trigger] entry_of(cache.entries(), k) == entry_of(e0, k),
            cache.entries() == spec_path_entries(e0, leaf_id),
            digest_seq(path@) == seq![leaf_dig@] + spec_cached_path(e0, leaf_id),
        decreases 32 - cur_id.0,
    {
        let ghost e = cache.entries();
        let ghost sib_key = cur_id.sibling().spec_key();
        proof {
            assert(entry_of(e, sib_key) == entry_of(e0, sib_key));
            if has_key(e, sib_key) {
                let i = key_pos(e, sib_key);
                NodeId::lemma_key_injective(e[i].1.id(), cur_id.sibling());
                lemma_top_has_no_sibling(cur_id);
            }
        }
        if !cache.has_sib(cur_id) {
            proof {
                assert(spec_cached_path(e0, cur_id) =~= Seq::empty());
                assert(digest_seq(path@) + Seq::<Seq<u8>>::empty() =~= digest_seq(path@));
            }
            break ;
        }
        let ghost parent_key = cur_id.parent().spec_key();
        proof {
            lemma_touched(e, parent_key);
            lemma_parent_in_range(cur_id);
            assert(entry_of(e, parent_key) == entry_of(e0, parent_key));
            crate::simple_vcache::SVCache::lemma_touch_keeps_wf(e, parent_key);
        }
        let ghost old_path = digest_seq(path@);
        proof {
            assert(has_key(e, parent_key) == (entry_of(e, parent_key) is Some));
            if !has_key(e, parent_key) {
                assert(touched(e, parent_key) == e);
            }
        }
        match cache.find_parent(cur_id) {
            Some(parent) => {
                let d = parent.to_digest();
                proof {
                    let i = key_pos(e, parent_key);
                    NodeId::lemma_key_injective(e[i].1.id(), cur_id.parent());
                }
                cur_id = parent.get_id();
                path.push(d);
                proof {
                    assert(digest_seq(path@) =~= old_path + seq![d@]);
                    assert((old_path + seq![d@]) + spec_cached_path(e0, cur_id) =~= old_path + (
                    seq![d@] + spec_cached_path(e0, cur_id)));
                }
            },
            None => {
                proof {
                    assert(spec_cached_path(e0, cur_id) =~= Seq::empty());
                    assert(digest_seq(path@) + Seq::<Seq<u8>>::empty() =~= digest_seq(path@));
                }
                break ;
            },
        }
    }
    path
}

/// What a cache that is emptied before each statement does for a page:
/// a cached page is used, any other is asked for.
pub fn lookup_intra(cache: &mut SVCache, p_id: PageId) -> (step: PageStep)
    requires
        old(cache).wf(),
    ensures
        final(cache).wf(),
        final(cache).cap() == old(cache).cap(),
        final(cache).entries() == touched(old(cache).entries(), NodeId(0, p_id.0).spec_key()),
        same_nodes(final(cache), old(cache)),
        match old(cache).node(NodeId(0, p_id.0)) {
            Some(SVCacheNode::Leaf(l)) => step matches PageStep::Use(b) && b == l.bytes,
            _ => step is Query,
        },
{
    let id = NodeId::from_page_id(p_id);
    proof {
        lemma_touched(cache.entries(), id.spec_key());
        SVCache::lemma_touch_keeps_wf(cache.entries(), id.spec_key());
    }
    match cache.get_node(&id) {
        Some(SVCacheNode::Leaf(l)) => PageStep::Use(l.get_bytes()),
        _ => PageStep::Query,
    }
}

/// What a cache whose entries the server confirms does for a page: a
/// confirmed page is used; for one that is not confirmed the server is
/// shown the chain of hashes above it; any other is asked for.
pub fn lookup_both(cache: &mut SVCache, p_id: PageId) -> (step: PageStep)
    requires
        old(cache).wf(),
    ensures
        final(cache).wf(),
        final(cache).cap() == old(cache).cap(),
        same_nodes(final(cache), old(cache)),
        match old(cache).node(NodeId(0, p_id.0)) {
            Some(SVCacheNode::Leaf(l)) => if l.is_valid {
                &&& step matches PageStep::Use(b) && b == l.bytes
                &&& final(cache).entries() == touched(
                    old(cache).entries(),
                    NodeId(0, p_id.0).spec_key(),
                )
            } else {
                &&& step matches PageStep::Confirm(path, b) && b == l.bytes && digest_seq(path@)
                    == seq![l.spec_digest()] + spec_cached_path(
                    old(cache).entries(),
                    NodeId(0, p_id.0),
                )
                &&& final(cache).entries() == spec_path_entries(
                    touched(old(cache).entries(), NodeId(0, p_id.0).spec_key()),
                    NodeId(0, p_id.0),
                )
            },
            _ => step is Query && final(cache).entries() == touched(
                old(cache).entries(),
                NodeId(0, p_id.0).spec_key(),
            ),
        },
{
    let id = NodeId::from_page_id(p_id);
    let ghost e0 = cache.entries();
    proof {
        vstd::arithmetic::power2::lemma2_to64();
        lemma_touched(e0, id.spec_key());
        SVCache::lemma_touch_keeps_wf(e0, id.spec_key());
    }
    let leaf = match cache.get_node(&id) {
        Some(SVCacheNode::Leaf(l)) => l.duplicate(),
        _ => {
            return PageStep::Query;
        },
    };
    if leaf.is_valid() {
        PageStep::Use(leaf.get_bytes())
    } else {
        let leaf_dig = leaf.to_digest();
        let bytes = leaf.get_bytes();
        let ghost e1 = cache.entries();
        let path = cached_path(cache, id, leaf_dig);
        proof {
            lemma_same_path(e1, e0, id);
        }
        PageStep::Confirm(path, bytes)
    }
}

/// The chain above a node is the same in two orders of the same entries.
pub proof fn lemma_same_path(a: Seq<(u64, SVCacheNode)>, b: Seq<(u64, SVCacheNode)>, cur: NodeId)
    requires
        forall|k: u64| #[trigger] entry_of(a, k) == entry_of(b, k),
    ensures
        spec_cached_path(a, cur) == spec_cached_path(b, cur),
    decreases 32 - cur.0,
{
    let sk = cur.sibling().spec_key();
    assert(entry_of(a, sk) == entry_of(b, sk));
    assert(has_key(a, sk) == has_key(b, sk));
    if cur.0 < 32 && has_key(a, sk) {
        assert(entry_of(a, cur.parent().spec_key()) == entry_of(b, cur.parent().spec_key()));
        lemma_same_path(a, b, cur.parent());
    }
}

/// What a cache that checks its pages against the version filter does
/// for a page: a confirmed page is used; one that is not confirmed is
/// used and confirmed where the filter holds no write after the page's
/// version, else the server is shown the chain of hashes above it; any
/// other is asked for.
pub fn lookup_simple_bloom(cache: &mut SVCache, vbf: &VersionBloomFilter, p_id: PageId) -> (step:
    PageStep)
    requires
        old(cache).wf(),
        vbf.usable(),
    ensures
        final(cache).wf(),
        final(cache).cap() == old(cache).cap(),
        match old(cache).node(NodeId(0, p_id.0)) {
            Some(SVCacheNode::Leaf(l)) => if l.is_valid {
                &&& step matches PageStep::Use(b) && b == l.bytes
                &&& same_nodes(final(cache), old(cache))
                &&& final(cache).entries() == touched(
                    old(cache).entries(),
                    NodeId(0, p_id.0).spec_key(),
                )
            } else if !vbf.spec_contains(p_id.0, l.version) {
                &&& step matches PageStep::Use(b) && b == l.bytes
                &&& final(cache).entries() == spec_confirm(
                    touched(old(cache).entries(), NodeId(0, p_id.0).spec_key()),
                    NodeId(0, p_id.0),
                    1,
                    None,
                )
            } else {
                &&& step matches PageStep::Confirm(path, b) && b == l.bytes && digest_seq(path@)
                    == seq![l.spec_digest()] + spec_cached_path(
                    old(cache).entries(),
                    NodeId(0, p_id.0),
                )
                &&& same_nodes(final(cache), old(cache))
                &&& final(cache).entries() == spec_path_entries(
                    touched(old(cache).entries(), NodeId(0, p_id.0).spec_key()),
                    NodeId(0, p_id.0),
                )
            },
            _ => step is Query && same_nodes(final(cache), old(cache)) && final(cache).entries()
                == touched(old(cache).entries(), NodeId(0, p_id.0).spec_key()),
        },
{
    let id = NodeId::from_page_id(p_id);
    let ghost e0 = cache.entries();
    proof {
        vstd::arithmetic::power2::lemma2_to64();
        lemma_touched(e0, id.spec_key());
        SVCache::lemma_touch_keeps_wf(e0, id.spec_key());
    }
    let leaf = match cache.get_node(&id) {
        Some(SVCacheNode::Leaf(l)) => l.duplicate(),
        _ => {
            return PageStep::Query;
        },
    };
    if leaf.is_valid() {
        return PageStep::Use(leaf.get_bytes());
    }
    let leaf_v = leaf.get_version();
    if !vbf.contains(p_id, leaf_v) {
        cache.confirm(id);
        PageStep::Use(leaf.get_bytes())
    } else {
        let leaf_dig = leaf.to_digest();
        let bytes = leaf.get_bytes();
        let ghost e1 = cache.entries();
        let path = cached_path(cache, id, leaf_dig);
        proof {
            lemma_same_path(e1, e0, id);
        }
        PageStep::Confirm(path, bytes)
    }
}

/// Takes a page that the server sent without a cache: the digest of its
/// bytes enters the read set.
pub fn record_page(map: &mut HashMap<u32, Digest>, p_id: PageId, bytes: Box<[u8; 4096]>) -> (page:
    Page)
    ensures
        page.p_id == p_id,
        page.bytes == bytes,
        final(map)@.dom() == old(map)@.dom().insert(p_id.0),
        final(map)@[p_id.0]@ == blake2b_256(bytes@),
        forall|q: u32| q != p_id.0 && old(map)@.contains_key(q) ==> final(map)@[q] == old(map)@[q],
{
    let dig = bytes.as_slice().to_digest();
    map.insert(p_id.get_id(), dig);
    Page::new(p_id, bytes)
}

/// Takes a page that the server sent: the digest of its bytes enters the
/// read set, and the page enters the cache at the version `version`.
pub fn accept_page(
    cache: &mut SVCache,
    map: &mut HashMap<u32, Digest>,
    p_id: PageId,
    bytes: Box<[u8; 4096]>,
    version: u32,
) -> (page: Page)
    requires
        old(cache).wf(),
    ensures
        page.p_id == p_id,
        page.bytes == bytes,
        final(map)@.dom() == old(map)@.dom().insert(p_id.0),
        final(map)@[p_id.0]@ == blake2b_256(bytes@),
        forall|q: u32| q != p_id.0 && old(map)@.contains_key(q) ==> final(map)@[q] == old(map)@[q],
        final(cache).wf(),
        final(cache).cap() == old(cache).cap(),
        final(cache).entries() == spec_insert(
            old(cache).entries(),
            old(cache).cap(),
            SVCacheLeafNode { id: NodeId(0, p_id.0), bytes, version, is_valid: true },
        ),
{
    let dig = bytes.as_slice().to_digest();
    map.insert(p_id.get_id(), dig);
    let copy = Box::new(*bytes);
    cache.insert(p_id, bytes, version);
    Page::new(p_id, copy)
}

/// Takes the server's word that the chain of hashes holds up to the node
/// `sub_root`: the digest of the cached bytes enters the read set, and
/// every cached node under `sub_root` is confirmed, the leaves at the
/// version `version` where one is given. A node that is no node of a
/// tree over 32-bit page ids is not taken, and nothing changes.
pub fn accept_confirm(
    cache: &mut SVCache,
    map: &mut HashMap<u32, Digest>,
    p_id: PageId,
    bytes: Box<[u8; 4096]>,
    sub_root: NodeId,
    version: Option<u32>,
) -> (r: Result<Page, ClientError>)
    requires
        old(cache).wf(),
    ensures
        final(cache).wf(),
        final(cache).cap() == old(cache).cap(),
        match r {
            Ok(page) => {
                &&& in_range(sub_root)
                &&& page.p_id == p_id
                &&& page.bytes == bytes
                &&& final(map)@.dom() == old(map)@.dom().insert(p_id.0)
                &&& final(map)@[p_id.0]@ == blake2b_256(bytes@)
                &&& forall|q: u32|
                    q != p_id.0 && old(map)@.contains_key(q) ==> final(map)@[q] == old(map)@[q]
                &&& final(cache).entries() == spec_confirm(
                    old(cache).entries(),
                    sub_root,
                    (sub_root.0 + 1) as nat,
                    version,
                )
            },
            Err(e) => {
                &&& !in_range(sub_root)
                &&& e == ClientError::NodeOutOfRange
                &&& final(map)@ == old(map)@
                &&& final(cache).entries() == old(cache).entries()
            },
        },
{
    if !node_in_range(&sub_root) {
        return Err(ClientError::NodeOutOfRange);
    }
    let dig = bytes.as_slice().to_digest();
    map.insert(p_id.get_id(), dig);
    match version {
        Some(v) => cache.confirm_with_version(sub_root, v),
        None => cache.confirm(sub_root),
    }
    Ok(Page::new(p_id, bytes))
}

/// Prepares the cache for the next statement: a cache that lasts one
/// statement is emptied, one that lasts longer has every entry marked as
/// not confirmed. Says whether the version filter is to be fetched anew,
/// as a cache that checks against it needs.
pub fn start_statement(tp: crate::vfs::Type, cache: &mut SVCache) -> (refresh: bool)
    requires
        old(cache).wf(),
    ensures
        final(cache).wf(),
        final(cache).cap() == old(cache).cap(),
        refresh == (tp == crate::vfs::Type::BothBloom || tp == crate::vfs::Type::SimpleBloom),
        tp == crate::vfs::Type::NoCache ==> final(cache).entries() == old(cache).entries(),
        tp == crate::vfs::Type::Intra ==> final(cache).entries() == Seq::<
            (u64, SVCacheNode),
        >::empty(),
        tp != crate::vfs::Type::NoCache && tp != crate::vfs::Type::Intra ==> final(cache).entries()
            == crate::simple_vcache::spec_unconfirm(old(cache).entries()),
{
    match tp {
        crate::vfs::Type::NoCache => false,
        crate::vfs::Type::Intra => {
            cache.clear();
            false
        },
        crate::vfs::Type::Both => {
            cache.unconfirm();
            false
        },
        crate::vfs::Type::BothBloom | crate::vfs::Type::SimpleBloom => {
            cache.unconfirm();
            true
        },
    }
}

/// The number of entries at the start of `path`, among the first `k`,
/// whose slots hold no write after the entry's version: the chain is
/// followed until the filter holds such a write.
pub open spec fn spec_fresh_levels(
    vbf: &VersionBloomFilter,
    path: Seq<(u32, Set<usize>)>,
    k: nat,
) -> nat
    decreases k,
{
    if k == 0 {
        0
    } else {
        let m = spec_fresh_levels(vbf, path, (k - 1) as nat);
        if m == k - 1 && !vbf.spec_contains_subroot(path[k - 1].1, path[k - 1].0) {
            k
        } else {
            m
        }
    }
}

/// The versions and slots of a path as plain values.
pub open spec fn slot_views(path: Seq<(u32, std::collections::HashSet<usize>)>) -> Seq<
    (u32, Set<usize>),
> {
    Seq::new(path.len(), |i: int| (path[i].0, path[i].1@))
}

/// The highest cached node above page `p_id` that can be used without
/// asking the server: `path` holds, for the leaf and then for each cached
/// node above it, the version of the node and the slots of the pages under
/// it, and a node can be used if the filter holds no write after its
/// version in any of its slots, and every node below it on the path can be
/// used. None where not even the leaf can be used.
pub fn reusable_sub_root(
    vbf: &VersionBloomFilter,
    p_id: PageId,
    path: &Vec<(u32, std::collections::HashSet<usize>)>,
) -> (r: Option<NodeId>)
    requires
        path@.len() <= u32::MAX,
        forall|i: int, idx: usize|
            0 <= i < path@.len() && #[trigger] path@[i].1@.contains(idx) ==> idx < vbf.map_size(),
    ensures
        ({
            let m = spec_fresh_levels(vbf, slot_views(path@), path@.len());
            &&& m == 0 ==> r is None
            &&& m > 0 ==> r == Some(crate::read::ancestor(p_id.0, (m - 1) as u32))
        }),
{
    let mut valid_flag = false;
    let mut cur_id = NodeId::from_page_id(p_id);
    let mut target_n_id = NodeId::new(0, 0);
    proof {
        vstd::arithmetic::power2::lemma2_to64();
        crate::tree_model::lemma_ancestor_width(p_id.0, 0);
    }
    let mut i: usize = 0;
    while i < path.len()
        invariant_except_break
            i <= path.len() <= u32::MAX,
            forall|j: int, idx: usize|
                0 <= j < path@.len() && #[trigger] path@[j].1@.contains(idx) ==> idx
                    < vbf.map_size(),
            cur_id == crate::read::ancestor(p_id.0, i as u32),
            spec_fresh_levels(vbf, slot_views(path@), i as nat) == i,
            valid_flag == (i > 0),
            i > 0 ==> target_n_id == crate::read::ancestor(p_id.0, (i - 1) as u32),
        ensures
            ({
                let m = spec_fresh_levels(vbf, slot_views(path@), path@.len());
                &&& valid_flag == (m > 0)
                &&& m > 0 ==> target_n_id == crate::read::ancestor(p_id.0, (m - 1) as u32)
            }),
        decreases path.len() - i,
    {
        assert forall|idx: usize| path@[i as int].1@.contains(idx) implies idx
            < vbf.map_size() by {}
        if !vbf.contains_subroot(&path[i].1, path[i].0) {
            target_n_id = cur_id;
            valid_flag = true;
        } else {
            proof {
                lemma_fresh_levels_stop(vbf, slot_views(path@), i as nat, path@.len());
            }
            break ;
        }
        if i + 1 < path.len() {
            proof {
                crate::tree_model::lemma_ancestor_parent(p_id.0, i as u32);
            }
            cur_id = cur_id.get_parent_id();
        } else {
            i += 1;
            break ;
        }
        i += 1;
    }
    if valid_flag {
        Some(target_n_id)
    } else {
        None
    }
}

/// Where the chain stops at `m`, it stops there for every longer part
/// of the path.
pub proof fn lemma_fresh_levels_stop(
    vbf: &VersionBloomFilter,
    path: Seq<(u32, Set<usize>)>,
    m: nat,
    k: nat,
)
    requires
        m < k,
        spec_fresh_levels(vbf, path, m) == m,
        vbf.spec_contains_subroot(path[m as int].1, path[m as int].0),
    ensures
        spec_fresh_levels(vbf, path, k) == m,
    decreases k,
{
    if k > m + 1 {
        lemma_fresh_levels_stop(vbf, path, m, (k - 1) as nat);
    }
}

} // verus!
