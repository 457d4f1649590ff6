//! The client's side of a page read with the cache that keeps the slots
//! of subtrees: a page whose cached subtree the version filter shows
//! untouched is served without a word to the server.

use vstd::prelude::*;
use std::collections::{HashMap, HashSet};
use vstd::std_specs::iter::IteratorSpec;
use crate::cache_node::{SVCacheLeafNode, SVCacheNode, VCacheNode};
use crate::client::{
    digest_seq, node_in_range, reusable_sub_root, slot_views, spec_cached_path,
    spec_fresh_levels, spec_path_entries, ClientError, PageStep,
};
use crate::digest::{blake2b_256, Digest, Digestible};
use crate::lru_store::{entry_of, has_key, lemma_touched, touched};
use crate::node::NodeId;
use crate::page::{Page, PageId};
use crate::read::ancestor;
use crate::simple_vcache::{
    in_range, lemma_parent_in_range, spec_confirm, spec_insert, SVCache,
};
use crate::vbf::VersionBloomFilter;
use crate::version_cache::{
    spec_prune, spec_retag, spec_retime, spec_tag_path, TagView, VCache,
};

verus! {

broadcast use vstd::std_specs::hash::group_hash_axioms;

/// Whether every slot of the path is a slot of a table of `m` slots.
pub open spec fn fits(path: Seq<TagView>, m: u64) -> bool {
    forall|i: int, idx: usize| 0 <= i < path.len() && #[trigger] path[i].1.contains(idx) ==> idx < m
}

/// Whether every slot of the path is a slot of a table of `m` slots.
pub fn slots_fit(path: &Vec<(u32, HashSet<usize>)>, m: u64) -> (r: bool)
    ensures
        r == fits(slot_views(path@), m),
{
    let mut i: usize = 0;
    while i < path.len()
        invariant
            i <= path.len(),
            forall|j: int, idx: usize|
                0 <= j < i && #[trigger] path@[j].1@.contains(idx) ==> idx < m,
        decreases path.len() - i,
    {
        let set = &path[i].1;
        let ghost keys: Seq<usize> = set.iter().remaining().unref();
        for idx in it: set.iter()
            invariant
                it.seq().unref() == keys,
                keys.to_set() == set@,
                set@ == path@[i as int].1@,
                i < path.len(),
                forall|j: int| 0 <= j < it.index() ==> #[trigger] keys[j] < m,
        {
            assert(keys[it.index() as int] == *idx);
            if (*idx) as u64 >= m {
                proof {
                    assert(keys.contains(*idx));
                    assert(keys.to_set().contains(*idx));
                    assert(slot_views(path@)[i as int].1.contains(*idx));
                }
                return false;
            }
        }
        proof {
            assert forall|idx: usize| path@[i as int].1@.contains(idx) implies idx < m by {
                assert(keys.to_set().contains(idx));
                assert(keys.contains(idx));
                let j = choose|j: int| 0 <= j < keys.len() && keys[j] == idx;
                assert(keys[j] < m);
            }
        }
        i += 1;
    }
    proof {
        assert forall|j: int, idx: usize|
            0 <= j < slot_views(path@).len() && #[trigger] slot_views(path@)[j].1.contains(
                idx,
            ) implies idx < m by {
            assert(path@[j].1@.contains(idx));
        }
    }
    true
}

/// The chain of cached nodes above a node has at most as many nodes as
/// there are heights above the node.
pub proof fn lemma_cached_path_len(e: Seq<(u64, SVCacheNode)>, cur: NodeId)
    requires
        cur.0 <= 32,
    ensures
        spec_cached_path(e, cur).len() <= 32 - cur.0,
    decreases 32 - cur.0,
{
    if cur.0 < 32 && has_key(e, cur.sibling().spec_key()) && entry_of(
        e,
        cur.parent().spec_key(),
    ) is Some {
        lemma_cached_path_len(e, cur.parent());
    }
}

/// The node of a height up to 32 above a page is a node of a tree over
/// 32-bit page ids.
pub proof fn lemma_ancestor_in_range(p: u32, h: u32)
    requires
        h <= 32,
    ensures
        in_range(ancestor(p, h)),
    decreases h,
{
    vstd::arithmetic::power2::lemma2_to64();
    if h == 0 {
        crate::tree_model::lemma_ancestor_parent(p, 0);
    } else {
        lemma_ancestor_in_range(p, (h - 1) as u32);
        crate::tree_model::lemma_ancestor_parent(p, (h - 1) as u32);
        lemma_parent_in_range(ancestor(p, (h - 1) as u32));
    }
}

/// The run of tags over `n` levels has at most `n` tags.
pub proof fn lemma_tag_path_len(t: Map<u64, TagView>, p: u32, n: nat)
    ensures
        spec_tag_path(t, p, n).len() <= n,
    decreases n,
{
    if n > 0 {
        lemma_tag_path_len(t, p, (n - 1) as nat);
    }
}

/// Of the first `k` levels at most `k` can be used.
pub proof fn lemma_fresh_levels_len(vbf: &VersionBloomFilter, path: Seq<TagView>, k: nat)
    ensures
        spec_fresh_levels(vbf, path, k) <= k,
    decreases k,
{
    if k > 0 {
        lemma_fresh_levels_len(vbf, path, (k - 1) as nat);
    }
}

/// The number of levels above page `p`, the leaf included, that can be
/// used without asking the server: the levels of the chain of cached nodes
/// above the page that have tags, as far as the version filter holds no
/// write after a node's version in any of its slots. None where a slot
/// is no slot of the filter's table.
pub open spec fn spec_reusable_levels(
    e: Seq<(u64, SVCacheNode)>,
    t: Map<u64, TagView>,
    vbf: &VersionBloomFilter,
    p: u32,
) -> nat {
    let chain = spec_cached_path(e, NodeId(0, p)).len() + 1;
    let tags = spec_tag_path(t, p, chain);
    if fits(tags, vbf.map_size()) {
        spec_fresh_levels(vbf, tags, tags.len())
    } else {
        0
    }
}

/// What the cache that keeps the slots of subtrees does for a page: a
/// confirmed page is used; one that is not confirmed is used where the
/// version filter shows the page, or a cached subtree around it,
/// untouched since it was read or confirmed, and the highest such subtree
/// is then confirmed; else the server is shown the chain of hashes above
/// the page; a page that the cache does not hold is asked for.
pub fn lookup_both_bloom(cache: &mut VCache, vbf: &VersionBloomFilter, p_id: PageId) -> (step:
    PageStep)
    requires
        old(cache).wf(),
    ensures
        final(cache).wf(),
        final(cache).cap() == old(cache).cap(),
        final(cache).tags() == old(cache).tags(),
        ({
            let id = NodeId(0, p_id.0);
            let e0 = old(cache).entries();
            let e1 = touched(e0, id.spec_key());
            match entry_of(e0, id.spec_key()) {
                Some(SVCacheNode::Leaf(l)) if old(cache).holds(id) => if l.is_valid {
                    &&& step matches PageStep::Use(b) && b == l.bytes
                    &&& final(cache).entries() == e1
                } else {
                    let m = spec_reusable_levels(e0, old(cache).tags(), vbf, p_id.0);
                    if m > 0 {
                        &&& step matches PageStep::Use(b) && b == l.bytes
                        &&& final(cache).entries() == spec_confirm(
                            spec_path_entries(e1, id),
                            ancestor(p_id.0, (m - 1) as u32),
                            m,
                            None,
                        )
                    } else {
                        &&& step matches PageStep::Confirm(path, b) && b == l.bytes && digest_seq(
                            path@,
                        ) == seq![l.spec_digest()] + spec_cached_path(e0, id)
                        &&& final(cache).entries() == spec_path_entries(e1, id)
                    }
                },
                _ => step is Query && final(cache).entries() == e1,
            }
        }),
{
    let id = NodeId::from_page_id(p_id);
    let ghost e0 = cache.entries();
    proof {
        vstd::arithmetic::power2::lemma2_to64();
        lemma_touched(e0, id.spec_key());
        SVCache::lemma_touch_keeps_wf(e0, id.spec_key());
    }
    let leaf = match cache.get_node(&id) {
        Some(VCacheNode::Leaf(l)) => l,
        _ => {
            return PageStep::Query;
        },
    };
    if leaf.is_valid() {
        return PageStep::Use(leaf.get_bytes());
    }
    let leaf_dig = leaf.to_digest();
    let bytes = leaf.get_bytes();
    let ghost e1 = cache.entries();
    let path = cache.cached_path(id, leaf_dig);
    proof {
        crate::client::lemma_same_path(e1, e0, id);
        lemma_cached_path_len(e0, id);
        assert(digest_seq(path@).len() == path@.len());
    }
    let tags = cache.tag_path(p_id, path.len());
    let ghost m = spec_reusable_levels(e0, old(cache).tags(), vbf, p_id.0);
    proof {
        assert(path@.len() == spec_cached_path(e0, id).len() + 1);
        lemma_tag_path_len(old(cache).tags(), p_id.0, path@.len() as nat);
        assert(slot_views(tags@).len() == tags@.len());
        lemma_fresh_levels_len(vbf, slot_views(tags@), tags@.len() as nat);
    }
    let target = if slots_fit(&tags, vbf.get_map_size()) {
        proof {
            assert forall|i: int, idx: usize|
                0 <= i < tags@.len() && #[trigger] tags@[i].1@.contains(idx) implies idx
                < vbf.map_size() by {
                assert(slot_views(tags@)[i].1.contains(idx));
            }
        }
        reusable_sub_root(vbf, p_id, &tags)
    } else {
        None
    };
    match target {
        Some(sub_root) => {
            proof {
                assert(0 < m <= 33);
                lemma_ancestor_in_range(p_id.0, (m - 1) as u32);
                crate::tree_model::lemma_ancestor_width(p_id.0, (m - 1) as u32);
            }
            cache.confirm(sub_root);
            PageStep::Use(bytes)
        },
        None => PageStep::Confirm(path, bytes),
    }
}

/// Takes a page that the server sent: the digest of its bytes enters the
/// read set, and the page enters the cache at the version `version`,
/// with the slots that the version filter gives it.
pub fn accept_page_bloom(
    cache: &mut VCache,
    vbf: &VersionBloomFilter,
    map: &mut HashMap<u32, Digest>,
    p_id: PageId,
    bytes: Box<[u8; 4096]>,
    version: u32,
) -> (page: Page)
    requires
        old(cache).wf(),
        vbf.usable(),
    ensures
        page.p_id == p_id,
        page.bytes == bytes,
        final(map)@.dom() == old(map)@.dom().insert(p_id.0),
        final(map)@[p_id.0]@ == blake2b_256(bytes@),
        forall|q: u32| q != p_id.0 && old(map)@.contains_key(q) ==> final(map)@[q] == old(map)@[q],
        final(cache).wf(),
        final(cache).cap() == old(cache).cap(),
        final(cache).entries() == spec_insert(
            old(cache).entries(),
            old(cache).cap(),
            SVCacheLeafNode { id: NodeId(0, p_id.0), bytes, version, is_valid: true },
        ),
        exists|slots: Set<usize>|
            {
                &&& forall|x: usize|
                    slots.contains(x) <==> exists|i: int|
                        0 <= i < vbf.hash_num() && #[trigger] vbf.slot(p_id.0, i) == x
                &&& final(cache).tags() == spec_prune(
                    final(cache).entries(),
                    spec_retag(
                        final(cache).entries(),
                        old(cache).tags().insert(NodeId(0, p_id.0).spec_key(), (version, slots)),
                        NodeId(0, p_id.0),
                    ),
                )
            },
{
    let dig = bytes.as_slice().to_digest();
    map.insert(p_id.get_id(), dig);
    let copy = Box::new(*bytes);
    let idxes = vbf.get_bf_pos(p_id);
    cache.insert(p_id, bytes, version, idxes);
    Page::new(p_id, copy)
}

/// Takes the server's word that the chain of hashes holds up to the node
/// `sub_root`: the digest of the cached bytes enters the read set, and
/// every cached node under `sub_root` is confirmed at the version
/// `version`. A node that is no node of a tree over 32-bit page ids is
/// not taken, and nothing changes.
pub fn accept_confirm_bloom(
    cache: &mut VCache,
    map: &mut HashMap<u32, Digest>,
    p_id: PageId,
    bytes: Box<[u8; 4096]>,
    sub_root: NodeId,
    version: u32,
) -> (r: Result<Page, ClientError>)
    requires
        old(cache).wf(),
    ensures
        final(cache).wf(),
        final(cache).cap() == old(cache).cap(),
        match r {
            Ok(page) => {
                &&& in_range(sub_root)
                &&& page.p_id == p_id
                &&& page.bytes == bytes
                &&& final(map)@.dom() == old(map)@.dom().insert(p_id.0)
                &&& final(map)@[p_id.0]@ == blake2b_256(bytes@)
                &&& forall|q: u32|
                    q != p_id.0 && old(map)@.contains_key(q) ==> final(map)@[q] == old(map)@[q]
                &&& final(cache).entries() == spec_confirm(
                    old(cache).entries(),
                    sub_root,
                    (sub_root.0 + 1) as nat,
                    Some(version),
                )
                &&& final(cache).tags() == spec_retime(old(cache).tags(), sub_root, version)
            },
            Err(e) => {
                &&& !in_range(sub_root)
                &&& e == ClientError::NodeOutOfRange
                &&& final(map)@ == old(map)@
                &&& final(cache).entries() == old(cache).entries()
                &&& final(cache).tags() == old(cache).tags()
            },
        },
{
    if !node_in_range(&sub_root) {
        return Err(ClientError::NodeOutOfRange);
    }
    let dig = bytes.as_slice().to_digest();
    map.insert(p_id.get_id(), dig);
    cache.confirm_with_version(sub_root, version);
    Ok(Page::new(p_id, bytes))
}

} // verus!
