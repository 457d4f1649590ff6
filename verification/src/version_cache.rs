//! The page cache that keeps, beside each node, the version at which the
//! node was read or last confirmed and the slots of the version filter
//! that the pages under the node fall into. A whole cached subtree can
//! then be checked against the filter at once. The nodes themselves are
//! kept as in the plain page cache; a node counts as cached only together
//! with its version and slots.

use vstd::prelude::*;
use std::collections::{HashMap, HashSet};
use vstd::std_specs::iter::IteratorSpec;
use crate::cache_node::{
    SVCacheLeafNode, SVCacheNode, VCacheLeafNode, VCacheNode, VCacheNonLeafNode,
};
use crate::lru_store::{entry_of, has_key, lemma_touched, touched};
use crate::client::{
    cached_path, digest_seq, same_nodes, slot_views, spec_cached_path, spec_path_entries,
};
use crate::digest::Digest;
use crate::node::NodeId;
use crate::read::ancestor;
use crate::page::PageId;
use crate::simple_vcache::{covered, in_range, spec_insert, SVCache};
use vstd::arithmetic::power2::{lemma2_to64, pow2};

verus! {

broadcast use vstd::std_specs::hash::group_hash_axioms;

/// What the cache keeps beside a node: the version at which the node was
/// read or last confirmed, and the slots of the pages under it.
pub struct SubtreeTag {
    pub version: u32,
    pub idxes: HashSet<usize>,
}

/// A tag as plain values: the version and the slots.
pub type TagView = (u32, Set<usize>);

/// The tags as plain values, by node key.
pub open spec fn tag_views(t: Map<u64, SubtreeTag>) -> Map<u64, TagView> {
    Map::new(|k: u64| t.contains_key(k), |k: u64| (t[k].version, t[k].idxes@))
}

/// A copy of a set of slots.
pub fn copy_slots(s: &HashSet<usize>) -> (c: HashSet<usize>)
    ensures
        c@ == s@,
{
    let mut c: HashSet<usize> = HashSet::new();
    let ghost keys: Seq<usize> = s.iter().remaining().unref();
    for x in it: s.iter()
        invariant
            it.seq().unref() == keys,
            keys.to_set() == s@,
            forall|y: usize| c@.contains(y) <==> exists|j: int| 0 <= j < it.index() && keys[j] == y,
    {
        assert(keys[it.index() as int] == *x);
        c.insert(*x);
    }
    proof {
        assert forall|y: usize| c@.contains(y) <==> s@.contains(y) by {
            if s@.contains(y) {
                assert(keys.to_set().contains(y));
                assert(keys.contains(y));
            }
            if c@.contains(y) {
                let j = choose|j: int| 0 <= j < keys.len() && keys[j] == y;
                assert(keys.contains(keys[j]));
                assert(keys.to_set().contains(y));
            }
        }
        assert(c@ =~= s@);
    }
    c
}

/// The slots of either set.
pub fn join_slots(a: &HashSet<usize>, b: &HashSet<usize>) -> (c: HashSet<usize>)
    ensures
        c@ == a@.union(b@),
{
    let mut c = copy_slots(a);
    let ghost keys: Seq<usize> = b.iter().remaining().unref();
    for x in it: b.iter()
        invariant
            it.seq().unref() == keys,
            keys.to_set() == b@,
            forall|y: usize|
                c@.contains(y) <==> a@.contains(y) || exists|j: int|
                    0 <= j < it.index() && keys[j] == y,
    {
        assert(keys[it.index() as int] == *x);
        c.insert(*x);
    }
    proof {
        assert forall|y: usize| c@.contains(y) <==> a@.union(b@).contains(y) by {
            if b@.contains(y) {
                assert(keys.to_set().contains(y));
                assert(keys.contains(y));
            }
            if c@.contains(y) && !a@.contains(y) {
                let j = choose|j: int| 0 <= j < keys.len() && keys[j] == y;
                assert(keys.contains(keys[j]));
                assert(keys.to_set().contains(y));
            }
        }
        assert(c@ =~= a@.union(b@));
    }
    c
}

/// Whether `v` is the node `n` together with the tag `tag`.
pub open spec fn joins(n: SVCacheNode, tag: TagView, v: VCacheNode) -> bool {
    match (n, v) {
        (SVCacheNode::Leaf(l), VCacheNode::Leaf(r)) => {
            &&& r.id == l.id
            &&& r.bytes == l.bytes
            &&& r.is_valid == l.is_valid
            &&& r.version == tag.0
            &&& r.idxes@ == tag.1
        },
        (SVCacheNode::NonLeaf(m), VCacheNode::NonLeaf(r)) => {
            &&& r.id == m.id
            &&& r.hash == m.hash
            &&& r.is_valid == m.is_valid
            &&& r.version == tag.0
            &&& r.idxes@ == tag.1
        },
        _ => false,
    }
}

/// The tags after a confirmation of the node `root` at the version `v`:
/// the tag of every node under `root`, `root` itself included, has the
/// version `v`; its slots are as they were.
pub open spec fn spec_retime(t: Map<u64, TagView>, root: NodeId, v: u32) -> Map<u64, TagView> {
    Map::new(
        |k: u64| t.contains_key(k),
        |k: u64|
            if covered(root, NodeId::of_key(k)) {
                (v, t[k].1)
            } else {
                t[k]
            },
    )
}

/// The tag of a parent from the tags of its children: the older of the
/// two versions, and the slots of both.
pub open spec fn spec_join(a: TagView, b: TagView) -> TagView {
    (
        if a.0 <= b.0 {
            a.0
        } else {
            b.0
        },
        a.1.union(b.1),
    )
}

/// The tags after the cached nodes above `cur` were given theirs: as long
/// as the cache holds the parent of the node, and the node and its
/// sibling have tags, the parent gets the tag joined from the two.
pub open spec fn spec_retag(e: Seq<(u64, SVCacheNode)>, t: Map<u64, TagView>, cur: NodeId) -> Map<
    u64,
    TagView,
>
    decreases 32 - cur.0,
{
    let pk = cur.parent().spec_key();
    let ck = cur.spec_key();
    let sk = cur.sibling().spec_key();
    if cur.0 < 32 && has_key(e, pk) && t.contains_key(ck) && t.contains_key(sk) {
        spec_retag(e, t.insert(pk, spec_join(t[ck], t[sk])), cur.parent())
    } else {
        t
    }
}

/// Giving the nodes above `cur` their tags leaves the tag of every node
/// that is not higher than `cur` as it was.
pub proof fn lemma_retag_keeps_lower(
    e: Seq<(u64, SVCacheNode)>,
    t: Map<u64, TagView>,
    cur: NodeId,
    id: NodeId,
)
    requires
        id.0 <= cur.0,
    ensures
        spec_retag(e, t, cur).contains_key(id.spec_key()) == t.contains_key(id.spec_key()),
        t.contains_key(id.spec_key()) ==> spec_retag(e, t, cur)[id.spec_key()] == t[id.spec_key()],
    decreases 32 - cur.0,
{
    let pk = cur.parent().spec_key();
    let ck = cur.spec_key();
    let sk = cur.sibling().spec_key();
    if cur.0 < 32 && has_key(e, pk) && t.contains_key(ck) && t.contains_key(sk) {
        NodeId::lemma_key_of(cur.parent());
        NodeId::lemma_key_of(id);
        lemma_retag_keeps_lower(e, t.insert(pk, spec_join(t[ck], t[sk])), cur.parent(), id);
    }
}

/// **The tag of a parent is joined from the tags of its children.**
/// Where the cache holds the parent of `cur`, and `cur` and its sibling
/// have tags, then after the nodes above `cur` were given their tags the
/// parent has the older of the two versions and the slots of both, and
/// the two tags are as they were.
pub proof fn lemma_retag_joins(e: Seq<(u64, SVCacheNode)>, t: Map<u64, TagView>, cur: NodeId)
    requires
        cur.0 < 32,
        has_key(e, cur.parent().spec_key()),
        t.contains_key(cur.spec_key()),
        t.contains_key(cur.sibling().spec_key()),
    ensures
        ({
            let after = spec_retag(e, t, cur);
            let a = t[cur.spec_key()];
            let b = t[cur.sibling().spec_key()];
            &&& after.contains_key(cur.parent().spec_key())
            &&& after[cur.parent().spec_key()] == spec_join(a, b)
            &&& after[cur.parent().spec_key()].0 <= a.0
            &&& after[cur.parent().spec_key()].0 <= b.0
            &&& a.1.subset_of(after[cur.parent().spec_key()].1)
            &&& b.1.subset_of(after[cur.parent().spec_key()].1)
            &&& after[cur.spec_key()] == a
            &&& after[cur.sibling().spec_key()] == b
        }),
{
    let pk = cur.parent().spec_key();
    let ck = cur.spec_key();
    let sk = cur.sibling().spec_key();
    let t1 = t.insert(pk, spec_join(t[ck], t[sk]));
    NodeId::lemma_key_of(cur.parent());
    NodeId::lemma_key_of(cur);
    NodeId::lemma_key_of(cur.sibling());
    lemma_retag_keeps_lower(e, t1, cur.parent(), cur.parent());
    lemma_retag_keeps_lower(e, t1, cur.parent(), cur);
    lemma_retag_keeps_lower(e, t1, cur.parent(), cur.sibling());
}

/// Whether `k` is among the keys from index `i` on.
pub open spec fn waits(keys: Seq<u64>, i: int, k: u64) -> bool {
    exists|j: int| i <= j < keys.len() && #[trigger] keys[j] == k
}

/// The tags of the nodes that the cache holds.
pub open spec fn spec_prune(e: Seq<(u64, SVCacheNode)>, t: Map<u64, TagView>) -> Map<u64, TagView> {
    t.restrict(Set::new(|k: u64| has_key(e, k)))
}

/// The tags of the nodes above page `p`, from the leaf upward, for the
/// first `n` levels at most: the run ends at the first node without a
/// tag.
pub open spec fn spec_tag_path(t: Map<u64, TagView>, p: u32, n: nat) -> Seq<TagView>
    decreases n,
{
    if n == 0 {
        Seq::empty()
    } else {
        let before = spec_tag_path(t, p, (n - 1) as nat);
        let k = ancestor(p, (n - 1) as u32).spec_key();
        if before.len() == n - 1 && t.contains_key(k) {
            before.push(t[k])
        } else {
            before
        }
    }
}

/// Where the run of tags ends at level `m`, it ends there for every
/// greater number of levels.
pub proof fn lemma_tag_path_ends(t: Map<u64, TagView>, p: u32, m: nat, n: nat)
    requires
        m < n,
        spec_tag_path(t, p, m).len() == m,
        !t.contains_key(ancestor(p, m as u32).spec_key()),
    ensures
        spec_tag_path(t, p, n) == spec_tag_path(t, p, m),
    decreases n,
{
    if n > m + 1 {
        lemma_tag_path_ends(t, p, m, (n - 1) as nat);
    }
}

/// Two to the power of `d`.
fn two_to(d: u32) -> (a: u64)
    requires
        d <= 32,
    ensures
        a == pow2(d as nat),
        a <= 0x1_0000_0000,
{
    let mut a: u64 = 1;
    let mut i: u32 = 0;
    proof {
        lemma2_to64();
    }
    while i < d
        invariant
            i <= d <= 32,
            a == pow2(i as nat),
            a <= 0x1_0000_0000,
        decreases d - i,
    {
        proof {
            lemma2_to64();
            vstd::arithmetic::power2::lemma_pow2_unfold((i + 1) as nat);
            vstd::arithmetic::power2::lemma_pow2_strictly_increases(i as nat, 32);
            if i + 1 < 32 {
                vstd::arithmetic::power2::lemma_pow2_strictly_increases((i + 1) as nat, 32);
            }
        }
        a = a * 2;
        i += 1;
    }
    a
}

/// Whether the node `id` lies under the node `root`, `root` itself
/// included.
pub fn covers(root: NodeId, id: NodeId) -> (r: bool)
    requires
        in_range(root),
    ensures
        r == covered(root, id),
{
    if id.get_height() > root.get_height() {
        return false;
    }
    let a = two_to(root.get_height() - id.get_height());
    proof {
        SVCache::lemma_level_bound(root, id.0);
        assert((root.1 as nat + 1) * (a as nat) == (root.1 as nat) * (a as nat) + (a as nat))
            by (nonlinear_arith);
        assert((root.1 as nat) * (a as nat) >= 0) by (nonlinear_arith);
    }
    let lo: u64 = (root.get_width() as u64) * a;
    let hi: u64 = lo + a;
    let w = id.get_width() as u64;
    lo <= w && w < hi
}

/// The page cache with the slots of subtrees.
pub struct VCache {
    nodes: SVCache,
    tags: HashMap<u64, SubtreeTag>,
}

impl VCache {
    /// The nodes of the cache, as the plain page cache holds them.
    pub closed spec fn nodes(&self) -> SVCache {
        self.nodes
    }

    /// The tags of the cache, by node key.
    pub closed spec fn tags(&self) -> Map<u64, TagView> {
        tag_views(self.tags@)
    }

    /// The entries of the nodes, the most recently used first.
    pub open spec fn entries(&self) -> Seq<(u64, SVCacheNode)> {
        self.nodes().entries()
    }

    /// The number of nodes that the cache can hold.
    pub open spec fn cap(&self) -> usize {
        self.nodes().cap()
    }

    /// Whether the cache is in order: its nodes are, as in the plain page
    /// cache, and it keeps a tag only for a node that it holds.
    pub open spec fn wf(&self) -> bool {
        &&& self.nodes().wf()
        &&& forall|k: u64| #[trigger] self.tags().contains_key(k) ==> has_key(self.entries(), k)
    }

    /// The tags stay tags of cached nodes where each key keeps an entry.
    proof fn lemma_tags_held(
        tags: Map<u64, TagView>,
        a: Seq<(u64, SVCacheNode)>,
        b: Seq<(u64, SVCacheNode)>,
    )
        requires
            forall|k: u64| #[trigger] tags.contains_key(k) ==> has_key(a, k),
            forall|id: NodeId| #[trigger]
                entry_of(a, id.spec_key()) is Some ==> entry_of(b, id.spec_key()) is Some,
        ensures
            forall|k: u64| #[trigger] tags.contains_key(k) ==> has_key(b, k),
    {
        assert forall|k: u64| #[trigger] tags.contains_key(k) implies has_key(b, k) by {
            NodeId::lemma_of_key(k);
            assert(has_key(a, k));
            assert(entry_of(a, NodeId::of_key(k).spec_key()) is Some);
            assert(entry_of(b, NodeId::of_key(k).spec_key()) is Some);
        }
    }

    /// Whether the node `id` counts as cached: the cache holds it, and
    /// its tag.
    pub open spec fn holds(&self, id: NodeId) -> bool {
        has_key(self.entries(), id.spec_key()) && self.tags().contains_key(id.spec_key())
    }

    /// An empty cache for `cap` nodes.
    pub fn new(cap: usize) -> (c: VCache)
        ensures
            c.wf(),
            c.entries() == Seq::<(u64, SVCacheNode)>::empty(),
            c.cap() == cap,
            c.tags() == Map::<u64, TagView>::empty(),
    {
        let c = VCache { nodes: SVCache::new(cap), tags: HashMap::new() };
        assert(c.tags() =~= Map::<u64, TagView>::empty());
        c
    }

    /// The node of `id` with its tag, if it counts as cached. A node that
    /// the cache holds counts as used.
    pub fn get_node(&mut self, id: &NodeId) -> (r: Option<VCacheNode>)
        ensures
            final(self).entries() == touched(old(self).entries(), id.spec_key()),
            final(self).cap() == old(self).cap(),
            final(self).tags() == old(self).tags(),
            old(self).wf() ==> final(self).wf(),
            r is Some <==> old(self).holds(*id),
            r matches Some(v) ==> joins(
                entry_of(old(self).entries(), id.spec_key())->Some_0,
                old(self).tags()[id.spec_key()],
                v,
            ),
    {
        proof {
            if self.wf() {
                lemma_touched(self.entries(), id.spec_key());
                SVCache::lemma_touch_keeps_wf(self.entries(), id.spec_key());
                Self::lemma_tags_held(
                    self.tags(),
                    self.entries(),
                    touched(self.entries(), id.spec_key()),
                );
            }
        }
        let key = id.key();
        let tag = match self.tags.get(&key) {
            Some(t) => t,
            None => {
                let _ = self.nodes.get_node(id);
                return None;
            },
        };
        match self.nodes.get_node(id) {
            Some(SVCacheNode::Leaf(l)) => Some(
                VCacheNode::Leaf(
                    VCacheLeafNode {
                        id: l.id,
                        bytes: l.get_bytes(),
                        version: tag.version,
                        idxes: copy_slots(&tag.idxes),
                        is_valid: l.is_valid,
                    },
                ),
            ),
            Some(SVCacheNode::NonLeaf(m)) => Some(
                VCacheNode::NonLeaf(
                    VCacheNonLeafNode {
                        id: m.id,
                        hash: m.hash,
                        version: tag.version,
                        idxes: copy_slots(&tag.idxes),
                        is_valid: m.is_valid,
                    },
                ),
            ),
            None => None,
        }
    }

    /// The parent of `n_id` with its tag, if it counts as cached. A
    /// parent that the cache holds counts as used.
    pub fn find_parent(&mut self, n_id: NodeId) -> (r: Option<VCacheNode>)
        requires
            n_id.0 < u32::MAX,
        ensures
            final(self).entries() == touched(old(self).entries(), n_id.parent().spec_key()),
            final(self).cap() == old(self).cap(),
            final(self).tags() == old(self).tags(),
            old(self).wf() ==> final(self).wf(),
            r is Some <==> old(self).holds(n_id.parent()),
            r matches Some(v) ==> joins(
                entry_of(old(self).entries(), n_id.parent().spec_key())->Some_0,
                old(self).tags()[n_id.parent().spec_key()],
                v,
            ),
    {
        let parent_id = n_id.get_parent_id();
        self.get_node(&parent_id)
    }

    /// Whether the cache holds the sibling of `id`.
    pub fn has_sib(&self, id: NodeId) -> (r: bool)
        ensures
            r == has_key(self.entries(), id.sibling().spec_key()),
    {
        self.nodes.has_sib(id)
    }

    /// Empties the cache.
    pub fn clear(&mut self)
        ensures
            final(self).wf(),
            final(self).entries() == Seq::<(u64, SVCacheNode)>::empty(),
            final(self).cap() == old(self).cap(),
            final(self).tags() == Map::<u64, TagView>::empty(),
    {
        self.nodes.clear();
        self.tags.clear();
        assert(self.tags() =~= Map::<u64, TagView>::empty());
    }

    /// Marks every node as not confirmed.
    pub fn unconfirm(&mut self)
        requires
            old(self).wf(),
        ensures
            final(self).wf(),
            final(self).cap() == old(self).cap(),
            final(self).entries() == crate::simple_vcache::spec_unconfirm(old(self).entries()),
            final(self).tags() == old(self).tags(),
    {
        proof {
            let e = self.entries();
            assert forall|id: NodeId| #[trigger] entry_of(e, id.spec_key()) is Some implies entry_of(
                crate::simple_vcache::spec_unconfirm(e),
                id.spec_key(),
            ) is Some by {
                crate::simple_vcache::lemma_unconfirm(e, id.spec_key());
            }
            Self::lemma_tags_held(self.tags(), e, crate::simple_vcache::spec_unconfirm(e));
        }
        self.nodes.unconfirm();
    }

    /// Marks every node under `root_id` that the cache holds as confirmed.
    pub fn confirm(&mut self, root_id: NodeId)
        requires
            old(self).wf(),
            crate::simple_vcache::in_range(root_id),
        ensures
            final(self).wf(),
            final(self).cap() == old(self).cap(),
            final(self).entries() == crate::simple_vcache::spec_confirm(
                old(self).entries(),
                root_id,
                (root_id.0 + 1) as nat,
                None,
            ),
            final(self).tags() == old(self).tags(),
    {
        proof {
            let e = self.entries();
            let levels = (root_id.0 + 1) as nat;
            crate::simple_vcache::lemma_confirm(e, root_id, levels, None);
            Self::lemma_tags_held(
                self.tags(),
                e,
                crate::simple_vcache::spec_confirm(e, root_id, levels, None),
            );
        }
        self.nodes.confirm(root_id);
    }

    /// The bytes that the nodes count for, and the greatest height of a
    /// node above the leaves.
    pub fn cache_size_and_height(&self) -> (r: (u32, u32))
        requires
            self.wf(),
            self.entries().len() * 4100 <= u32::MAX,
        ensures
            r.0 == crate::simple_vcache::spec_size(self.entries(), self.entries().len()),
            r.1 == crate::simple_vcache::spec_max_height(self.entries(), self.entries().len()),
    {
        self.nodes.cache_size_and_height()
    }

    /// The keys of the tags, each once.
    fn tag_keys(&self) -> (keys: Vec<u64>)
        ensures
            keys@.no_duplicates(),
            forall|k: u64| keys@.contains(k) <==> self.tags().contains_key(k),
    {
        let mut keys: Vec<u64> = Vec::new();
        let ghost all: Seq<u64> = self.tags.keys().remaining().unref();
        proof {
            let raw = self.tags.keys().remaining();
            assert(raw.no_duplicates());
            assert forall|i: int, j: int|
                0 <= i < all.len() && 0 <= j < all.len() && i != j implies all[i] != all[j] by {
                assert(raw[i] != raw[j]);
            }
        }
        for k in it: self.tags.keys()
            invariant
                it.seq().unref() == all,
                all.to_set() == self.tags@.dom(),
                all.no_duplicates(),
                keys@ == all.subrange(0, it.index() as int),
        {
            assert(all[it.index() as int] == *k);
            keys.push(*k);
            assert(keys@ =~= all.subrange(0, it.index() + 1));
        }
        proof {
            assert(keys@ =~= all);
            assert forall|k: u64| keys@.contains(k) <==> self.tags().contains_key(k) by {
                if keys@.contains(k) {
                    assert(all.to_set().contains(k));
                }
                if self.tags().contains_key(k) {
                    assert(self.tags@.dom().contains(k));
                    assert(all.to_set().contains(k));
                }
            }
        }
        keys
    }

    /// Gives the tag of every node under `root_id` the version `version`.
    fn retime(&mut self, root_id: NodeId, version: u32)
        requires
            in_range(root_id),
        ensures
            final(self).nodes() == old(self).nodes(),
            final(self).tags() == spec_retime(old(self).tags(), root_id, version),
    {
        let keys = self.tag_keys();
        let ghost t0 = self.tags();
        let mut i: usize = 0;
        while i < keys.len()
            invariant
                i <= keys.len(),
                in_range(root_id),
                self.nodes() == old(self).nodes(),
                keys@.no_duplicates(),
                forall|k: u64| keys@.contains(k) <==> t0.contains_key(k),
                forall|k: u64| self.tags().contains_key(k) <==> t0.contains_key(k),
                forall|j: int|
                    0 <= j < i ==> self.tags()[#[trigger] keys@[j]] == spec_retime(
                        t0,
                        root_id,
                        version,
                    )[keys@[j]],
                forall|j: int| i <= j < keys.len() ==> self.tags()[#[trigger] keys@[j]] == t0[keys@[j]],
            decreases keys.len() - i,
        {
            let k = keys[i];
            let id = NodeId::from_key(k);
            let ghost before = self.tags();
            assert(keys@.contains(k));
            if covers(root_id, id) {
                if let Some(tag) = self.tags.remove(&k) {
                    self.tags.insert(k, SubtreeTag { version, idxes: tag.idxes });
                }
            }
            proof {
                assert(before.contains_key(k));
                if covered(root_id, NodeId::of_key(k)) {
                    assert(self.tags() =~= before.insert(k, (version, before[k].1)));
                } else {
                    assert(self.tags() =~= before);
                }
                assert forall|j: int| 0 <= j < keys.len() && j != i implies self.tags()[
                #[trigger] keys@[j]] == before[keys@[j]] by {
                    assert(keys@[j] != keys@[i as int]);
                }
            }
            i += 1;
        }
        proof {
            assert forall|k: u64| t0.contains_key(k) implies self.tags()[k] == spec_retime(
                t0,
                root_id,
                version,
            )[k] by {
                assert(keys@.contains(k));
                let j = choose|j: int| 0 <= j < keys@.len() && keys@[j] == k;
                assert(self.tags()[keys@[j]] == spec_retime(t0, root_id, version)[keys@[j]]);
            }
            assert(self.tags() =~= spec_retime(t0, root_id, version));
        }
    }

    /// Marks every node under `root_id` that the cache holds as confirmed,
    /// and gives the tag of each node under `root_id` the version
    /// `version`.
    pub fn confirm_with_version(&mut self, root_id: NodeId, version: u32)
        requires
            old(self).wf(),
            in_range(root_id),
        ensures
            final(self).wf(),
            final(self).cap() == old(self).cap(),
            final(self).entries() == crate::simple_vcache::spec_confirm(
                old(self).entries(),
                root_id,
                (root_id.0 + 1) as nat,
                Some(version),
            ),
            final(self).tags() == spec_retime(old(self).tags(), root_id, version),
    {
        proof {
            let e = self.entries();
            let levels = (root_id.0 + 1) as nat;
            crate::simple_vcache::lemma_confirm(e, root_id, levels, Some(version));
            Self::lemma_tags_held(
                self.tags(),
                e,
                crate::simple_vcache::spec_confirm(e, root_id, levels, Some(version)),
            );
        }
        self.nodes.confirm_with_version(root_id, version);
        self.retime(root_id, version);
        proof {
            assert forall|k: u64| #[trigger] self.tags().contains_key(k) implies has_key(
                self.entries(),
                k,
            ) by {
                assert(old(self).tags().contains_key(k));
            }
        }
    }
    /// Gives the cached nodes above `start` their tags, see `spec_retag`.
    fn retag(&mut self, start: NodeId)
        requires
            start.0 <= 32,
        ensures
            final(self).nodes() == old(self).nodes(),
            final(self).tags() == spec_retag(old(self).entries(), old(self).tags(), start),
    {
        let mut cur = start;
        let ghost e = self.entries();
        let ghost target = spec_retag(e, self.tags(), start);
        loop
            invariant_except_break
                self.nodes() == old(self).nodes(),
                e == old(self).entries(),
                cur.0 <= 32,
                spec_retag(e, self.tags(), cur) == target,
            ensures
                self.nodes() == old(self).nodes(),
                self.tags() == target,
            decreases 32 - cur.0,
        {
            if cur.get_height() >= 32 {
                break ;
            }
            let parent = cur.get_parent_id();
            if !self.nodes.holds_key(parent.key()) {
                break ;
            }
            let ck = cur.key();
            let sk = cur.get_sib_id().key();
            let joined = match self.tags.get(&ck) {
                Some(a) => match self.tags.get(&sk) {
                    Some(b) => Some(
                        SubtreeTag {
                            version: if a.version <= b.version {
                                a.version
                            } else {
                                b.version
                            },
                            idxes: join_slots(&a.idxes, &b.idxes),
                        },
                    ),
                    None => None,
                },
                None => None,
            };
            let ghost before = self.tags();
            match joined {
                Some(tag) => {
                    self.tags.insert(parent.key(), tag);
                    proof {
                        assert(self.tags() =~= before.insert(
                            parent.spec_key(),
                            spec_join(before[ck], before[sk]),
                        ));
                    }
                    cur = parent;
                },
                None => {
                    break ;
                },
            }
        }
    }

    /// Drops the tags of the nodes that the cache does not hold.
    fn prune(&mut self)
        ensures
            final(self).nodes() == old(self).nodes(),
            final(self).tags() == spec_prune(old(self).entries(), old(self).tags()),
    {
        let keys = self.tag_keys();
        let ghost t0 = self.tags();
        let ghost e = self.entries();
        let mut i: usize = 0;
        proof {
            assert forall|k: u64| t0.contains_key(k) implies waits(keys@, 0, k) by {
                assert(keys@.contains(k));
                let j = choose|j: int| 0 <= j < keys@.len() && keys@[j] == k;
                assert(keys@[j] == k);
            }
        }
        while i < keys.len()
            invariant
                i <= keys.len(),
                self.nodes() == old(self).nodes(),
                e == old(self).entries(),
                keys@.no_duplicates(),
                forall|k: u64| keys@.contains(k) <==> t0.contains_key(k),
                forall|k: u64| #[trigger]
                    self.tags().contains_key(k) ==> t0.contains_key(k) && (has_key(e, k) || waits(
                        keys@,
                        i as int,
                        k,
                    )),
                forall|k: u64| #[trigger]
                    t0.contains_key(k) && (has_key(e, k) || waits(keys@, i as int, k))
                        ==> self.tags().contains_key(k),
                forall|k: u64| #[trigger]
                    self.tags().contains_key(k) ==> t0.contains_key(k) && self.tags()[k] == t0[k],
            decreases keys.len() - i,
        {
            let k = keys[i];
            let ghost before = self.tags();
            let held = self.nodes.holds_key(k);
            if !held {
                self.tags.remove(&k);
            }
            proof {
                assert(keys@.contains(k));
                if held {
                    assert(self.tags() =~= before);
                } else {
                    assert(self.tags() =~= before.remove(k));
                }
                assert forall|q: u64|
                    self.tags().contains_key(q) <==> t0.contains_key(q) && (has_key(e, q) || waits(
                        keys@,
                        i + 1,
                        q,
                    )) by {
                    if q == k {
                        if waits(keys@, i + 1, q) {
                            let j = choose|j: int| i + 1 <= j < keys@.len() && keys@[j] == q;
                            assert(keys@[j] == keys@[i as int]);
                            assert(false);
                        }
                        assert(keys@[i as int] == k);
                        assert(waits(keys@, i as int, k));
                    } else {
                        assert(self.tags().contains_key(q) == before.contains_key(q));
                        if waits(keys@, i as int, q) {
                            let j = choose|j: int| i <= j < keys@.len() && keys@[j] == q;
                            assert(j != i);
                            assert(keys@[j] == q);
                            assert(waits(keys@, i + 1, q));
                        }
                        if waits(keys@, i + 1, q) {
                            let j = choose|j: int| i + 1 <= j < keys@.len() && keys@[j] == q;
                            assert(keys@[j] == q);
                            assert(waits(keys@, i as int, q));
                        }
                    }
                }
            }
            i += 1;
        }
        proof {
            assert forall|k: u64| !waits(keys@, keys@.len() as int, k) by {}
            assert(self.tags() =~= spec_prune(e, t0));
        }
    }

    /// Puts a page into the cache, with its version and its slots in the
    /// version filter, and carries its hash upward as the plain page cache
    /// does. The cached nodes above the page then get their tags, and the
    /// tags of nodes that have left the cache are dropped.
    pub fn insert(&mut self, p_id: PageId, bytes: Box<[u8; 4096]>, version: u32, idxes: HashSet<usize>)
        requires
            old(self).wf(),
        ensures
            final(self).wf(),
            final(self).cap() == old(self).cap(),
            final(self).entries() == spec_insert(
                old(self).entries(),
                old(self).cap(),
                SVCacheLeafNode { id: NodeId(0, p_id.0), bytes, version, is_valid: true },
            ),
            final(self).tags() == spec_prune(
                final(self).entries(),
                spec_retag(
                    final(self).entries(),
                    old(self).tags().insert(NodeId(0, p_id.0).spec_key(), (version, idxes@)),
                    NodeId(0, p_id.0),
                ),
            ),
    {
        self.nodes.insert(p_id, bytes, version);
        let leaf_id = NodeId::from_page_id(p_id);
        let ghost before = self.tags();
        let ghost slots = idxes@;
        self.tags.insert(leaf_id.key(), SubtreeTag { version, idxes });
        proof {
            assert(self.tags() =~= before.insert(leaf_id.spec_key(), (version, slots)));
        }
        self.retag(leaf_id);
        self.prune();
    }
    /// The chain of hashes that the client shows the server for a cached
    /// page: the hash of the leaf, then the hashes of the cached nodes
    /// above it. Each node of the chain counts as used.
    pub fn cached_path(&mut self, leaf_id: NodeId, leaf_dig: Digest) -> (path: Vec<Digest>)
        requires
            old(self).wf(),
            in_range(leaf_id),
        ensures
            final(self).wf(),
            final(self).cap() == old(self).cap(),
            final(self).tags() == old(self).tags(),
            same_nodes(&final(self).nodes(), &old(self).nodes()),
            final(self).entries() == spec_path_entries(old(self).entries(), leaf_id),
            digest_seq(path@) == seq![leaf_dig@] + spec_cached_path(old(self).entries(), leaf_id),
    {
        let ghost e = self.entries();
        let path = cached_path(&mut self.nodes, leaf_id, leaf_dig);
        proof {
            assert forall|id: NodeId| #[trigger] entry_of(e, id.spec_key()) is Some implies entry_of(
                self.entries(),
                id.spec_key(),
            ) is Some by {
                assert(self.nodes().node(id) == old(self).nodes().node(id));
            }
            assert forall|k: u64| #[trigger] self.tags().contains_key(k) implies has_key(e, k) by {
                assert(old(self).tags().contains_key(k));
            }
            Self::lemma_tags_held(self.tags(), e, self.entries());
        }
        path
    }

    /// The versions and slots of the nodes above page `p_id`, from the
    /// leaf upward, for `levels` levels at most, see `spec_tag_path`.
    pub fn tag_path(&self, p_id: PageId, levels: usize) -> (path: Vec<(u32, HashSet<usize>)>)
        requires
            levels <= 33,
        ensures
            slot_views(path@) == spec_tag_path(self.tags(), p_id.0, levels as nat),
    {
        let mut path: Vec<(u32, HashSet<usize>)> = Vec::new();
        let mut cur = NodeId::from_page_id(p_id);
        let mut i: usize = 0;
        proof {
            lemma2_to64();
            crate::tree_model::lemma_ancestor_parent(p_id.0, 0);
            assert(slot_views(path@) =~= spec_tag_path(self.tags(), p_id.0, 0));
        }
        while i < levels
            invariant_except_break
                i <= levels <= 33,
                cur == ancestor(p_id.0, i as u32),
                path@.len() == i,
                slot_views(path@) == spec_tag_path(self.tags(), p_id.0, i as nat),
            ensures
                slot_views(path@) == spec_tag_path(self.tags(), p_id.0, levels as nat),
            decreases levels - i,
        {
            let ghost before = slot_views(path@);
            match self.tags.get(&cur.key()) {
                Some(tag) => {
                    path.push((tag.version, copy_slots(&tag.idxes)));
                    proof {
                        assert(slot_views(path@) =~= before.push(
                            self.tags()[cur.spec_key()],
                        ));
                    }
                },
                None => {
                    proof {
                        lemma_tag_path_ends(self.tags(), p_id.0, i as nat, levels as nat);
                    }
                    break ;
                },
            }
            i += 1;
            if i < levels {
                proof {
                    crate::tree_model::lemma_ancestor_parent(p_id.0, (i - 1) as u32);
                }
                cur = cur.get_parent_id();
            } else {
                break ;
            }
        }
        path
    }
}

} // verus!
