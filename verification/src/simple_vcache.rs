//! The page cache that tells by version whether a page can be used again:
//! pages and the hashes of subtrees above them, in a store that drops the
//! entry used least recently.

use vstd::prelude::*;
use vstd::arithmetic::power2::pow2;
use lru::LruCache;
use crate::cache_node::{SVCacheLeafNode, SVCacheNode, SVCacheNonLeafNode};
use crate::digest::{Digest, Digestible};
use crate::hash::{merge_hash, spec_merge_hash};
use crate::lru_store::{
    distinct_keys, entry_of, has_key, key_pos, keys_of, lemma_key_pos, lemma_pushed,
    lemma_removed, lemma_replaced, lemma_touched, lru_cap, lru_clear, lru_contains, lru_entries,
    lru_get, lru_get_mut, lru_keys, lru_new, lru_peek, lru_peek_mut, lru_pop, lru_push, pushed,
    pushed_out, removed, replaced, touched,
};
use crate::node::NodeId;
use crate::page::PageId;

verus! {

/// The greatest height of a node of a tree over 32-bit page ids.
pub const MAX_HEIGHT: u32 = 32;

/// Whether a node id is one of a tree over 32-bit page ids: its height is
/// at most 32 and its leftmost leaf is a page.
pub open spec fn in_range(id: NodeId) -> bool {
    id.0 <= 32 && (id.1 as nat) < pow2((32 - id.0) as nat)
}

/// Whether `a` is above `d` in the tree.
pub open spec fn is_ancestor(a: NodeId, d: NodeId) -> bool {
    a.0 > d.0 && a.1 as nat == d.1 as nat / pow2((a.0 - d.0) as nat)
}

/// The digest with the given bytes.
pub open spec fn digest_of(s: Seq<u8>) -> Digest {
    choose|d: Digest| d@ == s
}

/// The digest with the bytes of `d` is `d`.
pub proof fn lemma_digest_of(d: Digest)
    ensures
        digest_of(d@) == d,
{
    Digest::lemma_view_injective(digest_of(d@), d);
}

/// Whether a node can stand in the cache: its id is one of a tree over
/// 32-bit page ids, and it holds a page if and only if it is a leaf.
pub open spec fn node_ok(n: SVCacheNode) -> bool {
    in_range(n.id()) && (n is Leaf <==> n.id().0 == 0)
}

/// Whether the entries are those of a cache: no key twice, each node under
/// the key of its id, and each node one that can stand in the cache.
pub open spec fn entries_wf(e: Seq<(u64, SVCacheNode)>) -> bool {
    &&& distinct_keys(e)
    &&& forall|i: int|
        0 <= i < e.len() ==> (#[trigger] e[i]).0 == e[i].1.id().spec_key() && node_ok(e[i].1)
}

/// The entries without every node above `id`.
pub open spec fn drop_ancestors(e: Seq<(u64, SVCacheNode)>, id: NodeId) -> Seq<(u64, SVCacheNode)>
    decreases 32 - id.0,
{
    if id.0 >= 32 {
        e
    } else {
        drop_ancestors(removed(e, id.parent().spec_key()), id.parent())
    }
}

/// The entries after `node` was pushed under `id`: where an entry left,
/// or the key had an entry before, every node above that entry leaves too.
pub open spec fn spec_push_node(e: Seq<(u64, SVCacheNode)>, cap: usize, id: NodeId, node: SVCacheNode) -> Seq<
    (u64, SVCacheNode),
> {
    let p = pushed(e, cap, id.spec_key(), node);
    match pushed_out(e, cap, id.spec_key()) {
        Some(o) => drop_ancestors(p, o.1.id()),
        None => p,
    }
}

/// The hash of the parent of `cur` from its hash and that of its sibling.
pub open spec fn spec_cached_parent_hash(cur: NodeId, cur_hash: Seq<u8>, sib_hash: Seq<u8>) -> Seq<
    u8,
> {
    if cur.1 % 2 == 0 {
        spec_merge_hash(cur_hash, sib_hash)
    } else {
        spec_merge_hash(sib_hash, cur_hash)
    }
}

/// The entries after the hash of `cur` was carried upward: as long as
/// the sibling is in the cache and valid, the sibling is used, and the
/// parent is pushed with the hash of the two.
pub open spec fn spec_propagate(e: Seq<(u64, SVCacheNode)>, cap: usize, cur: NodeId, cur_hash: Seq<u8>) -> Seq<
    (u64, SVCacheNode),
>
    decreases 32 - cur.0,
{
    let sib_key = cur.sibling().spec_key();
    let e1 = touched(e, sib_key);
    match entry_of(e, sib_key) {
        Some(sib) => {
            if sib.valid() && cur.0 < 32 {
                let h = spec_cached_parent_hash(cur, cur_hash, sib.spec_digest());
                let parent = SVCacheNode::NonLeaf(
                    SVCacheNonLeafNode { id: cur.parent(), hash: digest_of(h), is_valid: true },
                );
                spec_propagate(spec_push_node(e1, cap, cur.parent(), parent), cap, cur.parent(), h)
            } else {
                e1
            }
        },
        None => e1,
    }
}

/// The entries after the page `leaf` was inserted.
pub open spec fn spec_insert(e: Seq<(u64, SVCacheNode)>, cap: usize, leaf: SVCacheLeafNode) -> Seq<
    (u64, SVCacheNode),
> {
    spec_propagate(
        spec_push_node(e, cap, leaf.id, SVCacheNode::Leaf(leaf)),
        cap,
        leaf.id,
        leaf.spec_digest(),
    )
}

/// The entries after the node `id`, if it is there, was used and
/// confirmed; a leaf takes `version` where one is given.
pub open spec fn spec_confirm_one(e: Seq<(u64, SVCacheNode)>, id: NodeId, version: Option<u32>) -> Seq<
    (u64, SVCacheNode),
> {
    match entry_of(e, id.spec_key()) {
        Some(n) => replaced(
            touched(e, id.spec_key()),
            id.spec_key(),
            match version {
                Some(v) => n.confirmed_at(v),
                None => n.with_valid(true),
            },
        ),
        None => e,
    }
}

/// The entries after the nodes `(height, lo) .. (height, lo + n - 1)` were
/// confirmed, one after the other.
pub open spec fn spec_confirm_level(
    e: Seq<(u64, SVCacheNode)>,
    height: u32,
    lo: nat,
    n: nat,
    version: Option<u32>,
) -> Seq<(u64, SVCacheNode)>
    decreases n,
{
    if n == 0 {
        e
    } else {
        spec_confirm_one(
            spec_confirm_level(e, height, lo, (n - 1) as nat, version),
            NodeId(height, (lo + n - 1) as u32),
            version,
        )
    }
}

/// The entries after every node under `root` of a height below `levels`
/// was confirmed, the leaves first and each level from left to right.
pub open spec fn spec_confirm(
    e: Seq<(u64, SVCacheNode)>,
    root: NodeId,
    levels: nat,
    version: Option<u32>,
) -> Seq<(u64, SVCacheNode)>
    decreases levels,
{
    if levels == 0 {
        e
    } else {
        let h = (levels - 1) as nat;
        let width = pow2((root.0 - h) as nat);
        spec_confirm_level(
            spec_confirm(e, root, h, version),
            h as u32,
            root.1 as nat * width,
            width,
            version,
        )
    }
}

/// The entries with every node unconfirmed, in the same order.
pub open spec fn spec_unconfirm(e: Seq<(u64, SVCacheNode)>) -> Seq<(u64, SVCacheNode)> {
    Seq::new(e.len(), |i: int| (e[i].0, e[i].1.with_valid(false)))
}

/// The bytes that the first `n` entries count for: 4100 for a page, 40
/// for a node above the leaves.
pub open spec fn spec_size(e: Seq<(u64, SVCacheNode)>, n: nat) -> nat
    decreases n,
{
    if n == 0 {
        0
    } else {
        spec_size(e, (n - 1) as nat) + (if e[n - 1].1 is Leaf {
            4100nat
        } else {
            40nat
        })
    }
}

/// The greatest height of a node above the leaves among the first `n`
/// entries, 0 where there is none.
pub open spec fn spec_max_height(e: Seq<(u64, SVCacheNode)>, n: nat) -> nat
    decreases n,
{
    if n == 0 {
        0
    } else {
        let rest = spec_max_height(e, (n - 1) as nat);
        if e[n - 1].1 is NonLeaf && e[n - 1].1.id().0 > rest {
            e[n - 1].1.id().0 as nat
        } else {
            rest
        }
    }
}

/// The parent of a node of the range is in the range, unless the node is
/// the one of height 32.
pub proof fn lemma_parent_in_range(id: NodeId)
    requires
        in_range(id),
        id.0 < 32,
    ensures
        in_range(id.parent()),
{
    vstd::arithmetic::power2::lemma_pow2_unfold((32 - id.0) as nat);
}

/// No node of the range has a sibling at height 32.
pub proof fn lemma_top_has_no_sibling(id: NodeId)
    requires
        in_range(id),
        in_range(id.sibling()),
    ensures
        id.0 < 32,
{
    vstd::arithmetic::power2::lemma2_to64();
}

/// What `drop_ancestors` leaves: the keys are distinct, no node above
/// `id` is left, and every entry that is left is as it was.
pub proof fn lemma_drop_ancestors(e: Seq<(u64, SVCacheNode)>, id: NodeId)
    requires
        entries_wf(e),
    ensures
        entries_wf(drop_ancestors(e, id)),
        drop_ancestors(e, id).len() <= e.len(),
        forall|k: u64| #[trigger]
            has_key(drop_ancestors(e, id), k) ==> entry_of(drop_ancestors(e, id), k) == entry_of(
                e,
                k,
            ),
        forall|a: NodeId| is_ancestor(a, id) ==> !#[trigger] has_key(drop_ancestors(e, id), a.spec_key()),
        forall|k: u64|
            (forall|a: NodeId| is_ancestor(a, id) ==> a.spec_key() != k) ==> #[trigger] entry_of(
                drop_ancestors(e, id),
                k,
            ) == entry_of(e, k),
    decreases 32 - id.0,
{
    let out = drop_ancestors(e, id);
    if id.0 >= 32 {
        assert forall|a: NodeId| is_ancestor(a, id) implies !#[trigger] has_key(out, a.spec_key()) by {
            if has_key(out, a.spec_key()) {
                let i = key_pos(out, a.spec_key());
                NodeId::lemma_key_injective(a, out[i].1.id());
            }
        }
    } else {
        let pk = id.parent().spec_key();
        let e1 = removed(e, pk);
        lemma_removed(e, pk);
        assert(entries_wf(e1)) by {
            if has_key(e, pk) {
                let p = key_pos(e, pk);
                assert forall|i: int| 0 <= i < e1.len() implies (#[trigger] e1[i]).0
                    == e1[i].1.id().spec_key() && node_ok(e1[i].1) by {
                    let i2 = if i < p { i } else { i + 1 };
                    assert(e1[i] == e[i2]);
                }
            }
        }
        lemma_drop_ancestors(e1, id.parent());
        assert forall|a: NodeId| is_ancestor(a, id) implies !#[trigger] has_key(out, a.spec_key()) by {
            lemma_ancestor_step(a, id);
            if a == id.parent() {
                if has_key(out, pk) {
                    assert(entry_of(out, pk) == entry_of(e1, pk));
                }
            }
        }
        assert forall|k: u64|
            (forall|a: NodeId| is_ancestor(a, id) ==> a.spec_key() != k) implies #[trigger] entry_of(
            out,
            k,
        ) == entry_of(e, k) by {
            lemma_parent_is_ancestor(id);
            assert(k != pk);
            assert forall|a: NodeId| is_ancestor(a, id.parent()) implies a.spec_key() != k by {
                lemma_ancestor_of_parent(a, id);
            }
        }
    }
}

/// The parent of a node below height 32 is above it.
pub proof fn lemma_parent_is_ancestor(id: NodeId)
    requires
        id.0 < u32::MAX,
    ensures
        is_ancestor(id.parent(), id),
{
    vstd::arithmetic::power2::lemma2_to64();
}

/// A node above the parent is above the child.
pub proof fn lemma_ancestor_of_parent(a: NodeId, id: NodeId)
    requires
        id.0 < u32::MAX,
        is_ancestor(a, id.parent()),
    ensures
        is_ancestor(a, id),
{
    let k = (a.0 - id.0 - 1) as nat;
    vstd::arithmetic::power2::lemma2_to64();
    lemma_halve_then_shift(id.1 as nat, k);
}

/// A node above `id` is the parent of `id` or above the parent.
pub proof fn lemma_ancestor_step(a: NodeId, id: NodeId)
    requires
        is_ancestor(a, id),
    ensures
        a == id.parent() || is_ancestor(a, id.parent()),
{
    vstd::arithmetic::power2::lemma2_to64();
    if a.0 == id.0 + 1 {
    } else {
        let k = (a.0 - id.0 - 1) as nat;
        lemma_halve_then_shift(id.1 as nat, k);
    }
}

/// Halving and then dividing by `2^k` divides by `2^(k + 1)`.
pub proof fn lemma_halve_then_shift(w: nat, k: nat)
    ensures
        (w / 2) / pow2(k) == w / pow2(k + 1),
{
    vstd::arithmetic::power2::lemma_pow2_pos(k);
    vstd::arithmetic::power2::lemma_pow2_unfold(k + 1);
    vstd::arithmetic::div_mod::lemma_div_denominator(w as int, 2, pow2(k) as int);
}

/// **Nothing stays above an entry that left.** Where a push makes an
/// entry leave the cache, because the cache is full or because the key
/// had an entry before, no node above that entry is in the cache
/// afterwards, and the cache is in order.
pub proof fn lemma_push_drops_ancestors(
    e: Seq<(u64, SVCacheNode)>,
    cap: usize,
    id: NodeId,
    node: SVCacheNode,
    above: NodeId,
)
    requires
        entries_wf(e),
        e.len() <= cap,
        node.id() == id,
        node_ok(node),
        pushed_out(e, cap, id.spec_key()) matches Some(o) && is_ancestor(above, o.1.id()),
    ensures
        entries_wf(spec_push_node(e, cap, id, node)),
        spec_push_node(e, cap, id, node).len() <= cap,
        !has_key(spec_push_node(e, cap, id, node), above.spec_key()),
{
    let key = id.spec_key();
    lemma_pushed(e, cap, key, node);
    SVCache::lemma_push_keeps_wf(e, cap, id, node);
    let o = pushed_out(e, cap, key)->Some_0;
    lemma_drop_ancestors(pushed(e, cap, key, node), o.1.id());
}

/// Whether the node `id` lies under the node `root`, `root` itself
/// included.
pub open spec fn covered(root: NodeId, id: NodeId) -> bool {
    id.0 <= root.0 && root.1 * pow2((root.0 - id.0) as nat) <= id.1 < (root.1 + 1) * pow2(
        (root.0 - id.0) as nat,
    )
}

/// The node as a confirmation leaves it.
pub open spec fn confirmed(n: SVCacheNode, version: Option<u32>) -> SVCacheNode {
    match version {
        Some(v) => n.confirmed_at(v),
        None => n.with_valid(true),
    }
}

/// What a confirmation makes of the node that a key has, if any.
pub open spec fn confirmed_entry(n: Option<SVCacheNode>, version: Option<u32>) -> Option<
    SVCacheNode,
> {
    match n {
        Some(n) => Some(confirmed(n, version)),
        None => None,
    }
}

/// The confirmation of one node confirms that node and leaves every
/// other node as it was.
pub proof fn lemma_confirm_one(e: Seq<(u64, SVCacheNode)>, id: NodeId, version: Option<u32>)
    requires
        entries_wf(e),
    ensures
        entries_wf(spec_confirm_one(e, id, version)),
        spec_confirm_one(e, id, version).len() == e.len(),
        entry_of(spec_confirm_one(e, id, version), id.spec_key()) == confirmed_entry(
            entry_of(e, id.spec_key()),
            version,
        ),
        forall|k: u64|
            k != id.spec_key() ==> #[trigger] entry_of(spec_confirm_one(e, id, version), k)
                == entry_of(e, k),
{
    let k = id.spec_key();
    lemma_touched(e, k);
    SVCache::lemma_touch_keeps_wf(e, k);
    let t = touched(e, k);
    if has_key(e, k) {
        let n = e[key_pos(e, k)].1;
        assert(entry_of(t, k) == entry_of(e, k));
        assert(has_key(t, k));
        let n2 = confirmed(n, version);
        lemma_replaced(t, k, n2);
        SVCache::lemma_replace_keeps_wf(t, k, n2);
    }
}

/// The confirmation of a run of nodes of one height confirms those nodes
/// and leaves every other node as it was.
pub proof fn lemma_confirm_level(
    e: Seq<(u64, SVCacheNode)>,
    height: u32,
    lo: nat,
    n: nat,
    version: Option<u32>,
)
    requires
        entries_wf(e),
        lo + n <= 0x1_0000_0000,
    ensures
        entries_wf(spec_confirm_level(e, height, lo, n, version)),
        spec_confirm_level(e, height, lo, n, version).len() == e.len(),
        forall|id: NodeId| #[trigger]
            entry_of(spec_confirm_level(e, height, lo, n, version), id.spec_key()) == (if id.0
                == height && lo <= id.1 < lo + n {
                confirmed_entry(entry_of(e, id.spec_key()), version)
            } else {
                entry_of(e, id.spec_key())
            }),
    decreases n,
{
    if n > 0 {
        let prev = spec_confirm_level(e, height, lo, (n - 1) as nat, version);
        let node = NodeId(height, (lo + n - 1) as u32);
        lemma_confirm_level(e, height, lo, (n - 1) as nat, version);
        lemma_confirm_one(prev, node, version);
        let out = spec_confirm_level(e, height, lo, n, version);
        assert forall|id: NodeId| #[trigger]
            entry_of(out, id.spec_key()) == (if id.0 == height && lo <= id.1 < lo + n {
                confirmed_entry(entry_of(e, id.spec_key()), version)
            } else {
                entry_of(e, id.spec_key())
            }) by {
            if id.spec_key() == node.spec_key() {
                NodeId::lemma_key_injective(id, node);
                assert(entry_of(prev, node.spec_key()) == entry_of(e, node.spec_key()));
            } else {
                assert(id != node);
                assert(entry_of(prev, id.spec_key()) == (if id.0 == height && lo <= id.1 < lo + n
                    - 1 {
                    confirmed_entry(entry_of(e, id.spec_key()), version)
                } else {
                    entry_of(e, id.spec_key())
                }));
            }
        }
    }
}

/// **Only a confirmation makes a node valid.** The confirmation of the
/// node `root` confirms the cached nodes under `root` and leaves every
/// other cached node as it was: after it a node is valid if it lies under
/// `root` or was valid before.
pub proof fn lemma_confirm(
    e: Seq<(u64, SVCacheNode)>,
    root: NodeId,
    levels: nat,
    version: Option<u32>,
)
    requires
        entries_wf(e),
        in_range(root),
        levels <= root.0 + 1,
    ensures
        entries_wf(spec_confirm(e, root, levels, version)),
        spec_confirm(e, root, levels, version).len() == e.len(),
        forall|id: NodeId| #[trigger]
            entry_of(spec_confirm(e, root, levels, version), id.spec_key()) == (if id.0 < levels
                && covered(root, id) {
                confirmed_entry(entry_of(e, id.spec_key()), version)
            } else {
                entry_of(e, id.spec_key())
            }),
    decreases levels,
{
    if levels > 0 {
        let h = (levels - 1) as nat;
        let width = pow2((root.0 - h) as nat);
        let prev = spec_confirm(e, root, h, version);
        lemma_confirm(e, root, h, version);
        SVCache::lemma_level_bound(root, h as u32);
        assert((root.1 as nat + 1) * width == root.1 as nat * width + width) by (nonlinear_arith);
        lemma_confirm_level(prev, h as u32, root.1 as nat * width, width, version);
        let out = spec_confirm(e, root, levels, version);
        assert forall|id: NodeId| #[trigger]
            entry_of(out, id.spec_key()) == (if id.0 < levels && covered(root, id) {
                confirmed_entry(entry_of(e, id.spec_key()), version)
            } else {
                entry_of(e, id.spec_key())
            }) by {
            assert(entry_of(prev, id.spec_key()) == (if id.0 < h && covered(root, id) {
                confirmed_entry(entry_of(e, id.spec_key()), version)
            } else {
                entry_of(e, id.spec_key())
            }));
        }
    }
}

/// **An invalidation leaves no node valid.** After every entry was
/// marked as not confirmed, each key has the node it had, not confirmed.
pub proof fn lemma_unconfirm(e: Seq<(u64, SVCacheNode)>, k: u64)
    requires
        entries_wf(e),
    ensures
        entries_wf(spec_unconfirm(e)),
        entry_of(spec_unconfirm(e), k) == (match entry_of(e, k) {
            Some(n) => Some(n.with_valid(false)),
            None => None,
        }),
        entry_of(spec_unconfirm(e), k) matches Some(n) ==> !n.valid(),
{
    let u = spec_unconfirm(e);
    assert forall|i: int, j: int|
        0 <= i < u.len() && 0 <= j < u.len() && (#[trigger] u[i]).0 == (#[trigger] u[j]).0
        implies i == j by {
        assert(e[i].0 == e[j].0);
    }
    if has_key(e, k) {
        let i = key_pos(e, k);
        assert(u[i].0 == k);
        lemma_key_pos(u, i);
    } else if has_key(u, k) {
        let i = key_pos(u, k);
        assert(e[i].0 == k);
    }
}

/// The page cache.
pub struct SVCache {
    lru: LruCache<u64, SVCacheNode>,
}

impl SVCache {
    /// The entries of the cache, the most recently used first, each under
    /// the key of its node id.
    pub closed spec fn entries(&self) -> Seq<(u64, SVCacheNode)> {
        lru_entries(self.lru)
    }

    /// The number of entries that the cache can hold.
    pub closed spec fn cap(&self) -> usize {
        lru_cap(self.lru)
    }

    /// Whether the cache is in order, see `entries_wf`, and within its bound.
    pub open spec fn wf(&self) -> bool {
        entries_wf(self.entries()) && self.entries().len() <= self.cap()
    }

    /// The node that the cache holds for `id`, if any.
    pub open spec fn node(&self, id: NodeId) -> Option<SVCacheNode> {
        entry_of(self.entries(), id.spec_key())
    }

    /// An empty cache for `cap` entries.
    pub fn new(cap: usize) -> (c: SVCache)
        ensures
            c.wf(),
            c.entries() == Seq::<(u64, SVCacheNode)>::empty(),
            c.cap() == cap,
    {
        SVCache { lru: lru_new(cap) }
    }

    /// The node of `id`, which counts as used.
    pub fn get_node(&mut self, id: &NodeId) -> (n: Option<&SVCacheNode>)
        ensures
            final(self).entries() == touched(old(self).entries(), id.spec_key()),
            final(self).cap() == old(self).cap(),
            match n {
                Some(n) => Some(*n) == old(self).node(*id),
                None => old(self).node(*id) is None,
            },
    {
        lru_get(&mut self.lru, id.key())
    }

    fn get_node_mut(&mut self, id: &NodeId) -> (n: Option<&mut SVCacheNode>)
        ensures
            final(self).cap() == old(self).cap(),
            match n {
                Some(n) => {
                    &&& Some(*n) == old(self).node(*id)
                    &&& final(self).entries() == replaced(
                        touched(old(self).entries(), id.spec_key()),
                        id.spec_key(),
                        *final(n),
                    )
                },
                None => {
                    &&& old(self).node(*id) is None
                    &&& final(self).entries() == old(self).entries()
                },
            },
    {
        lru_get_mut(&mut self.lru, id.key())
    }

    /// Pushes `node` into the cache under `id`. Where that makes an entry
    /// leave, every node above that entry leaves with it.
    pub fn push_node(&mut self, id: NodeId, node: SVCacheNode)
        requires
            old(self).wf(),
            node.id() == id,
            node_ok(node),
        ensures
            final(self).wf(),
            final(self).cap() == old(self).cap(),
            final(self).entries() == spec_push_node(old(self).entries(), old(self).cap(), id, node),
            pushed_out(old(self).entries(), old(self).cap(), id.spec_key()) matches Some(o)
                ==> forall|a: NodeId| is_ancestor(a, o.1.id()) ==> final(self).node(a) is None,
    {
        let key = id.key();
        let ghost e0 = self.entries();
        proof {
            lemma_pushed(e0, self.cap(), key, node);
            Self::lemma_push_keeps_wf(e0, self.cap(), id, node);
        }
        if let Some((_, n)) = lru_push(&mut self.lru, key, node) {
            let ghost e1 = self.entries();
            let mut cur_id = n.get_id();
            proof {
                if has_key(e0, key) {
                    lemma_key_pos(e0, key_pos(e0, key));
                } else {
                    lemma_key_pos(e0, e0.len() - 1);
                }
            }
            while cur_id.get_height() < MAX_HEIGHT
                invariant
                    self.cap() == old(self).cap(),
                    entries_wf(self.entries()),
                    self.entries().len() <= self.cap(),
                    drop_ancestors(self.entries(), cur_id) == drop_ancestors(e1, n.id()),
                decreases 32 - cur_id.0,
            {
                cur_id = cur_id.get_parent_id();
                proof {
                    lemma_removed(self.entries(), cur_id.spec_key());
                    Self::lemma_removed_wf(self.entries(), cur_id.spec_key());
                }
                lru_pop(&mut self.lru, cur_id.key());
            }
            proof {
                lemma_drop_ancestors(e1, n.id());
            }
        }
    }

    /// A push leaves the entries in order.
    pub proof fn lemma_push_keeps_wf(e: Seq<(u64, SVCacheNode)>, cap: usize, id: NodeId, node: SVCacheNode)
        requires
            entries_wf(e),
            e.len() <= cap,
            node.id() == id,
            node_ok(node),
        ensures
            entries_wf(pushed(e, cap, id.spec_key(), node)),
            pushed(e, cap, id.spec_key(), node).len() <= cap,
    {
        let k = id.spec_key();
        let r = pushed(e, cap, k, node);
        lemma_pushed(e, cap, k, node);
        assert forall|i: int| 0 <= i < r.len() implies (#[trigger] r[i]).0 == r[i].1.id().spec_key()
            && node_ok(r[i].1) by {
            if has_key(e, k) {
                let p = key_pos(e, k);
                if i > 0 {
                    let i2 = if i - 1 < p { i - 1 } else { i };
                    assert(r[i] == e[i2]);
                }
            } else if cap == 0 {
            } else if e.len() == cap {
                if i > 0 {
                    assert(r[i] == e[i - 1]);
                }
            } else {
                if i > 0 {
                    assert(r[i] == e[i - 1]);
                }
            }
        }
    }

    /// Taking an entry out leaves the entries in order.
    proof fn lemma_removed_wf(e: Seq<(u64, SVCacheNode)>, k: u64)
        requires
            entries_wf(e),
        ensures
            entries_wf(removed(e, k)),
    {
        lemma_removed(e, k);
        let r = removed(e, k);
        if has_key(e, k) {
            let p = key_pos(e, k);
            assert forall|i: int| 0 <= i < r.len() implies (#[trigger] r[i]).0
                == r[i].1.id().spec_key() && node_ok(r[i].1) by {
                let i2 = if i < p { i } else { i + 1 };
                assert(r[i] == e[i2]);
            }
        }
    }

    /// Using an entry leaves the entries in order.
    pub proof fn lemma_touch_keeps_wf(e: Seq<(u64, SVCacheNode)>, k: u64)
        requires
            entries_wf(e),
        ensures
            entries_wf(touched(e, k)),
            touched(e, k).len() == e.len(),
    {
        lemma_touched(e, k);
        let r = touched(e, k);
        if has_key(e, k) {
            let p = key_pos(e, k);
            assert forall|i: int| 0 <= i < r.len() implies (#[trigger] r[i]).0
                == r[i].1.id().spec_key() && node_ok(r[i].1) by {
                if i > 0 {
                    let i2 = if i - 1 < p { i - 1 } else { i };
                    assert(r[i] == e[i2]);
                }
            }
        }
    }

    /// Replacing a node by one of the same id leaves the entries in order.
    pub proof fn lemma_replace_keeps_wf(e: Seq<(u64, SVCacheNode)>, k: u64, v: SVCacheNode)
        requires
            entries_wf(e),
            has_key(e, k) ==> v.id() == e[key_pos(e, k)].1.id() && (v is Leaf
                <==> e[key_pos(e, k)].1 is Leaf),
        ensures
            entries_wf(replaced(e, k, v)),
            replaced(e, k, v).len() == e.len(),
    {
        lemma_replaced(e, k, v);
        let r = replaced(e, k, v);
        if has_key(e, k) {
            let p = key_pos(e, k);
            assert forall|i: int| 0 <= i < r.len() implies (#[trigger] r[i]).0
                == r[i].1.id().spec_key() && node_ok(r[i].1) by {
                if i != p {
                    assert(r[i] == e[i]);
                }
            }
        }
    }

    /// Empties the cache.
    pub fn clear(&mut self)
        ensures
            final(self).wf(),
            final(self).entries() == Seq::<(u64, SVCacheNode)>::empty(),
            final(self).cap() == old(self).cap(),
    {
        lru_clear(&mut self.lru);
    }

    /// Marks every entry as not confirmed.
    pub fn unconfirm(&mut self)
        requires
            old(self).wf(),
        ensures
            final(self).wf(),
            final(self).cap() == old(self).cap(),
            final(self).entries() == spec_unconfirm(old(self).entries()),
    {
        let keys = lru_keys(&self.lru);
        let ghost e0 = self.entries();
        let mut i: usize = 0;
        while i < keys.len()
            invariant
                i <= keys.len(),
                keys@ == keys_of(e0),
                entries_wf(e0),
                entries_wf(self.entries()),
                self.cap() == old(self).cap(),
                self.entries().len() == e0.len(),
                e0.len() <= self.cap(),
                forall|j: int| 0 <= j < i ==> self.entries()[j] == spec_unconfirm(e0)[j],
                forall|j: int| i <= j < e0.len() ==> self.entries()[j] == e0[j],
            decreases keys.len() - i,
        {
            let k = keys[i];
            let ghost e = self.entries();
            proof {
                assert(e[i as int] == e0[i as int]);
                assert(e[i as int].0 == k);
                lemma_key_pos(e, i as int);
            }
            match lru_peek_mut(&mut self.lru, k) {
                Some(n) => {
                    n.unconfirm();
                    proof {
                        Self::lemma_replace_keeps_wf(e, k, *n);
                    }
                },
                None => {},
            }
            i += 1;
        }
        assert(self.entries() =~= spec_unconfirm(e0));
    }

    fn confirm_one(&mut self, id: NodeId, version: Option<u32>)
        requires
            old(self).wf(),
        ensures
            final(self).wf(),
            final(self).cap() == old(self).cap(),
            final(self).entries() == spec_confirm_one(old(self).entries(), id, version),
    {
        let ghost e0 = self.entries();
        let ghost k = id.spec_key();
        proof {
            Self::lemma_touch_keeps_wf(e0, k);
            lemma_touched(e0, k);
        }
        match self.get_node_mut(&id) {
            Some(n) => {
                match version {
                    Some(v) => n.validate_with_version(v),
                    None => n.validate(),
                }
                proof {
                    let t = touched(e0, k);
                    assert(entry_of(t, k) == entry_of(e0, k));
                    Self::lemma_replace_keeps_wf(t, k, *n);
                }
            },
            None => {},
        }
    }

    fn confirm_covered(&mut self, root_id: NodeId, version: Option<u32>)
        requires
            old(self).wf(),
            in_range(root_id),
        ensures
            final(self).wf(),
            final(self).cap() == old(self).cap(),
            final(self).entries() == spec_confirm(
                old(self).entries(),
                root_id,
                (root_id.0 + 1) as nat,
                version,
            ),
    {
        let h = root_id.get_height();
        let w = root_id.get_width();
        let ghost e0 = self.entries();
        // the number of nodes of height 0 under the root
        let mut a: u64 = 1;
        let mut d: u32 = 0;
        proof {
            vstd::arithmetic::power2::lemma2_to64();
        }
        while d < h
            invariant
                d <= h <= 32,
                a == pow2(d as nat),
                a <= 0x1_0000_0000,
            decreases h - d,
        {
            proof {
                vstd::arithmetic::power2::lemma2_to64();
                vstd::arithmetic::power2::lemma_pow2_unfold((d + 1) as nat);
                vstd::arithmetic::power2::lemma_pow2_strictly_increases(d as nat, 32);
                if d + 1 < 32 {
                    vstd::arithmetic::power2::lemma_pow2_strictly_increases((d + 1) as nat, 32);
                }
            }
            a = a * 2;
            d += 1;
        }
        let mut i: u32 = 0;
        while i <= h
            invariant
                i <= h + 1,
                h == root_id.0,
                w == root_id.1,
                h <= 32,
                in_range(root_id),
                i <= h ==> a == pow2((h - i) as nat),
                self.wf(),
                self.cap() == old(self).cap(),
                self.entries() == spec_confirm(e0, root_id, i as nat, version),
            decreases h + 1 - i,
        {
            proof {
                Self::lemma_level_bound(root_id, i);
                assert((w as nat + 1) * (a as nat) == (w as nat) * (a as nat) + (a as nat))
                    by (nonlinear_arith);
                assert((w as nat) * (a as nat) >= 0) by (nonlinear_arith);
            }
            let lo: u64 = (w as u64) * a;
            let hi: u64 = lo + a;
            let ghost e_level = self.entries();
            let mut j: u64 = lo;
            while j < hi
                invariant
                    lo <= j <= hi,
                    hi == lo + a,
                    hi <= 0x1_0000_0000,
                    self.wf(),
                    self.cap() == old(self).cap(),
                    self.entries() == spec_confirm_level(e_level, i, lo as nat, (j - lo) as nat, version),
                decreases hi - j,
            {
                self.confirm_one(NodeId::new(i, j as u32), version);
                j += 1;
            }
            if i < h {
                proof {
                    vstd::arithmetic::power2::lemma_pow2_unfold((h - i) as nat);
                }
                a = a / 2;
            }
            i += 1;
        }
    }

    /// The nodes of one level under a node of the range are pages' nodes.
    pub proof fn lemma_level_bound(root: NodeId, i: u32)
        requires
            in_range(root),
            i <= root.0,
        ensures
            (root.1 as nat + 1) * pow2((root.0 - i) as nat) <= 0x1_0000_0000,
            pow2((root.0 - i) as nat) <= 0x1_0000_0000,
            pow2((root.0 - i) as nat) > 0,
    {
        let k = (root.0 - i) as nat;
        let m = (32 - root.0) as nat;
        vstd::arithmetic::power2::lemma2_to64();
        vstd::arithmetic::power2::lemma_pow2_pos(k);
        vstd::arithmetic::power2::lemma_pow2_adds(m, root.0 as nat);
        vstd::arithmetic::power2::lemma_pow2_adds(k, i as nat);
        vstd::arithmetic::power2::lemma_pow2_pos(i as nat);
        // (w + 1) <= 2^m, and 2^k <= 2^h
        assert((root.1 as nat + 1) * pow2(k) <= pow2(m) * pow2(k)) by (nonlinear_arith)
            requires
                root.1 as nat + 1 <= pow2(m),
        ;
        assert(pow2(m) * pow2(k) <= pow2(m) * pow2(root.0 as nat)) by (nonlinear_arith)
            requires
                pow2(k) * pow2(i as nat) == pow2(root.0 as nat),
                pow2(i as nat) >= 1,
                pow2(k) >= 1,
        ;
        assert(pow2(k) <= (root.1 as nat + 1) * pow2(k)) by (nonlinear_arith);
    }

    /// Marks every node under `root_id` that the cache holds as confirmed.
    pub fn confirm(&mut self, root_id: NodeId)
        requires
            old(self).wf(),
            in_range(root_id),
        ensures
            final(self).wf(),
            final(self).cap() == old(self).cap(),
            final(self).entries() == spec_confirm(
                old(self).entries(),
                root_id,
                (root_id.0 + 1) as nat,
                None,
            ),
    {
        self.confirm_covered(root_id, None)
    }

    /// Marks every node under `root_id` that the cache holds as confirmed,
    /// and gives the leaves among them the version `version`.
    pub fn confirm_with_version(&mut self, root_id: NodeId, version: u32)
        requires
            old(self).wf(),
            in_range(root_id),
        ensures
            final(self).wf(),
            final(self).cap() == old(self).cap(),
            final(self).entries() == spec_confirm(
                old(self).entries(),
                root_id,
                (root_id.0 + 1) as nat,
                Some(version),
            ),
    {
        self.confirm_covered(root_id, Some(version))
    }

    /// The bytes that the entries count for, and the greatest height of a
    /// node above the leaves.
    pub fn cache_size_and_height(&self) -> (r: (u32, u32))
        requires
            self.wf(),
            self.entries().len() * 4100 <= u32::MAX,
        ensures
            r.0 == spec_size(self.entries(), self.entries().len()),
            r.1 == spec_max_height(self.entries(), self.entries().len()),
    {
        let mut height: u32 = 0;
        let mut size: u32 = 0;
        let keys = lru_keys(&self.lru);
        let mut i: usize = 0;
        while i < keys.len()
            invariant
                i <= keys.len(),
                keys@ == keys_of(self.entries()),
                self.wf(),
                self.entries().len() * 4100 <= u32::MAX,
                size == spec_size(self.entries(), i as nat),
                size <= i * 4100,
                height == spec_max_height(self.entries(), i as nat),
            decreases keys.len() - i,
        {
            proof {
                lemma_key_pos(self.entries(), i as int);
            }
            match lru_peek(&self.lru, keys[i]) {
                Some(SVCacheNode::Leaf(_)) => {
                    size += 4100;
                },
                Some(SVCacheNode::NonLeaf(n)) => {
                    size += 40;
                    let id = n.get_id();
                    let h = id.get_height();
                    if height < h {
                        height = h;
                    }
                },
                None => {},
            }
            i += 1;
        }
        (size, height)
    }

    /// The parent of `n_id`, which counts as used.
    pub fn find_parent(&mut self, n_id: NodeId) -> (n: Option<&SVCacheNode>)
        requires
            n_id.0 < u32::MAX,
        ensures
            final(self).entries() == touched(old(self).entries(), n_id.parent().spec_key()),
            final(self).cap() == old(self).cap(),
            match n {
                Some(n) => Some(*n) == old(self).node(n_id.parent()),
                None => old(self).node(n_id.parent()) is None,
            },
    {
        let height = n_id.get_height() + 1;
        let width = n_id.get_width() / 2;
        let parent_id = NodeId::new(height, width);
        self.get_node(&parent_id)
    }

    /// The sibling of `id`, which counts as used, if it is confirmed.
    pub fn find_sib(&mut self, id: NodeId) -> (n: Option<&SVCacheNode>)
        ensures
            final(self).entries() == touched(old(self).entries(), id.sibling().spec_key()),
            final(self).cap() == old(self).cap(),
            match n {
                Some(n) => Some(*n) == old(self).node(id.sibling()) && n.valid(),
                None => !(old(self).node(id.sibling()) matches Some(s) && s.valid()),
            },
    {
        let sib_id = id.get_sib_id();
        if let Some(node) = self.get_node(&sib_id) {
            if node.is_valid() {
                return Some(node);
            }
        }
        None
    }

    /// Whether the cache holds a node under the key `k`.
    pub fn holds_key(&self, k: u64) -> (r: bool)
        ensures
            r == has_key(self.entries(), k),
    {
        lru_contains(&self.lru, k)
    }

    /// Whether the cache holds the sibling of `id`.
    pub fn has_sib(&self, id: NodeId) -> (r: bool)
        ensures
            r == (self.node(id.sibling()) is Some),
    {
        let sib_id = id.get_sib_id();
        lru_contains(&self.lru, sib_id.key())
    }

    /// Puts a page into the cache and carries its hash upward: as long as
    /// the sibling of the node last pushed is in the cache and confirmed,
    /// the parent is pushed with the hash of the two.
    pub fn insert(&mut self, p_id: PageId, bytes: Box<[u8; 4096]>, version: u32)
        requires
            old(self).wf(),
        ensures
            final(self).wf(),
            final(self).cap() == old(self).cap(),
            final(self).entries() == spec_insert(
                old(self).entries(),
                old(self).cap(),
                SVCacheLeafNode { id: NodeId(0, p_id.0), bytes, version, is_valid: true },
            ),
    {
        let new_n = SVCacheLeafNode::new(p_id, bytes, version);
        let mut cur_id = NodeId::from_page_id(p_id);
        let mut cur_hash = new_n.to_digest();
        let ghost leaf = new_n;
        proof {
            vstd::arithmetic::power2::lemma2_to64();
        }
        self.push_node(cur_id, SVCacheNode::Leaf(new_n));
        let ghost target = spec_insert(old(self).entries(), old(self).cap(), leaf);

        loop
            invariant_except_break
                self.wf(),
                self.cap() == old(self).cap(),
                in_range(cur_id),
                spec_propagate(self.entries(), self.cap(), cur_id, cur_hash@) == target,
            ensures
                self.wf(),
                self.cap() == old(self).cap(),
                self.entries() == target,
            decreases 32 - cur_id.0,
        {
            let ghost e = self.entries();
            proof {
                Self::lemma_touch_keeps_wf(e, cur_id.sibling().spec_key());
                if has_key(e, cur_id.sibling().spec_key()) {
                    let p = key_pos(e, cur_id.sibling().spec_key());
                    NodeId::lemma_key_injective(e[p].1.id(), cur_id.sibling());
                    lemma_top_has_no_sibling(cur_id);
                }
            }
            let sib_hash = match self.find_sib(cur_id) {
                Some(sib) => sib.to_digest(),
                None => {
                    break ;
                },
            };
            proof {
                lemma_parent_in_range(cur_id);
            }
            let parent_id = cur_id.get_parent_id();
            let parent_hash = if cur_id.is_even() {
                merge_hash(&cur_hash, &sib_hash)
            } else {
                merge_hash(&sib_hash, &cur_hash)
            };
            proof {
                lemma_digest_of(parent_hash);
            }
            let parent = SVCacheNonLeafNode::new(parent_id, parent_hash);
            cur_hash = parent_hash;
            cur_id = parent_id;
            self.push_node(parent_id, SVCacheNode::NonLeaf(parent));
        }
    }
}

} // verus!
