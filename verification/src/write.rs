//! The write context: the change that a batch of page updates makes to the
//! nodes of the tree and to its root.

use vstd::prelude::*;
use std::collections::HashMap;
use crate::digest::Digest;
use crate::hash::{leaf_hash, nonleaf_hash, spec_leaf_hash, spec_nonleaf_hash};
use crate::read::ancestor;
use crate::node::{lookup, MerkleNode, MerkleNodeLoader, NodeId, StoreError};
use crate::page::{bit_length, PageId};

verus! {

broadcast use vstd::std_specs::hash::group_hash_axioms;

/// The hashes that a map from node keys to nodes holds, by node id.
pub open spec fn keyed_hashes(m: Map<u64, MerkleNode>) -> Map<NodeId, Seq<u8>> {
    Map::new(|id: NodeId| m.contains_key(id.spec_key()), |id: NodeId| m[id.spec_key()].hash@)
}

/// The hash of the parent of `cur`, whose own hash is `cur_hash` and whose
/// sibling has the hash `sib`, if it exists: the even child stands left.
pub open spec fn spec_parent_hash(cur: NodeId, cur_hash: Seq<u8>, sib: Option<Seq<u8>>) -> Seq<u8> {
    if cur.1 % 2 == 0 {
        spec_nonleaf_hash(Some(cur_hash), sib)
    } else {
        spec_nonleaf_hash(sib, Some(cur_hash))
    }
}

/// The nodes after the walk from `cur`, whose hash `cur_hash` is written
/// already, up to the height `target`: at each step the parent is written
/// with the hash of its two children as the store has them then.
pub open spec fn spec_walk_store(
    store: Map<NodeId, Seq<u8>>,
    cur: NodeId,
    cur_hash: Seq<u8>,
    target: u32,
) -> Map<NodeId, Seq<u8>>
    decreases target - cur.0,
{
    if cur.0 >= target {
        store
    } else {
        let h = spec_parent_hash(cur, cur_hash, lookup(store, cur.sibling()));
        spec_walk_store(store.insert(cur.parent(), h), cur.parent(), h, target)
    }
}

/// The node at which the walk from `cur` up to the height `target` ends.
pub open spec fn spec_walk_end(cur: NodeId, target: u32) -> NodeId
    decreases target - cur.0,
{
    if cur.0 >= target {
        cur
    } else {
        spec_walk_end(cur.parent(), target)
    }
}

/// The hash that the walk from `cur` up to the height `target` writes
/// last, or `cur_hash` where the walk writes nothing.
pub open spec fn spec_walk_hash(
    store: Map<NodeId, Seq<u8>>,
    cur: NodeId,
    cur_hash: Seq<u8>,
    target: u32,
) -> Seq<u8>
    decreases target - cur.0,
{
    if cur.0 >= target {
        cur_hash
    } else {
        let h = spec_parent_hash(cur, cur_hash, lookup(store, cur.sibling()));
        spec_walk_hash(store.insert(cur.parent(), h), cur.parent(), h, target)
    }
}

/// A walk up to one level more is the walk, and then one step from
/// where it ended.
pub proof fn lemma_walk_one_more(
    store: Map<NodeId, Seq<u8>>,
    cur: NodeId,
    cur_hash: Seq<u8>,
    target: u32,
)
    requires
        cur.0 <= target < u32::MAX,
    ensures
        ({
            let s = spec_walk_store(store, cur, cur_hash, target);
            let c = spec_walk_end(cur, target);
            let h = spec_walk_hash(store, cur, cur_hash, target);
            let up = (target + 1) as u32;
            let ph = spec_parent_hash(c, h, lookup(s, c.sibling()));
            &&& c.0 == target
            &&& spec_walk_store(store, cur, cur_hash, up) == s.insert(c.parent(), ph)
            &&& spec_walk_end(cur, up) == c.parent()
            &&& spec_walk_hash(store, cur, cur_hash, up) == ph
        }),
    decreases target - cur.0,
{
    let up = (target + 1) as u32;
    if cur.0 < target {
        let h = spec_parent_hash(cur, cur_hash, lookup(store, cur.sibling()));
        lemma_walk_one_more(store.insert(cur.parent(), h), cur.parent(), h, target);
    } else {
        reveal_with_fuel(spec_walk_store, 2);
        reveal_with_fuel(spec_walk_end, 2);
        reveal_with_fuel(spec_walk_hash, 2);
    }
}

/// A walk writes above the node it starts from: every node that is not
/// higher is what it was.
pub proof fn lemma_walk_keeps_lower(
    store: Map<NodeId, Seq<u8>>,
    cur: NodeId,
    cur_hash: Seq<u8>,
    target: u32,
    id: NodeId,
)
    requires
        id.0 <= cur.0,
    ensures
        lookup(spec_walk_store(store, cur, cur_hash, target), id) == lookup(store, id),
    decreases target - cur.0,
{
    if cur.0 < target {
        let h = spec_parent_hash(cur, cur_hash, lookup(store, cur.sibling()));
        lemma_walk_keeps_lower(store.insert(cur.parent(), h), cur.parent(), h, target, id);
    }
}

/// **The leaf of a written page has the hash of the page.** After page
/// `p_id` was set to a page whose bytes hash to `p_hash`, the leaf of the
/// page holds the hash of the page's id and of `p_hash`.
pub proof fn lemma_update_writes_leaf(
    store: Map<NodeId, Seq<u8>>,
    root: Option<NodeId>,
    p_id: u32,
    p_hash: Seq<u8>,
)
    ensures
        spec_update_store(store, root, p_id, p_hash).contains_key(NodeId(0, p_id)),
        spec_update_store(store, root, p_id, p_hash)[NodeId(0, p_id)] == spec_leaf_hash(
            p_id,
            p_hash,
        ),
{
    let leaf = NodeId(0, p_id);
    let leaf_h = spec_leaf_hash(p_id, p_hash);
    if root_height(root) != 0 {
        lemma_walk_keeps_lower(
            store.insert(leaf, leaf_h),
            leaf,
            leaf_h,
            target_height(root, p_id),
            leaf,
        );
    }
}

/// The height of the root, 0 for a tree without root.
pub open spec fn root_height(root: Option<NodeId>) -> u32 {
    match root {
        Some(id) => id.0,
        None => 0,
    }
}

/// The height up to which an update of page `p_id` walks: the height of
/// the root, or the height that the page needs if that is more.
pub open spec fn target_height(root: Option<NodeId>, p_id: u32) -> u32 {
    if bit_length(p_id as nat) > root_height(root) {
        bit_length(p_id as nat) as u32
    } else {
        root_height(root)
    }
}

/// Whether the update of page `p_id` grows a tree of a single leaf by one
/// level: the root is a leaf and the page is not page 0.
pub open spec fn seeds_root(root: Option<NodeId>, p_id: u32) -> bool {
    root_height(root) == 0 && root is Some && p_id != 0
}

/// Whether the update cannot be made: it needs the hash of the root, and
/// the store with the new leaf in it does not hold the root.
pub open spec fn root_missing(store: Map<NodeId, Seq<u8>>, root: Option<NodeId>, p_id: u32) -> bool {
    seeds_root(root, p_id) && root != Some(NodeId(0, p_id)) && !store.contains_key(root->Some_0)
}

/// The nodes after page `p_id` was updated to the page hash `p_hash`.
pub open spec fn spec_update_store(
    store: Map<NodeId, Seq<u8>>,
    root: Option<NodeId>,
    p_id: u32,
    p_hash: Seq<u8>,
) -> Map<NodeId, Seq<u8>> {
    let leaf = NodeId(0, p_id);
    let leaf_h = spec_leaf_hash(p_id, p_hash);
    let with_leaf = store.insert(leaf, leaf_h);
    if root_height(root) == 0 {
        if root is None || p_id == 0 {
            with_leaf
        } else {
            with_leaf.insert(
                leaf.parent(),
                spec_nonleaf_hash(Some(with_leaf[root->Some_0]), Some(leaf_h)),
            )
        }
    } else {
        spec_walk_store(with_leaf, leaf, leaf_h, target_height(root, p_id))
    }
}

/// The written nodes `pending` with, over them, the nodes above page
/// `p_id` up to the height `top`, the leaf included, as `store` has
/// them.
pub open spec fn written_onto(
    pending: Map<NodeId, Seq<u8>>,
    store: Map<NodeId, Seq<u8>>,
    p_id: u32,
    top: u32,
) -> Map<NodeId, Seq<u8>> {
    Map::new(
        |id: NodeId| pending.contains_key(id) || (id.0 <= top && id == ancestor(p_id, id.0)),
        |id: NodeId|
            if id.0 <= top && id == ancestor(p_id, id.0) {
                store[id]
            } else {
                pending[id]
            },
    )
}

/// The nodes that a context has written after page `p_id` was updated:
/// those it had written before, and the nodes above the page up to the
/// new root, the leaf included, with the hashes that the update gives
/// them.
pub open spec fn spec_update_pending(
    pending: Map<NodeId, Seq<u8>>,
    store: Map<NodeId, Seq<u8>>,
    root: Option<NodeId>,
    p_id: u32,
    p_hash: Seq<u8>,
) -> Map<NodeId, Seq<u8>> {
    written_onto(
        pending,
        spec_update_store(store, root, p_id, p_hash),
        p_id,
        spec_update_root(root, p_id).0,
    )
}

/// Writing the next node above the page adds that node to the written
/// nodes.
pub proof fn lemma_written_one_more(
    pending: Map<NodeId, Seq<u8>>,
    store: Map<NodeId, Seq<u8>>,
    p_id: u32,
    k: u32,
    h: Seq<u8>,
)
    requires
        k < u32::MAX,
    ensures
        written_onto(pending, store.insert(ancestor(p_id, (k + 1) as u32), h), p_id, (k + 1) as u32)
            == written_onto(pending, store, p_id, k).insert(ancestor(p_id, (k + 1) as u32), h),
{
    let up = (k + 1) as u32;
    let a = written_onto(pending, store.insert(ancestor(p_id, up), h), p_id, up);
    let b = written_onto(pending, store, p_id, k).insert(ancestor(p_id, up), h);
    assert forall|id: NodeId| a.contains_key(id) == b.contains_key(id) by {}
    assert forall|id: NodeId| a.contains_key(id) implies a[id] == b[id] by {}
    assert(a =~= b);
}

/// The root after page `p_id` was updated.
pub open spec fn spec_update_root(root: Option<NodeId>, p_id: u32) -> NodeId {
    let leaf = NodeId(0, p_id);
    if root_height(root) == 0 {
        if root is None || p_id == 0 {
            leaf
        } else {
            leaf.parent()
        }
    } else {
        spec_walk_end(leaf, target_height(root, p_id))
    }
}

/// The hash of the parent of `cur_id` from the hash of `cur_id` and the
/// sibling that the store gave.
pub fn parent_hash(cur_id: &NodeId, cur_hash: Digest, sib: Option<MerkleNode>) -> (h: Digest)
    ensures
        h@ == spec_parent_hash(*cur_id, cur_hash@, crate::node::node_view(sib)),
{
    match sib {
        Some(sib) => {
            let sib_hash = sib.get_hash();
            if cur_id.is_even() {
                nonleaf_hash(Some(cur_hash), Some(sib_hash))
            } else {
                nonleaf_hash(Some(sib_hash), Some(cur_hash))
            }
        },
        None => {
            if cur_id.is_even() {
                nonleaf_hash(Some(cur_hash), None)
            } else {
                nonleaf_hash(None, Some(cur_hash))
            }
        },
    }
}

/// Why an update was not made.
#[derive(Debug)]
pub enum UpdateError {
    /// The store does not hold the root whose hash the update needs.
    MissingRoot,
    /// The store failed.
    Store(StoreError),
}

/// The outcome of a write context: the new root and the nodes that were
/// written, by the key of their id.
pub struct Apply {
    pub root_id: Option<NodeId>,
    pub nodes: HashMap<u64, MerkleNode>,
}

impl Apply {
    /// The hashes of the written nodes, by node id.
    pub open spec fn hashes(&self) -> Map<NodeId, Seq<u8>> {
        keyed_hashes(self.nodes@)
    }

    fn set_root_id(&mut self, new_id: NodeId)
        ensures
            final(self).root_id == Some(new_id),
            final(self).nodes == old(self).nodes,
    {
        self.root_id = Some(new_id);
    }

    pub fn get_root_id(&self) -> (r: Option<NodeId>)
        ensures
            r == self.root_id,
    {
        self.root_id
    }
}

/// Updates of pages against the nodes of a loader. The nodes that the
/// updates write are kept aside and read before those of the loader.
pub struct WriteContext<'a, L: MerkleNodeLoader> {
    node_loader: &'a L,
    apply: Apply,
}

impl<'a, L: MerkleNodeLoader> WriteContext<'a, L> {
    /// The loader that the context reads.
    pub closed spec fn loader(&self) -> &'a L {
        self.node_loader
    }

    /// The current root.
    pub closed spec fn root(&self) -> Option<NodeId> {
        self.apply.root_id
    }

    /// The hashes of the nodes written so far.
    pub closed spec fn pending(&self) -> Map<NodeId, Seq<u8>> {
        self.apply.hashes()
    }

    /// The hashes of the nodes as the context sees them: those written so
    /// far, and under them those of the loader.
    pub open spec fn store(&self) -> Map<NodeId, Seq<u8>> {
        self.loader().nodes()@.union_prefer_right(self.pending())
    }

    pub fn new(node_loader: &'a L, root_id: Option<NodeId>) -> (ctx: Self)
        ensures
            ctx.loader() == node_loader,
            ctx.root() == root_id,
            ctx.pending() == Map::<NodeId, Seq<u8>>::empty(),
    {
        let ctx = WriteContext { node_loader, apply: Apply { root_id, nodes: HashMap::new() } };
        assert(ctx.pending() =~= Map::<NodeId, Seq<u8>>::empty());
        ctx
    }

    /// The height of the root, 0 for a tree without root.
    pub fn get_height(&self) -> (h: u32)
        ensures
            h == root_height(self.root()),
    {
        let root_id = self.apply.root_id;
        if let Some(id) = root_id {
            id.get_height()
        } else {
            0
        }
    }

    pub fn set_root_id(&mut self, new_id: NodeId)
        ensures
            final(self).root() == Some(new_id),
            final(self).pending() == old(self).pending(),
            final(self).loader() == old(self).loader(),
    {
        self.apply.set_root_id(new_id);
    }

    /// Ends the context and hands out what it wrote.
    pub fn changes(self) -> (a: Apply)
        ensures
            a.root_id == self.root(),
            a.hashes() == self.pending(),
    {
        self.apply
    }

    /// The node with the given id: the one written in this context, else
    /// the one of the loader.
    pub fn get_node(&self, id: &NodeId) -> (r: Result<Option<MerkleNode>, StoreError>)
        ensures
            r matches Ok(o) ==> crate::node::node_view(o) == lookup(self.store(), *id),
            self.loader().always_answers() ==> r is Ok,
    {
        let key = id.key();
        match self.apply.nodes.get(&key) {
            Some(n) => Ok(Some(*n)),
            None => self.node_loader.load_node(id),
        }
    }

    /// Writes a node into the context.
    pub fn write_node(&mut self, id: NodeId, n: MerkleNode)
        ensures
            final(self).pending() == old(self).pending().insert(id, n.hash@),
            final(self).store() == old(self).store().insert(id, n.hash@),
            final(self).root() == old(self).root(),
            final(self).loader() == old(self).loader(),
    {
        let key = id.key();
        self.apply.nodes.insert(key, n);
        proof {
            assert forall|a: NodeId, b: NodeId| a.spec_key() == b.spec_key() implies a == b by {
                NodeId::lemma_key_injective(a, b);
            }
            assert(final(self).pending() =~= old(self).pending().insert(id, n.hash@));
            assert(final(self).store() =~= old(self).store().insert(id, n.hash@));
        }
    }

    /// Sets page `p_id` to a page whose bytes hash to `p_hash`: writes the
    /// leaf, then every node above it up to the root, which moves up where
    /// the page needs a higher tree.
    pub fn update(&mut self, p_hash: Digest, p_id: PageId) -> (r: Result<(), UpdateError>)
        ensures
            final(self).loader() == old(self).loader(),
            root_height(old(self).root()) == 0 && (old(self).root() is None || p_id.0 == 0)
                ==> r is Ok,
            old(self).loader().always_answers() && !root_missing(
                old(self).store(),
                old(self).root(),
                p_id.0,
            ) ==> r is Ok,
            match r {
                Ok(()) => {
                    &&& !root_missing(old(self).store(), old(self).root(), p_id.0)
                    &&& final(self).store() == spec_update_store(
                        old(self).store(),
                        old(self).root(),
                        p_id.0,
                        p_hash@,
                    )
                    &&& final(self).pending() == spec_update_pending(
                        old(self).pending(),
                        old(self).store(),
                        old(self).root(),
                        p_id.0,
                        p_hash@,
                    )
                    &&& final(self).root() == Some(spec_update_root(old(self).root(), p_id.0))
                    &&& final(self).store().contains_key(NodeId(0, p_id.0))
                    &&& final(self).store()[NodeId(0, p_id.0)] == spec_leaf_hash(p_id.0, p_hash@)
                    &&& final(self).pending().contains_key(NodeId(0, p_id.0))
                    &&& final(self).pending()[NodeId(0, p_id.0)] == spec_leaf_hash(p_id.0, p_hash@)
                },
                Err(UpdateError::MissingRoot) => {
                    &&& root_missing(old(self).store(), old(self).root(), p_id.0)
                    &&& final(self).root() == old(self).root()
                    &&& final(self).pending() == old(self).pending().insert(
                        NodeId(0, p_id.0),
                        spec_leaf_hash(p_id.0, p_hash@),
                    )
                },
                Err(UpdateError::Store(_)) => {
                    &&& !old(self).loader().always_answers()
                    &&& final(self).root() == old(self).root()
                    &&& exists|reached: u32|
                        {
                            &&& #[trigger] spec_walk_store(
                                old(self).store().insert(
                                    NodeId(0, p_id.0),
                                    spec_leaf_hash(p_id.0, p_hash@),
                                ),
                                NodeId(0, p_id.0),
                                spec_leaf_hash(p_id.0, p_hash@),
                                reached,
                            ) == final(self).store()
                            &&& final(self).pending() == written_onto(
                                old(self).pending(),
                                final(self).store(),
                                p_id.0,
                                reached,
                            )
                        }
                },
            },
    {
        let height = self.get_height();
        let id = NodeId::from_page_id(p_id);
        let leaf_hash = leaf_hash(&p_id, &p_hash);
        let ghost store0 = self.store();
        let ghost pending0 = self.pending();
        proof {
            lemma_update_writes_leaf(store0, self.root(), p_id.0, p_hash@);
            vstd::arithmetic::power2::lemma2_to64();
            crate::tree_model::lemma_ancestor_parent(p_id.0, 0);
        }
        self.write_node(id, MerkleNode::new(leaf_hash));
        proof {
            assert(self.pending() =~= written_onto(pending0, self.store(), p_id.0, 0));
        }

        if height == 0 {
            match self.apply.root_id {
                None => {
                    self.set_root_id(id);
                    return Ok(());
                },
                Some(root_id) => {
                    if p_id.get_id() == 0 {
                        self.set_root_id(id);
                        return Ok(());
                    }
                    let cur_root = match self.get_node(&root_id) {
                        Ok(Some(n)) => n,
                        Ok(None) => {
                            return Err(UpdateError::MissingRoot);
                        },
                        Err(e) => {
                            proof {
                                assert(spec_walk_store(self.store(), id, leaf_hash@, 0)
                                    == self.store());
                            }
                            return Err(UpdateError::Store(e));
                        },
                    };
                    let cur_root_hash = cur_root.get_hash();
                    let non_leaf_hash = nonleaf_hash(Some(cur_root_hash), Some(leaf_hash));
                    let new_root_id = id.get_parent_id();
                    proof {
                        lemma_written_one_more(pending0, self.store(), p_id.0, 0, non_leaf_hash@);
                    }
                    self.write_node(new_root_id, MerkleNode::new(non_leaf_hash));
                    self.set_root_id(new_root_id);
                    return Ok(());
                },
            }
        }
        let mut cur_root_id = id;
        let mut cur_root_hash = leaf_hash;

        let p_id_target_height = p_id.find_height();
        let target_height = if p_id_target_height > height {
            p_id_target_height
        } else {
            height
        };
        let ghost with_leaf = self.store();

        while cur_root_id.get_height() < target_height
            invariant
                self.loader() == old(self).loader(),
                self.root() == old(self).root(),
                cur_root_id.0 <= target_height,
                id == NodeId(0, p_id.0),
                leaf_hash@ == spec_leaf_hash(p_id.0, p_hash@),
                with_leaf == old(self).store().insert(id, leaf_hash@),
                self.store() == spec_walk_store(with_leaf, id, leaf_hash@, cur_root_id.0),
                cur_root_id == spec_walk_end(id, cur_root_id.0),
                cur_root_hash@ == spec_walk_hash(with_leaf, id, leaf_hash@, cur_root_id.0),
                spec_walk_store(self.store(), cur_root_id, cur_root_hash@, target_height)
                    == spec_walk_store(with_leaf, id, leaf_hash@, target_height),
                spec_walk_end(cur_root_id, target_height) == spec_walk_end(id, target_height),
                cur_root_id == ancestor(p_id.0, cur_root_id.0),
                root_height(old(self).root()) > 0,
                pending0 == old(self).pending(),
                self.pending() == written_onto(pending0, self.store(), p_id.0, cur_root_id.0),
            decreases target_height - cur_root_id.0,
        {
            let sib_id = cur_root_id.get_sib_id();
            let sib_n = match self.get_node(&sib_id) {
                Ok(n) => n,
                Err(e) => {
                    proof {
                        assert(spec_walk_store(with_leaf, id, leaf_hash@, cur_root_id.0)
                            == self.store());
                        assert(self.pending() == written_onto(
                            old(self).pending(),
                            self.store(),
                            p_id.0,
                            cur_root_id.0,
                        ));
                    }
                    return Err(UpdateError::Store(e));
                },
            };
            proof {
                lemma_walk_one_more(with_leaf, id, leaf_hash@, cur_root_id.0);
                crate::tree_model::lemma_ancestor_parent(p_id.0, cur_root_id.0);
            }
            let ghost below = cur_root_id.0;
            cur_root_hash = parent_hash(&cur_root_id, cur_root_hash, sib_n);
            cur_root_id = cur_root_id.get_parent_id();
            proof {
                lemma_written_one_more(pending0, self.store(), p_id.0, below, cur_root_hash@);
            }
            self.write_node(cur_root_id, MerkleNode::new(cur_root_hash));
        }
        self.set_root_id(cur_root_id);

        Ok(())
    }
}

/// The least height of a tree that has a leaf for page `p_id`.
pub fn find_height(p_id: PageId) -> (h: u32)
    ensures
        h == bit_length(p_id.0 as nat),
        h <= 32,
{
    p_id.find_height()
}

} // verus!
