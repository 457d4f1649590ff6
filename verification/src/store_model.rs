//! What every update keeps, whatever pages it sets: each node above the
//! leaves has the hash of its children. The one update that breaks this
//! grows a tree of a single leaf over a page that is not the right
//! neighbour of that leaf.

use vstd::prelude::*;
use vstd::arithmetic::power2::{lemma2_to64, lemma_pow2_unfold};
use crate::digest::Digest;
use crate::hash::spec_leaf_hash;
use crate::node::{lookup, NodeId};
use crate::page::PageId;
use crate::simple_vcache::{in_range, lemma_parent_in_range};
use crate::proof_model::leaves_hashed;
use crate::tree_model::{consistent_at, hash_consistent};
use crate::write::{
    root_height, root_missing, seeds_root, spec_parent_hash, spec_update_root,
    spec_update_store, spec_walk_end, spec_walk_store, target_height,
};
use crate::write_set::{spec_apply_fails, spec_apply_root, spec_apply_store};

verus! {

/// Whether the nodes of `store` can be those of a tree with the root
/// `root`: each is a node of a tree over 32-bit page ids and not higher
/// than the root, every node above the leaves has the hash of its
/// children, an absent child counting as absent, and the store holds the
/// root.
pub open spec fn settled(store: Map<NodeId, Seq<u8>>, root: Option<NodeId>) -> bool {
    &&& forall|id: NodeId| #[trigger]
        store.contains_key(id) ==> in_range(id) && id.0 <= root_height(root)
    &&& hash_consistent(store)
    &&& root matches Some(r) ==> store.contains_key(r)
}

/// Whether the update of page `p` grows a tree of a single leaf into a
/// root over two nodes that are not its children: the root is a leaf, and
/// not the left neighbour of `p`.
pub open spec fn misseeds(root: Option<NodeId>, p: u32) -> bool {
    seeds_root(root, p) && !(p % 2 == 1 && root == Some(NodeId(0, (p - 1) as u32)))
}

/// The children of the parent of a node are the node and its sibling,
/// and a node above the leaves is the parent of its children.
pub proof fn lemma_family(id: NodeId)
    requires
        in_range(id),
    ensures
        id.0 < 32 ==> id.parent().left_child() == (if id.1 % 2 == 0 {
            id
        } else {
            id.sibling()
        }),
        id.0 < 32 ==> id.parent().right_child() == (if id.1 % 2 == 0 {
            id.sibling()
        } else {
            id
        }),
        id.0 > 0 ==> id.left_child().parent() == id && id.right_child().parent() == id,
{
    lemma2_to64();
    if id.0 > 0 {
        lemma_pow2_unfold((33 - id.0) as nat);
        vstd::arithmetic::power2::lemma_pow2_strictly_increases((33 - id.0) as nat, 33);
        lemma_pow2_unfold(33);
    }
}

/// What holds of the store while a walk upward has reached `cur`: its
/// nodes are nodes of a tree over 32-bit page ids and not higher than
/// `top`, it holds `cur`, and every node above the leaves has the hash of
/// its children, but for the parent of `cur`, which the walk has yet to
/// write.
pub open spec fn climb_inv(store: Map<NodeId, Seq<u8>>, cur: NodeId, top: u32) -> bool {
    &&& in_range(cur)
    &&& store.contains_key(cur)
    &&& cur.0 <= top
    &&& forall|id: NodeId| #[trigger] store.contains_key(id) ==> in_range(id) && id.0 <= top
    &&& forall|id: NodeId| #[trigger]
        store.contains_key(id) && id.0 > 0 && id != cur.parent() ==> consistent_at(store, id)
}

/// One step of a walk: the parent is written with the hash of its
/// children, and the walk has reached the parent.
pub proof fn lemma_climb_step(store: Map<NodeId, Seq<u8>>, cur: NodeId, top: u32)
    requires
        climb_inv(store, cur, top),
        cur.0 < 32,
    ensures
        climb_inv(
            store.insert(
                cur.parent(),
                spec_parent_hash(cur, store[cur], lookup(store, cur.sibling())),
            ),
            cur.parent(),
            if cur.0 + 1 > top {
                (cur.0 + 1) as u32
            } else {
                top
            },
        ),
{
    let parent = cur.parent();
    let h = spec_parent_hash(cur, store[cur], lookup(store, cur.sibling()));
    let next = store.insert(parent, h);
    lemma_parent_in_range(cur);
    lemma_family(cur);
    assert(consistent_at(next, parent)) by {
        assert(lookup(next, cur) == lookup(store, cur));
        assert(lookup(next, cur.sibling()) == lookup(store, cur.sibling()));
    }
    assert forall|id: NodeId| #[trigger]
        next.contains_key(id) && id.0 > 0 && id != parent.parent() implies consistent_at(
        next,
        id,
    ) by {
        if id != parent {
            assert(store.contains_key(id) && consistent_at(store, id));
            lemma_family(id);
            assert(id.left_child() != parent);
            assert(id.right_child() != parent);
            assert(lookup(next, id.left_child()) == lookup(store, id.left_child()));
            assert(lookup(next, id.right_child()) == lookup(store, id.right_child()));
        }
    }
}

/// A walk that starts where `climb_inv` holds ends with every node above
/// the leaves at the hash of its children.
pub proof fn lemma_climb(store: Map<NodeId, Seq<u8>>, cur: NodeId, target: u32, top: u32)
    requires
        climb_inv(store, cur, top),
        cur.0 <= target <= 32,
        top <= target,
    ensures
        ({
            let out = spec_walk_store(store, cur, store[cur], target);
            let end = spec_walk_end(cur, target);
            &&& end.0 == target
            &&& out.contains_key(end)
            &&& hash_consistent(out)
            &&& forall|id: NodeId| #[trigger] out.contains_key(id) ==> in_range(id) && id.0 <= target
        }),
    decreases target - cur.0,
{
    if cur.0 < target {
        let h = spec_parent_hash(cur, store[cur], lookup(store, cur.sibling()));
        let next = store.insert(cur.parent(), h);
        let next_top = if cur.0 + 1 > top {
            (cur.0 + 1) as u32
        } else {
            top
        };
        lemma_climb_step(store, cur, top);
        lemma_climb(next, cur.parent(), target, next_top);
    } else {
        assert forall|id: NodeId| #[trigger] store.contains_key(id) && id.0 > 0 implies consistent_at(
            store,
            id,
        ) by {
            assert(id.0 <= top);
        }
    }
}

/// **An update keeps the hashes.** Where every node above the leaves has
/// the hash of its children, an absent child counting as absent, and the
/// update of page `p` does not grow a tree of a single leaf over a page
/// that is not the right neighbour of that leaf, the update is made, and
/// after it every node above the leaves has the hash of its children.
pub proof fn lemma_update_keeps_hashes(
    store: Map<NodeId, Seq<u8>>,
    root: Option<NodeId>,
    p: u32,
    d: Seq<u8>,
)
    requires
        settled(store, root),
        !misseeds(root, p),
    ensures
        !root_missing(store, root, p),
        settled(spec_update_store(store, root, p, d), Some(spec_update_root(root, p))),
        hash_consistent(spec_update_store(store, root, p, d)),
{
    let leaf = NodeId(0, p);
    let leaf_h = spec_leaf_hash(p, d);
    let with_leaf = store.insert(leaf, leaf_h);
    let out = spec_update_store(store, root, p, d);
    lemma2_to64();
    assert(in_range(leaf));
    assert forall|id: NodeId| #[trigger]
        with_leaf.contains_key(id) && id.0 > 0 && id != leaf.parent() implies consistent_at(
        with_leaf,
        id,
    ) by {
        assert(store.contains_key(id) && consistent_at(store, id));
        lemma_family(id);
        assert(lookup(with_leaf, id.left_child()) == lookup(store, id.left_child()));
        assert(lookup(with_leaf, id.right_child()) == lookup(store, id.right_child()));
    }
    if root_height(root) == 0 {
        if root is None || p == 0 {
            assert forall|id: NodeId| #[trigger] out.contains_key(id) && id.0 > 0 implies consistent_at(
                out,
                id,
            ) by {}
        } else {
            let r = root->Some_0;
            assert(r == NodeId(0, (p - 1) as u32));
            lemma_family(leaf);
            lemma_parent_in_range(leaf);
            assert(leaf.sibling() == r);
            assert(lookup(out, leaf) == Some(leaf_h));
            assert(lookup(out, r) == Some(with_leaf[r]));
            assert(consistent_at(out, leaf.parent()));
            assert forall|id: NodeId| #[trigger] out.contains_key(id) && id.0 > 0 implies consistent_at(
                out,
                id,
            ) by {}
        }
    } else {
        let r = root->Some_0;
        crate::page::lemma_bit_length_u32(p as nat);
        assert(climb_inv(with_leaf, leaf, r.0));
        lemma_climb(with_leaf, leaf, target_height(root, p), r.0);
    }
}

/// **An update keeps the leaves.** Where each leaf holds the hash of its
/// page id and of a page hash, after an update each leaf does: the leaf of
/// the page that was set holds the hash of the page's id and of the new
/// page hash, and every other leaf is as it was.
pub proof fn lemma_update_keeps_leaves(
    store: Map<NodeId, Seq<u8>>,
    root: Option<NodeId>,
    p: u32,
    d: Seq<u8>,
)
    requires
        leaves_hashed(store),
        d.len() == 32,
    ensures
        leaves_hashed(spec_update_store(store, root, p, d)),
        spec_update_store(store, root, p, d)[NodeId(0, p)] == spec_leaf_hash(p, d),
        forall|q: u32|
            q != p ==> #[trigger] lookup(spec_update_store(store, root, p, d), NodeId(0, q))
                == lookup(store, NodeId(0, q)),
{
    let leaf = NodeId(0, p);
    let leaf_h = spec_leaf_hash(p, d);
    let with_leaf = store.insert(leaf, leaf_h);
    let out = spec_update_store(store, root, p, d);
    assert forall|q: u32| #[trigger] lookup(out, NodeId(0, q)) == lookup(with_leaf, NodeId(0, q)) by {
        if root_height(root) != 0 {
            crate::write::lemma_walk_keeps_lower(
                with_leaf,
                leaf,
                leaf_h,
                target_height(root, p),
                NodeId(0, q),
            );
        }
    }
    assert forall|q: u32| #[trigger] out.contains_key(NodeId(0, q)) implies exists|e: Seq<u8>|
        e.len() == 32 && out[NodeId(0, q)] == #[trigger] spec_leaf_hash(q, e) by {
        assert(lookup(out, NodeId(0, q)) == lookup(with_leaf, NodeId(0, q)));
        if q == p {
            assert(out[NodeId(0, q)] == spec_leaf_hash(q, d));
        } else {
            assert(store.contains_key(NodeId(0, q)));
            let e = choose|e: Seq<u8>|
                e.len() == 32 && store[NodeId(0, q)] == #[trigger] spec_leaf_hash(q, e);
            assert(out[NodeId(0, q)] == spec_leaf_hash(q, e));
        }
    }
    assert(lookup(out, NodeId(0, p)) == lookup(with_leaf, NodeId(0, p)));
}

/// **The tree over some pages is settled.** The nodes of the tree over
/// some pages are nodes of a tree over 32-bit page ids, none is higher
/// than the root, each node above the leaves has the hash of its
/// children, and the store holds the root.
pub proof fn lemma_tree_is_settled(
    store: Map<NodeId, Seq<u8>>,
    root: Option<NodeId>,
    pages: Seq<Seq<u8>>,
)
    requires
        crate::tree_model::is_tree(store, root, pages),
    ensures
        settled(store, root),
{
    let n = pages.len();
    crate::tree_model::lemma_bit_length_u32_bound(n);
    assert forall|id: NodeId| #[trigger] store.contains_key(id) implies in_range(id) && id.0
        <= root_height(root) by {
        assert(crate::tree_model::present(n, id));
        let h = id.0 as nat;
        lemma2_to64();
        vstd::arithmetic::power2::lemma_pow2_pos(h);
        vstd::arithmetic::power2::lemma_pow2_adds(h, (32 - h) as nat);
        vstd::arithmetic::div_mod::lemma_multiply_divide_lt(
            n - 1,
            vstd::arithmetic::power2::pow2(h) as int,
            vstd::arithmetic::power2::pow2((32 - h) as nat) as int,
        );
    }
    if n > 0 {
        let r = root->Some_0;
        vstd::arithmetic::power2::lemma_pow2_pos(r.0 as nat);
        vstd::arithmetic::div_mod::lemma_div_pos_is_pos(
            n - 1,
            vstd::arithmetic::power2::pow2(r.0 as nat) as int,
        );
        assert(crate::tree_model::present(n, r));
    }
}

/// Whether one of the first `k` updates grows a tree of a single leaf
/// over a page that is not the right neighbour of that leaf.
pub open spec fn some_misseeds(root: Option<NodeId>, modif: Seq<(PageId, Digest)>, k: nat) -> bool {
    exists|j: nat|
        j < k && misseeds(#[trigger] spec_apply_root(root, modif, j), modif[j as int].0.0)
}

/// **A batch of updates keeps the hashes.** Where every node above the
/// leaves has the hash of its children, and none of the updates of a batch
/// grows a tree of a single leaf over a page that is not the right
/// neighbour of that leaf, every update of the batch is made, and after
/// the batch every node above the leaves has the hash of its children.
pub proof fn lemma_batch_keeps_hashes(
    store: Map<NodeId, Seq<u8>>,
    root: Option<NodeId>,
    modif: Seq<(PageId, Digest)>,
    k: nat,
)
    requires
        settled(store, root),
        k <= modif.len(),
        !some_misseeds(root, modif, k),
    ensures
        !spec_apply_fails(store, root, modif, k),
        settled(spec_apply_store(store, root, modif, k), spec_apply_root(root, modif, k)),
        hash_consistent(spec_apply_store(store, root, modif, k)),
    decreases k,
{
    if k > 0 {
        let j = (k - 1) as nat;
        assert(!some_misseeds(root, modif, j)) by {
            if some_misseeds(root, modif, j) {
                let i = choose|i: nat|
                    i < j && misseeds(#[trigger] spec_apply_root(root, modif, i), modif[i as int].0.0);
                assert(i < k);
            }
        }
        lemma_batch_keeps_hashes(store, root, modif, j);
        assert(!misseeds(spec_apply_root(root, modif, j), modif[j as int].0.0));
        lemma_update_keeps_hashes(
            spec_apply_store(store, root, modif, j),
            spec_apply_root(root, modif, j),
            modif[j as int].0.0,
            modif[j as int].1@,
        );
        assert forall|i: nat| i < k implies !#[trigger] root_missing(
            spec_apply_store(store, root, modif, i),
            spec_apply_root(root, modif, i),
            modif[i as int].0.0,
        ) by {}
    }
}

} // verus!
