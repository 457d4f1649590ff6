//! What a proof built by queries holds of the tree, and what a proof that
//! verifies says of the pages.

use vstd::prelude::*;
use vstd::arithmetic::power2::lemma2_to64;
use vstd::bytes::spec_u32_to_le_bytes;
use crate::digest::{blake2b_256, hash_collision};
use crate::hash::{side_bytes, spec_leaf_hash};
use crate::merkle_proof::{idx_path, ProofError, ProofTree};
use crate::node::{lookup, NodeId};
use crate::read::{ancestor, id_path, spec_inner_proof, spec_query, stub};
use crate::tree_model::{
    consistent_at, hash_consistent, is_tree, lemma_ancestor_parent, lemma_ancestor_width,
    lemma_bit_length_u32_bound, lemma_path_present, lemma_top_is_root,
    lemma_update_keeps_tree, pages_after, present, tree_height,
};
use crate::write::{
    root_height, spec_parent_hash, spec_update_root, spec_update_store, spec_walk_end,
    spec_walk_store, target_height,
};

verus! {

/// Whether the tree of hashes `t` is a part of the tree in `store` at the
/// node `id`: an absent side stands for a node that the store lacks, a
/// hash is the hash of the node, and the sides of a node stand for its
/// children.
pub open spec fn matches_store(t: ProofTree, store: Map<NodeId, Seq<u8>>, id: NodeId) -> bool
    decreases t,
{
    match t {
        ProofTree::Absent => !store.contains_key(id),
        ProofTree::Leaf(d) => store.contains_key(id) && store[id] == d,
        ProofTree::Node(l, r) => {
            &&& id.0 > 0
            &&& store.contains_key(id)
            &&& matches_store(*l, store, id.left_child())
            &&& matches_store(*r, store, id.right_child())
        },
    }
}

/// Whether the side towards page `p` at a node of height `h` is the left one.
pub open spec fn goes_left(p: u32, h: u32) -> bool {
    ancestor(p, (h - 1) as u32).1 % 2 == 0
}

/// Whether `t`, a part of the tree at the node of height `h` above page
/// `p`, leads down to the leaf of `p`.
pub open spec fn covers(t: ProofTree, p: u32, h: u32) -> bool
    decreases t,
{
    match t {
        ProofTree::Absent => false,
        ProofTree::Leaf(d) => h == 0,
        ProofTree::Node(l, r) => h > 0 && if goes_left(p, h) {
            covers(*l, p, (h - 1) as u32)
        } else {
            covers(*r, p, (h - 1) as u32)
        },
    }
}

/// Whether `t` is a proof for the pages `queried` of the tree in `store`
/// with the root `root`.
pub open spec fn proof_ok(
    t: ProofTree,
    store: Map<NodeId, Seq<u8>>,
    root: NodeId,
    queried: Set<u32>,
) -> bool {
    &&& matches_store(t, store, root)
    &&& root.0 > 0 ==> t is Node
    &&& forall|q: u32| queried.contains(q) ==> #[trigger] covers(t, q, root.0)
}

/// The path of sides to a page ends with the side at the top.
pub proof fn lemma_idx_path_step(p: u32, h: u32)
    requires
        h > 0,
    ensures
        idx_path(p as nat, h as nat).last() == (ancestor(p, (h - 1) as u32).1 % 2) as usize,
        idx_path(p as nat, h as nat).drop_last() == idx_path(p as nat, (h - 1) as nat),
        idx_path(p as nat, h as nat).len() > 0,
{
    lemma_ancestor_width(p, (h - 1) as u32);
    assert(idx_path(p as nat, h as nat).drop_last() =~= idx_path(p as nat, (h - 1) as nat));
}

/// The path of steps to a page ends with the step at the top.
pub proof fn lemma_id_path_step(p: u32, h: u32)
    requires
        h > 0,
    ensures
        id_path(p, h).last() == (
            (ancestor(p, (h - 1) as u32).1 % 2) as usize,
            ancestor(p, (h - 1) as u32),
        ),
        id_path(p, h).drop_last() == id_path(p, (h - 1) as u32),
        id_path(p, h).len() > 0,
{
    assert(id_path(p, h).drop_last() =~= id_path(p, (h - 1) as u32));
}

/// The child towards page `p` of the node of height `h` above `p` is the
/// node of height `h - 1` above `p`, and the other child is its sibling.
pub proof fn lemma_child_towards(p: u32, h: u32)
    requires
        h > 0,
    ensures
        goes_left(p, h) ==> ancestor(p, h).left_child() == ancestor(p, (h - 1) as u32) && ancestor(
            p,
            h,
        ).right_child() == ancestor(p, (h - 1) as u32).sibling(),
        !goes_left(p, h) ==> ancestor(p, h).right_child() == ancestor(p, (h - 1) as u32)
            && ancestor(p, h).left_child() == ancestor(p, (h - 1) as u32).sibling(),
{
    lemma_ancestor_parent(p, (h - 1) as u32);
    lemma_ancestor_width(p, (h - 1) as u32);
    lemma_ancestor_width(p, h);
}

/// A part of the tree has the hash of its node.
pub proof fn lemma_matching_hash(t: ProofTree, store: Map<NodeId, Seq<u8>>, id: NodeId)
    requires
        matches_store(t, store, id),
        hash_consistent(store),
    ensures
        t.hash() == lookup(store, id),
    decreases t,
{
    match t {
        ProofTree::Node(l, r) => {
            lemma_matching_hash(*l, store, id.left_child());
            lemma_matching_hash(*r, store, id.right_child());
            assert(consistent_at(store, id));
        },
        _ => {},
    }
}

/// A part of the tree that leads down to the leaf of a page gives the
/// hash of that leaf.
pub proof fn lemma_covered_value(t: ProofTree, store: Map<NodeId, Seq<u8>>, p: u32, h: u32)
    requires
        matches_store(t, store, ancestor(p, h)),
        covers(t, p, h),
    ensures
        t.value(idx_path(p as nat, h as nat)) == Ok::<Seq<u8>, ProofError>(store[NodeId(0, p)]),
    decreases t,
{
    match t {
        ProofTree::Node(l, r) => {
            lemma_idx_path_step(p, h);
            lemma_child_towards(p, h);
            if goes_left(p, h) {
                lemma_covered_value(*l, store, p, (h - 1) as u32);
            } else {
                lemma_covered_value(*r, store, p, (h - 1) as u32);
            }
        },
        _ => {
            lemma_ancestor_width(p, 0);
            lemma2_to64();
        },
    }
}

/// The proof for one page is a part of the tree and leads down to the
/// leaf of the page.
pub proof fn lemma_inner_proof(store: Map<NodeId, Seq<u8>>, p: u32, h: u32)
    requires
        forall|j: u32| j <= h ==> store.contains_key(#[trigger] ancestor(p, j)),
    ensures
        matches_store(spec_inner_proof(store, p, h), store, ancestor(p, h)),
        covers(spec_inner_proof(store, p, h), p, h),
        h > 0 ==> spec_inner_proof(store, p, h) is Node,
    decreases h,
{
    if h == 0 {
        lemma_ancestor_width(p, 0);
        lemma2_to64();
        assert(store.contains_key(ancestor(p, 0)));
    } else {
        let k = (h - 1) as u32;
        lemma_inner_proof(store, p, k);
        lemma_child_towards(p, h);
        assert(store.contains_key(ancestor(p, h)));
        let sib = ancestor(p, k).sibling();
        assert(matches_store(stub(store, sib), store, sib));
    }
}

/// What a later query does to a part of the tree at the node of height
/// `h` above the queried page: the search ends at a node above the page,
/// and the part with the path below that node put in is still a part of
/// the tree, leads down to the page, and to every page it led down to.
pub proof fn lemma_splice(t: ProofTree, store: Map<NodeId, Seq<u8>>, p: u32, h: u32)
    requires
        matches_store(t, store, ancestor(p, h)),
        forall|j: u32| j <= h ==> store.contains_key(#[trigger] ancestor(p, j)),
    ensures
        t.search(ancestor(p, h), id_path(p, h)) is Ok,
        ({
            let s = t.search(ancestor(p, h), id_path(p, h))->Ok_0;
            let t2 = t.splice(id_path(p, h), spec_inner_proof(store, p, s.0));
            &&& s.0 <= h
            &&& matches_store(t2, store, ancestor(p, h))
            &&& covers(t2, p, h)
            &&& t is Node ==> t2 is Node
            &&& forall|q: u32| covers(t, q, h) ==> #[trigger] covers(t2, q, h)
        }),
        t is Node ==> forall|id: NodeId| #[trigger]
            t.search(id, id_path(p, h)) == t.search(ancestor(p, h), id_path(p, h)),
    decreases t,
{
    lemma_ancestor_width(p, h);
    match t {
        ProofTree::Absent => {
            assert(store.contains_key(ancestor(p, h)));
        },
        ProofTree::Leaf(d) => {
            lemma_inner_proof(store, p, h);
            let t2 = spec_inner_proof(store, p, h);
            assert forall|q: u32| covers(t, q, h) implies #[trigger] covers(t2, q, h) by {}
        },
        ProofTree::Node(l, r) => {
            let k = (h - 1) as u32;
            lemma_id_path_step(p, h);
            lemma_child_towards(p, h);
            assert forall|j: u32| j <= k implies store.contains_key(#[trigger] ancestor(p, j)) by {}
            let c = if goes_left(p, h) {
                *l
            } else {
                *r
            };
            lemma_splice(c, store, p, k);
            assert(store.contains_key(ancestor(p, k)));
            let s = t.search(ancestor(p, h), id_path(p, h))->Ok_0;
            assert(t.search(ancestor(p, h), id_path(p, h)) == c.search(
                ancestor(p, k),
                id_path(p, k),
            ));
            let part = spec_inner_proof(store, p, s.0);
            let c2 = c.splice(id_path(p, k), part);
            let t2 = t.splice(id_path(p, h), part);
            if goes_left(p, h) {
                assert(t2 == ProofTree::Node(Box::new(c2), r));
            } else {
                assert(t2 == ProofTree::Node(l, Box::new(c2)));
            }
            assert forall|q: u32| covers(t, q, h) implies #[trigger] covers(t2, q, h) by {
                if goes_left(p, h) {
                    if goes_left(q, h) {
                        assert(covers(*l, q, k));
                        assert(covers(c2, q, k));
                    } else {
                        assert(covers(*r, q, k));
                    }
                } else {
                    if goes_left(q, h) {
                        assert(covers(*l, q, k));
                    } else {
                        assert(covers(*r, q, k));
                        assert(covers(c2, q, k));
                    }
                }
            }
        },
    }
}

/// Whether the store holds every node above page `p` up to the root
/// `root`, which is the topmost of them.
pub open spec fn path_held(store: Map<NodeId, Seq<u8>>, root: NodeId, p: u32) -> bool {
    &&& ancestor(p, root.0) == root
    &&& forall|j: u32| j <= root.0 ==> store.contains_key(#[trigger] ancestor(p, j))
}

/// The nodes above a page of the tree are in the store, and the topmost
/// of them is the root.
pub proof fn lemma_path_in_tree(
    store: Map<NodeId, Seq<u8>>,
    root: NodeId,
    pages: Seq<Seq<u8>>,
    p: u32,
)
    requires
        is_tree(store, Some(root), pages),
        p < pages.len(),
    ensures
        forall|j: u32| j <= root.0 ==> store.contains_key(#[trigger] ancestor(p, j)),
        ancestor(p, root.0) == root,
        root.0 == tree_height(pages.len()),
        root.0 <= 32,
        path_held(store, root, p),
{
    let n = pages.len();
    lemma_bit_length_u32_bound(n);
    assert forall|j: u32| j <= root.0 implies store.contains_key(#[trigger] ancestor(p, j)) by {
        lemma_path_present(n, p, j);
    }
    lemma_path_present(n, p, root.0);
    lemma_ancestor_width(p, root.0);
    lemma_top_is_root(n, ancestor(p, root.0));
}

/// The first query of a context leaves a proof for the page.
pub proof fn lemma_first_query(store: Map<NodeId, Seq<u8>>, root: NodeId, p: u32)
    requires
        path_held(store, root, p),
    ensures
        proof_ok(spec_inner_proof(store, p, root.0), store, root, Set::<u32>::empty().insert(p)),
{
    lemma_inner_proof(store, p, root.0);
}

/// A later query finds its way through the proof and leaves a proof for
/// the pages queried so far and the page.
pub proof fn lemma_later_query(
    store: Map<NodeId, Seq<u8>>,
    root: NodeId,
    t: ProofTree,
    queried: Set<u32>,
    p: u32,
)
    requires
        path_held(store, root, p),
        proof_ok(t, store, root, queried),
    ensures
        t.search(NodeId(0, 1), id_path(p, root.0)) is Ok,
        ({
            let s = t.search(NodeId(0, 1), id_path(p, root.0))->Ok_0;
            proof_ok(
                t.splice(id_path(p, root.0), spec_inner_proof(store, p, s.0)),
                store,
                root,
                queried.insert(p),
            )
        }),
{
    lemma_splice(t, store, p, root.0);
    let path = id_path(p, root.0);
    if t is Leaf {
        assert(root.0 == 0);
        assert(path =~= Seq::empty());
        lemma_inner_proof(store, p, 0);
        let t2 = spec_inner_proof(store, p, 0);
        assert(t.search(NodeId(0, 1), path) == Ok::<NodeId, ProofError>(NodeId(0, 1)));
        assert(t.splice(path, t2) == t2);
        assert forall|q: u32| queried.insert(p).contains(q) implies #[trigger] covers(t2, q, 0) by {}
    } else {
        assert(t is Node);
        let s = t.search(ancestor(p, root.0), path)->Ok_0;
        assert(t.search(NodeId(0, 1), path) == t.search(ancestor(p, root.0), path));
        let t2 = t.splice(path, spec_inner_proof(store, p, s.0));
        assert forall|q: u32| queried.insert(p).contains(q) implies #[trigger] covers(
            t2,
            q,
            root.0,
        ) by {
            if q != p {
                assert(covers(t, q, root.0));
            }
        }
    }
}

/// **A query keeps the proof.** Where the store holds every node above a
/// page up to the root, and the proof built so far is a proof for the
/// pages queried so far, a query of the page finds its way through the
/// proof and leaves a proof for the pages queried so far and that page.
pub proof fn lemma_query_keeps_proof(
    store: Map<NodeId, Seq<u8>>,
    root: NodeId,
    t: ProofTree,
    queried: Set<u32>,
    p: u32,
)
    requires
        path_held(store, root, p),
        t is Absent && queried == Set::<u32>::empty() || proof_ok(t, store, root, queried),
    ensures
        !(t is Absent) ==> t.search(NodeId(0, 1), id_path(p, root.0)) is Ok,
        proof_ok(spec_query(t, store, root, p), store, root, queried.insert(p)),
        store.contains_key(NodeId(0, p)),
{
    lemma_ancestor_width(p, 0);
    lemma2_to64();
    assert(store.contains_key(ancestor(p, 0)));
    if t is Absent {
        if proof_ok(t, store, root, queried) {
            assert(store.contains_key(ancestor(p, root.0)));
            assert(false);
        }
        lemma_first_query(store, root, p);
    } else {
        lemma_later_query(store, root, t, queried, p);
    }
}

/// **A proof built by queries verifies.** Where every node above the
/// leaves has the hash of its children, a proof for some pages gives the
/// hash of the root as its root hash, and for each of those pages the
/// hash that the leaf of the page holds.
pub proof fn lemma_proof_verifies(
    store: Map<NodeId, Seq<u8>>,
    root: NodeId,
    t: ProofTree,
    queried: Set<u32>,
    p: u32,
)
    requires
        hash_consistent(store),
        proof_ok(t, store, root, queried),
        queried.contains(p),
        path_held(store, root, p),
    ensures
        t.hash() == Some(store[root]),
        t.value(idx_path(p as nat, root.0 as nat)) == Ok::<Seq<u8>, ProofError>(
            store[NodeId(0, p)],
        ),
{
    lemma_matching_hash(t, store, root);
    assert(store.contains_key(ancestor(p, root.0)));
    lemma_covered_value(t, store, p, root.0);
}

/// The walk of an update writes every node above the page up to the
/// height it ends at.
pub proof fn lemma_walk_holds_path(
    store: Map<NodeId, Seq<u8>>,
    p: u32,
    k: u32,
    cur_hash: Seq<u8>,
    target: u32,
)
    requires
        k <= target <= 32,
        forall|j: u32| j <= k ==> store.contains_key(#[trigger] ancestor(p, j)),
    ensures
        forall|j: u32|
            j <= target ==> spec_walk_store(store, ancestor(p, k), cur_hash, target).contains_key(
                #[trigger] ancestor(p, j),
            ),
        spec_walk_end(ancestor(p, k), target) == ancestor(p, target),
    decreases target - k,
{
    lemma_ancestor_width(p, k);
    if k < target {
        let cur = ancestor(p, k);
        let h = spec_parent_hash(cur, cur_hash, lookup(store, cur.sibling()));
        let next = store.insert(cur.parent(), h);
        lemma_ancestor_parent(p, k);
        assert forall|j: u32| j <= k + 1 implies next.contains_key(#[trigger] ancestor(p, j)) by {
            if j <= k {
                assert(store.contains_key(ancestor(p, j)));
            }
        }
        lemma_walk_holds_path(next, p, (k + 1) as u32, h, target);
    }
}

/// After an update of page `p` the store holds every node above the page
/// up to the new root.
pub proof fn lemma_update_holds_path(
    store: Map<NodeId, Seq<u8>>,
    root: Option<NodeId>,
    p: u32,
    d: Seq<u8>,
)
    requires
        root matches Some(r) ==> r.0 <= 32,
    ensures
        path_held(spec_update_store(store, root, p, d), spec_update_root(root, p), p),
{
    let leaf = NodeId(0, p);
    let leaf_h = spec_leaf_hash(p, d);
    let with_leaf = store.insert(leaf, leaf_h);
    lemma2_to64();
    lemma_ancestor_parent(p, 0);
    crate::page::lemma_bit_length_u32(p as nat);
    if root_height(root) != 0 {
        assert forall|j: u32| j <= 0 implies with_leaf.contains_key(#[trigger] ancestor(p, j)) by {}
        lemma_walk_holds_path(with_leaf, p, 0, leaf_h, target_height(root, p));
    } else {
        let out = spec_update_store(store, root, p, d);
        let top = spec_update_root(root, p).0;
        assert(top <= 1);
        assert forall|j: u32| j <= top implies out.contains_key(#[trigger] ancestor(p, j)) by {
            assert(j == 0 || j == 1);
        }
    }
}

/// **Write, then read.** Where every node above the leaves has the hash
/// of its children, and the update of page `p` does not grow a tree of a
/// single leaf over a page that is not the right neighbour of that leaf,
/// then after the update the proof that a read context builds for the page
/// has the hash of the new root as its root hash, and gives the hash of
/// the page's leaf: the hash of the page's id and of the new page hash.
pub proof fn lemma_round_trip(
    store: Map<NodeId, Seq<u8>>,
    root: Option<NodeId>,
    p: u32,
    d: Seq<u8>,
)
    requires
        crate::store_model::settled(store, root),
        !crate::store_model::misseeds(root, p),
    ensures
        ({
            let new_store = spec_update_store(store, root, p, d);
            let new_root = spec_update_root(root, p);
            let t = spec_query(ProofTree::Absent, new_store, new_root, p);
            &&& t.hash() == Some(new_store[new_root])
            &&& t.value(idx_path(p as nat, new_root.0 as nat)) == Ok::<Seq<u8>, ProofError>(
                spec_leaf_hash(p, d),
            )
        }),
{
    let new_store = spec_update_store(store, root, p, d);
    let new_root = spec_update_root(root, p);
    crate::store_model::lemma_update_keeps_hashes(store, root, p, d);
    lemma_update_holds_path(store, root, p, d);
    crate::write::lemma_update_writes_leaf(store, root, p, d);
    lemma_query_keeps_proof(new_store, new_root, ProofTree::Absent, Set::empty(), p);
    let t = spec_query(ProofTree::Absent, new_store, new_root, p);
    lemma_proof_verifies(new_store, new_root, t, Set::empty().insert(p), p);
}

/// **Write a batch, then read.** Where every node above the leaves has
/// the hash of its children, and none of the updates of a batch grows a
/// tree of a single leaf over a page that is not the right neighbour of
/// that leaf, then after the batch the proof that a read context builds
/// for a page has the hash of the new root as its root hash and gives the
/// hash of the page's leaf, for every page above which the store holds
/// every node up to the new root. The page that the batch set last is
/// such a page, and its leaf holds the hash of its id and of the page
/// hash that the batch gave it.
pub proof fn lemma_batch_round_trip(
    store: Map<NodeId, Seq<u8>>,
    root: Option<NodeId>,
    modif: Seq<(crate::page::PageId, crate::digest::Digest)>,
    k: nat,
    q: u32,
)
    requires
        crate::store_model::settled(store, root),
        0 < k <= modif.len(),
        !crate::store_model::some_misseeds(root, modif, k),
        q == modif[k - 1].0.0 || path_held(
            crate::write_set::spec_apply_store(store, root, modif, k),
            crate::write_set::spec_apply_root(root, modif, k)->Some_0,
            q,
        ),
    ensures
        ({
            let new_store = crate::write_set::spec_apply_store(store, root, modif, k);
            let new_root = crate::write_set::spec_apply_root(root, modif, k)->Some_0;
            let t = spec_query(ProofTree::Absent, new_store, new_root, q);
            &&& path_held(new_store, new_root, q)
            &&& t.hash() == Some(new_store[new_root])
            &&& t.value(idx_path(q as nat, new_root.0 as nat)) == Ok::<Seq<u8>, ProofError>(
                new_store[NodeId(0, q)],
            )
            &&& q == modif[k - 1].0.0 ==> new_store[NodeId(0, q)] == spec_leaf_hash(
                q,
                modif[k - 1].1@,
            )
        }),
{
    let j = (k - 1) as nat;
    let before = crate::write_set::spec_apply_store(store, root, modif, j);
    let before_root = crate::write_set::spec_apply_root(root, modif, j);
    let new_store = crate::write_set::spec_apply_store(store, root, modif, k);
    let new_root = crate::write_set::spec_apply_root(root, modif, k)->Some_0;
    crate::store_model::lemma_batch_keeps_hashes(store, root, modif, k);
    assert(!crate::store_model::some_misseeds(root, modif, j)) by {
        if crate::store_model::some_misseeds(root, modif, j) {
            let i = choose|i: nat|
                i < j && crate::store_model::misseeds(
                    #[trigger] crate::write_set::spec_apply_root(root, modif, i),
                    modif[i as int].0.0,
                );
            assert(i < k);
        }
    }
    crate::store_model::lemma_batch_keeps_hashes(store, root, modif, j);
    if q == modif[k - 1].0.0 {
        if before_root is Some {
            assert(before.contains_key(before_root->Some_0));
        }
        lemma_update_holds_path(before, before_root, q, modif[k - 1].1@);
        crate::write::lemma_update_writes_leaf(before, before_root, q, modif[k - 1].1@);
    }
    lemma_query_keeps_proof(new_store, new_root, ProofTree::Absent, Set::empty(), q);
    let t = spec_query(ProofTree::Absent, new_store, new_root, q);
    lemma_proof_verifies(new_store, new_root, t, Set::empty().insert(q), q);
}

/// **Write, then read any page of the tree.** After an update of a tree
/// over some pages, the proof that a read context builds for a page of
/// the new tree has the hash of the new root as its root hash, and gives
/// the hash of the page's leaf.
pub proof fn lemma_round_trip_in_tree(
    store: Map<NodeId, Seq<u8>>,
    root: Option<NodeId>,
    pages: Seq<Seq<u8>>,
    p: u32,
    d: Seq<u8>,
    q: u32,
)
    requires
        is_tree(store, root, pages),
        p <= pages.len(),
        q < pages_after(pages, p, d).len(),
    ensures
        ({
            let new_store = spec_update_store(store, root, p, d);
            let new_root = spec_update_root(root, p);
            let t = spec_query(ProofTree::Absent, new_store, new_root, q);
            &&& t.hash() == Some(new_store[new_root])
            &&& t.value(idx_path(q as nat, new_root.0 as nat)) == Ok::<Seq<u8>, ProofError>(
                spec_leaf_hash(q, pages_after(pages, p, d)[q as int]),
            )
        }),
{
    let new_store = spec_update_store(store, root, p, d);
    let new_root = spec_update_root(root, p);
    let new_pages = pages_after(pages, p, d);
    lemma_update_keeps_tree(store, root, pages, p, d);
    lemma_path_in_tree(new_store, new_root, new_pages, q);
    lemma_query_keeps_proof(new_store, new_root, ProofTree::Absent, Set::empty(), q);
    let t = spec_query(ProofTree::Absent, new_store, new_root, q);
    lemma_proof_verifies(new_store, new_root, t, Set::empty().insert(q), q);
}

/// **Write a batch, then read any page of the tree.** After a batch of
/// updates of a tree over some pages, each of a page that is there or of
/// the next one, the proof that a read context builds for a page of the
/// new tree has the hash of the new root as its root hash, and gives the
/// hash of the page's leaf.
pub proof fn lemma_batch_round_trip_in_tree(
    store: Map<NodeId, Seq<u8>>,
    root: Option<NodeId>,
    pages: Seq<Seq<u8>>,
    modif: Seq<(crate::page::PageId, crate::digest::Digest)>,
    k: nat,
    q: u32,
)
    requires
        is_tree(store, root, pages),
        k <= modif.len(),
        crate::write_set::updates_dense(pages, modif, k),
        q < crate::write_set::pages_after_all(pages, modif, k).len(),
    ensures
        ({
            let new_store = crate::write_set::spec_apply_store(store, root, modif, k);
            let new_root = crate::write_set::spec_apply_root(root, modif, k)->Some_0;
            let new_pages = crate::write_set::pages_after_all(pages, modif, k);
            let t = spec_query(ProofTree::Absent, new_store, new_root, q);
            &&& crate::write_set::spec_apply_root(root, modif, k) is Some
            &&& t.hash() == Some(new_store[new_root])
            &&& t.value(idx_path(q as nat, new_root.0 as nat)) == Ok::<Seq<u8>, ProofError>(
                spec_leaf_hash(q, new_pages[q as int]),
            )
        }),
{
    let new_store = crate::write_set::spec_apply_store(store, root, modif, k);
    let new_pages = crate::write_set::pages_after_all(pages, modif, k);
    crate::write_set::lemma_batch_keeps_tree(store, root, pages, modif, k);
    let new_root = crate::write_set::spec_apply_root(root, modif, k)->Some_0;
    lemma_path_in_tree(new_store, new_root, new_pages, q);
    lemma_query_keeps_proof(new_store, new_root, ProofTree::Absent, Set::empty(), q);
    let t = spec_query(ProofTree::Absent, new_store, new_root, q);
    lemma_proof_verifies(new_store, new_root, t, Set::empty().insert(q), q);
}

/// Whether every hash that the tree of hashes holds has 32 bytes, as the
/// digests of a proof have.
pub open spec fn digests_sized(t: ProofTree) -> bool
    decreases t,
{
    match t {
        ProofTree::Absent => true,
        ProofTree::Leaf(d) => d.len() == 32,
        ProofTree::Node(l, r) => digests_sized(*l) && digests_sized(*r),
    }
}

/// The hash of a tree of 32-byte hashes has 32 bytes.
pub proof fn lemma_hash_sized(t: ProofTree)
    requires
        digests_sized(t),
    ensures
        t.hash() matches Some(h) ==> h.len() == 32,
{
    crate::digest::lemma_hash_len();
}

/// Whether each leaf of the store holds the hash of its page id and of
/// a page hash of 32 bytes.
pub open spec fn leaves_hashed(store: Map<NodeId, Seq<u8>>) -> bool {
    forall|q: u32| #[trigger]
        store.contains_key(NodeId(0, q)) ==> exists|d: Seq<u8>|
            d.len() == 32 && store[NodeId(0, q)] == #[trigger] spec_leaf_hash(q, d)
}

/// The hash of every node of a store has 32 bytes.
pub proof fn lemma_node_sized(store: Map<NodeId, Seq<u8>>, id: NodeId)
    requires
        hash_consistent(store),
        leaves_hashed(store),
        store.contains_key(id),
    ensures
        store[id].len() == 32,
{
    crate::digest::lemma_hash_len();
    if id.0 == 0 {
        assert(id == NodeId(0, id.1));
    } else {
        assert(consistent_at(store, id));
    }
}

/// Two inputs with the same hash are the same input, or a collision.
pub proof fn lemma_same_hash(a: Seq<u8>, b: Seq<u8>)
    requires
        blake2b_256(a) == blake2b_256(b),
    ensures
        a == b || hash_collision(),
{
}

/// Two leaf hashes that are the same are the hashes of the same page id
/// and the same page hash, or make a collision.
pub proof fn lemma_same_leaf(p: u32, d: Seq<u8>, q: u32, e: Seq<u8>)
    requires
        spec_leaf_hash(p, d) == spec_leaf_hash(q, e),
    ensures
        (p == q && d == e) || hash_collision(),
{
    vstd::bytes::lemma_auto_spec_u32_to_from_le_bytes();
    let a = spec_u32_to_le_bytes(p) + d;
    let b = spec_u32_to_le_bytes(q) + e;
    lemma_same_hash(a, b);
    if a == b {
        assert(spec_u32_to_le_bytes(p) =~= a.subrange(0, 4));
        assert(spec_u32_to_le_bytes(q) =~= b.subrange(0, 4));
        assert(vstd::bytes::spec_u32_from_le_bytes(spec_u32_to_le_bytes(p)) == p);
        assert(vstd::bytes::spec_u32_from_le_bytes(spec_u32_to_le_bytes(q)) == q);
        assert(d =~= a.subrange(4, a.len() as int));
        assert(e =~= b.subrange(4, b.len() as int));
    }
}

/// What a proof that verifies says, for a part of the proof that has the
/// hash of a node `m` of the store: where a descent through that part
/// ends in the leaf hash of page `p` and `d`, the leaf of `p` in the store
/// holds that hash, unless two different inputs have the same hash.
pub proof fn lemma_sound_at(
    store: Map<NodeId, Seq<u8>>,
    t: ProofTree,
    m: NodeId,
    path: Seq<usize>,
    p: u32,
    d: Seq<u8>,
)
    requires
        hash_consistent(store),
        leaves_hashed(store),
        store.contains_key(m),
        digests_sized(t),
        d.len() == 32,
        t.hash() == Some(store[m]),
        t.value(path) == Ok::<Seq<u8>, ProofError>(spec_leaf_hash(p, d)),
    ensures
        hash_collision() || (store.contains_key(NodeId(0, p)) && store[NodeId(0, p)]
            == spec_leaf_hash(p, d)),
    decreases t,
{
    crate::digest::lemma_hash_len();
    vstd::bytes::lemma_auto_spec_u32_to_from_le_bytes();
    match t {
        ProofTree::Absent => {},
        ProofTree::Leaf(x) => {
            if m.0 == 0 {
                assert(m == NodeId(0, m.1));
                let dq = choose|dq: Seq<u8>|
                    dq.len() == 32 && store[NodeId(0, m.1)] == #[trigger] spec_leaf_hash(m.1, dq);
                lemma_same_leaf(p, d, m.1, dq);
            } else {
                assert(consistent_at(store, m));
                let inner = blake2b_256(
                    side_bytes(lookup(store, m.left_child())) + side_bytes(
                        lookup(store, m.right_child()),
                    ),
                );
                lemma_same_hash(spec_u32_to_le_bytes(p) + d, inner);
                assert((spec_u32_to_le_bytes(p) + d).len() == 36);
            }
        },
        ProofTree::Node(l, r) => {
            lemma_hash_sized(*l);
            lemma_hash_sized(*r);
            let a = side_bytes(l.hash()) + side_bytes(r.hash());
            if m.0 == 0 {
                assert(m == NodeId(0, m.1));
                let dq = choose|dq: Seq<u8>|
                    dq.len() == 32 && store[NodeId(0, m.1)] == #[trigger] spec_leaf_hash(m.1, dq);
                lemma_same_hash(spec_u32_to_le_bytes(m.1) + dq, blake2b_256(a));
                assert((spec_u32_to_le_bytes(m.1) + dq).len() == 36);
            } else if path.len() > 0 {
                assert(consistent_at(store, m));
                let left = m.left_child();
                let right = m.right_child();
                if store.contains_key(left) {
                    lemma_node_sized(store, left);
                }
                if store.contains_key(right) {
                    lemma_node_sized(store, right);
                }
                let b = side_bytes(lookup(store, left)) + side_bytes(lookup(store, right));
                lemma_same_hash(blake2b_256(a), blake2b_256(b));
                if blake2b_256(a) == blake2b_256(b) {
                    lemma_same_hash(a, b);
                }
                if a == b {
                    let c = if path.last() == 0 {
                        *l
                    } else {
                        *r
                    };
                    assert(t.value(path) == c.value(path.drop_last()));
                    assert(!(c is Absent));
                    assert(c.hash() is Some);
                    assert(c.hash()->Some_0.len() == 32);
                    if store.contains_key(left) && store.contains_key(right) {
                        assert(b.len() == 64);
                        assert(l.hash() is Some && r.hash() is Some);
                        assert(l.hash()->Some_0 =~= a.subrange(0, 32));
                        assert(store[left] =~= b.subrange(0, 32));
                        assert(r.hash()->Some_0 =~= a.subrange(32, 64));
                        assert(store[right] =~= b.subrange(32, 64));
                        if path.last() == 0 {
                            lemma_sound_at(store, *l, left, path.drop_last(), p, d);
                        } else {
                            lemma_sound_at(store, *r, right, path.drop_last(), p, d);
                        }
                    } else if store.contains_key(left) || store.contains_key(right) {
                        let held = if store.contains_key(left) {
                            left
                        } else {
                            right
                        };
                        assert(b =~= store[held]);
                        assert(a.len() == 32);
                        if path.last() == 0 {
                            assert(r.hash() is None);
                            assert(a =~= l.hash()->Some_0);
                        } else {
                            assert(l.hash() is None);
                            assert(a =~= r.hash()->Some_0);
                        }
                        lemma_sound_at(store, c, held, path.drop_last(), p, d);
                    } else {
                        assert(b.len() == 0);
                        assert(a.len() >= 32);
                    }
                }
            }
        },
    }
}

/// **A proof that verifies tells the truth.** Where every node above the
/// leaves has the hash of its children and every leaf the hash of its
/// page, the root hash of a proof is the hash of the root, and the proof
/// gives for page `p`, in a tree of whatever height, the leaf hash of `p`
/// and `d`, then the leaf of `p` in the store holds that hash, unless two
/// different inputs have the same hash.
pub proof fn lemma_sound(
    store: Map<NodeId, Seq<u8>>,
    root: NodeId,
    t: ProofTree,
    height: u32,
    p: u32,
    d: Seq<u8>,
)
    requires
        hash_consistent(store),
        leaves_hashed(store),
        store.contains_key(root),
        digests_sized(t),
        d.len() == 32,
        t.hash() == Some(store[root]),
        t.value(idx_path(p as nat, height as nat)) == Ok::<Seq<u8>, ProofError>(
            spec_leaf_hash(p, d),
        ),
    ensures
        hash_collision() || (store.contains_key(NodeId(0, p)) && store[NodeId(0, p)]
            == spec_leaf_hash(p, d)),
{
    crate::digest::lemma_hash_len();
    lemma_sound_at(store, t, root, idx_path(p as nat, height as nat), p, d);
}

/// **A proof that verifies tells the truth about the pages of a tree.**
/// Where the store and the root are the tree over some pages, whose
/// hashes have 32 bytes each, the root hash of a proof is the hash of the
/// root, and the proof gives for page `p` the leaf hash of `p` and `d`,
/// then `p` is a page of the tree and `d` is its hash, unless two
/// different inputs have the same hash.
pub proof fn lemma_sound_in_tree(
    store: Map<NodeId, Seq<u8>>,
    root: NodeId,
    pages: Seq<Seq<u8>>,
    t: ProofTree,
    height: u32,
    p: u32,
    d: Seq<u8>,
)
    requires
        is_tree(store, Some(root), pages),
        forall|q: int| 0 <= q < pages.len() ==> (#[trigger] pages[q]).len() == 32,
        digests_sized(t),
        d.len() == 32,
        t.hash() == Some(store[root]),
        t.value(idx_path(p as nat, height as nat)) == Ok::<Seq<u8>, ProofError>(
            spec_leaf_hash(p, d),
        ),
    ensures
        hash_collision() || (p < pages.len() && d == pages[p as int]),
{
    crate::digest::lemma_hash_len();
    let n = pages.len();
    lemma_tree_leaves(store, root, pages);
    assert(store.contains_key(root)) by {
        vstd::arithmetic::power2::lemma_pow2_pos(root.0 as nat);
        vstd::arithmetic::div_mod::lemma_div_pos_is_pos(
            n - 1,
            vstd::arithmetic::power2::pow2(root.0 as nat) as int,
        );
        assert(present(n, root));
    }
    lemma_sound(store, root, t, height, p, d);
    if store.contains_key(NodeId(0, p)) && store[NodeId(0, p)] == spec_leaf_hash(p, d) {
        assert(present(n, NodeId(0, p)));
        lemma2_to64();
        vstd::arithmetic::div_mod::lemma_div_basics_3(n - 1);
        assert(p < n);
        lemma_same_leaf(p, d, p, pages[p as int]);
    }
}

/// The leaves of the tree over pages whose hashes have 32 bytes each hold
/// the hash of their pages.
pub proof fn lemma_tree_leaves(store: Map<NodeId, Seq<u8>>, root: NodeId, pages: Seq<Seq<u8>>)
    requires
        is_tree(store, Some(root), pages),
        forall|q: int| 0 <= q < pages.len() ==> (#[trigger] pages[q]).len() == 32,
    ensures
        leaves_hashed(store),
        pages.len() > 0,
{
    let n = pages.len();
    assert forall|q: u32| #[trigger] store.contains_key(NodeId(0, q)) implies exists|d: Seq<u8>|
        d.len() == 32 && store[NodeId(0, q)] == #[trigger] spec_leaf_hash(q, d) by {
        assert(present(n, NodeId(0, q)));
        lemma2_to64();
        vstd::arithmetic::div_mod::lemma_div_basics_3(n - 1);
        assert(q < n);
        assert(store[NodeId(0, q)] == spec_leaf_hash(q, pages[q as int]));
    }
}

} // verus!
