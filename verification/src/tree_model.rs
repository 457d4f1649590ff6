//! The tree over a sequence of pages, and what the write and read
//! contexts keep of it.

use vstd::prelude::*;
use vstd::arithmetic::power2::{lemma2_to64, lemma_pow2_pos, lemma_pow2_unfold, pow2};
use crate::hash::{spec_leaf_hash, spec_nonleaf_hash};
use crate::node::{lookup, NodeId};
use crate::page::bit_length;
use crate::read::ancestor;
use crate::write::{
    root_height, root_missing, spec_parent_hash, spec_update_root, spec_update_store,
    spec_walk_end, spec_walk_store, target_height,
};

verus! {

/// The height of the tree over `n` pages.
pub open spec fn tree_height(n: nat) -> nat {
    if n == 0 {
        0
    } else {
        bit_length((n - 1) as nat)
    }
}

/// Whether the tree over `n` pages has the node `id`: the node is not
/// above the root, and a page lies under it.
pub open spec fn present(n: nat, id: NodeId) -> bool {
    n > 0 && id.0 <= tree_height(n) && id.1 <= (n - 1) / pow2(id.0 as nat) as int
}

/// Whether the hash of the node `id` is the hash of its children as the
/// store has them, a child that the store lacks counting as absent.
pub open spec fn consistent_at(store: Map<NodeId, Seq<u8>>, id: NodeId) -> bool {
    store[id] == spec_nonleaf_hash(
        lookup(store, id.left_child()),
        lookup(store, id.right_child()),
    )
}

/// Whether every node above the leaves has the hash of its children.
pub open spec fn hash_consistent(store: Map<NodeId, Seq<u8>>) -> bool {
    forall|id: NodeId| #[trigger] store.contains_key(id) && id.0 > 0 ==> consistent_at(store, id)
}

/// Whether `store` and `root` are the tree over the pages whose bytes
/// hash to `pages`: the store holds the nodes of that tree and no others,
/// each leaf has the hash of its page, each node above the leaves has the
/// hash of its children, and the root is the one node of the tree's height.
pub open spec fn is_tree(
    store: Map<NodeId, Seq<u8>>,
    root: Option<NodeId>,
    pages: Seq<Seq<u8>>,
) -> bool {
    let n = pages.len();
    &&& n <= 0x1_0000_0000
    &&& n == 0 ==> root is None
    &&& n > 0 ==> root == Some(NodeId(tree_height(n) as u32, 0))
    &&& forall|id: NodeId| #[trigger] store.contains_key(id) <==> present(n, id)
    &&& forall|p: u32| p < n ==> #[trigger] store[NodeId(0, p)] == spec_leaf_hash(p, pages[p as int])
    &&& hash_consistent(store)
}

/// The pages after page `p` was set to a page whose bytes hash to `d`:
/// the page is replaced, or added where it is the next one.
pub open spec fn pages_after(pages: Seq<Seq<u8>>, p: u32, d: Seq<u8>) -> Seq<Seq<u8>> {
    if p < pages.len() {
        pages.update(p as int, d)
    } else {
        pages.push(d)
    }
}

/// A number has more than `h` binary digits if and only if its quotient
/// by `2^h` is not zero.
pub proof fn lemma_bit_length_div(x: nat, h: nat)
    ensures
        bit_length(x) > h <==> x / pow2(h) > 0,
    decreases h,
{
    lemma_pow2_pos(h);
    if h == 0 {
        lemma2_to64();
        assert(pow2(0) == 1);
        assert(x / 1 == x);
        if x > 0 {
            assert(bit_length(x) == 1 + bit_length(x / 2));
        } else {
            assert(bit_length(x) == 0);
        }
    } else {
        let k = (h - 1) as nat;
        lemma_pow2_unfold(h);
        lemma_pow2_pos(k);
        if x > 0 {
            lemma_bit_length_div(x / 2, k);
            crate::merkle_proof::lemma_halve_step(x, 0);
            lemma2_to64();
            crate::simple_vcache::lemma_halve_then_shift(x, k);
            assert((x / 2) / pow2(k) == x / pow2(h));
            assert(bit_length(x) == 1 + bit_length(x / 2));
        } else {
            assert(bit_length(x) == 0);
            assert(0nat / pow2(h) == 0) by {
                vstd::arithmetic::div_mod::lemma_div_basics_1(pow2(h) as int);
            }
        }
    }
}

/// A greater number has no fewer binary digits.
pub proof fn lemma_bit_length_monotone(x: nat, y: nat)
    requires
        x <= y,
    ensures
        bit_length(x) <= bit_length(y),
{
    let h = bit_length(y);
    lemma_bit_length_div(y, h);
    lemma_bit_length_div(x, h);
    lemma_pow2_pos(h);
    vstd::arithmetic::div_mod::lemma_div_is_ordered(x as int, y as int, pow2(h) as int);
}

/// The quotient by a power of two of the successor is the quotient or
/// one more.
pub proof fn lemma_div_succ(x: nat, h: nat)
    ensures
        x / pow2(h) <= (x + 1) / pow2(h) <= x / pow2(h) + 1,
{
    lemma_pow2_pos(h);
    let d = pow2(h) as int;
    vstd::arithmetic::div_mod::lemma_div_is_ordered(x as int, x as int + 1, d);
    vstd::arithmetic::div_mod::lemma_fundamental_div_mod(x as int, d);
    vstd::arithmetic::div_mod::lemma_fundamental_div_mod(x as int + 1, d);
    let q = x as int / d;
    let q1 = (x as int + 1) / d;
    if q1 > q + 1 {
        assert(d * q1 >= d * (q + 2)) by (nonlinear_arith)
            requires
                q1 >= q + 2,
                d > 0,
        ;
        assert(d * (q + 2) == d * q + 2 * d) by (nonlinear_arith);
    }
}

/// Halving a quotient by `2^h` gives the quotient by `2^(h + 1)`.
pub proof fn lemma_div_halve(x: nat, h: nat)
    ensures
        (x / pow2(h)) / 2 == x / pow2(h + 1),
{
    crate::merkle_proof::lemma_halve_step(x, h);
}

/// The parent of the node of height `h` above page `p` is the node of
/// height `h + 1` above it.
pub proof fn lemma_ancestor_parent(p: u32, h: u32)
    requires
        h < u32::MAX,
    ensures
        ancestor(p, h).parent() == ancestor(p, (h + 1) as u32),
        ancestor(p, 0) == NodeId(0, p),
        (p as nat) / pow2(h as nat) <= p,
{
    lemma_div_halve(p as nat, h as nat);
    lemma2_to64();
    lemma_pow2_pos(h as nat);
    vstd::arithmetic::div_mod::lemma_div_is_ordered_by_denominator(
        p as int,
        1,
        pow2(h as nat) as int,
    );
}

/// The width of an ancestor of a page fits the width of a node.
pub proof fn lemma_ancestor_width(p: u32, h: u32)
    ensures
        (p as nat) / pow2(h as nat) <= p,
        ancestor(p, h).1 as nat == (p as nat) / pow2(h as nat),
        ancestor(p, h).0 == h,
{
    lemma_pow2_pos(h as nat);
    vstd::arithmetic::div_mod::lemma_div_is_ordered_by_denominator(
        p as int,
        1,
        pow2(h as nat) as int,
    );
}

/// The nodes above a page of the tree are nodes of the tree.
pub proof fn lemma_path_present(n: nat, p: u32, h: u32)
    requires
        p < n,
        h <= tree_height(n),
    ensures
        present(n, ancestor(p, h)),
{
    lemma_ancestor_width(p, h);
    lemma_pow2_pos(h as nat);
    vstd::arithmetic::div_mod::lemma_div_is_ordered(p as int, n - 1, pow2(h as nat) as int);
}

/// The root of the tree is the one node of the tree's height.
pub proof fn lemma_top_is_root(n: nat, id: NodeId)
    requires
        present(n, id),
        id.0 == tree_height(n),
    ensures
        id.1 == 0,
{
    lemma_bit_length_div((n - 1) as nat, id.0 as nat);
}

/// The children of a node of the tree above the leaves: the left one is
/// a node of the tree, the right one is if and only if a page lies under it.
pub proof fn lemma_children(n: nat, id: NodeId)
    requires
        present(n, id),
        id.0 > 0,
        n <= 0x1_0000_0000,
    ensures
        present(n, id.left_child()),
        present(n, id.right_child()) <==> 2 * id.1 + 1 <= (n - 1) / pow2((id.0 - 1) as nat) as int,
        id.left_child() == NodeId((id.0 - 1) as u32, (2 * id.1) as u32),
        2 * id.1 + 1 <= u32::MAX,
        id.left_child().parent() == id,
        id.right_child().parent() == id,
        id.left_child().sibling() == id.right_child(),
        id.right_child().sibling() == id.left_child(),
{
    let h = (id.0 - 1) as nat;
    lemma_div_halve((n - 1) as nat, h);
    lemma_pow2_pos(h);
    let last = (n - 1) / pow2(h) as int;
    assert(id.1 <= last / 2);
    vstd::arithmetic::div_mod::lemma_div_is_ordered_by_denominator(n - 1, 1, pow2(h) as int);
    assert(last <= n - 1);
}

/// The height of a tree over at most `2^32` pages is at most 32.
pub proof fn lemma_bit_length_u32_bound(n: nat)
    ensures
        n <= 0x1_0000_0000 ==> tree_height(n) <= 32,
{
    if 0 < n <= 0x1_0000_0000 {
        crate::page::lemma_bit_length_u32((n - 1) as nat);
    }
}

/// Whether `id` is a node above page `p`, the leaf itself included.
pub open spec fn on_path(p: u32, id: NodeId) -> bool {
    id == ancestor(p, id.0)
}

/// What holds of the store while an update of page `p` walks upward and
/// has reached the height `k`: the store holds the nodes of the old tree
/// and the nodes above `p` up to `k`; the leaves are those of the new
/// pages; and every node above the leaves has the hash of its children,
/// but for the nodes above `p` that the walk has yet to write.
pub open spec fn walk_inv(
    store: Map<NodeId, Seq<u8>>,
    n_old: nat,
    pages: Seq<Seq<u8>>,
    p: u32,
    k: u32,
) -> bool {
    &&& forall|id: NodeId| #[trigger]
        store.contains_key(id) <==> present(n_old, id) || (id.0 <= k && on_path(p, id))
    &&& forall|q: u32|
        q < pages.len() ==> #[trigger] store[NodeId(0, q)] == spec_leaf_hash(q, pages[q as int])
    &&& forall|id: NodeId| #[trigger]
        store.contains_key(id) && id.0 > 0 && !(id.0 > k && on_path(p, id)) ==> consistent_at(
            store,
            id,
        )
}

/// The tree over the new pages has the nodes of the old tree and the
/// nodes above the page that was set.
pub proof fn lemma_new_nodes(n_old: nat, n_new: nat, p: u32, id: NodeId)
    requires
        1 <= n_old <= n_new <= n_old + 1,
        n_new <= 0x1_0000_0000,
        p < n_new,
        n_new == n_old + 1 ==> p == n_old,
    ensures
        tree_height(n_old) <= tree_height(n_new) <= 32,
        present(n_new, id) <==> present(n_old, id) || (id.0 <= tree_height(n_new) && on_path(p, id)),
{
    let t = tree_height(n_new);
    let h = id.0 as nat;
    lemma_bit_length_monotone((n_old - 1) as nat, (n_new - 1) as nat);
    lemma_bit_length_u32_bound(n_new);
    lemma_pow2_pos(h);
    lemma_ancestor_width(p, id.0);
    if present(n_old, id) {
        vstd::arithmetic::div_mod::lemma_div_is_ordered(n_old - 1, n_new - 1, pow2(h) as int);
    }
    if id.0 <= t && on_path(p, id) {
        lemma_path_present(n_new, p, id.0);
    }
    if present(n_new, id) && n_new == n_old + 1 {
        lemma_div_succ((p - 1) as nat, h);
        if id.1 as nat == (p as nat) / pow2(h) {
            assert(on_path(p, id));
        } else {
            let h_old = tree_height(n_old);
            if h > h_old {
                lemma_bit_length_div((p - 1) as nat, h_old);
                lemma_div_succ((p - 1) as nat, h_old);
                lemma_div_halve(p as nat, h_old);
                lemma_pow2_pos(h_old);
                assert(tree_height(n_old) == bit_length((p - 1) as nat));
                assert(((p - 1) as nat) / pow2(h_old) == 0);
                assert((p as nat) / pow2(h_old) <= 1);
                assert((p as nat) / pow2(h_old + 1) == 0);
                if h > h_old + 1 {
                    vstd::arithmetic::power2::lemma_pow2_strictly_increases(h_old + 1, h);
                    lemma_pow2_pos(h_old + 1);
                    vstd::arithmetic::div_mod::lemma_div_is_ordered_by_denominator(
                        p as int,
                        pow2(h_old + 1) as int,
                        pow2(h) as int,
                    );
                }
                assert((p as nat) / pow2(h) == 0);
            }
        }
    }
}

/// The children of a node of the tree are its own: no other node of the
/// tree has one of them as a child.
pub proof fn lemma_child_of(n: nat, id: NodeId, child: NodeId)
    requires
        present(n, id),
        n <= 0x1_0000_0000,
        id.0 > 0,
        child.0 < u32::MAX,
        id.left_child() == child || id.right_child() == child,
    ensures
        id == child.parent(),
{
    lemma_children(n, id);
}

/// The walk of an update ends in the tree over the new pages.
pub proof fn lemma_walk(
    store: Map<NodeId, Seq<u8>>,
    n_old: nat,
    pages: Seq<Seq<u8>>,
    p: u32,
    k: u32,
    cur_hash: Seq<u8>,
)
    requires
        1 <= n_old <= pages.len() <= n_old + 1,
        pages.len() <= 0x1_0000_0000,
        p < pages.len(),
        pages.len() == n_old + 1 ==> p == n_old,
        k <= tree_height(pages.len()),
        walk_inv(store, n_old, pages, p, k),
        store[ancestor(p, k)] == cur_hash,
    ensures
        is_tree(
            spec_walk_store(store, ancestor(p, k), cur_hash, tree_height(pages.len()) as u32),
            Some(spec_walk_end(ancestor(p, k), tree_height(pages.len()) as u32)),
            pages,
        ),
    decreases tree_height(pages.len()) - k,
{
    let n = pages.len();
    let t = tree_height(n);
    let cur = ancestor(p, k);
    lemma_ancestor_width(p, k);
    lemma_bit_length_u32_bound(n);
    assert forall|id: NodeId| present(n, id) <==> present(n_old, id) || (id.0 <= t && on_path(
        p,
        id,
    )) by {
        lemma_new_nodes(n_old, n, p, id);
    }
    lemma_new_nodes(n_old, n, p, cur);
    if k >= t {
        lemma_bit_length_monotone(p as nat, (n - 1) as nat);
        lemma_bit_length_div(p as nat, t);
        assert(cur == NodeId(t as u32, 0));
        assert forall|id: NodeId| #[trigger] store.contains_key(id) && id.0 > 0 implies consistent_at(
            store,
            id,
        ) by {
            assert(id.0 <= t);
        }
    } else {
        let sib = cur.sibling();
        let h = spec_parent_hash(cur, cur_hash, lookup(store, sib));
        let up = (k + 1) as u32;
        let parent = cur.parent();
        lemma_ancestor_parent(p, k);
        assert(parent == ancestor(p, up));
        lemma_ancestor_width(p, up);
        let next = store.insert(parent, h);
        lemma_path_present(n, p, up);
        lemma_path_present(n, p, k);
        lemma_children(n, parent);
        assert(store.contains_key(cur));
        assert forall|id: NodeId| #[trigger]
            next.contains_key(id) && id.0 > 0 && !(id.0 > up && on_path(p, id)) implies consistent_at(
            next,
            id,
        ) by {
            if id == parent {
                if cur.1 % 2 == 0 {
                    assert(parent.left_child() == cur);
                    assert(parent.right_child() == sib);
                } else {
                    assert(parent.right_child() == cur);
                    assert(parent.left_child() == sib);
                }
            } else {
                assert(store.contains_key(id));
                assert(!(id.0 > k && on_path(p, id)));
                assert(consistent_at(store, id));
                assert(present(n, id));
                if id.left_child() == parent || id.right_child() == parent {
                    lemma_child_of(n, id, parent);
                    lemma_ancestor_parent(p, up);
                    lemma_ancestor_width(p, (up + 1) as u32);
                    assert(false);
                }
            }
        }
        assert(walk_inv(next, n_old, pages, p, up));
        lemma_walk(next, n_old, pages, p, up, h);
    }
}

/// **An update keeps the tree.** Where the store and the root are the
/// tree over some pages, and page `p` is one of them or the next one, the
/// update of `p` is made, and leaves the tree over the pages with `p` set:
/// every node above the leaves has the hash of its children, an absent
/// child counting as absent, and the leaf of `p` has the hash of `p` and
/// the new page hash.
pub proof fn lemma_update_keeps_tree(
    store: Map<NodeId, Seq<u8>>,
    root: Option<NodeId>,
    pages: Seq<Seq<u8>>,
    p: u32,
    d: Seq<u8>,
)
    requires
        is_tree(store, root, pages),
        p <= pages.len(),
    ensures
        !root_missing(store, root, p),
        is_tree(
            spec_update_store(store, root, p, d),
            Some(spec_update_root(root, p)),
            pages_after(pages, p, d),
        ),
        spec_update_store(store, root, p, d)[NodeId(0, p)] == spec_leaf_hash(p, d),
        hash_consistent(spec_update_store(store, root, p, d)),
{
    let n = pages.len();
    let new_pages = pages_after(pages, p, d);
    let leaf = NodeId(0, p);
    let leaf_h = spec_leaf_hash(p, d);
    let with_leaf = store.insert(leaf, leaf_h);
    let out = spec_update_store(store, root, p, d);
    lemma2_to64();
    lemma_ancestor_width(p, 0);
    assert(ancestor(p, 0) == leaf);
    if n == 0 {
        assert(tree_height(1) == 0) by {
            assert(bit_length(0) == 0);
        }
        assert(out == with_leaf);
        assert forall|id: NodeId| #[trigger] out.contains_key(id) <==> present(1, id) by {
            assert(!present(0, id));
            assert(!store.contains_key(id));
        }
        assert forall|id: NodeId| #[trigger] out.contains_key(id) && id.0 > 0 implies consistent_at(
            out,
            id,
        ) by {}
    } else {
        let t = tree_height(new_pages.len());
        lemma_new_nodes(n, new_pages.len(), p, leaf);
        assert(walk_inv(with_leaf, n, new_pages, p, 0)) by {
            assert forall|id: NodeId| #[trigger]
                with_leaf.contains_key(id) && id.0 > 0 && !(id.0 > 0 && on_path(p, id)) implies consistent_at(
                with_leaf,
                id,
            ) by {
                assert(store.contains_key(id));
                assert(consistent_at(store, id));
                if id.left_child() == leaf || id.right_child() == leaf {
                    lemma_child_of(n, id, leaf);
                    lemma_ancestor_parent(p, 0);
                    assert(false);
                }
            }
            assert forall|q: u32| q < new_pages.len() implies #[trigger] with_leaf[NodeId(0, q)]
                == spec_leaf_hash(q, new_pages[q as int]) by {
                if q != p {
                    assert(q < n);
                }
            }
        }
        lemma_walk(with_leaf, n, new_pages, p, 0, leaf_h);
        // the height up to which the update walks is the height of the new tree
        lemma_bit_length_monotone(p as nat, (new_pages.len() - 1) as nat);
        lemma_bit_length_monotone((n - 1) as nat, (new_pages.len() - 1) as nat);
        if root_height(root) == 0 {
            lemma_bit_length_div((n - 1) as nat, 0);
            assert(n == 1);
            assert(bit_length(0) == 0);
            if p == 0 {
                assert(t == 0);
                assert(out == spec_walk_store(with_leaf, leaf, leaf_h, 0));
            } else {
                assert(bit_length(1) == 1) by {
                    assert(bit_length(1) == 1 + bit_length(0));
                }
                assert(t == 1);
                assert(store.contains_key(NodeId(0, 0))) by {
                    assert(present(1, NodeId(0, 0)));
                }
                assert(leaf.sibling() == NodeId(0, 0));
                reveal_with_fuel(spec_walk_store, 2);
                reveal_with_fuel(spec_walk_end, 2);
                assert(out == spec_walk_store(with_leaf, leaf, leaf_h, 1));
            }
        } else {
            assert(target_height(root, p) == t);
        }
    }
}

/// The walk of an update writes nodes above the page and no others.
pub proof fn lemma_walk_touches_path_only(
    store: Map<NodeId, Seq<u8>>,
    p: u32,
    k: u32,
    cur_hash: Seq<u8>,
    target: u32,
    id: NodeId,
)
    requires
        !on_path(p, id),
    ensures
        lookup(spec_walk_store(store, ancestor(p, k), cur_hash, target), id) == lookup(store, id),
    decreases target - k,
{
    lemma_ancestor_width(p, k);
    if k < target {
        let cur = ancestor(p, k);
        let h = spec_parent_hash(cur, cur_hash, lookup(store, cur.sibling()));
        lemma_ancestor_parent(p, k);
        lemma_ancestor_width(p, (k + 1) as u32);
        lemma_walk_touches_path_only(
            store.insert(cur.parent(), h),
            p,
            (k + 1) as u32,
            h,
            target,
            id,
        );
    }
}

/// **An update leaves the rest of the tree alone.** A node that is not
/// above the updated page is after the update what it was before.
pub proof fn lemma_update_touches_path_only(
    store: Map<NodeId, Seq<u8>>,
    root: Option<NodeId>,
    p: u32,
    d: Seq<u8>,
    id: NodeId,
)
    requires
        !on_path(p, id),
    ensures
        lookup(spec_update_store(store, root, p, d), id) == lookup(store, id),
{
    let leaf = NodeId(0, p);
    let leaf_h = spec_leaf_hash(p, d);
    lemma2_to64();
    lemma_ancestor_width(p, 0);
    lemma_ancestor_parent(p, 0);
    lemma_ancestor_width(p, 1);
    assert(ancestor(p, 0) == leaf);
    if root_height(root) != 0 {
        lemma_walk_touches_path_only(
            store.insert(leaf, leaf_h),
            p,
            0,
            leaf_h,
            target_height(root, p),
            id,
        );
    }
}

/// The walk from a node above page `p` ends at the node above `p` of
/// the height it walks to.
pub proof fn lemma_walk_end(p: u32, k: u32, target: u32)
    requires
        k <= target,
    ensures
        spec_walk_end(ancestor(p, k), target) == ancestor(p, target),
    decreases target - k,
{
    lemma_ancestor_width(p, k);
    if k < target {
        lemma_ancestor_parent(p, k);
        lemma_walk_end(p, (k + 1) as u32, target);
    }
}

/// **The root rises as far as the page needs.** After an update of page
/// `p` the root stands at width 0, at the height of the old root or at the
/// height that the page needs, whichever is more. This is so for every
/// update of a tree with a root above the leaves, for every update of
/// page 0, and for the update of page 1 in a tree of a single leaf.
pub proof fn lemma_update_height(root: Option<NodeId>, p: u32)
    requires
        root_height(root) > 0 || p == 0 || (p == 1 && root is Some),
    ensures
        spec_update_root(root, p).1 == 0,
        spec_update_root(root, p).0 == (if bit_length(p as nat) > root_height(root) {
            bit_length(p as nat)
        } else {
            root_height(root) as nat
        }),
{
    lemma2_to64();
    crate::page::lemma_bit_length_u32(p as nat);
    if root_height(root) > 0 {
        let t = target_height(root, p);
        lemma_ancestor_parent(p, 0);
        lemma_walk_end(p, 0, t);
        lemma_ancestor_width(p, t);
        lemma_bit_length_div(p as nat, t as nat);
    } else if p == 0 {
        assert(bit_length(0) == 0);
    } else {
        assert(bit_length(1) == 1) by {
            reveal_with_fuel(bit_length, 3);
        }
    }
}

} // verus!
