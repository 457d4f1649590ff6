//! The nodes that an untrusted store gives for an update: each node above
//! an updated page is checked against its children.

use vstd::prelude::*;
use std::collections::HashMap;
use crate::digest::Digest;
use crate::node::{lookup, MerkleNodeLoader, NodeId};
use crate::page::PageId;
use crate::read::ancestor;

verus! {

broadcast use vstd::std_specs::hash::group_hash_axioms;

/// Why the nodes that a store gave were not taken.
#[derive(Debug)]
pub enum NodeCheckError {
    /// The hash of the node is not the hash of its children.
    Inconsistent(NodeId),
    /// The store failed.
    Store(crate::node::StoreError),
}

/// Whether `id` is a node above one of the updated pages, the leaf
/// included, and not above the height `top`.
pub open spec fn on_update_path(modif: Seq<(PageId, Digest)>, top: u32, id: NodeId) -> bool {
    id.0 <= top && exists|i: int|
        0 <= i < modif.len() && id == #[trigger] ancestor(modif[i].0.0, id.0)
}

/// Loads the nodes above each updated page up to the height of the root
/// `r_id`, and their siblings, and checks every loaded node above the
/// leaves against its children: its hash must be the hash of the two as
/// the store gave them, a child that the store lacks counting as absent.
/// Gives the hashes of the siblings that are not themselves above an
/// updated page: what an update of the pages needs of the old tree.
pub fn verify_read_base<L: MerkleNodeLoader>(
    loader: &L,
    modif: &Vec<(PageId, Digest)>,
    r_id: NodeId,
) -> (r: Result<HashMap<u64, Digest>, NodeCheckError>)
    ensures
        modif@.len() == 0 ==> r is Ok,
        match r {
            Ok(siblings) => {
                &&& forall|id: NodeId|
                    id.0 > 0 && on_update_path(modif@, r_id.0, id) && #[trigger] loader.nodes()@.contains_key(
                        id,
                    ) ==> crate::tree_model::consistent_at(loader.nodes()@, id)
                &&& forall|id: NodeId| #[trigger]
                    siblings@.contains_key(id.spec_key()) ==> {
                        &&& loader.nodes()@.contains_key(id)
                        &&& siblings@[id.spec_key()]@ == loader.nodes()@[id]
                        &&& !on_update_path(modif@, r_id.0, id)
                        &&& on_update_path(modif@, r_id.0, id.sibling())
                    }
                &&& forall|id: NodeId|
                    on_update_path(modif@, r_id.0, id) && !on_update_path(
                        modif@,
                        r_id.0,
                        id.sibling(),
                    ) && loader.nodes()@.contains_key(id.sibling()) ==> siblings@.contains_key(
                        #[trigger] id.sibling().spec_key(),
                    )
            },
            Err(NodeCheckError::Inconsistent(id)) => {
                &&& id.0 > 0
                &&& on_update_path(modif@, r_id.0, id)
                &&& loader.nodes()@.contains_key(id)
                &&& !crate::tree_model::consistent_at(loader.nodes()@, id)
            },
            Err(NodeCheckError::Store(_)) => !loader.always_answers(),
        },
{
    let top = r_id.get_height();
    let ghost store = loader.nodes()@;
    let mut siblings: HashMap<u64, Digest> = HashMap::new();
    let mut i: usize = 0;
    proof {
        vstd::arithmetic::power2::lemma2_to64();
    }
    while i < modif.len()
        invariant
            i <= modif.len(),
            top == r_id.0,
            store == loader.nodes()@,
            forall|id: NodeId|
                id.0 > 0 && id.0 <= top && (exists|j: int|
                    0 <= j < i && id == #[trigger] ancestor(modif@[j].0.0, id.0))
                    && #[trigger] store.contains_key(id) ==> crate::tree_model::consistent_at(
                    store,
                    id,
                ),
            forall|id: NodeId| #[trigger]
                siblings@.contains_key(id.spec_key()) ==> {
                    &&& store.contains_key(id)
                    &&& siblings@[id.spec_key()]@ == store[id]
                    &&& id.0 <= top
                    &&& exists|j: int|
                        0 <= j < i && id.sibling() == #[trigger] ancestor(modif@[j].0.0, id.0)
                },
            forall|id: NodeId|
                id.0 <= top && (exists|j: int|
                    0 <= j < i && id == #[trigger] ancestor(modif@[j].0.0, id.0))
                    && store.contains_key(id.sibling()) ==> siblings@.contains_key(
                    #[trigger] id.sibling().spec_key(),
                ),
        decreases modif.len() - i,
    {
        let p_id = modif[i].0;
        let mut cur_id = NodeId::from_page_id(p_id);
        let mut below: (Option<Digest>, Option<Digest>) = (None, None);
        let mut h: u32 = 0;
        proof {
            vstd::arithmetic::power2::lemma2_to64();
            crate::tree_model::lemma_ancestor_width(p_id.0, 0);
        }
        loop
            invariant_except_break
                h <= top,
                top == r_id.0,
                i < modif.len(),
                p_id == modif@[i as int].0,
                store == loader.nodes()@,
                cur_id == ancestor(p_id.0, h),
                h > 0 ==> crate::hash::opt_view(below.0) == lookup(store, cur_id.left_child())
                    && crate::hash::opt_view(below.1) == lookup(store, cur_id.right_child()),
                forall|id: NodeId|
                    id.0 > 0 && id.0 <= top && ((exists|j: int|
                        0 <= j < i && id == #[trigger] ancestor(modif@[j].0.0, id.0)) || (id.0 < h
                        && id == ancestor(p_id.0, id.0))) && #[trigger] store.contains_key(id)
                        ==> crate::tree_model::consistent_at(store, id),
                forall|id: NodeId| #[trigger]
                    siblings@.contains_key(id.spec_key()) ==> {
                        &&& store.contains_key(id)
                        &&& siblings@[id.spec_key()]@ == store[id]
                        &&& id.0 <= top
                        &&& ((exists|j: int|
                            0 <= j < i && id.sibling() == #[trigger] ancestor(modif@[j].0.0, id.0))
                            || (id.0 < h && id.sibling() == ancestor(p_id.0, id.0)))
                    },
                forall|id: NodeId|
                    id.0 <= top && ((exists|j: int|
                        0 <= j < i && id == #[trigger] ancestor(modif@[j].0.0, id.0)) || (id.0 < h
                        && id == ancestor(p_id.0, id.0))) && store.contains_key(id.sibling())
                        ==> siblings@.contains_key(#[trigger] id.sibling().spec_key()),
            ensures
                top == r_id.0,
                i < modif.len(),
                store == loader.nodes()@,
                forall|id: NodeId|
                    id.0 > 0 && id.0 <= top && (exists|j: int|
                        0 <= j < i + 1 && id == #[trigger] ancestor(modif@[j].0.0, id.0))
                        && #[trigger] store.contains_key(id) ==> crate::tree_model::consistent_at(
                        store,
                        id,
                    ),
                forall|id: NodeId| #[trigger]
                    siblings@.contains_key(id.spec_key()) ==> {
                        &&& store.contains_key(id)
                        &&& siblings@[id.spec_key()]@ == store[id]
                        &&& id.0 <= top
                        &&& exists|j: int|
                            0 <= j < i + 1 && id.sibling() == #[trigger] ancestor(
                                modif@[j].0.0,
                                id.0,
                            )
                    },
                forall|id: NodeId|
                    id.0 <= top && (exists|j: int|
                        0 <= j < i + 1 && id == #[trigger] ancestor(modif@[j].0.0, id.0))
                        && store.contains_key(id.sibling()) ==> siblings@.contains_key(
                        #[trigger] id.sibling().spec_key(),
                    ),
            decreases top - h,
        {
            let cur_n = match loader.load_node(&cur_id) {
                Ok(n) => n,
                Err(e) => {
                    return Err(NodeCheckError::Store(e));
                },
            };
            let sib_id = cur_id.get_sib_id();
            let sib_n = match loader.load_node(&sib_id) {
                Ok(n) => n,
                Err(e) => {
                    return Err(NodeCheckError::Store(e));
                },
            };
            let cur_hash = match cur_n {
                Some(n) => Some(n.get_hash()),
                None => None,
            };
            let sib_hash = match sib_n {
                Some(n) => Some(n.get_hash()),
                None => None,
            };
            if h > 0 {
                if let Some(hash) = cur_hash {
                    let expected = crate::hash::nonleaf_hash(below.0, below.1);
                    if !(hash == expected) {
                        proof {
                            assert(ancestor(modif@[i as int].0.0, cur_id.0) == cur_id);
                        }
                        return Err(NodeCheckError::Inconsistent(cur_id));
                    }
                }
            }
            let ghost before = siblings@;
            if let Some(sh) = sib_hash {
                siblings.insert(sib_id.key(), sh);
            }
            proof {
                assert forall|a: NodeId, b: NodeId| a.spec_key() == b.spec_key() implies a == b by {
                    NodeId::lemma_key_injective(a, b);
                }
                assert(sib_id.sibling() == cur_id);
                assert forall|id: NodeId| #[trigger]
                    siblings@.contains_key(id.spec_key()) implies {
                    &&& store.contains_key(id)
                    &&& siblings@[id.spec_key()]@ == store[id]
                    &&& id.0 <= top
                    &&& ((exists|j: int|
                        0 <= j < i && id.sibling() == #[trigger] ancestor(modif@[j].0.0, id.0))
                        || (id.0 < h + 1 && id.sibling() == ancestor(p_id.0, id.0)))
                } by {
                    if id != sib_id {
                        assert(before.contains_key(id.spec_key()));
                    }
                }
            }
            if h >= top {
                proof {
                    assert forall|id: NodeId|
                        id.0 > 0 && id.0 <= top && (exists|j: int|
                            0 <= j < i + 1 && id == #[trigger] ancestor(modif@[j].0.0, id.0))
                            && #[trigger] store.contains_key(id) implies crate::tree_model::consistent_at(
                        store,
                        id,
                    ) by {
                        let j = choose|j: int|
                            0 <= j < i + 1 && id == #[trigger] ancestor(modif@[j].0.0, id.0);
                        if j == i {
                            assert(id == ancestor(p_id.0, id.0));
                        }
                    }
                    assert forall|id: NodeId|
                        id.0 <= top && (exists|j: int|
                            0 <= j < i + 1 && id == #[trigger] ancestor(modif@[j].0.0, id.0))
                            && store.contains_key(id.sibling()) implies siblings@.contains_key(
                        #[trigger] id.sibling().spec_key(),
                    ) by {
                        let j = choose|j: int|
                            0 <= j < i + 1 && id == #[trigger] ancestor(modif@[j].0.0, id.0);
                        if j == i {
                            assert(id == ancestor(p_id.0, id.0));
                        }
                    }
                    assert forall|id: NodeId| #[trigger]
                        siblings@.contains_key(id.spec_key()) implies exists|j: int|
                        0 <= j < i + 1 && id.sibling() == #[trigger] ancestor(
                            modif@[j].0.0,
                            id.0,
                        ) by {
                        if !(exists|j: int|
                            0 <= j < i && id.sibling() == #[trigger] ancestor(
                                modif@[j].0.0,
                                id.0,
                            )) {
                            assert(id.sibling() == ancestor(modif@[i as int].0.0, id.0));
                        }
                    }
                }
                break ;
            }
            proof {
                crate::tree_model::lemma_ancestor_parent(p_id.0, h);
                crate::tree_model::lemma_ancestor_width(p_id.0, h);
                crate::tree_model::lemma_ancestor_width(p_id.0, (h + 1) as u32);
            }
            below = if cur_id.is_even() {
                (cur_hash, sib_hash)
            } else {
                (sib_hash, cur_hash)
            };
            cur_id = cur_id.get_parent_id();
            h += 1;
        }
        i += 1;
    }
    // the siblings that are themselves above an updated page are of no use
    let mut j: usize = 0;
    while j < modif.len()
        invariant
            j <= modif.len(),
            top == r_id.0,
            store == loader.nodes()@,
            forall|id: NodeId| #[trigger]
                siblings@.contains_key(id.spec_key()) ==> {
                    &&& store.contains_key(id)
                    &&& siblings@[id.spec_key()]@ == store[id]
                    &&& id.0 <= top
                    &&& on_update_path(modif@, top, id.sibling())
                    &&& !(exists|k: int| 0 <= k < j && id == #[trigger] ancestor(modif@[k].0.0, id.0))
                },
            forall|id: NodeId|
                on_update_path(modif@, top, id) && !on_update_path(modif@, top, id.sibling())
                    && store.contains_key(id.sibling()) ==> siblings@.contains_key(
                    #[trigger] id.sibling().spec_key(),
                ),
        decreases modif.len() - j,
    {
        let p_id = modif[j].0;
        let mut cur_id = NodeId::from_page_id(p_id);
        let mut h: u32 = 0;
        proof {
            vstd::arithmetic::power2::lemma2_to64();
            crate::tree_model::lemma_ancestor_width(p_id.0, 0);
        }
        loop
            invariant_except_break
                h <= top,
                top == r_id.0,
                j < modif.len(),
                p_id == modif@[j as int].0,
                store == loader.nodes()@,
                cur_id == ancestor(p_id.0, h),
                forall|id: NodeId| #[trigger]
                    siblings@.contains_key(id.spec_key()) ==> {
                        &&& store.contains_key(id)
                        &&& siblings@[id.spec_key()]@ == store[id]
                        &&& id.0 <= top
                        &&& on_update_path(modif@, top, id.sibling())
                        &&& !(exists|k: int|
                            0 <= k < j && id == #[trigger] ancestor(modif@[k].0.0, id.0))
                        &&& !(id.0 < h && id == ancestor(p_id.0, id.0))
                    },
                forall|id: NodeId|
                    on_update_path(modif@, top, id) && !on_update_path(modif@, top, id.sibling())
                        && store.contains_key(id.sibling()) ==> siblings@.contains_key(
                        #[trigger] id.sibling().spec_key(),
                    ),
            ensures
                top == r_id.0,
                j < modif.len(),
                store == loader.nodes()@,
                forall|id: NodeId| #[trigger]
                    siblings@.contains_key(id.spec_key()) ==> {
                        &&& store.contains_key(id)
                        &&& siblings@[id.spec_key()]@ == store[id]
                        &&& id.0 <= top
                        &&& on_update_path(modif@, top, id.sibling())
                        &&& !(exists|k: int|
                            0 <= k < j + 1 && id == #[trigger] ancestor(modif@[k].0.0, id.0))
                    },
                forall|id: NodeId|
                    on_update_path(modif@, top, id) && !on_update_path(modif@, top, id.sibling())
                        && store.contains_key(id.sibling()) ==> siblings@.contains_key(
                        #[trigger] id.sibling().spec_key(),
                    ),
            decreases top - h,
        {
            let ghost before = siblings@;
            siblings.remove(&cur_id.key());
            proof {
                assert forall|a: NodeId, b: NodeId| a.spec_key() == b.spec_key() implies a == b by {
                    NodeId::lemma_key_injective(a, b);
                }
                assert(on_update_path(modif@, top, cur_id)) by {
                    assert(cur_id == ancestor(modif@[j as int].0.0, cur_id.0));
                }
                assert forall|id: NodeId|
                    on_update_path(modif@, top, id) && !on_update_path(modif@, top, id.sibling())
                        && store.contains_key(id.sibling()) implies siblings@.contains_key(
                    #[trigger] id.sibling().spec_key(),
                ) by {
                    assert(before.contains_key(id.sibling().spec_key()));
                    assert(id.sibling() != cur_id);
                }
            }
            if h >= top {
                proof {
                    assert forall|id: NodeId| #[trigger]
                        siblings@.contains_key(id.spec_key()) implies !(exists|k: int|
                        0 <= k < j + 1 && id == #[trigger] ancestor(modif@[k].0.0, id.0)) by {
                        if exists|k: int|
                            0 <= k < j + 1 && id == #[trigger] ancestor(modif@[k].0.0, id.0) {
                            let k = choose|k: int|
                                0 <= k < j + 1 && id == #[trigger] ancestor(modif@[k].0.0, id.0);
                            if k == j {
                                assert(id == ancestor(p_id.0, id.0));
                                assert(id.0 <= h);
                            }
                        }
                    }
                }
                break ;
            }
            proof {
                crate::tree_model::lemma_ancestor_parent(p_id.0, h);
            }
            cur_id = cur_id.get_parent_id();
            h += 1;
        }
        j += 1;
    }
    proof {
        assert forall|id: NodeId| #[trigger]
            siblings@.contains_key(id.spec_key()) implies !on_update_path(modif@, r_id.0, id) by {}
        assert forall|id: NodeId|
            id.0 > 0 && on_update_path(modif@, r_id.0, id) && #[trigger] store.contains_key(id)
            implies crate::tree_model::consistent_at(store, id) by {}
    }
    Ok(siblings)
}

/// Whether `id` is a node above one of the first `n` updated pages, the
/// leaf included.
pub open spec fn above_first(modif: Seq<(PageId, Digest)>, n: int, id: NodeId) -> bool {
    exists|j: int| 0 <= j < n && id == #[trigger] ancestor(modif[j].0.0, id.0)
}

/// The ids of the nodes that are looked at before an update: the nodes
/// above each updated page up to the height of the root `r_id`, each
/// followed by its sibling.
pub fn batch_ids(modif: &Vec<(PageId, Digest)>, r_id: NodeId) -> (ids: Vec<NodeId>)
    ensures
        forall|k: int|
            0 <= k < ids@.len() ==> on_update_path(modif@, r_id.0, #[trigger] ids@[k])
                || on_update_path(modif@, r_id.0, ids@[k].sibling()),
        forall|id: NodeId| on_update_path(modif@, r_id.0, id) ==> #[trigger] ids@.contains(id),
        forall|id: NodeId|
            on_update_path(modif@, r_id.0, id) ==> #[trigger] ids@.contains(id.sibling()),
{
    let top = r_id.get_height();
    let mut ids: Vec<NodeId> = Vec::new();
    let mut i: usize = 0;
    while i < modif.len()
        invariant
            i <= modif.len(),
            top == r_id.0,
            forall|k: int|
                0 <= k < ids@.len() ==> on_update_path(modif@, top, #[trigger] ids@[k])
                    || on_update_path(modif@, top, ids@[k].sibling()),
            forall|id: NodeId|
                id.0 <= top && above_first(modif@, i as int, id) ==> #[trigger] ids@.contains(id),
            forall|id: NodeId|
                id.0 <= top && above_first(modif@, i as int, id) ==> #[trigger] ids@.contains(
                    id.sibling(),
                ),
        decreases modif.len() - i,
    {
        let p_id = modif[i].0;
        let mut cur_id = NodeId::from_page_id(p_id);
        let mut h: u32 = 0;
        proof {
            vstd::arithmetic::power2::lemma2_to64();
            crate::tree_model::lemma_ancestor_width(p_id.0, 0);
        }
        loop
            invariant_except_break
                h <= top,
                top == r_id.0,
                i < modif.len(),
                p_id == modif@[i as int].0,
                cur_id == ancestor(p_id.0, h),
                forall|k: int|
                    0 <= k < ids@.len() ==> on_update_path(modif@, top, #[trigger] ids@[k])
                        || on_update_path(modif@, top, ids@[k].sibling()),
                forall|id: NodeId|
                    id.0 <= top && (above_first(modif@, i as int, id) || (id.0 < h && id
                        == ancestor(p_id.0, id.0))) ==> #[trigger] ids@.contains(id),
                forall|id: NodeId|
                    id.0 <= top && (above_first(modif@, i as int, id) || (id.0 < h && id
                        == ancestor(p_id.0, id.0))) ==> #[trigger] ids@.contains(id.sibling()),
            ensures
                top == r_id.0,
                i < modif.len(),
                forall|k: int|
                    0 <= k < ids@.len() ==> on_update_path(modif@, top, #[trigger] ids@[k])
                        || on_update_path(modif@, top, ids@[k].sibling()),
                forall|id: NodeId|
                    id.0 <= top && above_first(modif@, i + 1, id) ==> #[trigger] ids@.contains(id),
                forall|id: NodeId|
                    id.0 <= top && above_first(modif@, i + 1, id) ==> #[trigger] ids@.contains(
                        id.sibling(),
                    ),
            decreases top - h,
        {
            let ghost before = ids@;
            let sib_id = cur_id.get_sib_id();
            ids.push(cur_id);
            ids.push(sib_id);
            proof {
                assert(sib_id.sibling() == cur_id);
                assert(cur_id == ancestor(modif@[i as int].0.0, cur_id.0));
                assert(on_update_path(modif@, top, cur_id));
                assert(ids@[before.len() as int] == cur_id);
                assert(ids@[before.len() as int + 1] == sib_id);
                assert forall|id: NodeId| before.contains(id) implies ids@.contains(id) by {
                    let k = choose|k: int| 0 <= k < before.len() && before[k] == id;
                    assert(ids@[k] == id);
                }
                assert forall|id: NodeId|
                    id.0 <= top && (above_first(modif@, i as int, id) || (id.0 < h + 1 && id
                        == ancestor(p_id.0, id.0))) implies #[trigger] ids@.contains(id) by {
                    if !(above_first(modif@, i as int, id) || (id.0 < h && id == ancestor(
                        p_id.0,
                        id.0,
                    ))) {
                        assert(id == cur_id);
                    } else {
                        assert(before.contains(id));
                    }
                }
                assert forall|id: NodeId|
                    id.0 <= top && (above_first(modif@, i as int, id) || (id.0 < h + 1 && id
                        == ancestor(p_id.0, id.0))) implies #[trigger] ids@.contains(
                    id.sibling(),
                ) by {
                    if !(above_first(modif@, i as int, id) || (id.0 < h && id == ancestor(
                        p_id.0,
                        id.0,
                    ))) {
                        assert(id.sibling() == sib_id);
                    } else {
                        assert(before.contains(id.sibling()));
                    }
                }
            }
            if h >= top {
                proof {
                    assert forall|id: NodeId|
                        id.0 <= top && above_first(modif@, i + 1, id) implies (above_first(
                        modif@,
                        i as int,
                        id,
                    ) || (id.0 < h + 1 && id == ancestor(p_id.0, id.0))) by {
                        let j = choose|j: int|
                            0 <= j < i + 1 && id == #[trigger] ancestor(modif@[j].0.0, id.0);
                        if j == i {
                            assert(id == ancestor(p_id.0, id.0));
                        } else {
                            assert(above_first(modif@, i as int, id));
                        }
                    }
                }
                break ;
            }
            proof {
                crate::tree_model::lemma_ancestor_parent(p_id.0, h);
            }
            cur_id = cur_id.get_parent_id();
            h += 1;
        }
        i += 1;
    }
    proof {
        assert forall|id: NodeId| on_update_path(modif@, r_id.0, id) implies above_first(
            modif@,
            modif@.len() as int,
            id,
        ) by {}
    }
    ids
}

/// Checks the nodes that a store gave in one answer, as `verify_read_base`
/// checks them one by one: `fetched` holds what the store gave for the ids
/// of `batch_ids`.
pub fn verify_read_batch(
    fetched: &Vec<(NodeId, Option<crate::node::MerkleNode>)>,
    modif: &Vec<(PageId, Digest)>,
    r_id: NodeId,
) -> (r: Result<HashMap<u64, Digest>, NodeCheckError>)
    ensures
        ({
            let store = crate::mem_tree::fetched_hashes(fetched@, fetched@.len());
            match r {
                Ok(siblings) => {
                    &&& forall|id: NodeId|
                        id.0 > 0 && on_update_path(modif@, r_id.0, id) && #[trigger] store.contains_key(
                            id,
                        ) ==> crate::tree_model::consistent_at(store, id)
                    &&& forall|id: NodeId| #[trigger]
                        siblings@.contains_key(id.spec_key()) ==> {
                            &&& store.contains_key(id)
                            &&& siblings@[id.spec_key()]@ == store[id]
                            &&& !on_update_path(modif@, r_id.0, id)
                            &&& on_update_path(modif@, r_id.0, id.sibling())
                        }
                    &&& forall|id: NodeId|
                        on_update_path(modif@, r_id.0, id) && !on_update_path(
                            modif@,
                            r_id.0,
                            id.sibling(),
                        ) && store.contains_key(id.sibling()) ==> siblings@.contains_key(
                            #[trigger] id.sibling().spec_key(),
                        )
                },
                Err(NodeCheckError::Inconsistent(id)) => {
                    &&& id.0 > 0
                    &&& on_update_path(modif@, r_id.0, id)
                    &&& store.contains_key(id)
                    &&& !crate::tree_model::consistent_at(store, id)
                },
                Err(NodeCheckError::Store(_)) => false,
            }
        }),
{
    let tree = crate::mem_tree::MemTree::from_nodes(Some(r_id), fetched);
    verify_read_base(&tree, modif, r_id)
}

} // verus!
