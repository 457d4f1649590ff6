//! A tree whose nodes are held in memory.

use vstd::prelude::*;
use std::collections::HashMap;
use vstd::std_specs::iter::IteratorSpec;
use crate::node::{MerkleNode, MerkleNodeLoader, NodeHashes, NodeId, StoreError};
use crate::write::{keyed_hashes, Apply};

verus! {

broadcast use vstd::std_specs::hash::group_hash_axioms;

/// The hashes of the first `k` nodes that a store gave, by node id: of two
/// nodes with one id the later one counts, and an id for which the store
/// gave nothing adds nothing.
pub open spec fn fetched_hashes(fetched: Seq<(NodeId, Option<MerkleNode>)>, k: nat) -> Map<
    NodeId,
    Seq<u8>,
>
    decreases k,
{
    if k == 0 {
        Map::empty()
    } else {
        let prev = fetched_hashes(fetched, (k - 1) as nat);
        match fetched[k - 1].1 {
            Some(n) => prev.insert(fetched[k - 1].0, n.hash@),
            None => prev,
        }
    }
}

/// The nodes of a tree and the id of its root.
pub struct MemTree {
    pub root_id: Option<NodeId>,
    pub nodes: HashMap<u64, MerkleNode>,
}

impl MerkleNodeLoader for MemTree {
    open spec fn nodes(&self) -> NodeHashes {
        NodeHashes { map: keyed_hashes(self.nodes@) }
    }

    open spec fn always_answers(&self) -> bool {
        true
    }

    fn load_node(&self, id: &NodeId) -> (r: Result<Option<MerkleNode>, StoreError>) {
        let key = id.key();
        match self.nodes.get(&key) {
            Some(n) => Ok(Some(*n)),
            None => Ok(None),
        }
    }
}

impl MemTree {
    /// The empty tree.
    pub fn new() -> (t: MemTree)
        ensures
            t.root_id is None,
            t.nodes()@ == Map::<NodeId, Seq<u8>>::empty(),
    {
        let t = MemTree { root_id: None, nodes: HashMap::new() };
        assert(t.nodes()@ =~= Map::<NodeId, Seq<u8>>::empty());
        t
    }

    /// The tree that holds the nodes of `fetched` that a store had, with
    /// the given root, see `fetched_hashes`.
    pub fn from_nodes(root_id: Option<NodeId>, fetched: &Vec<(NodeId, Option<MerkleNode>)>) -> (t:
        MemTree)
        ensures
            t.root_id == root_id,
            t.nodes()@ == fetched_hashes(fetched@, fetched@.len()),
    {
        let mut nodes: HashMap<u64, MerkleNode> = HashMap::new();
        let mut i: usize = 0;
        assert(keyed_hashes(nodes@) =~= fetched_hashes(fetched@, 0));
        while i < fetched.len()
            invariant
                i <= fetched.len(),
                keyed_hashes(nodes@) == fetched_hashes(fetched@, i as nat),
            decreases fetched.len() - i,
        {
            let (id, node) = fetched[i];
            let ghost before = nodes@;
            if let Some(n) = node {
                nodes.insert(id.key(), n);
                proof {
                    assert forall|a: NodeId, b: NodeId| a.spec_key() == b.spec_key() implies a
                        == b by {
                        NodeId::lemma_key_injective(a, b);
                    }
                    assert(keyed_hashes(nodes@) =~= keyed_hashes(before).insert(id, n.hash@));
                }
            }
            i += 1;
        }
        MemTree { root_id, nodes }
    }

    /// The height of the root, if there is one.
    pub fn get_height(&self) -> (h: Option<u32>)
        ensures
            h == (match self.root_id {
                Some(id) => Some(id.0),
                None => None,
            }),
    {
        if let Some(id) = self.root_id {
            Some(id.get_height())
        } else {
            None
        }
    }

    /// The number of nodes.
    pub fn len(&self) -> (n: usize)
        ensures
            n == self.nodes@.len(),
    {
        self.nodes.len()
    }

    /// Takes over the outcome of a write context: its root, and its nodes
    /// in place of those with the same id.
    pub fn apply(&mut self, apply: Apply)
        ensures
            final(self).root_id == apply.root_id,
            final(self).nodes@ == old(self).nodes@.union_prefer_right(apply.nodes@),
            final(self).nodes()@ == old(self).nodes()@.union_prefer_right(apply.hashes()),
    {
        self.root_id = apply.root_id;
        let ghost before = self.nodes@;
        let ghost kv: Seq<(u64, MerkleNode)> = apply.nodes.iter().remaining().unref();
        for pair in it: apply.nodes.iter()
            invariant
                it.seq().unref() == kv,
                kv.to_set() == apply.nodes@.kv_pairs(),
                self.root_id == apply.root_id,
                forall|k: u64| #[trigger]
                    self.nodes@.contains_key(k) <==> before.contains_key(k) || exists|j: int|
                        0 <= j < it.index() && kv[j].0 == k,
                forall|k: u64|
                    self.nodes@.contains_key(k) ==> #[trigger] self.nodes@[k] == (if exists|j: int|
                        0 <= j < it.index() && kv[j].0 == k {
                        apply.nodes@[k]
                    } else {
                        before[k]
                    }),
        {
            let (k, n) = pair;
            proof {
                let j = it.index() as int;
                assert(kv[j] == (*k, *n));
                assert(kv.to_set().contains(kv[j]));
                assert(apply.nodes@.kv_pairs().contains((*k, *n)));
            }
            self.nodes.insert(*k, *n);
        }
        proof {
            let after = self.nodes@;
            let merged = before.union_prefer_right(apply.nodes@);
            assert forall|k: u64| apply.nodes@.contains_key(k) implies exists|j: int|
                0 <= j < kv.len() && kv[j].0 == k by {
                assert(apply.nodes@.kv_pairs().contains((k, apply.nodes@[k])));
                assert(kv.to_set().contains((k, apply.nodes@[k])));
                let j = choose|j: int| 0 <= j < kv.len() && kv[j] == (k, apply.nodes@[k]);
                assert(kv[j].0 == k);
            }
            assert forall|k: u64| (exists|j: int| 0 <= j < kv.len() && kv[j].0 == k)
                implies apply.nodes@.contains_key(k) by {
                let j = choose|j: int| 0 <= j < kv.len() && kv[j].0 == k;
                assert(kv.to_set().contains(kv[j]));
                assert(apply.nodes@.kv_pairs().contains(kv[j]));
            }
            assert(after =~= merged);
            assert(final(self).nodes()@ =~= old(self).nodes()@.union_prefer_right(apply.hashes()));
        }
    }
}

} // verus!
