//! The read context: queries of pages against the nodes of a loader, and
//! the one proof that stands for all of them.

use vstd::prelude::*;
use vstd::arithmetic::power2::pow2;
use crate::digest::Digest;
use crate::merkle_proof::{lemma_halve_step, Proof, ProofError, ProofNonLeaf, ProofTree, SubProof};
use crate::node::{MerkleNodeLoader, NodeId, StoreError};
use crate::page::PageId;

verus! {

/// Why a page could not be queried.
#[derive(Debug)]
pub enum ReadError {
    /// The tree has no root.
    EmptyTree,
    /// The tree has no leaf for the page.
    MissingLeaf,
    /// The path to the page leaves the proof built so far.
    Proof(ProofError),
    /// The store failed.
    Store(StoreError),
}

/// The node of height `h` above the leaf of page `p`.
pub open spec fn ancestor(p: u32, h: u32) -> NodeId {
    NodeId(h, (p as nat / pow2(h as nat)) as u32)
}

/// The way from the root of a tree of the given height down to the leaf
/// of page `p`, the step at the root last: for each step the side taken,
/// 0 for left and 1 for right, and the id of the node it leads to.
pub open spec fn id_path(p: u32, height: u32) -> Seq<(usize, NodeId)>
    decreases height,
{
    if height == 0 {
        Seq::empty()
    } else {
        let h = (height - 1) as u32;
        id_path(p, h).push(((ancestor(p, h).1 % 2) as usize, ancestor(p, h)))
    }
}

/// The hash of the node `id` as a proof holds it for a side that the
/// queried page is not under: the stored hash, or nothing where the store
/// has no such node.
pub open spec fn stub(store: Map<NodeId, Seq<u8>>, id: NodeId) -> ProofTree {
    if store.contains_key(id) {
        ProofTree::Leaf(store[id])
    } else {
        ProofTree::Absent
    }
}

/// The proof for page `p` alone below a node of the given height: the
/// leaf's hash, and at each level above it the hash of the sibling.
pub open spec fn spec_inner_proof(store: Map<NodeId, Seq<u8>>, p: u32, height: u32) -> ProofTree
    decreases height,
{
    if height == 0 {
        ProofTree::Leaf(store[NodeId(0, p)])
    } else {
        let h = (height - 1) as u32;
        let below = spec_inner_proof(store, p, h);
        let sib = stub(store, ancestor(p, h).sibling());
        if ancestor(p, h).1 % 2 == 0 {
            ProofTree::Node(Box::new(below), Box::new(sib))
        } else {
            ProofTree::Node(Box::new(sib), Box::new(below))
        }
    }
}

/// The proof after a query of page `p`: the first query builds the whole
/// path from the root; a later one goes down the proof to the first hash
/// that stands for a subtree on the way to `p` and puts the path below
/// that node in its place.
pub open spec fn spec_query(
    tree: ProofTree,
    store: Map<NodeId, Seq<u8>>,
    root: NodeId,
    p: u32,
) -> ProofTree {
    if tree is Absent {
        spec_inner_proof(store, p, root.0)
    } else {
        let path = id_path(p, root.0);
        let sub_root = tree.search(NodeId(0, 1), path)->Ok_0;
        tree.splice(path, spec_inner_proof(store, p, sub_root.0))
    }
}

/// The way from the root of a tree of the given height down to page `p_id`.
pub fn get_path_rev(p_id: PageId, height: u32) -> (res: Vec<(usize, NodeId)>)
    ensures
        res@ == id_path(p_id.0, height),
{
    let mut res: Vec<(usize, NodeId)> = Vec::new();
    let mut cur_id = NodeId::from_page_id(p_id);
    let mut cur_height: u32 = 0;
    proof {
        vstd::arithmetic::power2::lemma2_to64();
    }
    while cur_height < height
        invariant
            cur_height <= height,
            res@ == id_path(p_id.0, cur_height),
            cur_id == ancestor(p_id.0, cur_height),
        decreases height - cur_height,
    {
        if cur_id.is_even() {
            res.push((0, cur_id));
        } else {
            res.push((1, cur_id));
        }
        proof {
            lemma_halve_step(p_id.0 as nat, cur_height as nat);
        }
        cur_id = cur_id.get_parent_id();
        cur_height += 1;
    }
    res
}

/// Queries page `p_id` below the node `sub_root_id`: gives the hash of the
/// leaf and the proof that leads from the leaf up to that node's height.
pub fn inner_query<L: MerkleNodeLoader>(node_loader: &L, sub_root_id: NodeId, p_id: PageId) -> (r:
    Result<(Digest, SubProof), ReadError>)
    ensures
        match r {
            Ok((v, p)) => {
                &&& node_loader.nodes()@.contains_key(NodeId(0, p_id.0))
                &&& v@ == node_loader.nodes()@[NodeId(0, p_id.0)]
                &&& p.tree() == spec_inner_proof(node_loader.nodes()@, p_id.0, sub_root_id.0)
            },
            Err(ReadError::MissingLeaf) => !node_loader.nodes()@.contains_key(NodeId(0, p_id.0)),
            Err(ReadError::Store(_)) => !node_loader.always_answers(),
            Err(_) => false,
        },
{
    let target_id = NodeId::from_page_id(p_id);
    let target_node = match node_loader.load_node(&target_id) {
        Ok(Some(n)) => n,
        Ok(None) => {
            return Err(ReadError::MissingLeaf);
        },
        Err(e) => {
            return Err(ReadError::Store(e));
        },
    };

    let query_val = target_node.get_hash();
    let height = sub_root_id.get_height();
    let mut cur_height: u32 = 0;
    let mut cur_id = target_id;

    let mut cur_proof = SubProof::from_hash(target_node.get_hash());
    proof {
        vstd::arithmetic::power2::lemma2_to64();
    }

    while cur_height < height
        invariant
            cur_height <= height,
            cur_id == ancestor(p_id.0, cur_height),
            cur_proof.tree() == spec_inner_proof(node_loader.nodes()@, p_id.0, cur_height),
        decreases height - cur_height,
    {
        let sib_id = cur_id.get_sib_id();
        let sib_n = match node_loader.load_node(&sib_id) {
            Ok(n) => n,
            Err(e) => {
                return Err(ReadError::Store(e));
            },
        };
        let proof_leaf_sib = match sib_n {
            Some(n) => Some(Box::new(SubProof::from_hash(n.get_hash()))),
            None => None,
        };
        proof {
            reveal_with_fuel(crate::merkle_proof::side_tree, 2);
            reveal_with_fuel(SubProof::tree, 2);
            assert(crate::merkle_proof::side_tree(proof_leaf_sib) == stub(
                node_loader.nodes()@,
                sib_id,
            ));
        }
        if cur_id.is_even() {
            let non_leaf = ProofNonLeaf { l_child: Some(Box::new(cur_proof)), r_child: proof_leaf_sib };
            cur_proof = SubProof::from_non_leaf(non_leaf);
        } else {
            let non_leaf = ProofNonLeaf { l_child: proof_leaf_sib, r_child: Some(Box::new(cur_proof)) };
            cur_proof = SubProof::from_non_leaf(non_leaf);
        }
        proof {
            lemma_halve_step(p_id.0 as nat, cur_height as nat);
        }
        cur_id = cur_id.get_parent_id();
        cur_height += 1;
    }

    Ok((query_val, cur_proof))
}

/// The first query of a context: the hash of the leaf of `p_id` and the
/// proof that leads from it to the root.
pub fn query_from_beginning<L: MerkleNodeLoader>(
    node_loader: &L,
    root_id: Option<NodeId>,
    p_id: PageId,
) -> (r: Result<(Digest, Proof), ReadError>)
    ensures
        match r {
            Ok((v, p)) => {
                &&& root_id is Some
                &&& node_loader.nodes()@.contains_key(NodeId(0, p_id.0))
                &&& v@ == node_loader.nodes()@[NodeId(0, p_id.0)]
                &&& p.tree() == spec_inner_proof(node_loader.nodes()@, p_id.0, root_id->Some_0.0)
            },
            Err(ReadError::EmptyTree) => root_id is None,
            Err(ReadError::MissingLeaf) => root_id is Some && !node_loader.nodes()@.contains_key(
                NodeId(0, p_id.0),
            ),
            Err(ReadError::Store(_)) => root_id is Some && !node_loader.always_answers(),
            Err(_) => false,
        },
{
    match root_id {
        Some(root_id) => {
            match inner_query(node_loader, root_id, p_id) {
                Ok((v, p)) => Ok((v, Proof::from_subproof(p))),
                Err(e) => Err(e),
            }
        },
        None => Err(ReadError::EmptyTree),
    }
}

/// Queries of pages against one tree, and the proof that grows with them.
pub struct ReadContext<'a, L: MerkleNodeLoader> {
    node_loader: &'a L,
    root_id: Option<NodeId>,
    proof: Proof,
}

impl<'a, L: MerkleNodeLoader> ReadContext<'a, L> {
    /// The loader that the context reads.
    pub closed spec fn loader(&self) -> &'a L {
        self.node_loader
    }

    /// The root of the tree.
    pub closed spec fn root(&self) -> Option<NodeId> {
        self.root_id
    }

    /// The proof built so far.
    pub closed spec fn tree(&self) -> ProofTree {
        self.proof.tree()
    }

    /// A context on the tree with the given root; a tree without root
    /// cannot be read.
    pub fn new(node_loader: &'a L, root_id: Option<NodeId>) -> (r: Result<Self, ReadError>)
        ensures
            match r {
                Ok(ctx) => {
                    &&& root_id is Some
                    &&& ctx.loader() == node_loader
                    &&& ctx.root() == root_id
                    &&& ctx.tree() == ProofTree::Absent
                },
                Err(ReadError::EmptyTree) => root_id is None,
                Err(_) => false,
            },
    {
        match root_id {
            Some(id) => Ok(ReadContext { node_loader, root_id: Some(id), proof: Proof::default() }),
            None => Err(ReadError::EmptyTree),
        }
    }

    /// Ends the context and hands out the proof.
    pub fn into_proof(self) -> (p: Proof)
        ensures
            p.tree() == self.tree(),
    {
        self.proof
    }

    /// Queries page `p_id`: gives the hash of its leaf and extends the
    /// proof by the path to it. A query that fails leaves the proof as it
    /// was.
    pub fn query(&mut self, p_id: PageId) -> (r: Result<Digest, ReadError>)
        ensures
            final(self).loader() == old(self).loader(),
            final(self).root() == old(self).root(),
            r is Err ==> final(self).tree() == old(self).tree(),
            old(self).root() is None ==> r matches Err(ReadError::EmptyTree),
            old(self).root() is Some && !(old(self).tree() is Absent) && old(self).tree().search(
                NodeId(0, 1),
                id_path(p_id.0, old(self).root()->Some_0.0),
            ) is Err ==> r matches Err(ReadError::Proof(_)),
            match r {
                Ok(v) => {
                    &&& old(self).root() is Some
                    &&& old(self).loader().nodes()@.contains_key(NodeId(0, p_id.0))
                    &&& v@ == old(self).loader().nodes()@[NodeId(0, p_id.0)]
                    &&& final(self).tree() == spec_query(
                        old(self).tree(),
                        old(self).loader().nodes()@,
                        old(self).root()->Some_0,
                        p_id.0,
                    )
                },
                Err(ReadError::EmptyTree) => old(self).root() is None,
                Err(ReadError::Proof(e)) => {
                    &&& old(self).root() is Some
                    &&& !(old(self).tree() is Absent)
                    &&& old(self).tree().search(
                        NodeId(0, 1),
                        id_path(p_id.0, old(self).root()->Some_0.0),
                    ) == Err::<NodeId, ProofError>(e)
                },
                Err(ReadError::MissingLeaf) => {
                    &&& old(self).root() is Some
                    &&& !old(self).loader().nodes()@.contains_key(NodeId(0, p_id.0))
                },
                Err(ReadError::Store(_)) => !old(self).loader().always_answers(),
            },
    {
        let root_id = match self.root_id {
            Some(id) => id,
            None => {
                return Err(ReadError::EmptyTree);
            },
        };
        match self.proof.root.take() {
            Some(root) => {
                let height = root_id.get_height();
                let mut path_rev = get_path_rev(p_id, height);
                let sub_root_id = match root.search_prefix(NodeId::new(0, 1), &mut path_rev) {
                    Ok(id) => id,
                    Err(e) => {
                        self.proof.root = Some(root);
                        return Err(ReadError::Proof(e));
                    },
                };
                match inner_query(self.node_loader, sub_root_id, p_id) {
                    Ok((v, p)) => {
                        let mut path_again = get_path_rev(p_id, height);
                        self.proof.root = Some(root.splice(&mut path_again, p));
                        Ok(v)
                    },
                    Err(e) => {
                        self.proof.root = Some(root);
                        Err(e)
                    },
                }
            },
            None => {
                match query_from_beginning(self.node_loader, self.root_id, p_id) {
                    Ok((v, p)) => {
                        self.proof = p;
                        Ok(v)
                    },
                    Err(e) => Err(e),
                }
            },
        }
    }
}

} // verus!
