//! Proofs: the part of the tree that binds a set of queried pages to the
//! hash of the root.

use vstd::prelude::*;
use crate::digest::{Digest, Digestible};
use crate::hash::{nonleaf_hash, spec_nonleaf_hash};
use crate::node::NodeId;
use crate::page::PageId;

verus! {

/// What a proof holds, as a tree of hashes: nothing, the hash of a whole
/// subtree, or a node with its two sides.
pub enum ProofTree {
    Absent,
    Leaf(Seq<u8>),
    Node(Box<ProofTree>, Box<ProofTree>),
}

/// Why a proof does not stand for a page.
#[derive(Clone, Copy, Debug, PartialEq, Eq, Structural)]
pub enum ProofError {
    /// The proof holds nothing.
    EmptyProof,
    /// The path to the page leaves the proof at an absent side.
    MissingBranch,
    /// The proof is deeper than the path to the page.
    PathTooShort,
    /// The hash that the proof holds for the page is not the expected one.
    HashMismatch,
}

impl ProofTree {
    /// The hash of the tree; an absent tree has none.
    pub open spec fn hash(self) -> Option<Seq<u8>>
        decreases self,
    {
        match self {
            ProofTree::Absent => None,
            ProofTree::Leaf(d) => Some(d),
            ProofTree::Node(l, r) => Some(spec_nonleaf_hash(l.hash(), r.hash())),
        }
    }

    /// The hash found by going down from the top: at each node the last
    /// entry of `path` picks the side, 0 the left one.
    pub open spec fn value(self, path: Seq<usize>) -> Result<Seq<u8>, ProofError>
        decreases self,
    {
        match self {
            ProofTree::Absent => Err(ProofError::MissingBranch),
            ProofTree::Leaf(d) => Ok(d),
            ProofTree::Node(l, r) => {
                if path.len() == 0 {
                    Err(ProofError::PathTooShort)
                } else if path.last() == 0 {
                    l.value(path.drop_last())
                } else {
                    r.value(path.drop_last())
                }
            },
        }
    }

    /// What is left of `path` after the descent of `value`.
    pub open spec fn rest(self, path: Seq<usize>) -> Seq<usize>
        decreases self,
    {
        match self {
            ProofTree::Absent => path,
            ProofTree::Leaf(d) => path,
            ProofTree::Node(l, r) => {
                if path.len() == 0 {
                    path
                } else if path.last() == 0 {
                    l.rest(path.drop_last())
                } else {
                    r.rest(path.drop_last())
                }
            },
        }
    }

    /// The id of the node at which the descent along `path` meets a hash
    /// that stands for a whole subtree; each entry of `path` holds the side
    /// to take and the id of the child on that side.
    pub open spec fn search(self, id: NodeId, path: Seq<(usize, NodeId)>) -> Result<
        NodeId,
        ProofError,
    >
        decreases self,
    {
        match self {
            ProofTree::Absent => Err(ProofError::MissingBranch),
            ProofTree::Leaf(d) => Ok(id),
            ProofTree::Node(l, r) => {
                if path.len() == 0 {
                    Err(ProofError::PathTooShort)
                } else if path.last().0 == 0 {
                    l.search(path.last().1, path.drop_last())
                } else {
                    r.search(path.last().1, path.drop_last())
                }
            },
        }
    }

    /// What is left of `path` after the descent of `search`.
    pub open spec fn search_rest(self, path: Seq<(usize, NodeId)>) -> Seq<(usize, NodeId)>
        decreases self,
    {
        match self {
            ProofTree::Absent => path,
            ProofTree::Leaf(d) => path,
            ProofTree::Node(l, r) => {
                if path.len() == 0 {
                    path
                } else if path.last().0 == 0 {
                    l.search_rest(path.drop_last())
                } else {
                    r.search_rest(path.drop_last())
                }
            },
        }
    }

    /// The tree with `part` in place of the hash that the descent along
    /// `path` meets; the same tree where the descent meets none.
    pub open spec fn splice(self, path: Seq<(usize, NodeId)>, part: ProofTree) -> ProofTree
        decreases self,
    {
        match self {
            ProofTree::Absent => self,
            ProofTree::Leaf(d) => part,
            ProofTree::Node(l, r) => {
                if path.len() == 0 {
                    self
                } else if path.last().0 == 0 {
                    ProofTree::Node(Box::new(l.splice(path.drop_last(), part)), r)
                } else {
                    ProofTree::Node(l, Box::new(r.splice(path.drop_last(), part)))
                }
            },
        }
    }
}

/// A part of a proof: the hash of a whole subtree, or a node with its sides.
#[derive(Debug)]
pub enum SubProof {
    Leaf(Digest),
    NonLeaf(Box<ProofNonLeaf>),
}

/// A node of a proof: its left and right sides, each of which may be absent.
#[derive(Debug)]
pub struct ProofNonLeaf {
    pub l_child: Option<Box<SubProof>>,
    pub r_child: Option<Box<SubProof>>,
}

/// The tree of hashes of an optional part.
pub open spec fn side_tree(c: Option<Box<SubProof>>) -> ProofTree
    decreases c,
{
    match c {
        Some(b) => b.tree(),
        None => ProofTree::Absent,
    }
}

impl ProofNonLeaf {
    /// The node as a tree of hashes.
    pub open spec fn tree(self) -> ProofTree
        decreases self,
    {
        ProofTree::Node(Box::new(side_tree(self.l_child)), Box::new(side_tree(self.r_child)))
    }

    pub fn get_l_child_mut(&mut self) -> (c: &mut Option<Box<SubProof>>)
        ensures
            *c == old(self).l_child,
            final(self).l_child == *final(c),
            final(self).r_child == old(self).r_child,
    {
        &mut self.l_child
    }

    pub fn get_r_child_mut(&mut self) -> (c: &mut Option<Box<SubProof>>)
        ensures
            *c == old(self).r_child,
            final(self).r_child == *final(c),
            final(self).l_child == old(self).l_child,
    {
        &mut self.r_child
    }

    /// The hash that the node holds for the page to which `cur_path_rev`
    /// leads, see `ProofTree::value`.
    pub fn value_hash(&self, cur_path_rev: &mut Vec<usize>) -> (r: Result<Digest, ProofError>)
        ensures
            result_view(r) == self.tree().value(old(cur_path_rev)@),
            final(cur_path_rev)@ == self.tree().rest(old(cur_path_rev)@),
        decreases self,
    {
        let c_idx = match cur_path_rev.pop() {
            Some(i) => i,
            None => {
                return Err(ProofError::PathTooShort);
            },
        };
        proof {
            reveal_with_fuel(side_tree, 2);
            reveal_with_fuel(ProofTree::value, 2);
            reveal_with_fuel(ProofTree::rest, 2);
        }
        if c_idx == 0 {
            match &self.l_child {
                Some(l_c) => l_c.value_hash(cur_path_rev),
                None => Err(ProofError::MissingBranch),
            }
        } else {
            match &self.r_child {
                Some(r_c) => r_c.value_hash(cur_path_rev),
                None => Err(ProofError::MissingBranch),
            }
        }
    }

    /// The hash of the node.
    pub fn digest(&self) -> (d: Digest)
        ensures
            Some(d@) == self.tree().hash(),
        decreases self,
    {
        let l = side_digest(&self.l_child);
        let r = side_digest(&self.r_child);
        nonleaf_hash(l, r)
    }
}

impl Digestible for ProofNonLeaf {
    open spec fn spec_digest(&self) -> Seq<u8> {
        self.tree().hash()->Some_0
    }

    fn to_digest(&self) -> (d: Digest) {
        self.digest()
    }
}

/// The view of the outcome of a search for a hash.
pub open spec fn result_view(r: Result<Digest, ProofError>) -> Result<Seq<u8>, ProofError> {
    match r {
        Ok(d) => Ok(d@),
        Err(e) => Err(e),
    }
}

/// The hash of an optional part of a proof.
fn side_digest(c: &Option<Box<SubProof>>) -> (d: Option<Digest>)
    ensures
        crate::hash::opt_view(d) == side_tree(*c).hash(),
    decreases c,
{
    match c {
        Some(b) => Some(b.digest()),
        None => None,
    }
}

/// The hash of a node of a proof from its two sides.
pub fn proof_nonleaf_hash(l_child: &Option<Box<SubProof>>, r_child: &Option<Box<SubProof>>) -> (d:
    Digest)
    ensures
        d@ == spec_nonleaf_hash(side_tree(*l_child).hash(), side_tree(*r_child).hash()),
{
    let l = side_digest(l_child);
    let r = side_digest(r_child);
    nonleaf_hash(l, r)
}

impl SubProof {
    /// The part as a tree of hashes.
    pub open spec fn tree(self) -> ProofTree
        decreases self,
    {
        match self {
            SubProof::Leaf(d) => ProofTree::Leaf(d@),
            SubProof::NonLeaf(n) => n.tree(),
        }
    }

    pub fn from_hash(h: Digest) -> (p: SubProof)
        ensures
            p == SubProof::Leaf(h),
    {
        SubProof::Leaf(h)
    }

    pub fn from_non_leaf(n: ProofNonLeaf) -> (p: SubProof)
        ensures
            p == SubProof::NonLeaf(Box::new(n)),
    {
        SubProof::NonLeaf(Box::new(n))
    }

    /// Goes down along `cur_path_rev`, from its last entry on, to the first
    /// hash that stands for a whole subtree, and gives the id of that node,
    /// see `ProofTree::search`. `sub_root_id` is the id of this part.
    pub fn search_prefix(&self, sub_root_id: NodeId, cur_path_rev: &mut Vec<(usize, NodeId)>) -> (r:
        Result<NodeId, ProofError>)
        ensures
            r == self.tree().search(sub_root_id, old(cur_path_rev)@),
            final(cur_path_rev)@ == self.tree().search_rest(old(cur_path_rev)@),
        decreases self,
    {
        match self {
            SubProof::Leaf(_) => Ok(sub_root_id),
            SubProof::NonLeaf(n) => {
                let (c_idx, id) = match cur_path_rev.pop() {
                    Some(e) => e,
                    None => {
                        return Err(ProofError::PathTooShort);
                    },
                };
                proof {
                    reveal_with_fuel(side_tree, 2);
                    reveal_with_fuel(ProofTree::search, 2);
                    reveal_with_fuel(ProofTree::search_rest, 2);
                }
                if c_idx == 0 {
                    match &n.l_child {
                        Some(l_child) => l_child.search_prefix(id, cur_path_rev),
                        None => Err(ProofError::MissingBranch),
                    }
                } else {
                    match &n.r_child {
                        Some(r_child) => r_child.search_prefix(id, cur_path_rev),
                        None => Err(ProofError::MissingBranch),
                    }
                }
            },
        }
    }

    /// Puts `part` in place of the hash that the descent along
    /// `cur_path_rev` meets, see `ProofTree::splice`.
    pub fn splice(self, cur_path_rev: &mut Vec<(usize, NodeId)>, part: SubProof) -> (p: SubProof)
        ensures
            p.tree() == self.tree().splice(old(cur_path_rev)@, part.tree()),
        decreases self,
    {
        match self {
            SubProof::Leaf(_) => part,
            SubProof::NonLeaf(n) => {
                let ProofNonLeaf { l_child, r_child } = *n;
                proof {
                    reveal_with_fuel(side_tree, 2);
                    reveal_with_fuel(ProofTree::splice, 2);
                }
                let (c_idx, _id) = match cur_path_rev.pop() {
                    Some(e) => e,
                    None => {
                        return SubProof::NonLeaf(Box::new(ProofNonLeaf { l_child, r_child }));
                    },
                };
                if c_idx == 0 {
                    match l_child {
                        Some(l) => {
                            let new_l = l.splice(cur_path_rev, part);
                            SubProof::NonLeaf(
                                Box::new(ProofNonLeaf { l_child: Some(Box::new(new_l)), r_child }),
                            )
                        },
                        None => SubProof::NonLeaf(Box::new(ProofNonLeaf { l_child: None, r_child })),
                    }
                } else {
                    match r_child {
                        Some(r) => {
                            let new_r = r.splice(cur_path_rev, part);
                            SubProof::NonLeaf(
                                Box::new(ProofNonLeaf { l_child, r_child: Some(Box::new(new_r)) }),
                            )
                        },
                        None => SubProof::NonLeaf(Box::new(ProofNonLeaf { l_child, r_child: None })),
                    }
                }
            },
        }
    }

    /// The hash that the part holds for the page to which `cur_path_rev`
    /// leads, see `ProofTree::value`.
    pub fn value_hash(&self, cur_path_rev: &mut Vec<usize>) -> (r: Result<Digest, ProofError>)
        ensures
            result_view(r) == self.tree().value(old(cur_path_rev)@),
            final(cur_path_rev)@ == self.tree().rest(old(cur_path_rev)@),
        decreases self,
    {
        match self {
            SubProof::Leaf(l) => Ok(*l),
            SubProof::NonLeaf(n) => n.value_hash(cur_path_rev),
        }
    }

    /// The hash of the part.
    pub fn digest(&self) -> (d: Digest)
        ensures
            Some(d@) == self.tree().hash(),
        decreases self,
    {
        match self {
            SubProof::Leaf(l) => *l,
            SubProof::NonLeaf(n) => n.digest(),
        }
    }
}

impl Digestible for SubProof {
    open spec fn spec_digest(&self) -> Seq<u8> {
        self.tree().hash()->Some_0
    }

    fn to_digest(&self) -> (d: Digest) {
        self.digest()
    }
}

/// The sides to take from the root of a tree of the given height down to
/// the leaf of page `p`, the side at the root last: 0 for left, 1 for right.
pub open spec fn idx_path(p: nat, height: nat) -> Seq<usize>
    decreases height,
{
    if height == 0 {
        Seq::empty()
    } else {
        idx_path(p, (height - 1) as nat).push(
            ((p / vstd::arithmetic::power2::pow2((height - 1) as nat)) % 2) as usize,
        )
    }
}

/// The sides from the root of a tree of height `height` down to page `p_id`.
pub fn get_idx_path_rev(p_id: PageId, height: u32) -> (res: Vec<usize>)
    ensures
        res@ == idx_path(p_id.0 as nat, height as nat),
{
    let mut res: Vec<usize> = Vec::new();
    let mut cur_num: u32 = p_id.get_id();
    let mut cur_height: u32 = 0;
    proof {
        vstd::arithmetic::power2::lemma2_to64();
    }
    while cur_height < height
        invariant
            cur_height <= height,
            res@ == idx_path(p_id.0 as nat, cur_height as nat),
            cur_num as nat == p_id.0 as nat / vstd::arithmetic::power2::pow2(cur_height as nat),
        decreases height - cur_height,
    {
        if cur_num % 2 == 0 {
            res.push(0);
        } else {
            res.push(1);
        }
        proof {
            lemma_halve_step(p_id.0 as nat, cur_height as nat);
        }
        cur_num /= 2;
        cur_height += 1;
    }
    res
}

/// Halving once more divides by the next power of two.
pub proof fn lemma_halve_step(p: nat, k: nat)
    ensures
        (p / vstd::arithmetic::power2::pow2(k)) / 2 == p / vstd::arithmetic::power2::pow2(k + 1),
        vstd::arithmetic::power2::pow2(k) > 0,
{
    vstd::arithmetic::power2::lemma_pow2_pos(k);
    vstd::arithmetic::power2::lemma_pow2_unfold(k + 1);
    vstd::arithmetic::div_mod::lemma_div_denominator(
        p as int,
        vstd::arithmetic::power2::pow2(k) as int,
        2,
    );
    assert(vstd::arithmetic::power2::pow2(k) * 2 == 2 * vstd::arithmetic::power2::pow2(k));
}

/// A proof for a set of pages of one tree.
#[derive(Debug)]
pub struct Proof {
    pub root: Option<SubProof>,
}

impl Default for Proof {
    fn default() -> (p: Proof)
        ensures
            p.root is None,
    {
        Proof { root: None }
    }
}

impl Proof {
    /// The proof as a tree of hashes.
    pub open spec fn tree(self) -> ProofTree {
        match self.root {
            Some(r) => r.tree(),
            None => ProofTree::Absent,
        }
    }

    /// What the proof gives for page `p` in a tree of the given height.
    pub open spec fn spec_value_hash(self, p: u32, height: u32) -> Result<Seq<u8>, ProofError> {
        match self.root {
            Some(r) => r.tree().value(idx_path(p as nat, height as nat)),
            None => Err(ProofError::EmptyProof),
        }
    }

    pub fn from_subproof(sub_p: SubProof) -> (p: Proof)
        ensures
            p.root == Some(sub_p),
    {
        Proof { root: Some(sub_p) }
    }

    /// The hash that the proof holds for page `p_id` in a tree of the
    /// given height.
    pub fn value_hash(&self, p_id: PageId, height: u32) -> (r: Result<Digest, ProofError>)
        ensures
            result_view(r) == self.spec_value_hash(p_id.0, height),
    {
        let mut path_rev = get_idx_path_rev(p_id, height);
        match &self.root {
            None => Err(ProofError::EmptyProof),
            Some(root) => root.value_hash(&mut path_rev),
        }
    }

    /// Checks that the proof holds `target_hash` for page `p_id` in a tree
    /// of the given height.
    pub fn verify_val(&self, target_hash: Digest, p_id: PageId, height: u32) -> (r: Result<
        (),
        ProofError,
    >)
        ensures
            match self.spec_value_hash(p_id.0, height) {
                Ok(h) => if h == target_hash@ {
                    r == Ok::<(), ProofError>(())
                } else {
                    r == Err::<(), ProofError>(ProofError::HashMismatch)
                },
                Err(e) => r == Err::<(), ProofError>(e),
            },
    {
        let hash_in_proof = match self.value_hash(p_id, height) {
            Ok(h) => h,
            Err(e) => {
                return Err(e);
            },
        };
        if target_hash == hash_in_proof {
            Ok(())
        } else {
            Err(ProofError::HashMismatch)
        }
    }

    /// The hash of the root as the proof gives it.
    pub fn root_hash(&self) -> (r: Result<Digest, ProofError>)
        ensures
            match self.root {
                Some(root) => result_view(r) == Ok::<Seq<u8>, ProofError>(
                    root.tree().hash()->Some_0,
                ),
                None => r == Err::<Digest, ProofError>(ProofError::EmptyProof),
            },
    {
        match &self.root {
            Some(root) => Ok(root.digest()),
            None => Err(ProofError::EmptyProof),
        }
    }
}

} // verus!
