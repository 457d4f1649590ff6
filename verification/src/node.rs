//! Node ids of the complete binary tree, the stored node, and the
//! interfaces through which nodes are read and written.

use vstd::prelude::*;
use crate::digest::{Digest, Digestible};
use crate::hash::{id_hash, spec_id_hash};
use crate::page::PageId;

verus! {

/// A node of the tree: its hash.
#[derive(Clone, Copy, Debug)]
pub struct MerkleNode {
    pub hash: Digest,
}

impl MerkleNode {
    pub fn new(hash: Digest) -> (n: MerkleNode)
        ensures
            n.hash == hash,
    {
        MerkleNode { hash }
    }

    pub fn get_hash(&self) -> (h: Digest)
        ensures
            h == self.hash,
    {
        self.hash
    }
}

/// The place of a node in the tree: its height above the leaves and its
/// position among the nodes of that height. The leaf of page `p` is `(0, p)`.
#[derive(Clone, Copy, Debug, PartialEq, Eq, Structural, Hash)]
pub struct NodeId(pub u32, pub u32);

impl NodeId {
    pub fn new(height: u32, width: u32) -> (id: NodeId)
        ensures
            id == NodeId(height, width),
    {
        NodeId(height, width)
    }

    pub fn from_page_id(p_id: PageId) -> (id: NodeId)
        ensures
            id == NodeId(0, p_id.0),
    {
        NodeId(0, p_id.get_id())
    }

    pub fn get_height(&self) -> (h: u32)
        ensures
            h == self.0,
    {
        self.0
    }

    pub fn get_width(&self) -> (w: u32)
        ensures
            w == self.1,
    {
        self.1
    }

    /// The id of the parent: one level up, at half the width.
    pub open spec fn parent(self) -> NodeId {
        NodeId((self.0 + 1) as u32, self.1 / 2)
    }

    /// The id of the other child of the parent.
    pub open spec fn sibling(self) -> NodeId {
        if self.1 % 2 == 0 {
            NodeId(self.0, (self.1 + 1) as u32)
        } else {
            NodeId(self.0, (self.1 - 1) as u32)
        }
    }

    /// The id of the left child of a node above the leaves.
    pub open spec fn left_child(self) -> NodeId {
        NodeId((self.0 - 1) as u32, (2 * self.1) as u32)
    }

    /// The id of the right child of a node above the leaves.
    pub open spec fn right_child(self) -> NodeId {
        NodeId((self.0 - 1) as u32, (2 * self.1 + 1) as u32)
    }

    /// The key under which the node is held in a map keyed by integers:
    /// the height in the upper 32 bits, the width in the lower.
    pub open spec fn spec_key(self) -> u64 {
        (self.0 as u64 * 0x1_0000_0000 + self.1 as u64) as u64
    }

    pub fn get_parent_id(&self) -> (p: NodeId)
        requires
            self.0 < u32::MAX,
        ensures
            p == self.parent(),
    {
        let h = self.get_height();
        let w = self.get_width();
        NodeId(h + 1, w / 2)
    }

    pub fn get_sib_id(&self) -> (s: NodeId)
        ensures
            s == self.sibling(),
    {
        let h = self.get_height();
        let w = self.get_width();
        if w % 2 == 0 {
            NodeId(h, w + 1)
        } else {
            NodeId(h, w - 1)
        }
    }

    pub fn is_even(&self) -> (r: bool)
        ensures
            r == (self.1 % 2 == 0),
    {
        self.get_width() % 2 == 0
    }

    pub fn is_leaf(&self) -> (r: bool)
        ensures
            r == (self.0 == 0),
    {
        self.0 == 0
    }

    /// The ids of the two children; a leaf has none.
    pub fn get_children(&self) -> (r: Result<(NodeId, NodeId), NodeError>)
        requires
            self.0 > 0 ==> self.1 <= 0x7fff_ffff,
        ensures
            r is Err <==> self.0 == 0,
            self.0 == 0 ==> r == Err::<(NodeId, NodeId), NodeError>(NodeError::LeafHasNoChildren),
            self.0 > 0 ==> r == Ok::<(NodeId, NodeId), NodeError>(
                (self.left_child(), self.right_child()),
            ),
    {
        let h = self.get_height();
        if h == 0 {
            return Err(NodeError::LeafHasNoChildren);
        }
        let w = self.get_width();
        Ok((NodeId(h - 1, 2 * w), NodeId(h - 1, 2 * w + 1)))
    }

    /// The node with the integer key `k`.
    pub open spec fn of_key(k: u64) -> NodeId {
        NodeId((k / 0x1_0000_0000) as u32, (k % 0x1_0000_0000) as u32)
    }

    /// The integer key of the node, see `spec_key`.
    pub fn key(&self) -> (k: u64)
        ensures
            k == self.spec_key(),
    {
        (self.0 as u64) * 0x1_0000_0000 + (self.1 as u64)
    }

    /// The node with the given integer key.
    pub fn from_key(k: u64) -> (id: NodeId)
        ensures
            id.spec_key() == k,
            id == NodeId::of_key(k),
    {
        NodeId((k / 0x1_0000_0000) as u32, (k % 0x1_0000_0000) as u32)
    }

    /// The node with the key `k` has the key `k`.
    pub proof fn lemma_of_key(k: u64)
        ensures
            NodeId::of_key(k).spec_key() == k,
    {
    }

    /// The node with the key of `id` is `id`.
    pub proof fn lemma_key_of(id: NodeId)
        ensures
            NodeId::of_key(id.spec_key()) == id,
    {
    }

    /// Different nodes have different keys.
    pub proof fn lemma_key_injective(a: NodeId, b: NodeId)
        requires
            a.spec_key() == b.spec_key(),
        ensures
            a == b,
    {
    }
}

impl Digestible for NodeId {
    open spec fn spec_digest(&self) -> Seq<u8> {
        spec_id_hash(self.0, self.1)
    }

    fn to_digest(&self) -> (d: Digest) {
        id_hash(self.0, self.1)
    }
}

/// What can go wrong in node arithmetic.
#[derive(Clone, Copy, Debug, PartialEq, Eq, Structural)]
pub enum NodeError {
    /// The children of a leaf were asked for.
    LeafHasNoChildren,
}

/// A failure of the store that holds the nodes.
#[derive(Debug)]
pub struct StoreError {
    pub message: String,
}

impl View for MerkleNode {
    type V = Seq<u8>;

    open spec fn view(&self) -> Seq<u8> {
        self.hash@
    }
}

/// The hash that a map holds at `k`, if any.
pub open spec fn lookup<K>(m: Map<K, Seq<u8>>, k: K) -> Option<Seq<u8>> {
    if m.contains_key(k) {
        Some(m[k])
    } else {
        None
    }
}

/// The hash of an optional node.
pub open spec fn node_view(n: Option<MerkleNode>) -> Option<Seq<u8>> {
    match n {
        Some(n) => Some(n.hash@),
        None => None,
    }
}

/// The hashes of a set of nodes, by node id.
pub struct NodeHashes {
    pub map: Map<NodeId, Seq<u8>>,
}

impl View for NodeHashes {
    type V = Map<NodeId, Seq<u8>>;

    open spec fn view(&self) -> Map<NodeId, Seq<u8>> {
        self.map
    }
}

/// The hashes of the nodes of a store, by the bytes of the key under
/// which the store holds them.
pub struct StoreEntries {
    pub map: Map<Seq<u8>, Seq<u8>>,
}

impl View for StoreEntries {
    type V = Map<Seq<u8>, Seq<u8>>;

    open spec fn view(&self) -> Map<Seq<u8>, Seq<u8>> {
        self.map
    }
}

/// A store of nodes that is read by the digest of a node's id.
pub trait ReadInterface {
    /// The hashes of the nodes in the store, by the bytes of their key.
    spec fn entries(&self) -> StoreEntries;

    /// Whether every read of the store is answered.
    spec fn always_reads(&self) -> bool;

    /// Reads the node stored under `addr`. A store that answers, answers
    /// with what it holds.
    fn get_node(&self, addr: &Digest) -> (r: Result<Option<MerkleNode>, StoreError>)
        ensures
            r matches Ok(o) ==> node_view(o) == lookup(self.entries()@, addr@),
            self.always_reads() ==> r is Ok,
    ;
}

/// A store of nodes that is written by the digest of a node's id.
pub trait WriteInterface {
    /// The hashes of the nodes in the store, by the bytes of their key.
    spec fn written(&self) -> StoreEntries;

    /// Whether every write into the store is made.
    spec fn always_writes(&self) -> bool;

    /// Writes `node` under `addr`. A write that succeeds changes that entry
    /// and no other; one that fails changes nothing. A store that makes
    /// every write makes this one, and goes on making every write.
    fn write_node(&mut self, addr: &Digest, node: &MerkleNode) -> (r: Result<(), StoreError>)
        ensures
            r is Ok ==> final(self).written()@ == old(self).written()@.insert(addr@, node.hash@),
            r is Err ==> final(self).written()@ == old(self).written()@,
            old(self).always_writes() ==> r is Ok && final(self).always_writes(),
    ;
}

/// A source of nodes by node id.
pub trait MerkleNodeLoader {
    /// The hashes of the nodes that the source holds.
    spec fn nodes(&self) -> NodeHashes;

    /// Whether every load from the source is answered.
    spec fn always_answers(&self) -> bool;

    /// Loads the node with the given id. A source that answers, answers
    /// with what it holds.
    fn load_node(&self, id: &NodeId) -> (r: Result<Option<MerkleNode>, StoreError>)
        ensures
            r matches Ok(o) ==> node_view(o) == lookup(self.nodes()@, *id),
            self.always_answers() ==> r is Ok,
    ;
}

impl<Interface: ReadInterface> MerkleNodeLoader for Interface {
    open spec fn nodes(&self) -> NodeHashes {
        NodeHashes {
            map: Map::new(
                |id: NodeId| self.entries()@.contains_key(spec_id_hash(id.0, id.1)),
                |id: NodeId| self.entries()@[spec_id_hash(id.0, id.1)],
            ),
        }
    }

    open spec fn always_answers(&self) -> bool {
        self.always_reads()
    }

    fn load_node(&self, id: &NodeId) -> (r: Result<Option<MerkleNode>, StoreError>) {
        let addr = id.to_digest();
        self.get_node(&addr)
    }
}

} // verus!
