//! The entries of the page cache: leaves that hold a page, and nodes above
//! them that hold the hash of a subtree.

use vstd::prelude::*;
use std::collections::HashSet;
use crate::digest::{blake2b_256, Digest, Digestible};
use crate::hash::{leaf_hash, spec_leaf_hash};
use crate::node::NodeId;
use crate::page::PageId;

verus! {

/// A cached page: its leaf id, its bytes, the version at which it was
/// read or last confirmed, and whether it is confirmed in this statement.
pub struct SVCacheLeafNode {
    pub id: NodeId,
    pub bytes: Box<[u8; 4096]>,
    pub version: u32,
    pub is_valid: bool,
}

impl SVCacheLeafNode {
    /// A leaf for page `p_id`, valid from the start.
    pub fn new(p_id: PageId, bytes: Box<[u8; 4096]>, version: u32) -> (n: SVCacheLeafNode)
        ensures
            n.id == NodeId(0, p_id.0),
            n.bytes == bytes,
            n.version == version,
            n.is_valid,
    {
        SVCacheLeafNode { id: NodeId::new(0, p_id.get_id()), bytes, version, is_valid: true }
    }

    pub fn get_id(&self) -> (id: NodeId)
        ensures
            id == self.id,
    {
        self.id
    }

    pub fn get_version(&self) -> (v: u32)
        ensures
            v == self.version,
    {
        self.version
    }

    /// A copy of the page's bytes.
    pub fn get_bytes(&self) -> (b: Box<[u8; 4096]>)
        ensures
            b == self.bytes,
    {
        Box::new(*self.bytes)
    }

    pub fn is_valid(&self) -> (r: bool)
        ensures
            r == self.is_valid,
    {
        self.is_valid
    }

    pub fn unconfirm(&mut self)
        ensures
            *final(self) == (SVCacheLeafNode { is_valid: false, ..*old(self) }),
    {
        self.is_valid = false;
    }

    pub fn validate(&mut self)
        ensures
            *final(self) == (SVCacheLeafNode { is_valid: true, ..*old(self) }),
    {
        self.is_valid = true;
    }

    pub fn validate_with_version(&mut self, version: u32)
        ensures
            *final(self) == (SVCacheLeafNode { is_valid: true, version, ..*old(self) }),
    {
        self.is_valid = true;
        self.version = version;
    }

    /// A copy of the leaf.
    pub fn duplicate(&self) -> (n: SVCacheLeafNode)
        ensures
            n == *self,
    {
        SVCacheLeafNode {
            id: self.id,
            bytes: Box::new(*self.bytes),
            version: self.version,
            is_valid: self.is_valid,
        }
    }
}

impl Digestible for SVCacheLeafNode {
    open spec fn spec_digest(&self) -> Seq<u8> {
        spec_leaf_hash(self.id.1, blake2b_256(self.bytes@))
    }

    fn to_digest(&self) -> (d: Digest) {
        let page_hash = self.bytes.as_slice().to_digest();
        leaf_hash(&PageId(self.id.get_width()), &page_hash)
    }
}

/// A cached node above the leaves: its id, the hash of its subtree, and
/// whether it is confirmed in this statement.
pub struct SVCacheNonLeafNode {
    pub id: NodeId,
    pub hash: Digest,
    pub is_valid: bool,
}

impl SVCacheNonLeafNode {
    /// A node with the given hash, valid from the start.
    pub fn new(id: NodeId, hash: Digest) -> (n: SVCacheNonLeafNode)
        ensures
            n.id == id,
            n.hash == hash,
            n.is_valid,
    {
        SVCacheNonLeafNode { id, hash, is_valid: true }
    }

    pub fn get_id(&self) -> (id: NodeId)
        ensures
            id == self.id,
    {
        self.id
    }

    pub fn is_valid(&self) -> (r: bool)
        ensures
            r == self.is_valid,
    {
        self.is_valid
    }

    pub fn unconfirm(&mut self)
        ensures
            *final(self) == (SVCacheNonLeafNode { is_valid: false, ..*old(self) }),
    {
        self.is_valid = false;
    }

    pub fn validate(&mut self)
        ensures
            *final(self) == (SVCacheNonLeafNode { is_valid: true, ..*old(self) }),
    {
        self.is_valid = true;
    }
}

impl Digestible for SVCacheNonLeafNode {
    open spec fn spec_digest(&self) -> Seq<u8> {
        self.hash@
    }

    fn to_digest(&self) -> (d: Digest) {
        self.hash
    }
}

/// An entry of the cache.
pub enum SVCacheNode {
    Leaf(SVCacheLeafNode),
    NonLeaf(SVCacheNonLeafNode),
}

impl SVCacheNode {
    /// The id of the node.
    pub open spec fn id(self) -> NodeId {
        match self {
            SVCacheNode::Leaf(l) => l.id,
            SVCacheNode::NonLeaf(n) => n.id,
        }
    }

    /// Whether the node is confirmed.
    pub open spec fn valid(self) -> bool {
        match self {
            SVCacheNode::Leaf(l) => l.is_valid,
            SVCacheNode::NonLeaf(n) => n.is_valid,
        }
    }

    /// The node with its confirmation set to `valid`.
    pub open spec fn with_valid(self, valid: bool) -> SVCacheNode {
        match self {
            SVCacheNode::Leaf(l) => SVCacheNode::Leaf(SVCacheLeafNode { is_valid: valid, ..l }),
            SVCacheNode::NonLeaf(n) => SVCacheNode::NonLeaf(
                SVCacheNonLeafNode { is_valid: valid, ..n },
            ),
        }
    }

    /// The node confirmed at `version`: a leaf takes the version, a node
    /// above the leaves has none.
    pub open spec fn confirmed_at(self, version: u32) -> SVCacheNode {
        match self {
            SVCacheNode::Leaf(l) => SVCacheNode::Leaf(
                SVCacheLeafNode { is_valid: true, version, ..l },
            ),
            SVCacheNode::NonLeaf(n) => SVCacheNode::NonLeaf(
                SVCacheNonLeafNode { is_valid: true, ..n },
            ),
        }
    }

    pub fn is_valid(&self) -> (r: bool)
        ensures
            r == self.valid(),
    {
        match self {
            SVCacheNode::Leaf(l) => l.is_valid(),
            SVCacheNode::NonLeaf(n) => n.is_valid(),
        }
    }

    pub fn validate(&mut self)
        ensures
            *final(self) == old(self).with_valid(true),
    {
        match self {
            SVCacheNode::Leaf(l) => l.validate(),
            SVCacheNode::NonLeaf(n) => n.validate(),
        }
    }

    pub fn unconfirm(&mut self)
        ensures
            *final(self) == old(self).with_valid(false),
    {
        match self {
            SVCacheNode::Leaf(l) => l.unconfirm(),
            SVCacheNode::NonLeaf(n) => n.unconfirm(),
        }
    }

    pub fn validate_with_version(&mut self, version: u32)
        ensures
            *final(self) == old(self).confirmed_at(version),
    {
        match self {
            SVCacheNode::Leaf(l) => l.validate_with_version(version),
            SVCacheNode::NonLeaf(n) => n.validate(),
        }
    }

    pub fn get_id(&self) -> (id: NodeId)
        ensures
            id == self.id(),
    {
        match self {
            SVCacheNode::Leaf(l) => l.get_id(),
            SVCacheNode::NonLeaf(n) => n.get_id(),
        }
    }

    /// A copy of the node.
    pub fn duplicate(&self) -> (n: SVCacheNode)
        ensures
            n == *self,
    {
        match self {
            SVCacheNode::Leaf(l) => SVCacheNode::Leaf(l.duplicate()),
            SVCacheNode::NonLeaf(n) => SVCacheNode::NonLeaf(
                SVCacheNonLeafNode { id: n.id, hash: n.hash, is_valid: n.is_valid },
            ),
        }
    }
}

impl Digestible for SVCacheNode {
    open spec fn spec_digest(&self) -> Seq<u8> {
        match self {
            SVCacheNode::Leaf(l) => l.spec_digest(),
            SVCacheNode::NonLeaf(n) => n.spec_digest(),
        }
    }

    fn to_digest(&self) -> (d: Digest) {
        match self {
            SVCacheNode::Leaf(l) => l.to_digest(),
            SVCacheNode::NonLeaf(n) => n.to_digest(),
        }
    }
}

/// A cached page of the cache that the server confirms: its leaf id, its
/// bytes, and whether it is confirmed in this statement.
pub struct CacheLeafNode {
    pub id: NodeId,
    pub bytes: Box<[u8; 4096]>,
    pub is_valid: bool,
}

impl CacheLeafNode {
    /// A leaf for page `p_id`, valid from the start.
    pub fn new(p_id: PageId, bytes: Box<[u8; 4096]>) -> (n: CacheLeafNode)
        ensures
            n.id == NodeId(0, p_id.0),
            n.bytes == bytes,
            n.is_valid,
    {
        CacheLeafNode { id: NodeId::new(0, p_id.get_id()), bytes, is_valid: true }
    }

    pub fn get_id(&self) -> (id: NodeId)
        ensures
            id == self.id,
    {
        self.id
    }

    /// A copy of the page's bytes.
    pub fn get_bytes(&self) -> (b: Box<[u8; 4096]>)
        ensures
            b == self.bytes,
    {
        Box::new(*self.bytes)
    }

    pub fn is_valid(&self) -> (r: bool)
        ensures
            r == self.is_valid,
    {
        self.is_valid
    }

    pub fn unconfirm(&mut self)
        ensures
            *final(self) == (CacheLeafNode { is_valid: false, ..*old(self) }),
    {
        self.is_valid = false;
    }

    pub fn validate(&mut self)
        ensures
            *final(self) == (CacheLeafNode { is_valid: true, ..*old(self) }),
    {
        self.is_valid = true;
    }
}

impl Digestible for CacheLeafNode {
    open spec fn spec_digest(&self) -> Seq<u8> {
        spec_leaf_hash(self.id.1, blake2b_256(self.bytes@))
    }

    fn to_digest(&self) -> (d: Digest) {
        let page_hash = self.bytes.as_slice().to_digest();
        leaf_hash(&PageId(self.id.get_width()), &page_hash)
    }
}

/// A cached node above the leaves of the cache that the server confirms:
/// its id, the hash of its subtree, and whether it is confirmed.
pub struct CacheNonLeafNode {
    pub id: NodeId,
    pub hash: Digest,
    pub is_valid: bool,
}

impl CacheNonLeafNode {
    /// A node with the given hash, valid from the start.
    pub fn new(id: NodeId, hash: Digest) -> (n: CacheNonLeafNode)
        ensures
            n.id == id,
            n.hash == hash,
            n.is_valid,
    {
        CacheNonLeafNode { id, hash, is_valid: true }
    }

    pub fn get_id(&self) -> (id: NodeId)
        ensures
            id == self.id,
    {
        self.id
    }

    pub fn is_valid(&self) -> (r: bool)
        ensures
            r == self.is_valid,
    {
        self.is_valid
    }

    pub fn unconfirm(&mut self)
        ensures
            *final(self) == (CacheNonLeafNode { is_valid: false, ..*old(self) }),
    {
        self.is_valid = false;
    }

    pub fn validate(&mut self)
        ensures
            *final(self) == (CacheNonLeafNode { is_valid: true, ..*old(self) }),
    {
        self.is_valid = true;
    }
}

impl Digestible for CacheNonLeafNode {
    open spec fn spec_digest(&self) -> Seq<u8> {
        self.hash@
    }

    fn to_digest(&self) -> (d: Digest) {
        self.hash
    }
}

/// A cached page of the cache that keeps the slots of subtrees: its leaf
/// id, its bytes, the version at which it was read or last confirmed, its
/// slots in the version filter, and whether it is confirmed.
pub struct VCacheLeafNode {
    pub id: NodeId,
    pub bytes: Box<[u8; 4096]>,
    pub version: u32,
    pub idxes: HashSet<usize>,
    pub is_valid: bool,
}

impl VCacheLeafNode {
    /// A leaf for page `p_id`, valid from the start.
    pub fn new(p_id: PageId, bytes: Box<[u8; 4096]>, version: u32, idxes: HashSet<usize>) -> (n: VCacheLeafNode)
        ensures
            n.id == NodeId(0, p_id.0),
            n.bytes == bytes,
            n.version == version,
            n.idxes == idxes,
            n.is_valid,
    {
        VCacheLeafNode { id: NodeId::new(0, p_id.get_id()), bytes, version, idxes, is_valid: true }
    }

    pub fn get_id(&self) -> (id: NodeId)
        ensures
            id == self.id,
    {
        self.id
    }

    pub fn get_version(&self) -> (v: u32)
        ensures
            v == self.version,
    {
        self.version
    }

    /// The slots of the page in the version filter.
    pub fn get_set(&self) -> (s: &HashSet<usize>)
        ensures
            *s == self.idxes,
    {
        &self.idxes
    }

    /// A copy of the page's bytes.
    pub fn get_bytes(&self) -> (b: Box<[u8; 4096]>)
        ensures
            b == self.bytes,
    {
        Box::new(*self.bytes)
    }

    pub fn is_valid(&self) -> (r: bool)
        ensures
            r == self.is_valid,
    {
        self.is_valid
    }

    pub fn unconfirm(&mut self)
        ensures
            *final(self) == (VCacheLeafNode { is_valid: false, ..*old(self) }),
    {
        self.is_valid = false;
    }

    pub fn validate(&mut self)
        ensures
            *final(self) == (VCacheLeafNode { is_valid: true, ..*old(self) }),
    {
        self.is_valid = true;
    }

    pub fn validate_with_version(&mut self, version: u32)
        ensures
            *final(self) == (VCacheLeafNode { is_valid: true, version, ..*old(self) }),
    {
        self.is_valid = true;
        self.version = version;
    }
}

impl Digestible for VCacheLeafNode {
    open spec fn spec_digest(&self) -> Seq<u8> {
        spec_leaf_hash(self.id.1, blake2b_256(self.bytes@))
    }

    fn to_digest(&self) -> (d: Digest) {
        let page_hash = self.bytes.as_slice().to_digest();
        leaf_hash(&PageId(self.id.get_width()), &page_hash)
    }
}

/// A cached node above the leaves of the cache that keeps the slots of
/// subtrees: its id, the hash of its subtree, its version, the slots of
/// the pages under it, and whether it is confirmed.
pub struct VCacheNonLeafNode {
    pub id: NodeId,
    pub hash: Digest,
    pub version: u32,
    pub idxes: HashSet<usize>,
    pub is_valid: bool,
}

impl VCacheNonLeafNode {
    /// A node with the given hash, valid from the start.
    pub fn new(id: NodeId, hash: Digest, version: u32, idxes: HashSet<usize>) -> (n: VCacheNonLeafNode)
        ensures
            n.id == id,
            n.hash == hash,
            n.version == version,
            n.idxes == idxes,
            n.is_valid,
    {
        VCacheNonLeafNode { id, hash, version, idxes, is_valid: true }
    }

    pub fn get_id(&self) -> (id: NodeId)
        ensures
            id == self.id,
    {
        self.id
    }

    pub fn get_version(&self) -> (v: u32)
        ensures
            v == self.version,
    {
        self.version
    }

    fn set_version(&mut self, version: u32)
        ensures
            *final(self) == (VCacheNonLeafNode { version, ..*old(self) }),
    {
        self.version = version;
    }

    /// The slots of the pages under the node in the version filter.
    pub fn get_set(&self) -> (s: &HashSet<usize>)
        ensures
            *s == self.idxes,
    {
        &self.idxes
    }

    pub fn is_valid(&self) -> (r: bool)
        ensures
            r == self.is_valid,
    {
        self.is_valid
    }

    pub fn unconfirm(&mut self)
        ensures
            *final(self) == (VCacheNonLeafNode { is_valid: false, ..*old(self) }),
    {
        self.is_valid = false;
    }

    pub fn validate(&mut self)
        ensures
            *final(self) == (VCacheNonLeafNode { is_valid: true, ..*old(self) }),
    {
        self.is_valid = true;
    }

    pub fn validate_with_version(&mut self, version: u32)
        ensures
            *final(self) == (VCacheNonLeafNode { is_valid: true, version, ..*old(self) }),
    {
        self.is_valid = true;
        self.set_version(version);
    }
}

impl Digestible for VCacheNonLeafNode {
    open spec fn spec_digest(&self) -> Seq<u8> {
        self.hash@
    }

    fn to_digest(&self) -> (d: Digest) {
        self.hash
    }
}

/// An entry of the cache that keeps the slots of subtrees.
pub enum VCacheNode {
    Leaf(VCacheLeafNode),
    NonLeaf(VCacheNonLeafNode),
}

impl VCacheNode {
    /// The id of the node.
    pub open spec fn id(self) -> NodeId {
        match self {
            VCacheNode::Leaf(l) => l.id,
            VCacheNode::NonLeaf(n) => n.id,
        }
    }

    /// Whether the node is confirmed.
    pub open spec fn valid(self) -> bool {
        match self {
            VCacheNode::Leaf(l) => l.is_valid,
            VCacheNode::NonLeaf(n) => n.is_valid,
        }
    }

    /// The version at which the node was read or last confirmed.
    pub open spec fn version(self) -> u32 {
        match self {
            VCacheNode::Leaf(l) => l.version,
            VCacheNode::NonLeaf(n) => n.version,
        }
    }

    /// The slots of the pages under the node.
    pub open spec fn slots(self) -> Set<usize> {
        match self {
            VCacheNode::Leaf(l) => l.idxes@,
            VCacheNode::NonLeaf(n) => n.idxes@,
        }
    }

    pub fn is_valid(&self) -> (r: bool)
        ensures
            r == self.valid(),
    {
        match self {
            VCacheNode::Leaf(l) => l.is_valid(),
            VCacheNode::NonLeaf(n) => n.is_valid(),
        }
    }

    pub fn get_id(&self) -> (id: NodeId)
        ensures
            id == self.id(),
    {
        match self {
            VCacheNode::Leaf(l) => l.get_id(),
            VCacheNode::NonLeaf(n) => n.get_id(),
        }
    }

    pub fn get_version(&self) -> (v: u32)
        ensures
            v == self.version(),
    {
        match self {
            VCacheNode::Leaf(l) => l.get_version(),
            VCacheNode::NonLeaf(n) => n.get_version(),
        }
    }

    /// The slots of the pages under the node in the version filter.
    pub fn get_set(&self) -> (s: &HashSet<usize>)
        ensures
            s@ == self.slots(),
    {
        match self {
            VCacheNode::Leaf(l) => l.get_set(),
            VCacheNode::NonLeaf(n) => n.get_set(),
        }
    }

    /// The version and the slots of the node, which is given up for them.
    pub fn into_tag(self) -> (t: (u32, HashSet<usize>))
        ensures
            t.0 == self.version(),
            t.1@ == self.slots(),
    {
        match self {
            VCacheNode::Leaf(l) => (l.version, l.idxes),
            VCacheNode::NonLeaf(n) => (n.version, n.idxes),
        }
    }
}

impl Digestible for VCacheNode {
    open spec fn spec_digest(&self) -> Seq<u8> {
        match self {
            VCacheNode::Leaf(l) => l.spec_digest(),
            VCacheNode::NonLeaf(n) => n.spec_digest(),
        }
    }

    fn to_digest(&self) -> (d: Digest) {
        match self {
            VCacheNode::Leaf(l) => l.to_digest(),
            VCacheNode::NonLeaf(n) => n.to_digest(),
        }
    }
}

} // verus!
