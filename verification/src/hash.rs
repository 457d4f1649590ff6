//! The hashes of the tree: of a node id, of a leaf, and of a node above
//! the leaves.

use vstd::prelude::*;
use vstd::bytes::{spec_u32_to_le_bytes, u32_to_le_bytes};
use crate::digest::{blake2b_256, blake2b_hash, Digest};
use crate::page::PageId;

verus! {

/// `H(le32(height) || le32(width))`.
pub open spec fn spec_id_hash(height: u32, width: u32) -> Seq<u8> {
    blake2b_256(spec_u32_to_le_bytes(height) + spec_u32_to_le_bytes(width))
}

/// `H(le32(p_id) || page_hash)`.
pub open spec fn spec_leaf_hash(p_id: u32, page_hash: Seq<u8>) -> Seq<u8> {
    blake2b_256(spec_u32_to_le_bytes(p_id) + page_hash)
}

/// The bytes that a side of a node contributes: its hash, or nothing where
/// the side is absent.
pub open spec fn side_bytes(side: Option<Seq<u8>>) -> Seq<u8> {
    match side {
        Some(h) => h,
        None => Seq::empty(),
    }
}

/// `H(H(left || right))`, an absent side contributing no bytes.
pub open spec fn spec_nonleaf_hash(l: Option<Seq<u8>>, r: Option<Seq<u8>>) -> Seq<u8> {
    blake2b_256(blake2b_256(side_bytes(l) + side_bytes(r)))
}

/// `H(H(left || right))`.
pub open spec fn spec_merge_hash(l: Seq<u8>, r: Seq<u8>) -> Seq<u8> {
    blake2b_256(blake2b_256(l + r))
}

/// The view of an optional digest.
pub open spec fn opt_view(d: Option<Digest>) -> Option<Seq<u8>> {
    match d {
        Some(h) => Some(h@),
        None => None,
    }
}

/// The hash of a node id, the key of the node in a store.
pub fn id_hash(height: u32, width: u32) -> (d: Digest)
    ensures
        d@ == spec_id_hash(height, width),
{
    let mut buf = u32_to_le_bytes(height);
    let w = u32_to_le_bytes(width);
    buf.extend_from_slice(w.as_slice());
    assert(buf@ =~= spec_u32_to_le_bytes(height) + spec_u32_to_le_bytes(width));
    blake2b_hash(buf.as_slice())
}

/// The hash of the leaf of page `p_id`, whose bytes hash to `p_hash`.
pub fn leaf_hash(p_id: &PageId, p_hash: &Digest) -> (d: Digest)
    ensures
        d@ == spec_leaf_hash(p_id.0, p_hash@),
{
    let mut buf = u32_to_le_bytes(p_id.0);
    buf.extend_from_slice(p_hash.as_bytes());
    assert(buf@ =~= spec_u32_to_le_bytes(p_id.0) + p_hash@);
    blake2b_hash(buf.as_slice())
}

/// The hash of a node above the leaves from the hashes of its children.
pub fn nonleaf_hash(l_hash_opt: Option<Digest>, r_hash_opt: Option<Digest>) -> (d: Digest)
    ensures
        d@ == spec_nonleaf_hash(opt_view(l_hash_opt), opt_view(r_hash_opt)),
{
    let mut buf: Vec<u8> = Vec::new();
    if let Some(l_hash) = l_hash_opt {
        buf.extend_from_slice(l_hash.as_bytes());
    }
    if let Some(r_hash) = r_hash_opt {
        buf.extend_from_slice(r_hash.as_bytes());
    }
    assert(buf@ =~= side_bytes(opt_view(l_hash_opt)) + side_bytes(opt_view(r_hash_opt)));
    let inner_hash = blake2b_hash(buf.as_slice());
    blake2b_hash(inner_hash.as_bytes())
}

/// The hash of a cached parent from the hashes of its two cached children.
pub fn merge_hash(l_hash: &Digest, r_hash: &Digest) -> (d: Digest)
    ensures
        d@ == spec_merge_hash(l_hash@, r_hash@),
        d@ == spec_nonleaf_hash(Some(l_hash@), Some(r_hash@)),
{
    let mut buf: Vec<u8> = Vec::new();
    buf.extend_from_slice(l_hash.as_bytes());
    buf.extend_from_slice(r_hash.as_bytes());
    assert(buf@ =~= l_hash@ + r_hash@);
    let inner_hash = blake2b_hash(buf.as_slice());
    blake2b_hash(inner_hash.as_bytes())
}

} // verus!
