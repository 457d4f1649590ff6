//! The record of the committed tree, the figures of a statement, and the
//! comparison of a computed root hash with the trusted one.

use vstd::prelude::*;
use crate::digest::Digest;
use crate::merkle_proof::ProofError;
use crate::node::NodeId;

verus! {

/// The record that defines the committed tree: the id of its root.
#[derive(Debug, Clone, Copy)]
pub struct Parameter {
    pub root_id: Option<NodeId>,
}

impl Default for Parameter {
    fn default() -> (p: Parameter)
        ensures
            p.root_id is None,
    {
        Parameter { root_id: None }
    }
}

impl Parameter {
    pub fn new(root_id: Option<NodeId>) -> (p: Parameter)
        ensures
            p.root_id == root_id,
    {
        Parameter { root_id }
    }

    /// The height of the root, 0 for a tree without root.
    pub fn get_height(&self) -> (h: u32)
        ensures
            h == crate::write::root_height(self.root_id),
    {
        match self.root_id {
            Some(id) => id.get_height(),
            None => 0,
        }
    }

    pub fn get_root_id(&self) -> (r: Option<NodeId>)
        ensures
            r == self.root_id,
    {
        self.root_id
    }
}

/// Times in microseconds.
#[derive(Debug, Clone, Copy, PartialEq, Eq, Structural)]
pub struct Time {
    pub real: u64,
    pub user: u64,
    pub sys: u64,
}

/// The figures of one statement.
#[derive(Debug, Clone, Copy, PartialEq, Eq, Structural)]
pub struct ResInfo {
    pub query_t: Time,
    pub verify_t: Time,
    pub proof_s: usize,
    pub cache_size: u32,
}

impl ResInfo {
    pub fn new(query_t: Time, verify_t: Time, proof_s: usize, cache_size: u32) -> (r: ResInfo)
        ensures
            r == (ResInfo { query_t, verify_t, proof_s, cache_size }),
    {
        ResInfo { query_t, verify_t, proof_s, cache_size }
    }
}

/// Checks the root hash that a proof gives against the trusted one.
pub fn compare_with_root(computed_hash: Digest, root_hash: Digest) -> (r: Result<(), ProofError>)
    ensures
        computed_hash@ == root_hash@ ==> r == Ok::<(), ProofError>(()),
        computed_hash@ != root_hash@ ==> r == Err::<(), ProofError>(ProofError::HashMismatch),
{
    if computed_hash == root_hash {
        Ok(())
    } else {
        Err(ProofError::HashMismatch)
    }
}

/// The bytes that a cached page counts for.
pub const CACHE_ENTRY_BYTES: usize = 4100;

/// The number of pages that a cache of `c_size_in_mb` megabytes holds.
pub fn cal_cap(c_size_in_mb: usize) -> (cap: usize)
    requires
        c_size_in_mb * 1024 * 1024 <= usize::MAX,
    ensures
        cap == (c_size_in_mb * 1024 * 1024) / 4100,
{
    let total_byte_num = c_size_in_mb * 1024 * 1024;
    total_byte_num / CACHE_ENTRY_BYTES
}

} // verus!
