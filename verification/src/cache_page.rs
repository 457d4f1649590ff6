//! A page, or a part of one, as a statement read or wrote it.

use vstd::prelude::*;
use crate::digest::{blake2b_256, Digest, Digestible};

verus! {

/// The bytes of a page together with the range of them that a write
/// touched: `len` bytes from `offset` on.
#[derive(Debug)]
pub struct CachePage {
    pub offset: usize,
    pub len: usize,
    pub bytes: Vec<u8>,
}

/// What a cached page holds: the range that a write touched, and the bytes.
pub struct CachePageView {
    pub offset: usize,
    pub len: usize,
    pub bytes: Seq<u8>,
}

impl View for CachePage {
    type V = CachePageView;

    open spec fn view(&self) -> CachePageView {
        CachePageView { offset: self.offset, len: self.len, bytes: self.bytes@ }
    }
}

/// What the pages of a read set or write set hold, by page id.
pub open spec fn pages_view(m: Map<u32, CachePage>) -> Map<u32, CachePageView> {
    Map::new(|p: u32| m.contains_key(p), |p: u32| m[p]@)
}

impl CachePage {
    pub fn new(offset: usize, len: usize, bytes: Vec<u8>) -> (p: CachePage)
        ensures
            p.offset == offset,
            p.len == len,
            p.bytes == bytes,
    {
        CachePage { offset, len, bytes }
    }

    pub fn get_bytes(&self) -> (b: &Vec<u8>)
        ensures
            *b == self.bytes,
    {
        &self.bytes
    }

    pub fn copy_bytes(&self) -> (b: Vec<u8>)
        ensures
            b@ == self.bytes@,
    {
        self.bytes.clone()
    }

    pub fn to_bytes(self) -> (b: Vec<u8>)
        ensures
            b == self.bytes,
    {
        self.bytes
    }

    pub fn get_offset(&self) -> (o: usize)
        ensures
            o == self.offset,
    {
        self.offset
    }

    pub fn get_len(&self) -> (l: usize)
        ensures
            l == self.len,
    {
        self.len
    }
}

impl Digestible for CachePage {
    open spec fn spec_digest(&self) -> Seq<u8> {
        blake2b_256(self.bytes@)
    }

    fn to_digest(&self) -> (d: Digest) {
        self.bytes.to_digest()
    }
}

} // verus!
