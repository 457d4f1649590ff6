//! Pages and their ids.

use vstd::prelude::*;
use crate::digest::{blake2b_256, blake2b_hash, Digest, Digestible};

verus! {

/// Size of a page in bytes.
pub const PAGE_SIZE: usize = 4096;

/// The number of a page in the page file; the first page is 0.
#[derive(Clone, Copy, Debug, PartialEq, Eq, Structural, Hash, PartialOrd, Ord)]
pub struct PageId(pub u32);

/// Number of binary digits of `n`: 0 for 0, else one more than that of `n / 2`.
pub open spec fn bit_length(n: nat) -> nat
    decreases n,
{
    if n == 0 {
        0
    } else {
        1 + bit_length(n / 2)
    }
}

/// The bit length of a 32-bit number is at most 32.
pub proof fn lemma_bit_length_u32(n: nat)
    requires
        n <= u32::MAX,
    ensures
        bit_length(n) <= 32,
{
    vstd::arithmetic::power2::lemma2_to64();
    lemma_bit_length_bound(n, 32);
}

/// A number below `2^k` has at most `k` binary digits.
pub proof fn lemma_bit_length_bound(n: nat, k: nat)
    requires
        n < vstd::arithmetic::power2::pow2(k),
    ensures
        bit_length(n) <= k,
    decreases n,
{
    if n != 0 {
        if k == 0 {
            vstd::arithmetic::power2::lemma2_to64();
        } else {
            vstd::arithmetic::power2::lemma_pow2_unfold(k);
            lemma_bit_length_bound(n / 2, (k - 1) as nat);
        }
    }
}

impl PageId {
    pub fn get_id(&self) -> (id: u32)
        ensures
            id == self.0,
    {
        self.0
    }

    /// The least height of a tree that has a leaf for this page.
    pub fn find_height(&self) -> (h: u32)
        ensures
            h == bit_length(self.0 as nat),
            h <= 32,
    {
        let mut p_id_num: u32 = self.0;
        let mut height: u32 = 0;
        proof {
            vstd::arithmetic::power2::lemma2_to64();
            lemma_bit_length_u32(self.0 as nat);
        }
        while p_id_num != 0
            invariant
                height + bit_length(p_id_num as nat) == bit_length(self.0 as nat),
                bit_length(self.0 as nat) <= 32,
            decreases p_id_num,
        {
            height += 1;
            p_id_num /= 2;
        }
        height
    }
}

impl Digestible for PageId {
    open spec fn spec_digest(&self) -> Seq<u8> {
        blake2b_256(vstd::bytes::spec_u32_to_le_bytes(self.0))
    }

    fn to_digest(&self) -> (d: Digest) {
        self.0.to_digest()
    }
}

/// One page of the page file: its id and its bytes.
#[derive(Debug)]
pub struct Page {
    pub p_id: PageId,
    pub bytes: Box<[u8; 4096]>,
}

impl Page {
    pub fn new(p_id: PageId, bytes: Box<[u8; 4096]>) -> (p: Page)
        ensures
            p.p_id == p_id,
            p.bytes == bytes,
    {
        Page { p_id, bytes }
    }

    /// A copy of the page's bytes.
    pub fn get_bytes(&self) -> (v: Vec<u8>)
        ensures
            v@ == self.bytes@,
    {
        vstd::slice::slice_to_vec(self.bytes.as_slice())
    }
}

impl Digestible for Page {
    open spec fn spec_digest(&self) -> Seq<u8> {
        blake2b_256(self.bytes@)
    }

    fn to_digest(&self) -> (d: Digest) {
        blake2b_hash(self.bytes.as_slice())
    }
}

} // verus!
