//! The 32-byte digest and the hash function under every other hash of the crate.

use vstd::prelude::*;
use vstd::std_specs::cmp::PartialEqSpecImpl;

verus! {

/// Length of a digest in bytes.
pub const DIGEST_LEN: usize = 32;

/// A 32-byte hash value. Its view is the sequence of its bytes.
#[derive(Clone, Copy, Debug, Eq, Hash)]
pub struct Digest(pub [u8; 32]);

impl View for Digest {
    type V = Seq<u8>;

    open spec fn view(&self) -> Seq<u8> {
        self.0@
    }
}

impl PartialEq for Digest {
    fn eq(&self, other: &Digest) -> (r: bool) {
        let mut i: usize = 0;
        while i < 32
            invariant
                i <= 32,
                forall|j: int| 0 <= j < i ==> self.0@[j] == other.0@[j],
            decreases 32 - i,
        {
            if self.0[i] != other.0[i] {
                return false;
            }
            i += 1;
        }
        assert(self.0@ =~= other.0@);
        true
    }
}

impl PartialEqSpecImpl for Digest {
    open spec fn obeys_eq_spec() -> bool {
        true
    }

    open spec fn eq_spec(&self, other: &Digest) -> bool {
        self.0@ == other.0@
    }
}

impl Default for Digest {
    fn default() -> (d: Digest)
        ensures
            d@ == Seq::new(32, |i: int| 0u8),
    {
        Digest::zero()
    }
}

/// What `blake2b_simd` gives for BLAKE2b with the hash length 32 and no
/// key, salt or personalisation, as a function of the input bytes.
pub uninterp spec fn blake2b_output(data: Seq<u8>) -> Seq<u8>;

/// Calls `blake2b_simd::Params::hash` with the hash length set to 32.
/// Trusted: the result is what `blake2b_output` names, which depends on
/// the input bytes alone.
#[verifier::external_body]
fn blake2b_call(input: &[u8]) -> (d: Digest)
    ensures
        d@ == blake2b_output(input@),
{
    let h = blake2b_simd::Params::new().hash_length(DIGEST_LEN).hash(input);
    let mut out = [0u8; DIGEST_LEN];
    out.copy_from_slice(h.as_bytes());
    Digest(out)
}

/// The BLAKE2b-256 hash of `data`, 32 bytes: what `blake2b_output` names
/// wherever that has 32 bytes, as every digest that was ever computed
/// has. For an input whose output had another length this is 32 zero
/// bytes, so that every hash has the length of a digest.
pub closed spec fn blake2b_256(data: Seq<u8>) -> Seq<u8> {
    let out = blake2b_output(data);
    if out.len() == 32 {
        out
    } else {
        Seq::new(32, |i: int| 0u8)
    }
}

/// Every hash has 32 bytes.
pub proof fn lemma_hash_len()
    ensures
        forall|data: Seq<u8>| #[trigger] blake2b_256(data).len() == 32,
{
}

/// The BLAKE2b-256 hash of `input`.
pub(crate) fn blake2b_hash(input: &[u8]) -> (d: Digest)
    ensures
        d@ == blake2b_256(input@),
{
    let d = blake2b_call(input);
    assert(d@.len() == 32);
    d
}

/// Two different inputs with the same hash.
pub open spec fn hash_collision() -> bool {
    exists|a: Seq<u8>, b: Seq<u8>| a != b && #[trigger] blake2b_256(a) == #[trigger] blake2b_256(b)
}

impl Digest {
    /// The digest whose bytes are all zero.
    pub fn zero() -> (d: Digest)
        ensures
            d@ == Seq::new(32, |i: int| 0u8),
    {
        let d = Digest([0u8; 32]);
        assert(d@ =~= Seq::new(32, |i: int| 0u8));
        d
    }

    /// The bytes of the digest.
    pub fn as_bytes(&self) -> (b: &[u8])
        ensures
            b@ == self@,
            b@.len() == 32,
    {
        self.0.as_slice()
    }

    /// Whether every byte is zero.
    pub fn is_zero(&self) -> (r: bool)
        ensures
            r == (self@ == Seq::new(32, |i: int| 0u8)),
    {
        let z = Digest::zero();
        *self == z
    }

    /// Digests with the same bytes are the same digest.
    pub proof fn lemma_view_injective(a: Digest, b: Digest)
        requires
            a@ == b@,
        ensures
            a == b,
    {
        assert(a.0 =~= b.0);
    }
}

/// The bytes of a run of digests, one after the other.
pub open spec fn concat_bytes(ds: Seq<Digest>) -> Seq<u8>
    decreases ds.len(),
{
    if ds.len() == 0 {
        Seq::empty()
    } else {
        concat_bytes(ds.drop_last()) + ds.last()@
    }
}

/// Something with a canonical digest.
pub trait Digestible {
    /// The digest as a function of the value.
    spec fn spec_digest(&self) -> Seq<u8>;

    fn to_digest(&self) -> (d: Digest)
        ensures
            d@ == self.spec_digest(),
    ;
}

impl Digestible for [u8] {
    open spec fn spec_digest(&self) -> Seq<u8> {
        blake2b_256(self@)
    }

    fn to_digest(&self) -> (d: Digest) {
        blake2b_hash(self)
    }
}

impl Digestible for Vec<u8> {
    open spec fn spec_digest(&self) -> Seq<u8> {
        blake2b_256(self@)
    }

    fn to_digest(&self) -> (d: Digest) {
        blake2b_hash(self.as_slice())
    }
}

impl Digestible for str {
    open spec fn spec_digest(&self) -> Seq<u8> {
        blake2b_256(vstd::utf8::encode_utf8(self@))
    }

    fn to_digest(&self) -> (d: Digest) {
        blake2b_hash(self.as_bytes())
    }
}

impl Digestible for String {
    open spec fn spec_digest(&self) -> Seq<u8> {
        blake2b_256(vstd::utf8::encode_utf8(self@))
    }

    fn to_digest(&self) -> (d: Digest) {
        blake2b_hash(self.as_str().as_bytes())
    }
}

impl Digestible for u32 {
    open spec fn spec_digest(&self) -> Seq<u8> {
        blake2b_256(vstd::bytes::spec_u32_to_le_bytes(*self))
    }

    fn to_digest(&self) -> (d: Digest) {
        let b = vstd::bytes::u32_to_le_bytes(*self);
        blake2b_hash(b.as_slice())
    }
}

impl Digestible for u8 {
    open spec fn spec_digest(&self) -> Seq<u8> {
        blake2b_256(seq![*self])
    }

    fn to_digest(&self) -> (d: Digest) {
        let mut b: Vec<u8> = Vec::new();
        b.push(*self);
        assert(b@ =~= seq![*self]);
        blake2b_hash(b.as_slice())
    }
}

impl Digestible for u16 {
    open spec fn spec_digest(&self) -> Seq<u8> {
        blake2b_256(vstd::bytes::spec_u16_to_le_bytes(*self))
    }

    fn to_digest(&self) -> (d: Digest) {
        let b = vstd::bytes::u16_to_le_bytes(*self);
        blake2b_hash(b.as_slice())
    }
}

impl Digestible for u128 {
    open spec fn spec_digest(&self) -> Seq<u8> {
        blake2b_256(vstd::bytes::spec_u128_to_le_bytes(*self))
    }

    fn to_digest(&self) -> (d: Digest) {
        let b = vstd::bytes::u128_to_le_bytes(*self);
        blake2b_hash(b.as_slice())
    }
}

impl Digestible for u64 {
    open spec fn spec_digest(&self) -> Seq<u8> {
        blake2b_256(vstd::bytes::spec_u64_to_le_bytes(*self))
    }

    fn to_digest(&self) -> (d: Digest) {
        let b = vstd::bytes::u64_to_le_bytes(*self);
        blake2b_hash(b.as_slice())
    }
}

/// The hash of the bytes of `input`, one digest after the other.
pub fn concat_digest_ref(input: &[Digest]) -> (d: Digest)
    ensures
        d@ == blake2b_256(concat_bytes(input@)),
{
    let mut buf: Vec<u8> = Vec::new();
    let mut i: usize = 0;
    while i < input.len()
        invariant
            i <= input.len(),
            buf@ == concat_bytes(input@.take(i as int)),
        decreases input.len() - i,
    {
        buf.extend_from_slice(input[i].as_bytes());
        proof {
            let next = input@.take(i as int + 1);
            assert(next.drop_last() =~= input@.take(i as int));
            assert(next.last() == input@[i as int]);
        }
        i += 1;
    }
    assert(input@.take(i as int) =~= input@);
    blake2b_hash(buf.as_slice())
}

/// The hash of the bytes of `input`, one digest after the other.
pub fn concat_digest(input: Vec<Digest>) -> (d: Digest)
    ensures
        d@ == blake2b_256(concat_bytes(input@)),
{
    concat_digest_ref(input.as_slice())
}

} // verus!
