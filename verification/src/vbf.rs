//! The version bloom filter: for each page a few slots of a table of
//! versions, by which a reader tells whether a page may have been written
//! after the version it holds.

use vstd::prelude::*;
use std::collections::hash_map::{DefaultHasher, RandomState};
use std::collections::HashSet;
use std::hash::{BuildHasher, Hasher};
use vstd::bytes::{spec_u32_to_le_bytes, u32_to_le_bytes};
use vstd::std_specs::hash::DefaultHasherAdditionalSpecFns;
use vstd::std_specs::iter::IteratorSpec;
use crate::page::PageId;

verus! {

broadcast use vstd::std_specs::hash::group_hash_axioms;

/// The table of versions.
#[derive(Debug)]
pub struct VersionMap {
    pub map: Vec<u32>,
}

impl VersionMap {
    /// A table of `size` slots, each at version 0.
    pub fn new(size: usize) -> (m: VersionMap)
        ensures
            m.map@ == Seq::new(size as nat, |i: int| 0u32),
    {
        let map = vec![0u32; size];
        assert(map@ =~= Seq::new(size as nat, |i: int| 0u32));
        VersionMap { map }
    }

    fn set(&mut self, idx: usize, val: u32)
        requires
            idx < old(self).map@.len(),
        ensures
            final(self).map@ == old(self).map@.update(idx as int, val),
        no_unwind
    {
        self.map[idx] = val;
    }

    fn get(&self, idx: usize) -> (v: u32)
        requires
            idx < self.map@.len(),
        ensures
            v == self.map@[idx as int],
    {
        self.map[idx]
    }
}

/// Calls `RandomState::new`: a source of hashers with keys of its own.
/// Trusted; nothing is said of the keys, which differ from call to call.
#[verifier::external_body]
fn new_random_state() -> RandomState {
    RandomState::new()
}

/// Calls `RandomState::build_hasher`. Trusted; nothing is said of the
/// hasher's state, which holds the keys.
#[verifier::external_body]
fn build_hasher(state: &RandomState) -> DefaultHasher {
    state.build_hasher()
}

/// Calls `DefaultHasher::clone`. Trusted: the copy has the state of the
/// hasher it was made from.
#[verifier::external_body]
fn clone_hasher(hasher: &DefaultHasher) -> (c: DefaultHasher)
    ensures
        c@ == hasher@,
{
    hasher.clone()
}

/// The 64-bit hash of page `p` from a hasher in the state `state`.
pub open spec fn page_hash(state: Seq<Seq<u8>>, p: u32) -> u64 {
    DefaultHasher::spec_finish(state.push(spec_u32_to_le_bytes(p)))
}

/// The slot that the `i`-th of the hash functions gives: `h1 + i * h2`
/// in 64-bit arithmetic, reduced to the size of the table.
pub open spec fn spec_slot(h1: u64, h2: u64, i: u64, map_size: u64) -> int {
    (h1.wrapping_add(i.wrapping_mul(h2)) % map_size) as int
}

/// The table after the slots of one page were set to `version`: the
/// slots `slot(0) .. slot(n - 1)` hold `version`, the others what they held.
pub open spec fn set_slots(versions: Seq<u32>, slot: spec_fn(int) -> int, n: nat, version: u32) -> Seq<
    u32,
>
    decreases n,
{
    if n == 0 {
        versions
    } else {
        set_slots(versions, slot, (n - 1) as nat, version).update(slot(n - 1), version)
    }
}

/// The version bloom filter.
#[derive(Debug)]
pub struct VersionBloomFilter {
    vmap: VersionMap,
    map_size: u64,
    hash_num: u32,
    hasher1: DefaultHasher,
    hasher2: DefaultHasher,
}

impl VersionBloomFilter {
    #[verifier::type_invariant]
    spec fn inv(&self) -> bool {
        self.vmap.map@.len() == self.map_size && self.map_size <= usize::MAX
    }

    /// The table of versions.
    pub closed spec fn versions(&self) -> Seq<u32> {
        self.vmap.map@
    }

    /// The number of slots of the table.
    pub closed spec fn map_size(&self) -> u64 {
        self.map_size
    }

    /// The number of slots that a page has.
    pub closed spec fn hash_num(&self) -> u32 {
        self.hash_num
    }

    /// The first of the two hashes of page `p`.
    pub closed spec fn hash1(&self, p: u32) -> u64 {
        page_hash(self.hasher1@, p)
    }

    /// The second of the two hashes of page `p`.
    pub closed spec fn hash2(&self, p: u32) -> u64 {
        page_hash(self.hasher2@, p)
    }

    /// The `i`-th slot of page `p`.
    pub open spec fn slot(&self, p: u32, i: int) -> int {
        spec_slot(self.hash1(p), self.hash2(p), i as u64, self.map_size())
    }

    /// Whether slots can be computed: the table has a slot, or no page has one.
    pub open spec fn usable(&self) -> bool {
        self.map_size() > 0 || self.hash_num() == 0
    }

    /// Whether `other` gives every page the slots that `self` gives it.
    pub open spec fn same_slots(&self, other: &VersionBloomFilter) -> bool {
        &&& self.map_size() == other.map_size()
        &&& self.hash_num() == other.hash_num()
        &&& forall|p: u32| #[trigger] self.hash1(p) == other.hash1(p)
        &&& forall|p: u32| #[trigger] self.hash2(p) == other.hash2(p)
    }

    /// Whether `self` is `before` after the slots of page `p` were set
    /// to `version`.
    pub open spec fn is_insert_of(&self, before: &VersionBloomFilter, p: u32, version: u32) -> bool {
        &&& self.same_slots(before)
        &&& self.versions() == set_slots(
            before.versions(),
            |i: int| before.slot(p, i),
            before.hash_num() as nat,
            version,
        )
    }

    /// Whether the table has the size that the filter was made with,
    /// which is a size that a table can have.
    pub open spec fn sized(&self) -> bool {
        self.versions().len() == self.map_size() && self.map_size() <= usize::MAX
    }

    /// What `contains` answers: every slot of the page holds a version
    /// above `version`.
    pub open spec fn spec_contains(&self, p: u32, version: u32) -> bool {
        forall|i: int| 0 <= i < self.hash_num() ==> self.versions()[#[trigger] self.slot(p, i)] > version
    }

    /// What `contains_subroot` answers: one of the slots holds a version
    /// above `version`.
    pub open spec fn spec_contains_subroot(&self, idxes: Set<usize>, version: u32) -> bool {
        exists|idx: usize| idxes.contains(idx) && #[trigger] self.versions()[idx as int] > version
    }

    /// A filter of `map_size` slots, all at version 0, that gives each page
    /// `hash_num` slots by two hash functions with fresh keys.
    pub fn new(map_size: usize, hash_num: u32) -> (f: VersionBloomFilter)
        ensures
            f.versions() == Seq::new(map_size as nat, |i: int| 0u32),
            f.map_size() == map_size,
            f.hash_num() == hash_num,
            f.sized(),
    {
        let s1 = new_random_state();
        let s2 = new_random_state();
        VersionBloomFilter {
            vmap: VersionMap::new(map_size),
            map_size: map_size as u64,
            hash_num,
            hasher1: build_hasher(&s1),
            hasher2: build_hasher(&s2),
        }
    }

    /// Does nothing; tells the caller that the table has its size.
    pub fn table_is_sized(&self)
        ensures
            self.sized(),
    {
        proof {
            use_type_invariant(self);
        }
    }

    /// A copy of the filter: the same table and the same slots for every page.
    pub fn snapshot(&self) -> (f: VersionBloomFilter)
        ensures
            f.versions() == self.versions(),
            f.same_slots(self),
            f.sized(),
    {
        proof {
            use_type_invariant(self);
        }
        VersionBloomFilter {
            vmap: VersionMap { map: self.vmap.map.clone() },
            map_size: self.map_size,
            hash_num: self.hash_num,
            hasher1: clone_hasher(&self.hasher1),
            hasher2: clone_hasher(&self.hasher2),
        }
    }

    fn get_map_val(&self, idx: usize) -> (v: u32)
        requires
            idx < self.map_size(),
        ensures
            v == self.versions()[idx as int],
    {
        proof {
            use_type_invariant(self);
        }
        self.vmap.get(idx)
    }

    /// Sets every slot of page `p_id` to `version`.
    pub fn insert(&mut self, p_id: PageId, version: u32)
        requires
            old(self).usable(),
        ensures
            final(self).is_insert_of(old(self), p_id.0, version),
            old(self).sized(),
            final(self).sized(),
    {
        proof {
            use_type_invariant(&*self);
        }
        let (h1, h2) = self.hash_kernel(p_id);
        let ghost slot = |i: int| old(self).slot(p_id.0, i);
        let n = self.hash_num;
        let mut i: u32 = 0;
        while i < n
            invariant
                i <= n,
                n == old(self).hash_num(),
                self.hasher1 == old(self).hasher1,
                self.hasher2 == old(self).hasher2,
                self.hash_num == old(self).hash_num,
                self.map_size == old(self).map_size,
                h1 == old(self).hash1(p_id.0),
                h2 == old(self).hash2(p_id.0),
                n > 0 ==> self.map_size > 0,
                self.map_size <= usize::MAX,
                self.vmap.map@.len() == self.map_size,
                self.versions() == set_slots(old(self).versions(), slot, i as nat, version),
                slot == |j: int| old(self).slot(p_id.0, j),
            decreases n - i,
        {
            let idx = self.get_idx(h1, h2, i as u64);
            assert(idx as int == slot(i as int));
            self.vmap.set(idx, version);
            i += 1;
        }
    }

    /// The number of slots of the table.
    pub fn get_map_size(&self) -> (n: u64)
        ensures
            n == self.map_size(),
    {
        self.map_size
    }

    /// The number of slots of each page.
    pub fn get_hash_num(&self) -> (n: u32)
        ensures
            n == self.hash_num(),
    {
        self.hash_num
    }

    /// The slots of page `p_id`.
    pub fn get_bf_pos(&self, p_id: PageId) -> (set: HashSet<usize>)
        requires
            self.usable(),
        ensures
            forall|x: usize|
                set@.contains(x) <==> exists|i: int|
                    0 <= i < self.hash_num() && #[trigger] self.slot(p_id.0, i) == x,
    {
        let mut set: HashSet<usize> = HashSet::new();
        let (h1, h2) = self.hash_kernel(p_id);
        let n = self.hash_num;
        let mut i: u32 = 0;
        while i < n
            invariant
                i <= n,
                n == self.hash_num(),
                h1 == self.hash1(p_id.0),
                h2 == self.hash2(p_id.0),
                n > 0 ==> self.map_size() > 0,
                forall|x: usize|
                    set@.contains(x) <==> exists|j: int|
                        0 <= j < i && #[trigger] self.slot(p_id.0, j) == x,
            decreases n - i,
        {
            let idx = self.get_idx(h1, h2, i as u64);
            assert(idx as int == self.slot(p_id.0, i as int));
            set.insert(idx);
            i += 1;
        }
        set
    }

    /// Whether page `p_id` may have been written after `version`: false as
    /// soon as one of its slots holds a version that is not above `version`.
    pub fn contains(&self, p_id: PageId, version: u32) -> (r: bool)
        requires
            self.usable(),
        ensures
            r == self.spec_contains(p_id.0, version),
    {
        let (h1, h2) = self.hash_kernel(p_id);
        let n = self.hash_num;
        let mut i: u32 = 0;
        while i < n
            invariant
                i <= n,
                n == self.hash_num(),
                h1 == self.hash1(p_id.0),
                h2 == self.hash2(p_id.0),
                n > 0 ==> self.map_size() > 0,
                forall|j: int|
                    0 <= j < i ==> self.versions()[#[trigger] self.slot(p_id.0, j)] > version,
            decreases n - i,
        {
            let idx = self.get_idx(h1, h2, i as u64);
            assert(idx as int == self.slot(p_id.0, i as int));
            let v_in_bf = self.get_map_val(idx);
            if v_in_bf <= version {
                return false;
            }
            i += 1;
        }
        true
    }

    /// Whether a page under a cached sub-root may have been written after
    /// `version`, by the slots of all those pages: true as soon as one of
    /// the slots holds a version above `version`.
    pub fn contains_subroot(&self, idxes: &HashSet<usize>, version: u32) -> (r: bool)
        requires
            forall|idx: usize| idxes@.contains(idx) ==> idx < self.map_size(),
        ensures
            r == self.spec_contains_subroot(idxes@, version),
    {
        let ghost keys: Seq<usize> = idxes.iter().remaining().unref();
        for idx in it: idxes.iter()
            invariant
                it.seq().unref() == keys,
                keys.to_set() == idxes@,
                forall|idx: usize| idxes@.contains(idx) ==> idx < self.map_size(),
                forall|j: int| 0 <= j < it.index() ==> self.versions()[#[trigger] keys[j] as int] <= version,
        {
            assert(keys[it.index() as int] == *idx);
            assert(keys.contains(*idx));
            assert(keys.to_set().contains(*idx));
            let v_in_bf = self.get_map_val(*idx);
            if v_in_bf > version {
                return true;
            }
        }
        proof {
            assert forall|idx: usize| idxes@.contains(idx) implies self.versions()[idx as int]
                <= version by {
                assert(keys.contains(idx));
                let j = choose|j: int| 0 <= j < keys.len() && keys[j] == idx;
                assert(self.versions()[keys[j] as int] <= version);
            }
        }
        false
    }

    fn hash_kernel(&self, p_id: PageId) -> (h: (u64, u64))
        ensures
            h.0 == self.hash1(p_id.0),
            h.1 == self.hash2(p_id.0),
    {
        let mut hasher1 = clone_hasher(&self.hasher1);
        let mut hasher2 = clone_hasher(&self.hasher2);
        let bytes = u32_to_le_bytes(p_id.0);
        hasher1.write(bytes.as_slice());
        hasher2.write(bytes.as_slice());

        let hash1 = hasher1.finish();
        let hash2 = hasher2.finish();

        (hash1, hash2)
    }

    fn get_idx(&self, h1: u64, h2: u64, hash_id: u64) -> (idx: usize)
        requires
            self.map_size() > 0,
        ensures
            idx as int == spec_slot(h1, h2, hash_id, self.map_size()),
            idx < self.map_size(),
    {
        proof {
            use_type_invariant(self);
        }
        (h1.wrapping_add((hash_id).wrapping_mul(h2)) % self.map_size) as usize
    }
}

/// What `set_slots` does: the table keeps its length, each of the slots
/// holds `version`, and every other place holds what it held.
pub proof fn lemma_set_slots(versions: Seq<u32>, slot: spec_fn(int) -> int, n: nat, version: u32)
    requires
        forall|i: int| 0 <= i < n ==> 0 <= #[trigger] slot(i) < versions.len(),
    ensures
        set_slots(versions, slot, n, version).len() == versions.len(),
        forall|i: int| 0 <= i < n ==> set_slots(versions, slot, n, version)[#[trigger] slot(i)] == version,
        forall|j: int|
            0 <= j < versions.len() && (forall|i: int| 0 <= i < n ==> #[trigger] slot(i) != j) ==> #[trigger] set_slots(
                versions,
                slot,
                n,
                version,
            )[j] == versions[j],
    decreases n,
{
    if n > 0 {
        lemma_set_slots(versions, slot, (n - 1) as nat, version);
        let prev = set_slots(versions, slot, (n - 1) as nat, version);
        let out = set_slots(versions, slot, n, version);
        assert forall|i: int| 0 <= i < n implies out[#[trigger] slot(i)] == version by {
            if i < n - 1 && slot(i) != slot(n - 1) {
                assert(prev[slot(i)] == version);
            }
        }
        assert forall|j: int|
            0 <= j < versions.len() && (forall|i: int| 0 <= i < n ==> #[trigger] slot(i) != j) implies #[trigger] out[j]
            == versions[j] by {
            assert(slot(n - 1) != j);
            assert(forall|i: int| 0 <= i < n - 1 ==> #[trigger] slot(i) != j);
        }
    }
}

/// After `set_slots` every place holds the new version or what it held.
pub proof fn lemma_set_slots_either(
    versions: Seq<u32>,
    slot: spec_fn(int) -> int,
    n: nat,
    version: u32,
    j: int,
)
    requires
        forall|i: int| 0 <= i < n ==> 0 <= #[trigger] slot(i) < versions.len(),
        0 <= j < versions.len(),
    ensures
        set_slots(versions, slot, n, version)[j] == version || set_slots(
            versions,
            slot,
            n,
            version,
        )[j] == versions[j],
    decreases n,
{
    if n > 0 {
        lemma_set_slots(versions, slot, (n - 1) as nat, version);
        lemma_set_slots_either(versions, slot, (n - 1) as nat, version, j);
    }
}

/// A write is seen: after the slots of page `p` were set to `written`,
/// the filter answers for `p` and every version below `written` that the
/// page may have been written since.
pub proof fn lemma_insert_is_seen(
    before: VersionBloomFilter,
    after: VersionBloomFilter,
    p: u32,
    written: u32,
    version: u32,
)
    requires
        before.sized(),
        before.usable(),
        after.is_insert_of(&before, p, written),
        version < written,
    ensures
        after.spec_contains(p, version),
{
    let slot = |i: int| before.slot(p, i);
    let n = before.hash_num() as nat;
    assert forall|i: int| 0 <= i < n implies 0 <= #[trigger] slot(i) < before.versions().len() by {
        assert(before.map_size() > 0);
    }
    lemma_set_slots(before.versions(), slot, n, written);
    assert forall|i: int| 0 <= i < after.hash_num() implies after.versions()[#[trigger] after.slot(
        p,
        i,
    )] > version by {
        assert(after.hash1(p) == before.hash1(p));
        assert(after.hash2(p) == before.hash2(p));
        assert(after.slot(p, i) == slot(i));
    }
}

/// No write hides another: where the filter answers for page `p` and
/// `version` that the page may have been written since, it still does
/// after the slots of any page were set to a version above `version`.
pub proof fn lemma_later_insert_keeps_answer(
    before: VersionBloomFilter,
    after: VersionBloomFilter,
    p: u32,
    version: u32,
    q: u32,
    written: u32,
)
    requires
        before.sized(),
        before.usable(),
        before.spec_contains(p, version),
        after.is_insert_of(&before, q, written),
        version < written,
    ensures
        after.spec_contains(p, version),
{
    let slot = |i: int| before.slot(q, i);
    let n = before.hash_num() as nat;
    assert forall|i: int| 0 <= i < n implies 0 <= #[trigger] slot(i) < before.versions().len() by {
        assert(before.map_size() > 0);
    }
    assert forall|i: int| 0 <= i < after.hash_num() implies after.versions()[#[trigger] after.slot(
        p,
        i,
    )] > version by {
        assert(after.hash1(p) == before.hash1(p));
        assert(after.hash2(p) == before.hash2(p));
        assert(after.slot(p, i) == before.slot(p, i));
        assert(before.map_size() > 0);
        let j = before.slot(p, i);
        lemma_set_slots_either(before.versions(), slot, n, written, j);
        assert(before.versions()[before.slot(p, i)] > version);
    }
}

} // verus!
