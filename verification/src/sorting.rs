//! Sorting by page id.

use vstd::prelude::*;

verus! {

/// Whether the entries stand in ascending order of their first parts.
pub open spec fn ascending<T>(s: Seq<(u32, T)>) -> bool {
    forall|i: int, j: int| 0 <= i <= j < s.len() ==> s[i].0 <= s[j].0
}

/// Calls `sort_by_key` of slices with the first part of an entry as the
/// key. Trusted: the entries are the same ones, in ascending order of
/// their first parts.
#[verifier::external_body]
pub(crate) fn sort_by_first<T>(v: &mut Vec<(u32, T)>)
    ensures
        final(v)@.to_multiset() == old(v)@.to_multiset(),
        ascending(final(v)@),
{
    v.sort_by_key(|e| e.0)
}

/// A sequence with the same entries as another has the same length, and
/// each of its entries is one of the other.
pub proof fn lemma_same_entries<T>(a: Seq<(u32, T)>, b: Seq<(u32, T)>)
    requires
        a.to_multiset() == b.to_multiset(),
    ensures
        a.len() == b.len(),
        forall|i: int| 0 <= i < a.len() ==> b.contains(#[trigger] a[i]),
        forall|i: int| 0 <= i < b.len() ==> a.contains(#[trigger] b[i]),
{
    vstd::seq_lib::to_multiset_len(a);
    vstd::seq_lib::to_multiset_len(b);
    assert forall|i: int| 0 <= i < a.len() implies b.contains(#[trigger] a[i]) by {
        vstd::seq_lib::to_multiset_contains(a, a[i]);
        vstd::seq_lib::to_multiset_contains(b, a[i]);
        assert(a.contains(a[i]));
    }
    assert forall|i: int| 0 <= i < b.len() implies a.contains(#[trigger] b[i]) by {
        vstd::seq_lib::to_multiset_contains(a, b[i]);
        vstd::seq_lib::to_multiset_contains(b, b[i]);
        assert(b.contains(b[i]));
    }
}

} // verus!
