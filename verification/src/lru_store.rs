//! The bounded store under the page cache: `lru::LruCache`, with what its
//! operations do to its entries.

use vstd::prelude::*;
use lru::LruCache;
use crate::cache_node::SVCacheNode;

verus! {

#[verifier::external_type_specification]
#[verifier::external_body]
#[verifier::reject_recursive_types(K)]
#[verifier::reject_recursive_types(V)]
#[verifier::reject_recursive_types(S)]
pub struct ExLruCache<K, V, S>(LruCache<K, V, S>);

#[verifier::external_type_specification]
#[verifier::external_body]
pub struct ExLruHasher(lru::DefaultHasher);

/// The entries of the store, the most recently used first.
pub uninterp spec fn lru_entries(c: LruCache<u64, SVCacheNode>) -> Seq<(u64, SVCacheNode)>;

/// The number of entries that the store was made to hold.
pub uninterp spec fn lru_cap(c: LruCache<u64, SVCacheNode>) -> usize;

/// Whether some entry has the key `k`.
pub open spec fn has_key(e: Seq<(u64, SVCacheNode)>, k: u64) -> bool {
    exists|i: int| 0 <= i < e.len() && (#[trigger] e[i]).0 == k
}

/// The place of an entry with the key `k`.
pub open spec fn key_pos(e: Seq<(u64, SVCacheNode)>, k: u64) -> int {
    choose|i: int| 0 <= i < e.len() && (#[trigger] e[i]).0 == k
}

/// Whether no two entries have the same key.
pub open spec fn distinct_keys(e: Seq<(u64, SVCacheNode)>) -> bool {
    forall|i: int, j: int|
        0 <= i < e.len() && 0 <= j < e.len() && (#[trigger] e[i]).0 == (#[trigger] e[j]).0 ==> i
            == j
}

/// The node with the key `k`, if there is one.
pub open spec fn entry_of(e: Seq<(u64, SVCacheNode)>, k: u64) -> Option<SVCacheNode> {
    if has_key(e, k) {
        Some(e[key_pos(e, k)].1)
    } else {
        None
    }
}

/// The entries after the one with the key `k` was used: it stands first.
pub open spec fn touched(e: Seq<(u64, SVCacheNode)>, k: u64) -> Seq<(u64, SVCacheNode)> {
    if has_key(e, k) {
        seq![e[key_pos(e, k)]] + e.remove(key_pos(e, k))
    } else {
        e
    }
}

/// The entries without the one with the key `k`.
pub open spec fn removed(e: Seq<(u64, SVCacheNode)>, k: u64) -> Seq<(u64, SVCacheNode)> {
    if has_key(e, k) {
        e.remove(key_pos(e, k))
    } else {
        e
    }
}

/// The entries with the node of the key `k` replaced by `v`, in place.
pub open spec fn replaced(e: Seq<(u64, SVCacheNode)>, k: u64, v: SVCacheNode) -> Seq<
    (u64, SVCacheNode),
> {
    if has_key(e, k) {
        e.update(key_pos(e, k), (k, v))
    } else {
        e
    }
}

/// The entries after `(k, v)` was pushed into a store made for `cap`
/// entries: a key that is there takes the new node and stands first; a
/// new key stands first, and where the store is full the entry that was
/// used least recently leaves; a store made for no entry stays empty.
pub open spec fn pushed(e: Seq<(u64, SVCacheNode)>, cap: usize, k: u64, v: SVCacheNode) -> Seq<
    (u64, SVCacheNode),
> {
    if has_key(e, k) {
        seq![(k, v)] + e.remove(key_pos(e, k))
    } else if cap == 0 {
        e
    } else if e.len() == cap {
        seq![(k, v)] + e.drop_last()
    } else {
        seq![(k, v)] + e
    }
}

/// The entry that a push hands back: the old entry of the key, or the
/// entry that left a full store.
pub open spec fn pushed_out(e: Seq<(u64, SVCacheNode)>, cap: usize, k: u64) -> Option<
    (u64, SVCacheNode),
> {
    if has_key(e, k) {
        Some(e[key_pos(e, k)])
    } else if cap == 0 {
        None
    } else if e.len() == cap {
        Some(e.last())
    } else {
        None
    }
}

/// The keys of the entries, in their order.
pub open spec fn keys_of(e: Seq<(u64, SVCacheNode)>) -> Seq<u64> {
    Seq::new(e.len(), |i: int| e[i].0)
}

/// Calls `LruCache::new`. Trusted: the store is empty and made for `cap`
/// entries.
#[verifier::external_body]
pub(crate) fn lru_new(cap: usize) -> (c: LruCache<u64, SVCacheNode>)
    ensures
        lru_entries(c) == Seq::<(u64, SVCacheNode)>::empty(),
        lru_cap(c) == cap,
{
    LruCache::new(cap)
}

/// Calls `LruCache::push`. Trusted: see `pushed` and `pushed_out`.
#[verifier::external_body]
pub(crate) fn lru_push(c: &mut LruCache<u64, SVCacheNode>, k: u64, v: SVCacheNode) -> (out: Option<
    (u64, SVCacheNode),
>)
    ensures
        lru_entries(*final(c)) == pushed(lru_entries(*old(c)), lru_cap(*old(c)), k, v),
        lru_cap(*final(c)) == lru_cap(*old(c)),
        out == pushed_out(lru_entries(*old(c)), lru_cap(*old(c)), k),
{
    c.push(k, v)
}

/// Calls `LruCache::get`. Trusted: a key that is there is used, so that
/// its entry stands first, and its node is handed out.
#[verifier::external_body]
pub(crate) fn lru_get<'a>(c: &'a mut LruCache<u64, SVCacheNode>, k: u64) -> (out: Option<
    &'a SVCacheNode,
>)
    ensures
        lru_entries(*final(c)) == touched(lru_entries(*old(c)), k),
        lru_cap(*final(c)) == lru_cap(*old(c)),
        match out {
            Some(n) => Some(*n) == entry_of(lru_entries(*old(c)), k),
            None => entry_of(lru_entries(*old(c)), k) is None,
        },
{
    c.get(&k)
}

/// Calls `LruCache::get_mut`. Trusted: a key that is there is used, so
/// that its entry stands first, and its node is handed out to be changed;
/// the entry then holds the node as the caller leaves it.
#[verifier::external_body]
pub(crate) fn lru_get_mut<'a>(c: &'a mut LruCache<u64, SVCacheNode>, k: u64) -> (out: Option<
    &'a mut SVCacheNode,
>)
    ensures
        lru_cap(*final(c)) == lru_cap(*old(c)),
        match out {
            Some(n) => {
                &&& Some(*n) == entry_of(lru_entries(*old(c)), k)
                &&& lru_entries(*final(c)) == replaced(
                    touched(lru_entries(*old(c)), k),
                    k,
                    *final(n),
                )
            },
            None => {
                &&& entry_of(lru_entries(*old(c)), k) is None
                &&& lru_entries(*final(c)) == lru_entries(*old(c))
            },
        },
{
    c.get_mut(&k)
}

/// Calls `LruCache::peek_mut`. Trusted: the node of a key that is there
/// is handed out to be changed, and no entry moves.
#[verifier::external_body]
pub(crate) fn lru_peek_mut<'a>(c: &'a mut LruCache<u64, SVCacheNode>, k: u64) -> (out: Option<
    &'a mut SVCacheNode,
>)
    ensures
        lru_cap(*final(c)) == lru_cap(*old(c)),
        match out {
            Some(n) => {
                &&& Some(*n) == entry_of(lru_entries(*old(c)), k)
                &&& lru_entries(*final(c)) == replaced(lru_entries(*old(c)), k, *final(n))
            },
            None => {
                &&& entry_of(lru_entries(*old(c)), k) is None
                &&& lru_entries(*final(c)) == lru_entries(*old(c))
            },
        },
{
    c.peek_mut(&k)
}

/// Calls `LruCache::peek`. Trusted: the node of a key that is there is
/// handed out; the store is as it was.
#[verifier::external_body]
pub(crate) fn lru_peek<'a>(c: &'a LruCache<u64, SVCacheNode>, k: u64) -> (out: Option<
    &'a SVCacheNode,
>)
    ensures
        match out {
            Some(n) => Some(*n) == entry_of(lru_entries(*c), k),
            None => entry_of(lru_entries(*c), k) is None,
        },
{
    c.peek(&k)
}

/// Calls `LruCache::contains`. Trusted: whether the key is there.
#[verifier::external_body]
pub(crate) fn lru_contains(c: &LruCache<u64, SVCacheNode>, k: u64) -> (r: bool)
    ensures
        r == has_key(lru_entries(*c), k),
{
    c.contains(&k)
}

/// Calls `LruCache::pop`. Trusted: the entry of the key leaves, and its
/// node is handed out.
#[verifier::external_body]
pub(crate) fn lru_pop(c: &mut LruCache<u64, SVCacheNode>, k: u64) -> (out: Option<SVCacheNode>)
    ensures
        lru_entries(*final(c)) == removed(lru_entries(*old(c)), k),
        lru_cap(*final(c)) == lru_cap(*old(c)),
        out == entry_of(lru_entries(*old(c)), k),
{
    c.pop(&k)
}

/// Calls `LruCache::clear`. Trusted: no entry is left.
#[verifier::external_body]
pub(crate) fn lru_clear(c: &mut LruCache<u64, SVCacheNode>)
    ensures
        lru_entries(*final(c)) == Seq::<(u64, SVCacheNode)>::empty(),
        lru_cap(*final(c)) == lru_cap(*old(c)),
{
    c.clear()
}

/// Calls `LruCache::iter` and collects the keys. Trusted: the keys of the
/// entries, the most recently used first.
#[verifier::external_body]
pub(crate) fn lru_keys(c: &LruCache<u64, SVCacheNode>) -> (keys: Vec<u64>)
    ensures
        keys@ == keys_of(lru_entries(*c)),
{
    c.iter().map(|(k, _)| *k).collect()
}

/// With distinct keys the entry with the key of `e[i]` stands at `i`.
pub proof fn lemma_key_pos(e: Seq<(u64, SVCacheNode)>, i: int)
    requires
        distinct_keys(e),
        0 <= i < e.len(),
    ensures
        has_key(e, e[i].0),
        key_pos(e, e[i].0) == i,
        entry_of(e, e[i].0) == Some(e[i].1),
{
    let k = e[i].0;
    assert(has_key(e, k));
    let j = key_pos(e, k);
    assert(e[j].0 == e[i].0);
}

/// Taking an entry out leaves the keys distinct, takes its key away, and
/// leaves every other key with its node.
pub proof fn lemma_removed(e: Seq<(u64, SVCacheNode)>, k: u64)
    requires
        distinct_keys(e),
    ensures
        distinct_keys(removed(e, k)),
        !has_key(removed(e, k), k),
        forall|j: u64| j != k ==> #[trigger] entry_of(removed(e, k), j) == entry_of(e, j),
        removed(e, k).len() <= e.len(),
{
    let r = removed(e, k);
    if has_key(e, k) {
        let p = key_pos(e, k);
        assert forall|a: int, b: int|
            0 <= a < r.len() && 0 <= b < r.len() && (#[trigger] r[a]).0 == (#[trigger] r[b]).0
            implies a == b by {
            let a2 = if a < p { a } else { a + 1 };
            let b2 = if b < p { b } else { b + 1 };
            assert(r[a] == e[a2]);
            assert(r[b] == e[b2]);
        }
        if has_key(r, k) {
            let q = key_pos(r, k);
            let q2 = if q < p { q } else { q + 1 };
            assert(r[q] == e[q2]);
            assert(e[q2].0 == e[p].0);
        }
        assert forall|j: u64| j != k implies #[trigger] entry_of(r, j) == entry_of(e, j) by {
            if has_key(e, j) {
                let q = key_pos(e, j);
                let q1 = if q < p { q } else { q - 1 };
                assert(r[q1] == e[q]);
                lemma_key_pos(r, q1);
            } else if has_key(r, j) {
                let q = key_pos(r, j);
                let q2 = if q < p { q } else { q + 1 };
                assert(r[q] == e[q2]);
            }
        }
    }
}

/// Putting an entry with a new key in front leaves the keys distinct,
/// gives the key its node, and leaves every other key with its node.
pub proof fn lemma_front(e: Seq<(u64, SVCacheNode)>, k: u64, v: SVCacheNode)
    requires
        distinct_keys(e),
        !has_key(e, k),
    ensures
        distinct_keys(seq![(k, v)] + e),
        entry_of(seq![(k, v)] + e, k) == Some(v),
        forall|j: u64| j != k ==> #[trigger] entry_of(seq![(k, v)] + e, j) == entry_of(e, j),
{
    let r = seq![(k, v)] + e;
    assert forall|a: int, b: int|
        0 <= a < r.len() && 0 <= b < r.len() && (#[trigger] r[a]).0 == (#[trigger] r[b]).0
        implies a == b by {
        if a > 0 {
            assert(r[a] == e[a - 1]);
        }
        if b > 0 {
            assert(r[b] == e[b - 1]);
        }
    }
    assert(r[0] == (k, v));
    lemma_key_pos(r, 0);
    assert forall|j: u64| j != k implies #[trigger] entry_of(r, j) == entry_of(e, j) by {
        if has_key(e, j) {
            let q = key_pos(e, j);
            assert(r[q + 1] == e[q]);
            lemma_key_pos(r, q + 1);
        } else if has_key(r, j) {
            let q = key_pos(r, j);
            assert(r[q] == e[q - 1]);
        }
    }
}

/// Using an entry leaves the keys distinct and every key with its node.
pub proof fn lemma_touched(e: Seq<(u64, SVCacheNode)>, k: u64)
    requires
        distinct_keys(e),
    ensures
        distinct_keys(touched(e, k)),
        forall|j: u64| #[trigger] entry_of(touched(e, k), j) == entry_of(e, j),
        touched(e, k).len() == e.len(),
{
    if has_key(e, k) {
        let p = key_pos(e, k);
        lemma_key_pos(e, p);
        lemma_removed(e, k);
        lemma_front(removed(e, k), k, e[p].1);
        assert(touched(e, k) =~= seq![(k, e[p].1)] + removed(e, k));
    }
}

/// Replacing a node in place leaves the keys distinct, gives the key the
/// new node, and leaves every other key with its node.
pub proof fn lemma_replaced(e: Seq<(u64, SVCacheNode)>, k: u64, v: SVCacheNode)
    requires
        distinct_keys(e),
    ensures
        distinct_keys(replaced(e, k, v)),
        has_key(e, k) ==> entry_of(replaced(e, k, v), k) == Some(v),
        forall|j: u64| j != k ==> #[trigger] entry_of(replaced(e, k, v), j) == entry_of(e, j),
        keys_of(replaced(e, k, v)) == keys_of(e),
        replaced(e, k, v).len() == e.len(),
{
    let r = replaced(e, k, v);
    if has_key(e, k) {
        let p = key_pos(e, k);
        assert forall|a: int| 0 <= a < r.len() implies (#[trigger] r[a]).0 == e[a].0 by {}
        assert forall|a: int, b: int|
            0 <= a < r.len() && 0 <= b < r.len() && (#[trigger] r[a]).0 == (#[trigger] r[b]).0
            implies a == b by {
            assert(e[a].0 == e[b].0);
        }
        lemma_key_pos(r, p);
        assert forall|j: u64| j != k implies #[trigger] entry_of(r, j) == entry_of(e, j) by {
            if has_key(e, j) {
                let q = key_pos(e, j);
                assert(r[q] == e[q]);
                lemma_key_pos(r, q);
            } else if has_key(r, j) {
                let q = key_pos(r, j);
                assert(e[q].0 == j);
            }
        }
        assert(keys_of(r) =~= keys_of(e));
    }
}

/// A push leaves the keys distinct and the store within its bound, gives
/// the key its node unless the store is made for no entry, and leaves
/// every other key with its node, but for the key that left.
pub proof fn lemma_pushed(e: Seq<(u64, SVCacheNode)>, cap: usize, k: u64, v: SVCacheNode)
    requires
        distinct_keys(e),
        e.len() <= cap,
    ensures
        distinct_keys(pushed(e, cap, k, v)),
        pushed(e, cap, k, v).len() <= cap,
        cap > 0 ==> entry_of(pushed(e, cap, k, v), k) == Some(v),
        cap == 0 ==> pushed(e, cap, k, v) == e,
        forall|j: u64|
            j != k && !(pushed_out(e, cap, k) matches Some(o) && o.0 == j) ==> #[trigger] entry_of(
                pushed(e, cap, k, v),
                j,
            ) == entry_of(e, j),
        pushed_out(e, cap, k) matches Some(o) ==> entry_of(e, o.0) == Some(o.1) && (o.0 != k
            ==> !has_key(pushed(e, cap, k, v), o.0)),
{
    if has_key(e, k) {
        let p = key_pos(e, k);
        lemma_key_pos(e, p);
        lemma_removed(e, k);
        lemma_front(removed(e, k), k, v);
    } else if cap == 0 {
    } else if e.len() == cap {
        let last = e.last();
        lemma_key_pos(e, e.len() - 1);
        lemma_removed(e, last.0);
        assert(removed(e, last.0) =~= e.drop_last());
        assert(!has_key(e.drop_last(), k)) by {
            if has_key(e.drop_last(), k) {
                let q = key_pos(e.drop_last(), k);
                assert(e[q].0 == k);
            }
        }
        lemma_front(e.drop_last(), k, v);
        if has_key(pushed(e, cap, k, v), last.0) {
            let r = pushed(e, cap, k, v);
            let q = key_pos(r, last.0);
            assert(q > 0);
            assert(r[q] == e.drop_last()[q - 1]);
            assert(has_key(e.drop_last(), last.0));
        }
    } else {
        lemma_front(e, k, v);
    }
}

} // verus!
