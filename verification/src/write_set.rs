//! The pages that a statement wrote: their digests in ascending order of
//! the page ids, the tree after they were applied, and the nodes to write.

use vstd::prelude::*;
use std::collections::HashMap;
use vstd::std_specs::iter::IteratorSpec;
use crate::cache_page::CachePage;
use crate::digest::{blake2b_256, Digest, Digestible};
use crate::node::{MerkleNodeLoader, NodeId};
use crate::page::PageId;
use crate::page_map::PageMap;
use crate::sorting::{lemma_same_entries, sort_by_first};
use crate::verify::digest_views;
use crate::write::{
    root_missing, spec_update_root, spec_update_store, Apply, UpdateError, WriteContext,
};

verus! {

broadcast use vstd::std_specs::hash::group_hash_axioms;

/// The store after the first `k` of the updates were made, one after the
/// other.
pub open spec fn spec_apply_store(
    store: Map<NodeId, Seq<u8>>,
    root: Option<NodeId>,
    modif: Seq<(PageId, Digest)>,
    k: nat,
) -> Map<NodeId, Seq<u8>>
    decreases k,
{
    if k == 0 {
        store
    } else {
        let j = (k - 1) as nat;
        spec_update_store(
            spec_apply_store(store, root, modif, j),
            spec_apply_root(root, modif, j),
            modif[j as int].0.0,
            modif[j as int].1@,
        )
    }
}

/// The root after the first `k` of the updates were made.
pub open spec fn spec_apply_root(root: Option<NodeId>, modif: Seq<(PageId, Digest)>, k: nat) -> Option<
    NodeId,
>
    decreases k,
{
    if k == 0 {
        root
    } else {
        let j = (k - 1) as nat;
        Some(spec_update_root(spec_apply_root(root, modif, j), modif[j as int].0.0))
    }
}

/// The nodes written by the first `k` of the updates: for each update
/// the nodes above its page up to the root that the update leaves, the
/// leaf included, with the hashes that the last update to write them gave.
pub open spec fn spec_apply_pending(
    store: Map<NodeId, Seq<u8>>,
    root: Option<NodeId>,
    modif: Seq<(PageId, Digest)>,
    k: nat,
) -> Map<NodeId, Seq<u8>>
    decreases k,
{
    if k == 0 {
        Map::empty()
    } else {
        let j = (k - 1) as nat;
        crate::write::spec_update_pending(
            spec_apply_pending(store, root, modif, j),
            spec_apply_store(store, root, modif, j),
            spec_apply_root(root, modif, j),
            modif[j as int].0.0,
            modif[j as int].1@,
        )
    }
}

/// Whether one of the first `k` updates cannot be made for want of the root.
pub open spec fn spec_apply_fails(
    store: Map<NodeId, Seq<u8>>,
    root: Option<NodeId>,
    modif: Seq<(PageId, Digest)>,
    k: nat,
) -> bool {
    exists|j: nat|
        j < k && #[trigger] root_missing(
            spec_apply_store(store, root, modif, j),
            spec_apply_root(root, modif, j),
            modif[j as int].0.0,
        )
}

/// Applies the updates to the tree with the root `root_id`, in their
/// order, and gives the new root with the nodes that were written.
pub fn cal_new_root<L: MerkleNodeLoader>(
    loader: &L,
    modif: &Vec<(PageId, Digest)>,
    root_id: Option<NodeId>,
) -> (r: Result<Apply, UpdateError>)
    ensures
        modif@.len() == 0 ==> r is Ok,
        loader.always_answers() && !spec_apply_fails(
            loader.nodes()@,
            root_id,
            modif@,
            modif@.len(),
        ) ==> r is Ok,
        match r {
            Ok(a) => {
                &&& !spec_apply_fails(loader.nodes()@, root_id, modif@, modif@.len())
                &&& a.root_id == spec_apply_root(root_id, modif@, modif@.len())
                &&& a.hashes() == spec_apply_pending(
                    loader.nodes()@,
                    root_id,
                    modif@,
                    modif@.len(),
                )
                &&& loader.nodes()@.union_prefer_right(a.hashes()) == spec_apply_store(
                    loader.nodes()@,
                    root_id,
                    modif@,
                    modif@.len(),
                )
            },
            Err(UpdateError::MissingRoot) => spec_apply_fails(
                loader.nodes()@,
                root_id,
                modif@,
                modif@.len(),
            ),
            Err(UpdateError::Store(_)) => !loader.always_answers(),
        },
{
    let mut ctx = WriteContext::new(loader, root_id);
    let ghost store0 = loader.nodes()@;
    assert(ctx.store() =~= store0);
    let mut i: usize = 0;
    while i < modif.len()
        invariant
            i <= modif.len(),
            ctx.loader() == loader,
            store0 == loader.nodes()@,
            ctx.root() == spec_apply_root(root_id, modif@, i as nat),
            ctx.store() == spec_apply_store(store0, root_id, modif@, i as nat),
            ctx.pending() == spec_apply_pending(store0, root_id, modif@, i as nat),
            !spec_apply_fails(store0, root_id, modif@, i as nat),
        decreases modif.len() - i,
    {
        let (p_id, dig) = modif[i];
        match ctx.update(dig, p_id) {
            Ok(()) => {},
            Err(UpdateError::MissingRoot) => {
                proof {
                    assert(root_missing(
                        spec_apply_store(store0, root_id, modif@, i as nat),
                        spec_apply_root(root_id, modif@, i as nat),
                        modif@[i as int].0.0,
                    ));
                }
                return Err(UpdateError::MissingRoot);
            },
            Err(UpdateError::Store(e)) => {
                return Err(UpdateError::Store(e));
            },
        }
        proof {
            assert forall|j: nat| j < i + 1 implies !#[trigger] root_missing(
                spec_apply_store(store0, root_id, modif@, j),
                spec_apply_root(root_id, modif@, j),
                modif@[j as int].0.0,
            ) by {}
        }
        i += 1;
    }
    Ok(ctx.changes())
}

/// Whether `modif` holds the digests of the pages of `write_map` in
/// ascending order of the page ids, each page once.
pub open spec fn is_updates_of(modif: Seq<(PageId, Digest)>, write_map: Map<u32, CachePage>) -> bool {
    &&& modif.len() == write_map.len()
    &&& forall|i: int, j: int| 0 <= i <= j < modif.len() ==> modif[i].0.0 <= modif[j].0.0
    &&& forall|i: int|
        0 <= i < modif.len() ==> write_map.contains_key((#[trigger] modif[i]).0.0) && modif[i].1@
            == blake2b_256(write_map[modif[i].0.0].bytes@)
    &&& forall|p: u32|
        write_map.contains_key(p) ==> exists|i: int|
            0 <= i < modif.len() && (#[trigger] modif[i]).0.0 == p
}

/// Takes the pages out of the write set and gives their digests in
/// ascending order of the page ids.
pub fn drain_sorted(write_map: &mut PageMap) -> (modif: Vec<(PageId, Digest)>)
    ensures
        final(write_map)@ == Map::<u32, CachePage>::empty(),
        is_updates_of(modif@, old(write_map)@),
{
    let mut keyed: Vec<(u32, Digest)> = Vec::new();
    let keys = write_map.keys();
    let ghost m0 = write_map@;
    let mut k: usize = 0;
    while k < keys.len()
        invariant
            k <= keys.len(),
            m0 == write_map@,
            forall|p: u32| keys@.contains(p) <==> m0.contains_key(p),
            keyed@.len() == k,
            forall|i: int|
                0 <= i < keyed@.len() ==> (#[trigger] keyed@[i]).0 == keys@[i] && keyed@[i].1@
                    == blake2b_256(m0[keys@[i]].bytes@),
        decreases keys.len() - k,
    {
        let p = keys[k];
        assert(keys@.contains(p));
        match write_map.get(p) {
            Some(cache_p) => {
                keyed.push((p, cache_p.to_digest()));
            },
            None => {
                keyed.push((p, Digest::zero()));
            },
        }
        k += 1;
    }
    let ghost unsorted = keyed@;
    sort_by_first(&mut keyed);
    write_map.clear();
    proof {
        lemma_same_entries(keyed@, unsorted);
        assert forall|i: int| 0 <= i < keyed@.len() implies m0.contains_key(
            (#[trigger] keyed@[i]).0,
        ) && keyed@[i].1@ == blake2b_256(m0[keyed@[i].0].bytes@) by {
            assert(unsorted.contains(keyed@[i]));
            let j = choose|j: int| 0 <= j < unsorted.len() && unsorted[j] == keyed@[i];
            assert(keys@.contains(keys@[j]));
        }
        assert forall|p: u32| m0.contains_key(p) implies exists|i: int|
            0 <= i < keyed@.len() && (#[trigger] keyed@[i]).0 == p by {
            assert(keys@.contains(p));
            let j = choose|j: int| 0 <= j < keys@.len() && keys@[j] == p;
            assert(unsorted[j].0 == p);
            assert(keyed@.contains(unsorted[j]));
            let i = choose|i: int| 0 <= i < keyed@.len() && keyed@[i] == unsorted[j];
            assert(keyed@[i].0 == p);
        }
    }
    let mut modif: Vec<(PageId, Digest)> = Vec::new();
    let mut i: usize = 0;
    while i < keyed.len()
        invariant
            i <= keyed.len(),
            modif@.len() == i,
            forall|j: int|
                0 <= j < i ==> (#[trigger] modif@[j]).0.0 == keyed@[j].0 && modif@[j].1
                    == keyed@[j].1,
        decreases keyed.len() - i,
    {
        modif.push((PageId(keyed[i].0), keyed[i].1));
        i += 1;
    }
    proof {
        assert forall|p: u32| m0.contains_key(p) implies exists|i: int|
            0 <= i < modif@.len() && (#[trigger] modif@[i]).0.0 == p by {
            let i = choose|i: int| 0 <= i < keyed@.len() && (#[trigger] keyed@[i]).0 == p;
            assert(modif@[i].0.0 == p);
        }
    }
    modif
}

/// Applies what a statement wrote: the pages are taken out of the write
/// set, and their digests are applied to the tree in ascending order of
/// the page ids. Gives the new root with the nodes that were written, and
/// the updates that were made.
pub fn verify_write_map_base<L: MerkleNodeLoader>(
    loader: &L,
    write_map: &mut PageMap,
    old_root_id: Option<NodeId>,
) -> (r: (Vec<(PageId, Digest)>, Result<Apply, UpdateError>))
    ensures
        final(write_map)@ == Map::<u32, CachePage>::empty(),
        is_updates_of(r.0@, old(write_map)@),
        old(write_map)@.len() == 0 ==> r.1 is Ok,
        loader.always_answers() && !spec_apply_fails(
            loader.nodes()@,
            old_root_id,
            r.0@,
            r.0@.len(),
        ) ==> r.1 is Ok,
        match r.1 {
            Ok(a) => {
                &&& !spec_apply_fails(loader.nodes()@, old_root_id, r.0@, r.0@.len())
                &&& a.root_id == spec_apply_root(old_root_id, r.0@, r.0@.len())
                &&& a.hashes() == spec_apply_pending(
                    loader.nodes()@,
                    old_root_id,
                    r.0@,
                    r.0@.len(),
                )
                &&& loader.nodes()@.union_prefer_right(a.hashes()) == spec_apply_store(
                    loader.nodes()@,
                    old_root_id,
                    r.0@,
                    r.0@.len(),
                )
            },
            Err(UpdateError::MissingRoot) => spec_apply_fails(
                loader.nodes()@,
                old_root_id,
                r.0@,
                r.0@.len(),
            ),
            Err(UpdateError::Store(_)) => !loader.always_answers(),
        },
{
    let modif_hashes = drain_sorted(write_map);
    let res = cal_new_root(loader, &modif_hashes, old_root_id);
    (modif_hashes, res)
}

/// The bytes of the whole page that a write leaves: the bytes written,
/// where the write covers the page; else the bytes `base` that the page
/// had, with the written range over them.
pub open spec fn spec_complete(w: crate::cache_page::CachePageView, base: Seq<u8>) -> Seq<u8> {
    if w.len == 4096 {
        w.bytes
    } else {
        crate::page_io::spec_overlay(
            base,
            w.offset as int,
            w.bytes.subrange(w.offset as int, w.offset + w.len),
        )
    }
}

/// The bytes that page `p` had before it was written: what the statement
/// read, else what the file holds.
pub open spec fn spec_base(
    read_map: Map<u32, CachePage>,
    fetched: Map<u32, Vec<u8>>,
    p: u32,
) -> Seq<u8> {
    if read_map.contains_key(p) {
        read_map[p].bytes@
    } else {
        fetched[p]@
    }
}

/// Whether page `p` was written in part only.
pub open spec fn partly_written(write_map: Map<u32, CachePage>, p: u32) -> bool {
    write_map.contains_key(p) && write_map[p].len != 4096
}

/// The pages that were written in part and not read: their old bytes are
/// needed from the file.
pub fn partial_pages_to_read(read_map: &PageMap, write_map: &PageMap) -> (out: Vec<PageId>)
    ensures
        forall|i: int|
            0 <= i < out@.len() ==> partly_written(write_map@, (#[trigger] out@[i]).0)
                && !read_map@.contains_key(out@[i].0),
        forall|p: u32|
            partly_written(write_map@, p) && !read_map@.contains_key(p) ==> exists|i: int|
                0 <= i < out@.len() && (#[trigger] out@[i]).0 == p,
{
    let mut out: Vec<PageId> = Vec::new();
    let keys = write_map.keys();
    let mut k: usize = 0;
    while k < keys.len()
        invariant
            k <= keys.len(),
            forall|p: u32| keys@.contains(p) <==> write_map@.contains_key(p),
            forall|i: int|
                0 <= i < out@.len() ==> partly_written(write_map@, (#[trigger] out@[i]).0)
                    && !read_map@.contains_key(out@[i].0),
            forall|j: int|
                0 <= j < k && partly_written(write_map@, #[trigger] keys@[j])
                    && !read_map@.contains_key(keys@[j]) ==> exists|i: int|
                    0 <= i < out@.len() && (#[trigger] out@[i]).0 == keys@[j],
        decreases keys.len() - k,
    {
        let p = keys[k];
        assert(keys@.contains(p));
        let ghost before = out@;
        let partial = match write_map.get(p) {
            Some(w) => w.get_len() != crate::page::PAGE_SIZE,
            None => false,
        };
        if partial && read_map.get(p).is_none() {
            out.push(PageId(p));
            proof {
                assert(out@[before.len() as int].0 == p);
            }
        }
        proof {
            assert forall|j: int|
                0 <= j < k + 1 && partly_written(write_map@, #[trigger] keys@[j])
                    && !read_map@.contains_key(keys@[j]) implies exists|i: int|
                0 <= i < out@.len() && (#[trigger] out@[i]).0 == keys@[j] by {
                if j < k {
                    let i = choose|i: int|
                        0 <= i < before.len() && (#[trigger] before[i]).0 == keys@[j];
                    assert(out@[i].0 == keys@[j]);
                } else {
                    assert(out@[before.len() as int].0 == keys@[j]);
                }
            }
        }
        k += 1;
    }
    proof {
        assert forall|p: u32|
            partly_written(write_map@, p) && !read_map@.contains_key(p) implies exists|i: int|
            0 <= i < out@.len() && (#[trigger] out@[i]).0 == p by {
            assert(keys@.contains(p));
            let j = choose|j: int| 0 <= j < keys@.len() && keys@[j] == p;
            assert(partly_written(write_map@, keys@[j]));
        }
    }
    out
}

/// Completes what a statement wrote: each page of the write set becomes
/// a whole page, a write in part being laid over what the statement read
/// of the page, which leaves the read set, or over what the file holds,
/// which `fetched` has. Gives the whole pages and their digests, both in
/// ascending order of the page ids, and empties the write set.
pub fn verify_write_map_batch(
    read_map: &mut PageMap,
    write_map: &mut PageMap,
    fetched: &HashMap<u32, Vec<u8>>,
) -> (r: (Vec<(u32, Vec<u8>)>, Vec<(PageId, Digest)>))
    requires
        crate::page_io::ranges_ok(crate::cache_page::pages_view(old(write_map)@)),
        forall|p: u32|
            partly_written(old(write_map)@, p) && !old(read_map)@.contains_key(p)
                ==> #[trigger] fetched@.contains_key(p),
    ensures
        final(write_map)@ == Map::<u32, CachePage>::empty(),
        forall|p: u32| #[trigger]
            final(read_map)@.contains_key(p) <==> old(read_map)@.contains_key(p)
                && !partly_written(old(write_map)@, p),
        forall|p: u32|
            final(read_map)@.contains_key(p) ==> #[trigger] final(read_map)@[p] == old(
                read_map,
            )@[p],
        r.0@.len() == old(write_map)@.len(),
        r.1@.len() == r.0@.len(),
        crate::sorting::ascending(r.0@),
        forall|i: int|
            0 <= i < r.0@.len() ==> {
                let p = (#[trigger] r.0@[i]).0;
                &&& old(write_map)@.contains_key(p)
                &&& r.0@[i].1@ == spec_complete(
                    old(write_map)@[p]@,
                    spec_base(old(read_map)@, fetched@, p),
                )
                &&& r.1@[i].0.0 == p
                &&& r.1@[i].1@ == blake2b_256(r.0@[i].1@)
            },
        forall|p: u32|
            old(write_map)@.contains_key(p) ==> exists|i: int|
                0 <= i < r.0@.len() && (#[trigger] r.0@[i]).0 == p,
{
    let mut keyed: Vec<(u32, Vec<u8>)> = Vec::new();
    let keys = write_map.keys();
    let ghost w0 = write_map@;
    let ghost r0 = read_map@;
    let mut k: usize = 0;
    while k < keys.len()
        invariant
            k <= keys.len(),
            keys@.no_duplicates(),
            forall|p: u32| keys@.contains(p) <==> w0.contains_key(p),
            keys@.len() == w0.len(),
            w0 == write_map@,
            crate::page_io::ranges_ok(crate::cache_page::pages_view(w0)),
            forall|p: u32|
                partly_written(w0, p) && !r0.contains_key(p) ==> #[trigger] fetched@.contains_key(p),
            keyed@.len() == k,
            forall|i: int|
                0 <= i < keyed@.len() ==> (#[trigger] keyed@[i]).0 == keys@[i] && keyed@[i].1@
                    == spec_complete(w0[keys@[i]]@, spec_base(r0, fetched@, keys@[i])),
            forall|p: u32| #[trigger]
                read_map@.contains_key(p) <==> r0.contains_key(p) && !(exists|j: int|
                    0 <= j < k && keys@[j] == p && partly_written(w0, p)),
            forall|p: u32| read_map@.contains_key(p) ==> #[trigger] read_map@[p] == r0[p],
        decreases keys.len() - k,
    {
        let p = keys[k];
        proof {
            assert(keys@.contains(p));
            assert(crate::cache_page::pages_view(w0).contains_key(p));
            assert(crate::cache_page::pages_view(w0)[p] == w0[p]@);
        }
        match write_map.get(p) {
            Some(w_cache_p) => {
                let len = w_cache_p.get_len();
                if len != crate::page::PAGE_SIZE {
                    let ofst = w_cache_p.get_offset();
                    let blen = w_cache_p.get_bytes().len();
                    assert(ofst + len <= blen);
                    let w_slice = vstd::slice::slice_subrange(
                        w_cache_p.get_bytes().as_slice(),
                        ofst,
                        ofst + len,
                    );
                    assert(read_map@.contains_key(p) == r0.contains_key(p));
                    let bytes = match read_map.remove(p) {
                        Some(r_cache_p) => crate::page_io::overlay(
                            r_cache_p.get_bytes(),
                            ofst,
                            w_slice,
                        ),
                        None => {
                            assert(partly_written(w0, p));
                            match fetched.get(&p) {
                                Some(bg) => crate::page_io::overlay(bg, ofst, w_slice),
                                None => Vec::new(),
                            }
                        },
                    };
                    keyed.push((p, bytes));
                } else {
                    keyed.push((p, w_cache_p.copy_bytes()));
                }
            },
            None => {
                keyed.push((p, Vec::new()));
            },
        }
        k += 1;
    }
    let ghost unsorted = keyed@;
    sort_by_first(&mut keyed);
    write_map.clear();
    proof {
        lemma_same_entries(keyed@, unsorted);
        assert forall|i: int| 0 <= i < keyed@.len() implies {
            let p = (#[trigger] keyed@[i]).0;
            &&& w0.contains_key(p)
            &&& keyed@[i].1@ == spec_complete(w0[p]@, spec_base(r0, fetched@, p))
        } by {
            assert(unsorted.contains(keyed@[i]));
            let j = choose|j: int| 0 <= j < unsorted.len() && unsorted[j] == keyed@[i];
            assert(keys@.contains(keys@[j]));
        }
        assert forall|p: u32| w0.contains_key(p) implies exists|i: int|
            0 <= i < keyed@.len() && (#[trigger] keyed@[i]).0 == p by {
            assert(keys@.contains(p));
            let j = choose|j: int| 0 <= j < keys@.len() && keys@[j] == p;
            assert(unsorted[j].0 == p);
            assert(keyed@.contains(unsorted[j]));
            let i = choose|i: int| 0 <= i < keyed@.len() && keyed@[i] == unsorted[j];
            assert(keyed@[i].0 == p);
        }
        assert forall|p: u32| #[trigger]
            read_map@.contains_key(p) <==> r0.contains_key(p) && !partly_written(w0, p) by {
            if partly_written(w0, p) {
                assert(keys@.contains(p));
                let j = choose|j: int| 0 <= j < keys@.len() && keys@[j] == p;
                assert(keys@[j] == p);
            }
        }
    }
    let mut modif: Vec<(PageId, Digest)> = Vec::new();
    let mut i: usize = 0;
    while i < keyed.len()
        invariant
            i <= keyed.len(),
            modif@.len() == i,
            forall|j: int|
                0 <= j < i ==> (#[trigger] modif@[j]).0.0 == keyed@[j].0 && modif@[j].1@
                    == blake2b_256(keyed@[j].1@),
        decreases keyed.len() - i,
    {
        modif.push((PageId(keyed[i].0), keyed[i].1.to_digest()));
        i += 1;
    }
    (keyed, modif)
}

/// Writes the nodes of an update into a store, each under the digest of
/// its id, in some order of the nodes. Stops at the first write that
/// fails: the nodes before it are written then, and no other. A store
/// that makes every write has all the nodes afterwards, and so has any
/// store where there is no node to write.
pub fn persist<W: crate::node::WriteInterface>(db: &mut W, changes: &Apply) -> (r: Result<
    (),
    crate::node::StoreError,
>)
    ensures
        old(db).always_writes() ==> r is Ok && final(db).always_writes(),
        changes.nodes@.len() == 0 ==> r is Ok,
        r is Err ==> !old(db).always_writes(),
        exists|order: Seq<(u64, crate::node::MerkleNode)>, k: nat|
            {
                &&& order.to_set() == changes.nodes@.kv_pairs()
                &&& order.len() == changes.nodes@.len()
                &&& k <= order.len()
                &&& r is Ok <==> k == order.len()
                &&& #[trigger] spec_written(old(db).written()@, order, k) == final(db).written()@
            },
{
    let entries = changes.nodes.iter();
    let ghost raw = entries.remaining();
    let ghost kv: Seq<(u64, crate::node::MerkleNode)> = raw.unref();
    proof {
        assert(kv.len() == changes.nodes@.len());
    }
    for pair in it: entries
        invariant
            it.seq() == raw,
            raw.unref() == kv,
            kv.to_set() == changes.nodes@.kv_pairs(),
            kv.len() == changes.nodes@.len(),
            db.written()@ == spec_written(old(db).written()@, kv, it.index() as nat),
            old(db).always_writes() ==> db.always_writes(),
    {
        let (k, n) = pair;
        assert(kv[it.index() as int] == (*k, *n));
        let id = NodeId::from_key(*k);
        let addr = id.to_digest();
        match db.write_node(&addr, n) {
            Ok(()) => {},
            Err(e) => {
                proof {
                    assert(spec_written(old(db).written()@, kv, it.index() as nat)
                        == db.written()@);
                }
                return Err(e);
            },
        }
    }
    proof {
        assert(spec_written(old(db).written()@, kv, kv.len()) == db.written()@);
    }
    Ok(())
}

/// Whether `entry` is the node that the update wrote for `id`, with the
/// digest of `id`.
pub open spec fn is_keyed(changes: &Apply, id: NodeId, entry: (Digest, crate::node::MerkleNode)) -> bool {
    &&& changes.nodes@.contains_key(id.spec_key())
    &&& changes.nodes@[id.spec_key()] == entry.1
    &&& entry.0@ == crate::hash::spec_id_hash(id.0, id.1)
}

/// Whether `entry` is a node that the update wrote, with the digest of
/// its id.
pub open spec fn from_update(changes: &Apply, entry: (Digest, crate::node::MerkleNode)) -> bool {
    exists|id: NodeId| is_keyed(changes, id, entry)
}

/// The nodes of an update, each with the digest of its id: the key under
/// which a store holds the node. The nodes come in some order, each once.
pub fn keyed_by_digest(changes: &Apply) -> (out: Vec<(Digest, crate::node::MerkleNode)>)
    ensures
        out@.len() == changes.nodes@.len(),
        forall|i: int| 0 <= i < out@.len() ==> from_update(changes, #[trigger] out@[i]),
        forall|id: NodeId| #[trigger]
            changes.nodes@.contains_key(id.spec_key()) ==> exists|i: int|
                0 <= i < out@.len() && is_keyed(changes, id, #[trigger] out@[i]),
{
    let mut out: Vec<(Digest, crate::node::MerkleNode)> = Vec::new();
    let ghost kv: Seq<(u64, crate::node::MerkleNode)> = changes.nodes.iter().remaining().unref();
    proof {
        assert(kv.len() == changes.nodes@.len());
    }
    for pair in it: changes.nodes.iter()
        invariant
            it.seq().unref() == kv,
            kv.to_set() == changes.nodes@.kv_pairs(),
            out@.len() == it.index(),
            forall|i: int|
                0 <= i < out@.len() ==> (#[trigger] out@[i]).1 == kv[i].1 && out@[i].0@
                    == crate::hash::spec_id_hash(
                    (kv[i].0 / 0x1_0000_0000) as u32,
                    (kv[i].0 % 0x1_0000_0000) as u32,
                ),
    {
        let (k, n) = pair;
        assert(kv[it.index() as int] == (*k, *n));
        let id = NodeId::from_key(*k);
        out.push((id.to_digest(), *n));
    }
    proof {
        assert forall|i: int| 0 <= i < out@.len() implies from_update(
            changes,
            #[trigger] out@[i],
        ) by {
            let k = kv[i].0;
            let id = NodeId((k / 0x1_0000_0000) as u32, (k % 0x1_0000_0000) as u32);
            assert(id.spec_key() == k);
            assert(kv.to_set().contains(kv[i]));
            assert(changes.nodes@.kv_pairs().contains(kv[i]));
            assert(is_keyed(changes, id, out@[i]));
        }
        assert forall|id: NodeId| #[trigger]
            changes.nodes@.contains_key(id.spec_key()) implies exists|i: int|
            0 <= i < out@.len() && is_keyed(changes, id, #[trigger] out@[i]) by {
            let k = id.spec_key();
            assert(changes.nodes@.kv_pairs().contains((k, changes.nodes@[k])));
            assert(kv.to_set().contains((k, changes.nodes@[k])));
            let i = choose|i: int| 0 <= i < kv.len() && kv[i] == (k, changes.nodes@[k]);
            assert(out@[i].1 == kv[i].1);
            assert(is_keyed(changes, id, out@[i]));
        }
    }
    out
}

/// The entries of a store after the first `k` nodes of `order` were
/// written, each under the digest of its id.
pub open spec fn spec_written(
    entries: Map<Seq<u8>, Seq<u8>>,
    order: Seq<(u64, crate::node::MerkleNode)>,
    k: nat,
) -> Map<Seq<u8>, Seq<u8>>
    decreases k,
{
    if k == 0 {
        entries
    } else {
        spec_written(entries, order, (k - 1) as nat).insert(
            crate::hash::spec_id_hash(
                (order[k - 1].0 / 0x1_0000_0000) as u32,
                (order[k - 1].0 % 0x1_0000_0000) as u32,
            ),
            order[k - 1].1.hash@,
        )
    }
}

/// The pages after the first `k` of the updates were made.
pub open spec fn pages_after_all(pages: Seq<Seq<u8>>, modif: Seq<(PageId, Digest)>, k: nat) -> Seq<
    Seq<u8>,
>
    decreases k,
{
    if k == 0 {
        pages
    } else {
        crate::tree_model::pages_after(
            pages_after_all(pages, modif, (k - 1) as nat),
            modif[k - 1].0.0,
            modif[k - 1].1@,
        )
    }
}

/// Whether each of the first `k` updates sets a page that is there or
/// the next one.
pub open spec fn updates_dense(pages: Seq<Seq<u8>>, modif: Seq<(PageId, Digest)>, k: nat) -> bool {
    forall|j: nat|
        j < k ==> modif[j as int].0.0 <= (#[trigger] pages_after_all(pages, modif, j)).len()
}

/// **A batch of updates keeps the tree.** Where the store and the root
/// are the tree over some pages, and each update of a batch sets a page
/// that is there or the next one, every update of the batch is made, and
/// the batch leaves the tree over the pages as the updates set them: after
/// it every node above the leaves has the hash of its children, and each
/// leaf the hash of its page.
pub proof fn lemma_batch_keeps_tree(
    store: Map<NodeId, Seq<u8>>,
    root: Option<NodeId>,
    pages: Seq<Seq<u8>>,
    modif: Seq<(PageId, Digest)>,
    k: nat,
)
    requires
        crate::tree_model::is_tree(store, root, pages),
        k <= modif.len(),
        updates_dense(pages, modif, k),
    ensures
        !spec_apply_fails(store, root, modif, k),
        crate::tree_model::is_tree(
            spec_apply_store(store, root, modif, k),
            spec_apply_root(root, modif, k),
            pages_after_all(pages, modif, k),
        ),
    decreases k,
{
    if k > 0 {
        let j = (k - 1) as nat;
        assert(updates_dense(pages, modif, j)) by {
            assert forall|i: nat| i < j implies modif[i as int].0.0 <= (#[trigger] pages_after_all(
                pages,
                modif,
                i,
            )).len() by {}
        }
        lemma_batch_keeps_tree(store, root, pages, modif, j);
        assert(modif[j as int].0.0 <= pages_after_all(pages, modif, j).len());
        crate::tree_model::lemma_update_keeps_tree(
            spec_apply_store(store, root, modif, j),
            spec_apply_root(root, modif, j),
            pages_after_all(pages, modif, j),
            modif[j as int].0.0,
            modif[j as int].1@,
        );
        assert forall|i: nat| i < k implies !#[trigger] root_missing(
            spec_apply_store(store, root, modif, i),
            spec_apply_root(root, modif, i),
            modif[i as int].0.0,
        ) by {
            if i < j {
                assert(!spec_apply_fails(store, root, modif, j));
            }
        }
    }
}

/// The number of pages of a page file of `file_len` bytes: at least one,
/// and a last page that the file fills in part counts.
pub fn page_count(file_len: u64) -> (n: u64)
    ensures
        file_len == 0 ==> n == 1,
        file_len > 0 ==> n == (file_len - 1) / 4096 + 1,
{
    if file_len == 0 {
        1
    } else {
        (file_len - 1) / 4096 + 1
    }
}

/// Whether `dig` is the digest of a page of zeros.
pub fn check_dig(dig: &Digest) -> (r: bool)
    ensures
        r == (dig@ == blake2b_256(Seq::new(4096, |i: int| 0u8))),
{
    let buf = [0u8; 4096];
    assert(buf@ =~= Seq::new(4096, |i: int| 0u8));
    *dig == buf.as_slice().to_digest()
}

/// The updates after the first `k` written pages were recorded: each
/// page that is not a page of zeros has the digest of its bytes.
pub open spec fn spec_recorded(
    map: Map<u32, Seq<u8>>,
    p_ids: Seq<PageId>,
    pages: Seq<Vec<u8>>,
    k: nat,
) -> Map<u32, Seq<u8>>
    decreases k,
{
    if k == 0 {
        map
    } else {
        let prev = spec_recorded(map, p_ids, pages, (k - 1) as nat);
        let d = blake2b_256(pages[k - 1]@);
        if d == blake2b_256(Seq::new(4096, |i: int| 0u8)) {
            prev
        } else {
            prev.insert(p_ids[k - 1].0, d)
        }
    }
}

/// The table of the version filter after the slots of the first `k` pages
/// were set to `version`, one page after the other.
pub open spec fn spec_versions_after(
    vbf: &crate::vbf::VersionBloomFilter,
    p_ids: Seq<PageId>,
    version: u32,
    k: nat,
) -> Seq<u32>
    decreases k,
{
    if k == 0 {
        vbf.versions()
    } else {
        crate::vbf::set_slots(
            spec_versions_after(vbf, p_ids, version, (k - 1) as nat),
            |i: int| vbf.slot(p_ids[k - 1].0, i),
            vbf.hash_num() as nat,
            version,
        )
    }
}

/// Records a write of the server: the pages `p_ids`, which the file now
/// holds as `pages`, are set to `version` in the version filter, and each
/// of them that is not a page of zeros enters the updates with the digest
/// of its bytes.
pub fn update_merkle_tree(
    vbf: &mut crate::vbf::VersionBloomFilter,
    map: &mut HashMap<u32, Digest>,
    p_ids: &Vec<PageId>,
    pages: &Vec<Vec<u8>>,
    version: u32,
)
    requires
        old(vbf).usable(),
        pages@.len() == p_ids@.len(),
    ensures
        final(vbf).same_slots(old(vbf)),
        final(vbf).usable(),
        final(vbf).versions() == spec_versions_after(old(vbf), p_ids@, version, p_ids@.len()),
        forall|p: u32, v: u32|
            old(vbf).spec_contains(p, v) && v < version ==> #[trigger] final(vbf).spec_contains(
                p,
                v,
            ),
        forall|i: int, v: u32|
            0 <= i < p_ids@.len() && v < version ==> #[trigger] final(vbf).spec_contains(
                p_ids@[i].0,
                v,
            ),
        digest_views(final(map)@) == spec_recorded(
            digest_views(old(map)@),
            p_ids@,
            pages@,
            p_ids@.len(),
        ),
{
    vbf.table_is_sized();
    let mut i: usize = 0;
    while i < p_ids.len()
        invariant
            i <= p_ids.len(),
            pages@.len() == p_ids@.len(),
            vbf.same_slots(old(vbf)),
            vbf.usable(),
            vbf.sized(),
            vbf.versions() == spec_versions_after(old(vbf), p_ids@, version, i as nat),
            forall|p: u32, v: u32|
                old(vbf).spec_contains(p, v) && v < version ==> #[trigger] vbf.spec_contains(p, v),
            forall|j: int, v: u32|
                0 <= j < i && v < version ==> #[trigger] vbf.spec_contains(p_ids@[j].0, v),
            digest_views(map@) == spec_recorded(
                digest_views(old(map)@),
                p_ids@,
                pages@,
                i as nat,
            ),
        decreases p_ids.len() - i,
    {
        let p_id = p_ids[i];
        let ghost before = *vbf;
        vbf.insert(p_id, version);
        proof {
            let f = |j: int| before.slot(p_id.0, j);
            let g = |j: int| old(vbf).slot(p_ids@[i as int].0, j);
            assert(f =~= g) by {
                assert(before.hash1(p_id.0) == old(vbf).hash1(p_id.0));
                assert(before.hash2(p_id.0) == old(vbf).hash2(p_id.0));
            }
            assert forall|p: u32, v: u32|
                old(vbf).spec_contains(p, v) && v < version implies #[trigger] vbf.spec_contains(
                p,
                v,
            ) by {
                crate::vbf::lemma_later_insert_keeps_answer(before, *vbf, p, v, p_id.0, version);
            }
            assert forall|j: int, v: u32|
                0 <= j < i + 1 && v < version implies #[trigger] vbf.spec_contains(
                p_ids@[j].0,
                v,
            ) by {
                if j < i {
                    crate::vbf::lemma_later_insert_keeps_answer(
                        before,
                        *vbf,
                        p_ids@[j].0,
                        v,
                        p_id.0,
                        version,
                    );
                } else {
                    crate::vbf::lemma_insert_is_seen(before, *vbf, p_id.0, version, v);
                }
            }
        }
        let dig = pages[i].to_digest();
        let ghost m_before = digest_views(map@);
        if !check_dig(&dig) {
            map.insert(p_id.get_id(), dig);
            assert(digest_views(map@) =~= m_before.insert(p_id.0, dig@));
        }
        i += 1;
    }
}

/// Takes the updates out and gives them in ascending order of the page ids.
pub fn sorted_updates(map: &mut HashMap<u32, Digest>) -> (modif: Vec<(PageId, Digest)>)
    ensures
        final(map)@ == Map::<u32, Digest>::empty(),
        modif@.len() == old(map)@.len(),
        forall|i: int, j: int| 0 <= i <= j < modif@.len() ==> modif@[i].0.0 <= modif@[j].0.0,
        forall|i: int|
            0 <= i < modif@.len() ==> old(map)@.contains_key((#[trigger] modif@[i]).0.0)
                && modif@[i].1 == old(map)@[modif@[i].0.0],
        forall|p: u32|
            old(map)@.contains_key(p) ==> exists|i: int|
                0 <= i < modif@.len() && (#[trigger] modif@[i]).0.0 == p,
{
    let mut keyed: Vec<(u32, Digest)> = Vec::new();
    let ghost kv: Seq<(u32, Digest)> = map.iter().remaining().unref();
    let ghost m0 = map@;
    proof {
        assert(kv.len() == m0.len());
    }
    for pair in it: map.iter()
        invariant
            it.seq().unref() == kv,
            kv.to_set() == m0.kv_pairs(),
            m0 == map@,
            keyed@.len() == it.index(),
            forall|i: int| 0 <= i < keyed@.len() ==> #[trigger] keyed@[i] == kv[i],
    {
        let (p_id, dig) = pair;
        keyed.push((*p_id, *dig));
    }
    assert(keyed@ =~= kv);
    sort_by_first(&mut keyed);
    map.clear();
    proof {
        lemma_same_entries(keyed@, kv);
        assert forall|i: int| 0 <= i < keyed@.len() implies m0.contains_key(
            (#[trigger] keyed@[i]).0,
        ) && keyed@[i].1 == m0[keyed@[i].0] by {
            assert(kv.contains(keyed@[i]));
            assert(kv.to_set().contains(keyed@[i]));
            assert(m0.kv_pairs().contains(keyed@[i]));
        }
        assert forall|p: u32| m0.contains_key(p) implies exists|i: int|
            0 <= i < keyed@.len() && (#[trigger] keyed@[i]).0 == p by {
            assert(m0.kv_pairs().contains((p, m0[p])));
            assert(kv.to_set().contains((p, m0[p])));
            assert(kv.contains((p, m0[p])));
            let j = choose|j: int| 0 <= j < kv.len() && kv[j] == (p, m0[p]);
            assert(keyed@.contains(kv[j]));
            let i = choose|i: int| 0 <= i < keyed@.len() && keyed@[i] == kv[j];
            assert(keyed@[i].0 == p);
        }
    }
    let mut modif: Vec<(PageId, Digest)> = Vec::new();
    let mut i: usize = 0;
    while i < keyed.len()
        invariant
            i <= keyed.len(),
            modif@.len() == i,
            forall|j: int|
                0 <= j < i ==> (#[trigger] modif@[j]).0.0 == keyed@[j].0 && modif@[j].1
                    == keyed@[j].1,
        decreases keyed.len() - i,
    {
        modif.push((PageId(keyed[i].0), keyed[i].1));
        i += 1;
    }
    proof {
        assert forall|p: u32| m0.contains_key(p) implies exists|i: int|
            0 <= i < modif@.len() && (#[trigger] modif@[i]).0.0 == p by {
            let i = choose|i: int| 0 <= i < keyed@.len() && (#[trigger] keyed@[i]).0 == p;
            assert(modif@[i].0.0 == p);
        }
    }
    modif
}

/// Applies the updates that the server recorded to the tree, in ascending
/// order of the page ids, and empties them. Gives the new root with the
/// nodes to write.
pub fn update_merkle_db<L: MerkleNodeLoader>(
    loader: &L,
    root_id: Option<NodeId>,
    map: &mut HashMap<u32, Digest>,
) -> (r: (Vec<(PageId, Digest)>, Result<Apply, UpdateError>))
    ensures
        final(map)@ == Map::<u32, Digest>::empty(),
        r.0@.len() == old(map)@.len(),
        forall|i: int, j: int| 0 <= i <= j < r.0@.len() ==> r.0@[i].0.0 <= r.0@[j].0.0,
        forall|i: int|
            0 <= i < r.0@.len() ==> old(map)@.contains_key((#[trigger] r.0@[i]).0.0) && r.0@[i].1
                == old(map)@[r.0@[i].0.0],
        old(map)@.len() == 0 ==> r.1 is Ok,
        loader.always_answers() && !spec_apply_fails(loader.nodes()@, root_id, r.0@, r.0@.len())
            ==> r.1 is Ok,
        match r.1 {
            Ok(a) => {
                &&& !spec_apply_fails(loader.nodes()@, root_id, r.0@, r.0@.len())
                &&& a.root_id == spec_apply_root(root_id, r.0@, r.0@.len())
                &&& a.hashes() == spec_apply_pending(loader.nodes()@, root_id, r.0@, r.0@.len())
                &&& loader.nodes()@.union_prefer_right(a.hashes()) == spec_apply_store(
                    loader.nodes()@,
                    root_id,
                    r.0@,
                    r.0@.len(),
                )
            },
            Err(UpdateError::MissingRoot) => spec_apply_fails(
                loader.nodes()@,
                root_id,
                r.0@,
                r.0@.len(),
            ),
            Err(UpdateError::Store(_)) => !loader.always_answers(),
        },
{
    let modif = sorted_updates(map);
    let res = cal_new_root(loader, &modif, root_id);
    (modif, res)
}

} // verus!
