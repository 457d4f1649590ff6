//! Reads and writes of byte ranges as reads and writes of pages: the pages
//! that a range touches, the bytes of a range out of its pages, and the
//! read set and write set of a statement.

use vstd::prelude::*;
use std::collections::HashMap;
use crate::cache_page::{pages_view, CachePage, CachePageView};
use crate::page::{Page, PageId, PAGE_SIZE};
use crate::page_map::PageMap;
use crate::sorting::{ascending, sort_by_first};

verus! {

broadcast use vstd::std_specs::hash::group_hash_axioms;

/// The id of the page in which the byte at `ofst` lies.
pub open spec fn page_of(ofst: u64) -> int {
    ofst as int / 4096
}

/// The pages that the range of `len` bytes from `ofst` touches, and the
/// offset at which the first of them begins.
pub fn compute_page_ids(ofst: u64, len: u64) -> (r: (u64, Vec<PageId>))
    requires
        1 <= ofst + len <= u64::MAX,
        (ofst + len - 1) / 4096 <= u32::MAX,
    ensures
        r.0 == page_of(ofst) * 4096,
        page_of(ofst) <= (ofst + len - 1) / 4096 + 1,
        r.1@.len() == (ofst + len - 1) / 4096 + 1 - page_of(ofst),
        forall|i: int| 0 <= i < r.1@.len() ==> (#[trigger] r.1@[i]).0 == page_of(ofst) + i,
{
    let start_page = ofst / (PAGE_SIZE as u64);
    let start_point = start_page * (PAGE_SIZE as u64);
    let end_page = (ofst + len - 1) / (PAGE_SIZE as u64);
    proof {
        vstd::arithmetic::power2::lemma2_to64();
        if len == 0 {
            crate::tree_model::lemma_div_succ((ofst - 1) as nat, 12);
        } else {
            vstd::arithmetic::div_mod::lemma_div_is_ordered(ofst as int, ofst + len - 1, 4096);
        }
    }
    let mut res: Vec<PageId> = Vec::new();
    let mut i: u64 = start_page;
    while i < end_page + 1
        invariant
            start_page <= i <= end_page + 1,
            end_page <= u32::MAX,
            res@.len() == i - start_page,
            forall|j: int| 0 <= j < res@.len() ==> (#[trigger] res@[j]).0 == start_page + j,
        decreases end_page + 1 - i,
    {
        res.push(PageId(i as u32));
        i += 1;
    }
    (start_point, res)
}

/// The offset in the page file at which page `p_id` begins.
pub fn page_offset(p_id: PageId) -> (ofst: u64)
    ensures
        ofst == p_id.0 * 4096,
{
    (p_id.get_id() as u64) * (PAGE_SIZE as u64)
}

/// `base` with `data` written over it from `offset` on: the bytes of
/// `data` stand at `offset`, the bytes of `base` elsewhere, and zeros
/// between the end of `base` and an `offset` beyond it.
pub open spec fn spec_overlay(base: Seq<u8>, offset: int, data: Seq<u8>) -> Seq<u8> {
    Seq::new(
        if base.len() >= offset + data.len() {
            base.len()
        } else {
            (offset + data.len()) as nat
        },
        |i: int|
            if offset <= i < offset + data.len() {
                data[i - offset]
            } else if i < base.len() {
                base[i]
            } else {
                0u8
            },
    )
}

/// Writes `data` over `base` from `offset` on.
pub fn overlay(base: &Vec<u8>, offset: usize, data: &[u8]) -> (out: Vec<u8>)
    requires
        offset + data@.len() <= usize::MAX,
    ensures
        out@ == spec_overlay(base@, offset as int, data@),
{
    let end = offset + data.len();
    let new_len = if base.len() >= end {
        base.len()
    } else {
        end
    };
    let mut out: Vec<u8> = Vec::new();
    let mut i: usize = 0;
    while i < new_len
        invariant
            i <= new_len,
            end == offset + data@.len(),
            new_len == spec_overlay(base@, offset as int, data@).len(),
            out@.len() == i,
            forall|j: int| 0 <= j < i ==> out@[j] == spec_overlay(base@, offset as int, data@)[j],
        decreases new_len - i,
    {
        if offset <= i && i < end {
            out.push(data[i - offset]);
        } else if i < base.len() {
            out.push(base[i]);
        } else {
            out.push(0u8);
        }
        i += 1;
    }
    assert(out@ =~= spec_overlay(base@, offset as int, data@));
    out
}

/// The bytes of the first `k` pages, one page after the other.
pub open spec fn concat_pages(pages: Seq<Vec<u8>>, k: nat) -> Seq<u8>
    decreases k,
{
    if k == 0 {
        Seq::empty()
    } else {
        concat_pages(pages, (k - 1) as nat) + pages[k - 1]@
    }
}

/// The read set after the first `k` pages of a read were collected: a
/// page that is neither in the write set nor in the read set yet enters
/// the read set as it was read.
pub open spec fn spec_collect_reads(
    read_map: Map<u32, CachePageView>,
    write_map: Map<u32, CachePageView>,
    p_ids: Seq<PageId>,
    pages: Seq<Vec<u8>>,
    k: nat,
) -> Map<u32, CachePageView>
    decreases k,
{
    if k == 0 {
        read_map
    } else {
        let prev = spec_collect_reads(read_map, write_map, p_ids, pages, (k - 1) as nat);
        let p = p_ids[k - 1].0;
        if !write_map.contains_key(p) && !prev.contains_key(p) {
            prev.insert(p, CachePageView { offset: 0, len: 4096, bytes: pages[k - 1]@ })
        } else {
            prev
        }
    }
}

/// Collects the bytes of the pages `p_ids`, which were read as `pages`,
/// and records in the read set each page that the statement has neither
/// written nor read before.
pub fn collect_page_bytes_base(
    p_ids: &Vec<PageId>,
    pages: &Vec<Vec<u8>>,
    read_map: &mut PageMap,
    write_map: &PageMap,
) -> (res: Vec<u8>)
    requires
        pages@.len() == p_ids@.len(),
    ensures
        res@ == concat_pages(pages@, pages@.len()),
        pages_view(final(read_map)@) == spec_collect_reads(
            pages_view(old(read_map)@),
            pages_view(write_map@),
            p_ids@,
            pages@,
            p_ids@.len(),
        ),
{
    let mut res: Vec<u8> = Vec::new();
    let mut i: usize = 0;
    while i < p_ids.len()
        invariant
            i <= p_ids.len(),
            pages@.len() == p_ids@.len(),
            res@ == concat_pages(pages@, i as nat),
            pages_view(read_map@) == spec_collect_reads(
                pages_view(old(read_map)@),
                pages_view(write_map@),
                p_ids@,
                pages@,
                i as nat,
            ),
        decreases p_ids.len() - i,
    {
        let p = p_ids[i].get_id();
        let ghost before = pages_view(read_map@);
        if write_map.get(p).is_none() {
            if read_map.get(p).is_none() {
                let cache_p = CachePage::new(0, PAGE_SIZE, pages[i].clone());
                read_map.insert(p, cache_p);
                assert(pages_view(read_map@) =~= before.insert(
                    p,
                    CachePageView { offset: 0, len: 4096, bytes: pages@[i as int]@ },
                ));
            }
        }
        res.extend_from_slice(pages[i].as_slice());
        i += 1;
    }
    res
}

/// Whether the read of page `p` needs the page from the file: the
/// statement has not read it, and has not written the whole of it.
pub open spec fn needs_fetch(
    read_map: Map<u32, CachePageView>,
    write_map: Map<u32, CachePageView>,
    p: u32,
) -> bool {
    !read_map.contains_key(p) && (write_map.contains_key(p) ==> write_map[p].len != 4096)
}

/// The pages among `p_ids` that a read needs from the file.
pub fn pages_to_fetch(
    p_ids: &Vec<PageId>,
    read_map: &PageMap,
    write_map: &PageMap,
) -> (out: Vec<PageId>)
    ensures
        out@ == p_ids@.filter(
            |p: PageId| needs_fetch(pages_view(read_map@), pages_view(write_map@), p.0),
        ),
{
    let mut out: Vec<PageId> = Vec::new();
    let ghost pred = |p: PageId| needs_fetch(pages_view(read_map@), pages_view(write_map@), p.0);
    proof {
        reveal_with_fuel(Seq::<_>::filter, 1);
        assert(p_ids@.take(0).filter(pred) =~= Seq::<PageId>::empty());
    }
    let mut i: usize = 0;
    while i < p_ids.len()
        invariant
            i <= p_ids.len(),
            pred == (|p: PageId|
                needs_fetch(pages_view(read_map@), pages_view(write_map@), p.0)),
            out@ == p_ids@.take(i as int).filter(pred),
        decreases p_ids.len() - i,
    {
        let p = p_ids[i];
        let needed = read_map.get(p.0).is_none() && match write_map.get(p.0) {
            Some(w) => w.get_len() != PAGE_SIZE,
            None => true,
        };
        proof {
            let next = p_ids@.take(i as int + 1);
            assert(next.drop_last() =~= p_ids@.take(i as int));
            assert(next.last() == p);
            reveal_with_fuel(Seq::<_>::filter, 2);
            assert(needed == pred(p));
        }
        if needed {
            out.push(p);
        }
        i += 1;
    }
    assert(p_ids@.take(i as int) =~= p_ids@);
    out
}

/// The bytes of page `p` as a read gives them: what the statement wrote,
/// over what it read before or what the file holds.
pub open spec fn spec_page_bytes(
    read_map: Map<u32, CachePageView>,
    write_map: Map<u32, CachePageView>,
    fetched: Map<u32, Seq<u8>>,
    p: u32,
) -> Seq<u8> {
    let base = if read_map.contains_key(p) {
        read_map[p].bytes
    } else {
        fetched[p]
    };
    if write_map.contains_key(p) {
        let w = write_map[p];
        if w.len == 4096 {
            w.bytes
        } else {
            spec_overlay(base, w.offset as int, w.bytes.subrange(w.offset as int, w.offset + w.len))
        }
    } else {
        base
    }
}

/// The bytes of the first `k` of the pages `p_ids` as a read gives them.
pub open spec fn spec_batch_bytes(
    read_map: Map<u32, CachePageView>,
    write_map: Map<u32, CachePageView>,
    fetched: Map<u32, Seq<u8>>,
    p_ids: Seq<PageId>,
    k: nat,
) -> Seq<u8>
    decreases k,
{
    if k == 0 {
        Seq::empty()
    } else {
        spec_batch_bytes(read_map, write_map, fetched, p_ids, (k - 1) as nat) + spec_page_bytes(
            spec_batch_reads(read_map, write_map, fetched, p_ids, (k - 1) as nat),
            write_map,
            fetched,
            p_ids[k - 1].0,
        )
    }
}

/// The read set after the first `k` of the pages `p_ids` were read: a
/// page that was needed from the file enters the read set as the file
/// holds it.
pub open spec fn spec_batch_reads(
    read_map: Map<u32, CachePageView>,
    write_map: Map<u32, CachePageView>,
    fetched: Map<u32, Seq<u8>>,
    p_ids: Seq<PageId>,
    k: nat,
) -> Map<u32, CachePageView>
    decreases k,
{
    if k == 0 {
        read_map
    } else {
        let prev = spec_batch_reads(read_map, write_map, fetched, p_ids, (k - 1) as nat);
        let p = p_ids[k - 1].0;
        if needs_fetch(prev, write_map, p) {
            prev.insert(p, CachePageView { offset: 0, len: 4096, bytes: fetched[p] })
        } else {
            prev
        }
    }
}

/// The bytes that a map of fetched pages holds, by page id.
pub open spec fn fetched_view(m: Map<u32, Vec<u8>>) -> Map<u32, Seq<u8>> {
    Map::new(|p: u32| m.contains_key(p), |p: u32| m[p]@)
}

/// Whether the range that a write touched lies within the bytes of its page.
pub open spec fn ranges_ok(write_map: Map<u32, CachePageView>) -> bool {
    forall|p: u32| #[trigger]
        write_map.contains_key(p) ==> write_map[p].offset + write_map[p].len
            <= write_map[p].bytes.len()
}

/// Collects the bytes of the pages `p_ids` for a read inside a statement
/// that keeps its writes to itself: a page that the statement wrote in
/// full is taken from the write set; one that it wrote in part is what it
/// read before, or what the file holds, with the written part over it; any
/// other is what it read before or what the file holds. `fetched` holds
/// the pages that `pages_to_fetch` asked for, and each of them enters the
/// read set.
pub fn collect_page_bytes_batch(
    p_ids: &Vec<PageId>,
    fetched: &HashMap<u32, Vec<u8>>,
    read_map: &mut PageMap,
    write_map: &PageMap,
) -> (res: Vec<u8>)
    requires
        ranges_ok(pages_view(write_map@)),
        forall|i: int|
            0 <= i < p_ids@.len() && needs_fetch(
                pages_view(old(read_map)@),
                pages_view(write_map@),
                (#[trigger] p_ids@[i]).0,
            ) ==> fetched@.contains_key(p_ids@[i].0),
    ensures
        res@ == spec_batch_bytes(
            pages_view(old(read_map)@),
            pages_view(write_map@),
            fetched_view(fetched@),
            p_ids@,
            p_ids@.len(),
        ),
        pages_view(final(read_map)@) == spec_batch_reads(
            pages_view(old(read_map)@),
            pages_view(write_map@),
            fetched_view(fetched@),
            p_ids@,
            p_ids@.len(),
        ),
{
    let mut res: Vec<u8> = Vec::new();
    let ghost r0 = pages_view(old(read_map)@);
    let ghost w = pages_view(write_map@);
    let ghost f = fetched_view(fetched@);
    let mut i: usize = 0;
    while i < p_ids.len()
        invariant
            i <= p_ids.len(),
            r0 == pages_view(old(read_map)@),
            w == pages_view(write_map@),
            f == fetched_view(fetched@),
            ranges_ok(w),
            forall|j: int|
                0 <= j < p_ids@.len() && needs_fetch(r0, w, (#[trigger] p_ids@[j]).0)
                    ==> fetched@.contains_key(p_ids@[j].0),
            forall|p: u32| r0.contains_key(p) ==> #[trigger] pages_view(read_map@).contains_key(p),
            res@ == spec_batch_bytes(r0, w, f, p_ids@, i as nat),
            pages_view(read_map@) == spec_batch_reads(r0, w, f, p_ids@, i as nat),
        decreases p_ids.len() - i,
    {
        let p = p_ids[i].get_id();
        let ghost before = pages_view(read_map@);
        proof {
            if needs_fetch(before, w, p) {
                assert(!r0.contains_key(p)) by {
                    if r0.contains_key(p) {
                        assert(pages_view(read_map@).contains_key(p));
                    }
                }
                assert(needs_fetch(r0, w, p_ids@[i as int].0));
                assert(fetched@.contains_key(p));
            }
        }
        let needed = read_map.get(p).is_none() && match write_map.get(p) {
            Some(wp) => wp.get_len() != PAGE_SIZE,
            None => true,
        };
        assert(needed == needs_fetch(before, w, p));
        if needed {
            match fetched.get(&p) {
                Some(bytes) => {
                    let new_cache_p = CachePage::new(0, PAGE_SIZE, bytes.clone());
                    read_map.insert(p, new_cache_p);
                },
                None => {},
            }
            assert(pages_view(read_map@) =~= before.insert(
                p,
                CachePageView { offset: 0, len: 4096, bytes: f[p] },
            ));
        }
        let ghost after = pages_view(read_map@);
        assert(after == spec_batch_reads(r0, w, f, p_ids@, (i + 1) as nat));
        let ghost page_bytes = spec_page_bytes(before, w, f, p);
        match write_map.get(p) {
            Some(w_cache_p) => {
                if w_cache_p.get_len() == PAGE_SIZE {
                    res.extend_from_slice(w_cache_p.get_bytes().as_slice());
                } else {
                    let offset = w_cache_p.get_offset();
                    let len = w_cache_p.get_len();
                    assert(w.contains_key(p));
                    assert(w[p] == w_cache_p@);
                    let blen = w_cache_p.get_bytes().len();
                    assert(offset + len <= blen);
                    let w_slice = vstd::slice::slice_subrange(
                        w_cache_p.get_bytes().as_slice(),
                        offset,
                        offset + len,
                    );
                    match read_map.get(p) {
                        Some(r_cache_p) => {
                            let buf = overlay(r_cache_p.get_bytes(), offset, w_slice);
                            res.extend_from_slice(buf.as_slice());
                        },
                        None => {},
                    }
                }
            },
            None => {
                match read_map.get(p) {
                    Some(cache_p) => {
                        res.extend_from_slice(cache_p.get_bytes().as_slice());
                    },
                    None => {},
                }
            },
        }
        assert(res@ =~= spec_batch_bytes(r0, w, f, p_ids@, i as nat) + page_bytes);
        i += 1;
    }
    res
}

/// The write set after the first `k` of the pages `p_ids` took their
/// part of `buf`: page `i` holds the bytes `4096 * i .. 4096 * (i + 1)`.
pub open spec fn spec_write_pages(
    write_map: Map<u32, CachePageView>,
    p_ids: Seq<PageId>,
    buf: Seq<u8>,
    k: nat,
) -> Map<u32, CachePageView>
    decreases k,
{
    if k == 0 {
        write_map
    } else {
        spec_write_pages(write_map, p_ids, buf, (k - 1) as nat).insert(
            p_ids[k - 1].0,
            CachePageView {
                offset: 0,
                len: 4096,
                bytes: buf.subrange(4096 * (k - 1), 4096 * (k as int)),
            },
        )
    }
}

/// Records a write in the write set: `buf` holds the pages `p_ids` as the
/// file has them, `input_data` is written over them from `buf_ofst` on,
/// and each of the pages enters the write set with its new bytes.
pub fn do_write_base(
    p_ids: &Vec<PageId>,
    buf: &Vec<u8>,
    buf_ofst: usize,
    write_map: &mut PageMap,
    input_data: &[u8],
)
    requires
        buf_ofst + input_data@.len() <= usize::MAX,
        buf@.len() >= 4096 * p_ids@.len(),
    ensures
        pages_view(final(write_map)@) == spec_write_pages(
            pages_view(old(write_map)@),
            p_ids@,
            spec_overlay(buf@, buf_ofst as int, input_data@),
            p_ids@.len(),
        ),
{
    let written = overlay(buf, buf_ofst, input_data);
    let ghost w0 = pages_view(old(write_map)@);
    let mut i: usize = 0;
    while i < p_ids.len()
        invariant
            i <= p_ids.len(),
            written@.len() >= 4096 * p_ids@.len(),
            pages_view(write_map@) == spec_write_pages(w0, p_ids@, written@, i as nat),
        decreases p_ids.len() - i,
    {
        let ghost before = pages_view(write_map@);
        let total = written.len();
        assert(4096 * (i + 1) <= total) by (nonlinear_arith)
            requires
                total >= 4096 * p_ids@.len(),
                i < p_ids@.len(),
        ;
        let chunk = vstd::slice::slice_to_vec(
            vstd::slice::slice_subrange(written.as_slice(), PAGE_SIZE * i, PAGE_SIZE * (i + 1)),
        );
        let cache_p = CachePage::new(0, PAGE_SIZE, chunk);
        write_map.insert(p_ids[i].get_id(), cache_p);
        assert(pages_view(write_map@) =~= before.insert(
            p_ids@[i as int].0,
            CachePageView {
                offset: 0,
                len: 4096,
                bytes: written@.subrange(4096 * i, 4096 * (i + 1)),
            },
        ));
        i += 1;
    }
}

/// The pages with their ids in front.
pub open spec fn keyed_pages(pages: Seq<Page>) -> Seq<(u32, Page)> {
    Seq::new(pages.len(), |i: int| (pages[i].p_id.0, pages[i]))
}

/// The bytes of the first `k` pages, one page after the other.
pub open spec fn concat_page_bytes(pages: Seq<(u32, Page)>, k: nat) -> Seq<u8>
    decreases k,
{
    if k == 0 {
        Seq::empty()
    } else {
        concat_page_bytes(pages, (k - 1) as nat) + pages[k - 1].1.bytes@
    }
}

/// The bytes `start .. start + amt` of the pages, one page after the
/// other in ascending order of their ids.
pub fn assemble(pages: Vec<Page>, start_p: usize, amt: usize) -> (out: Vec<u8>)
    requires
        start_p + amt <= 4096 * pages@.len(),
    ensures
        out@.len() == amt,
        exists|sorted: Seq<(u32, Page)>|
            {
                &&& sorted.to_multiset() == keyed_pages(pages@).to_multiset()
                &&& ascending(sorted)
                &&& out@ == concat_page_bytes(sorted, sorted.len()).subrange(
                    start_p as int,
                    start_p + amt,
                )
            },
{
    let mut keyed: Vec<(u32, Page)> = Vec::new();
    let ghost all_pages = pages@;
    let mut pages = pages;
    while pages.len() > 0
        invariant
            keyed@.len() + pages@.len() == all_pages.len(),
            forall|i: int| 0 <= i < pages@.len() ==> pages@[i] == all_pages[i],
            forall|i: int|
                0 <= i < keyed@.len() ==> #[trigger] keyed@[i] == keyed_pages(all_pages)[
                all_pages.len() - 1 - i],
        decreases pages@.len(),
    {
        match pages.pop() {
            Some(p) => {
                keyed.push((p.p_id.get_id(), p));
            },
            None => {},
        }
    }
    proof {
        // the pages were taken from the end: the keyed pages are the pages in reverse
        let k = keyed_pages(all_pages);
        assert(keyed@ =~= k.reverse());
        k.lemma_reverse_to_multiset();
    }
    sort_by_first(&mut keyed);
    proof {
        vstd::seq_lib::to_multiset_len(keyed@);
        vstd::seq_lib::to_multiset_len(keyed_pages(all_pages));
    }
    let mut all: Vec<u8> = Vec::new();
    let mut i: usize = 0;
    while i < keyed.len()
        invariant
            i <= keyed.len(),
            all@ == concat_page_bytes(keyed@, i as nat),
            all@.len() == 4096 * i,
        decreases keyed.len() - i,
    {
        all.extend_from_slice(keyed[i].1.bytes.as_slice());
        i += 1;
    }
    let total = all.len();
    assert(start_p + amt <= total);
    let out = vstd::slice::slice_to_vec(
        vstd::slice::slice_subrange(all.as_slice(), start_p, start_p + amt),
    );
    out
}

} // verus!
