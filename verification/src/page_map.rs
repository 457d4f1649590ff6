//! The read set and the write set of a statement: pages by page id, in a
//! `hashbrown::HashMap`.

use vstd::prelude::*;
use crate::cache_page::CachePage;

verus! {

/// Pages by page id.
#[verifier::external_body]
pub struct PageMap {
    inner: hashbrown::HashMap<u32, CachePage>,
}

/// The pages that the map holds, by page id.
pub uninterp spec fn page_map_entries(m: PageMap) -> Map<u32, CachePage>;

impl View for PageMap {
    type V = Map<u32, CachePage>;

    open spec fn view(&self) -> Map<u32, CachePage> {
        page_map_entries(*self)
    }
}

/// The map without pages.
pub open spec fn no_pages() -> Map<u32, CachePage> {
    Map::empty()
}

/// Calls `hashbrown::HashMap::new`. Trusted: the map is empty.
#[verifier::external_body]
fn hb_new() -> (made: PageMap)
    ensures
        page_map_entries(made) == no_pages(),
{
    PageMap { inner: hashbrown::HashMap::new() }
}

/// Calls `hashbrown::HashMap::get`. Trusted: the page of `p`, if the map
/// holds one.
#[verifier::external_body]
fn hb_get(m: &PageMap, p: u32) -> (r: Option<&CachePage>)
    ensures
        match r {
            Some(c) => page_map_entries(*m).contains_key(p) && *c == page_map_entries(*m)[p],
            None => !page_map_entries(*m).contains_key(p),
        },
{
    m.inner.get(&p)
}

/// Calls `hashbrown::HashMap::insert`. Trusted: `p` has the page `c`, no
/// other id is touched, and the page that `p` had is handed out.
#[verifier::external_body]
fn hb_insert(m: &mut PageMap, p: u32, c: CachePage) -> (r: Option<CachePage>)
    ensures
        page_map_entries(*final(m)) == page_map_entries(*old(m)).insert(p, c),
        match r {
            Some(c0) => page_map_entries(*old(m)).contains_key(p) && c0 == page_map_entries(
                *old(m),
            )[p],
            None => !page_map_entries(*old(m)).contains_key(p),
        },
{
    m.inner.insert(p, c)
}

/// Calls `hashbrown::HashMap::remove`. Trusted: `p` has no page, no other
/// id is touched, and the page that `p` had is handed out.
#[verifier::external_body]
fn hb_remove(m: &mut PageMap, p: u32) -> (r: Option<CachePage>)
    ensures
        page_map_entries(*final(m)) == page_map_entries(*old(m)).remove(p),
        match r {
            Some(c0) => page_map_entries(*old(m)).contains_key(p) && c0 == page_map_entries(
                *old(m),
            )[p],
            None => !page_map_entries(*old(m)).contains_key(p),
        },
{
    m.inner.remove(&p)
}

/// Calls `hashbrown::HashMap::len`. Trusted: the number of pages, which
/// is finite.
#[verifier::external_body]
fn hb_len(pages: &PageMap) -> (count: usize)
    ensures
        count == page_map_entries(*pages).len(),
{
    pages.inner.len()
}

/// Calls `hashbrown::HashMap::clear`. Trusted: the map is empty.
#[verifier::external_body]
fn hb_clear(pages: &mut PageMap)
    ensures
        page_map_entries(*final(pages)) == no_pages(),
{
    pages.inner.clear()
}

/// Calls `hashbrown::HashMap::keys` and collects the ids. Trusted: each
/// id that has a page, once, in an order that nothing is said of.
#[verifier::external_body]
fn hb_keys(m: &PageMap) -> (keys: Vec<u32>)
    ensures
        keys@.no_duplicates(),
        forall|p: u32| keys@.contains(p) <==> page_map_entries(*m).contains_key(p),
{
    m.inner.keys().map(|k| *k).collect()
}

impl PageMap {
    /// The empty map.
    pub fn new() -> (m: PageMap)
        ensures
            m@ == Map::<u32, CachePage>::empty(),
    {
        hb_new()
    }

    /// The page of `p`, if there is one.
    pub fn get(&self, p: u32) -> (r: Option<&CachePage>)
        ensures
            match r {
                Some(c) => self@.contains_key(p) && *c == self@[p],
                None => !self@.contains_key(p),
            },
    {
        hb_get(self, p)
    }

    /// Gives `p` the page `c` and hands out the page that it had.
    pub fn insert(&mut self, p: u32, c: CachePage) -> (r: Option<CachePage>)
        ensures
            final(self)@ == old(self)@.insert(p, c),
            match r {
                Some(c0) => old(self)@.contains_key(p) && c0 == old(self)@[p],
                None => !old(self)@.contains_key(p),
            },
    {
        hb_insert(self, p, c)
    }

    /// Takes the page of `p` out and hands it out.
    pub fn remove(&mut self, p: u32) -> (r: Option<CachePage>)
        ensures
            final(self)@ == old(self)@.remove(p),
            match r {
                Some(c0) => old(self)@.contains_key(p) && c0 == old(self)@[p],
                None => !old(self)@.contains_key(p),
            },
    {
        hb_remove(self, p)
    }

    /// The number of pages.
    pub fn len(&self) -> (n: usize)
        ensures
            n == self@.len(),
    {
        hb_len(self)
    }

    /// Takes every page out.
    pub fn clear(&mut self)
        ensures
            final(self)@ == Map::<u32, CachePage>::empty(),
    {
        hb_clear(self)
    }

    /// The ids that have a page, each once, in some order.
    pub fn keys(&self) -> (keys: Vec<u32>)
        ensures
            keys@.no_duplicates(),
            forall|p: u32| keys@.contains(p) <==> self@.contains_key(p),
            keys@.len() == self@.len(),
            self@.dom().finite(),
    {
        let keys = hb_keys(self);
        proof {
            assert(keys@.to_set() =~= self@.dom());
            vstd::seq_lib::seq_to_set_is_finite(keys@);
            keys@.unique_seq_to_set();
        }
        keys
    }
}

} // verus!
