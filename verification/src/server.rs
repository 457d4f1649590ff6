//! The server's side of a session: the pages that a statement read, the
//! answer to each request, and the proof at the end of the statement.

use vstd::prelude::*;
use std::collections::HashSet;
use vstd::std_specs::iter::IteratorSpec;
use crate::digest::Digest;
use crate::merkle_proof::{Proof, ProofError};
use crate::node::{MerkleNodeLoader, NodeId, StoreError};
use crate::page::PageId;
use crate::read::{ancestor, ReadContext, ReadError};
use crate::verify::{spec_query_all, spec_query_error};
use crate::vfs::{BOTH_CACHE, CONFIRM, END, NO_CACHE, QUERY};

verus! {

broadcast use vstd::std_specs::hash::group_hash_axioms;

/// Why a request was not served.
#[derive(Debug)]
pub enum ServeError {
    /// The request carries a signal that the session does not take.
    InvalidSignal,
    /// The tree lacks a node of the chain that the client showed.
    NodeMissing(NodeId),
    /// The chain that the client showed is longer than any tree is high.
    ChainTooLong,
    /// The store failed.
    Store(StoreError),
}

/// What the server sends for a request.
#[derive(Clone, Copy, Debug, PartialEq, Eq, Structural)]
pub enum Reply {
    /// The bytes of the page.
    Page(PageId),
    /// Yes, and the height and width of the highest node of the chain
    /// whose hash is the client's.
    Confirmed(u32, u32),
    /// No, and the bytes of the page.
    Refuted(PageId),
    /// The proof for the pages read.
    End,
}

/// The number of hashes at the start of the chain `digs` that are the
/// hashes of the nodes above page `p`, the leaf first, among the first
/// `k`: the chain is followed until a hash differs.
pub open spec fn spec_matching(store: Map<NodeId, Seq<u8>>, p: u32, digs: Seq<Digest>, k: nat) -> nat
    decreases k,
{
    if k == 0 {
        0
    } else {
        let m = spec_matching(store, p, digs, (k - 1) as nat);
        if m == k - 1 && store[ancestor(p, (k - 1) as u32)] == digs[k - 1]@ {
            k
        } else {
            m
        }
    }
}

/// Whether the matching of the chain `digs` reaches the node of height
/// `j` above page `p` and the tree lacks that node: every hash before it
/// is the tree's.
pub open spec fn lacks_node_at(store: Map<NodeId, Seq<u8>>, p: u32, digs: Seq<Digest>, j: nat) -> bool {
    &&& j < digs.len()
    &&& spec_matching(store, p, digs, j) == j
    &&& !store.contains_key(ancestor(p, j as u32))
}

/// Whether `id` is a node above page `p` that the matching of the chain
/// reaches and the tree lacks.
pub open spec fn chain_lacks(store: Map<NodeId, Seq<u8>>, p: u32, digs: Seq<Digest>, id: NodeId) -> bool {
    exists|j: nat| #[trigger] lacks_node_at(store, p, digs, j) && id == ancestor(p, j as u32)
}

/// Matches the chain of hashes that a client holds above page `p_id`
/// against the tree: whether the hash of the leaf is the client's, and
/// the height and width of the highest node up to which the chain holds.
/// A chain longer than any tree is high is refused before a node is
/// loaded. The nodes above the page are loaded from the leaf upward, as
/// far as the chain holds; a node that the tree lacks ends the matching
/// with that node as the error.
pub fn confirm<L: MerkleNodeLoader>(loader: &L, p_id: PageId, digs: &Vec<Digest>) -> (r: Result<
    (bool, (u32, u32)),
    ServeError,
>)
    ensures
        digs@.len() > u32::MAX <==> (r matches Err(ServeError::ChainTooLong)),
        digs@.len() == 0 ==> r is Ok,
        digs@.len() <= u32::MAX && loader.always_answers() && (forall|j: nat|
            !#[trigger] lacks_node_at(loader.nodes()@, p_id.0, digs@, j)) ==> r is Ok,
        match r {
            Ok((flag, pos)) => {
                let m = spec_matching(loader.nodes()@, p_id.0, digs@, digs@.len());
                &&& flag == (m > 0)
                &&& m > 0 ==> NodeId(pos.0, pos.1) == ancestor(p_id.0, (m - 1) as u32)
                &&& m == 0 ==> pos == (0u32, 0u32)
                &&& forall|j: u32|
                    j < digs@.len() && j <= m ==> loader.nodes()@.contains_key(
                        #[trigger] ancestor(p_id.0, j),
                    )
            },
            Err(ServeError::NodeMissing(id)) => chain_lacks(loader.nodes()@, p_id.0, digs@, id),
            Err(ServeError::ChainTooLong) => true,
            Err(ServeError::Store(_)) => !loader.always_answers() && digs@.len() > 0,
            Err(ServeError::InvalidSignal) => false,
        },
{
    if digs.len() > u32::MAX as usize {
        return Err(ServeError::ChainTooLong);
    }
    let mut cur_id = NodeId::from_page_id(p_id);
    let mut flag = false;
    let mut pos: (u32, u32) = (0, 0);
    let ghost store = loader.nodes()@;
    proof {
        crate::tree_model::lemma_ancestor_width(p_id.0, 0);
        vstd::arithmetic::power2::lemma2_to64();
    }
    let mut i: usize = 0;
    while i < digs.len()
        invariant_except_break
            i <= digs.len() <= u32::MAX,
            store == loader.nodes()@,
            cur_id == ancestor(p_id.0, i as u32),
            spec_matching(store, p_id.0, digs@, i as nat) == i,
            flag == (i > 0),
            i > 0 ==> NodeId(pos.0, pos.1) == ancestor(p_id.0, (i - 1) as u32),
            i == 0 ==> pos == (0u32, 0u32),
            forall|j: u32| j < i ==> store.contains_key(#[trigger] ancestor(p_id.0, j)),
        ensures
            i <= digs.len() <= u32::MAX,
            store == loader.nodes()@,
            ({
                let m = spec_matching(store, p_id.0, digs@, digs@.len());
                &&& flag == (m > 0)
                &&& m > 0 ==> NodeId(pos.0, pos.1) == ancestor(p_id.0, (m - 1) as u32)
                &&& m == 0 ==> pos == (0u32, 0u32)
                &&& forall|j: u32|
                    j < digs@.len() && j <= m ==> store.contains_key(#[trigger] ancestor(p_id.0, j))
            }),
        decreases digs.len() - i,
    {
        let n = match loader.load_node(&cur_id) {
            Ok(Some(n)) => n,
            Ok(None) => {
                proof {
                    assert(lacks_node_at(store, p_id.0, digs@, i as nat));
                }
                return Err(ServeError::NodeMissing(cur_id));
            },
            Err(e) => {
                return Err(ServeError::Store(e));
            },
        };
        let hash = n.get_hash();
        if hash == digs[i] {
            pos = (cur_id.get_height(), cur_id.get_width());
            flag = true;
        } else {
            proof {
                lemma_matching_stops(store, p_id.0, digs@, i as nat, digs@.len());
            }
            break ;
        }
        if i + 1 < digs.len() {
            proof {
                crate::tree_model::lemma_ancestor_parent(p_id.0, i as u32);
            }
            cur_id = cur_id.get_parent_id();
        } else {
            i += 1;
            break ;
        }
        i += 1;
    }
    Ok((flag, pos))
}

/// **A confirmed hash is the tree's.** Each hash of the chain up to the
/// place where the chain stops is the hash that the tree holds for the
/// node of that height above the page.
pub proof fn lemma_matching_is_equal(
    store: Map<NodeId, Seq<u8>>,
    p: u32,
    digs: Seq<Digest>,
    k: nat,
    j: nat,
)
    requires
        j < spec_matching(store, p, digs, k),
    ensures
        spec_matching(store, p, digs, k) <= k,
        store[ancestor(p, j as u32)] == digs[j as int]@,
    decreases k,
{
    if k > 0 {
        let m = spec_matching(store, p, digs, (k - 1) as nat);
        if j < m {
            lemma_matching_is_equal(store, p, digs, (k - 1) as nat, j);
        } else {
            lemma_matching_bound(store, p, digs, (k - 1) as nat);
        }
    }
}

/// The chain stops within the part that was looked at.
pub proof fn lemma_matching_bound(store: Map<NodeId, Seq<u8>>, p: u32, digs: Seq<Digest>, k: nat)
    ensures
        spec_matching(store, p, digs, k) <= k,
    decreases k,
{
    if k > 0 {
        lemma_matching_bound(store, p, digs, (k - 1) as nat);
    }
}

/// Where the chain stops at `m`, it stops there for every longer part
/// of the chain.
pub proof fn lemma_matching_stops(
    store: Map<NodeId, Seq<u8>>,
    p: u32,
    digs: Seq<Digest>,
    m: nat,
    k: nat,
)
    requires
        m < k,
        spec_matching(store, p, digs, m) == m,
        store[ancestor(p, m as u32)] != digs[m as int]@,
    ensures
        spec_matching(store, p, digs, k) == m,
    decreases k,
{
    if k > m + 1 {
        lemma_matching_stops(store, p, digs, m, (k - 1) as nat);
    }
}

/// A session of the server: whether the client has a cache, and the
/// pages that the statement has read so far.
pub struct ServerSession {
    pub with_cache: bool,
    pub pids: HashSet<u32>,
}

impl ServerSession {
    /// Opens a session on the client's first signal; no session where the
    /// signal names none.
    pub fn open(flag: u32) -> (s: Option<ServerSession>)
        ensures
            flag == NO_CACHE ==> (s matches Some(x) && !x.with_cache && x.pids@ == Set::<
                u32,
            >::empty()),
            flag == BOTH_CACHE ==> (s matches Some(x) && x.with_cache && x.pids@ == Set::<
                u32,
            >::empty()),
            flag != NO_CACHE && flag != BOTH_CACHE ==> s is None,
    {
        if flag == NO_CACHE {
            Some(ServerSession { with_cache: false, pids: HashSet::new() })
        } else if flag == BOTH_CACHE {
            Some(ServerSession { with_cache: true, pids: HashSet::new() })
        } else {
            None
        }
    }

    /// Serves one request. A query is answered with the page; a chain of
    /// hashes, which only a client with a cache may show, is answered with
    /// the node up to which it holds, or with the page where not even the
    /// leaf's hash is the client's. Either way the page counts as read.
    /// The end of the statement is answered with the proof, see `finish`.
    pub fn handle<L: MerkleNodeLoader>(
        &mut self,
        loader: &L,
        flag: u32,
        p_id: PageId,
        digs: &Vec<Digest>,
    ) -> (r: Result<Reply, ServeError>)
        ensures
            final(self).with_cache == old(self).with_cache,
            r is Err ==> final(self).pids@ == old(self).pids@,
            flag == END ==> r == Ok::<Reply, ServeError>(Reply::End) && final(self).pids@ == old(
                self,
            ).pids@,
            flag == QUERY ==> r == Ok::<Reply, ServeError>(Reply::Page(p_id)) && final(self).pids@
                == old(self).pids@.insert(p_id.0),
            flag != END && flag != QUERY && !(flag == CONFIRM && old(self).with_cache) ==> r matches Err(
                ServeError::InvalidSignal,
            ),
            flag == CONFIRM && old(self).with_cache ==> {
                &&& digs@.len() > u32::MAX <==> (r matches Err(ServeError::ChainTooLong))
                &&& digs@.len() == 0 ==> r is Ok
                &&& digs@.len() <= u32::MAX && loader.always_answers() && (forall|j: nat|
                    !#[trigger] lacks_node_at(loader.nodes()@, p_id.0, digs@, j)) ==> r is Ok
                &&& match r {
                    Ok(reply) => {
                        let m = spec_matching(loader.nodes()@, p_id.0, digs@, digs@.len());
                        &&& final(self).pids@ == old(self).pids@.insert(p_id.0)
                        &&& m == 0 ==> reply == Reply::Refuted(p_id)
                        &&& m > 0 ==> reply == Reply::Confirmed(
                            ancestor(p_id.0, (m - 1) as u32).0,
                            ancestor(p_id.0, (m - 1) as u32).1,
                        )
                    },
                    Err(ServeError::NodeMissing(id)) => chain_lacks(
                        loader.nodes()@,
                        p_id.0,
                        digs@,
                        id,
                    ),
                    Err(ServeError::ChainTooLong) => true,
                    Err(ServeError::Store(_)) => !loader.always_answers() && digs@.len() > 0,
                    Err(ServeError::InvalidSignal) => false,
                }
            },
    {
        if flag == END {
            Ok(Reply::End)
        } else if flag == CONFIRM && self.with_cache {
            let (match_flag, pos) = match confirm(loader, p_id, digs) {
                Ok(r) => r,
                Err(e) => {
                    return Err(e);
                },
            };
            self.pids.insert(p_id.get_id());
            if match_flag {
                Ok(Reply::Confirmed(pos.0, pos.1))
            } else {
                Ok(Reply::Refuted(p_id))
            }
        } else if flag == QUERY {
            self.pids.insert(p_id.get_id());
            Ok(Reply::Page(p_id))
        } else {
            Err(ServeError::InvalidSignal)
        }
    }

    /// The proof for the pages that the statement read, by one query
    /// after the other in some order of the pages.
    pub fn finish<L: MerkleNodeLoader>(&self, loader: &L, root_id: Option<NodeId>) -> (r: Result<
        Proof,
        ReadError,
    >)
        ensures
            exists|order: Seq<u32>|
                {
                    &&& order.no_duplicates()
                    &&& order.to_set() == self.pids@
                    &&& match r {
                        Ok(p) => root_id is Some && p.tree() == spec_query_all(
                            loader.nodes()@,
                            root_id->Some_0,
                            page_ids(order),
                            order.len(),
                        ),
                        Err(ReadError::EmptyTree) => root_id is None,
                        Err(ReadError::Store(_)) => !loader.always_answers(),
                        Err(ReadError::MissingLeaf) => lacks_leaf(loader.nodes()@, self.pids@),
                        Err(ReadError::Proof(e)) => root_id is Some && stopped_by(
                            loader.nodes()@,
                            root_id->Some_0,
                            order,
                            e,
                        ),
                    }
                },
            root_id is None ==> r is Err,
            root_id is Some && self.pids@.len() == 0 ==> r is Ok,
    {
        let ghost order: Seq<u32> = self.pids.iter().remaining().unref();
        proof {
            assert(order.no_duplicates()) by {
                let raw = self.pids.iter().remaining();
                assert(raw.no_duplicates());
                assert forall|i: int, j: int|
                    0 <= i < order.len() && 0 <= j < order.len() && i != j implies order[i]
                    != order[j] by {
                    assert(raw[i] != raw[j]);
                }
            }
            assert(order.to_set() == self.pids@);
        }
        let mut ctx = match ReadContext::new(loader, root_id) {
            Ok(c) => c,
            Err(e) => {
                return Err(e);
            },
        };
        for p in it: self.pids.iter()
            invariant
                it.seq().unref() == order,
                order.to_set() == self.pids@,
                order.no_duplicates(),
                root_id is Some,
                ctx.loader() == loader,
                ctx.root() == root_id,
                ctx.tree() == spec_query_all(
                    loader.nodes()@,
                    root_id->Some_0,
                    page_ids(order),
                    it.index() as nat,
                ),
        {
            assert(order[it.index() as int] == *p);
            match ctx.query(PageId(*p)) {
                Ok(_) => {},
                Err(e) => {
                    proof {
                        assert(order.contains(*p));
                        assert(order.to_set().contains(*p));
                        if let ReadError::Proof(pe) = e {
                            assert(spec_query_error(
                                loader.nodes()@,
                                root_id->Some_0,
                                page_ids(order),
                                it.index() as nat,
                            ) == Some(pe));
                        }
                    }
                    return Err(e);
                },
            }
        }
        Ok(ctx.into_proof())
    }
}

/// Whether the store lacks the leaf of one of the pages.
pub open spec fn lacks_leaf(store: Map<NodeId, Seq<u8>>, pids: Set<u32>) -> bool {
    exists|p: u32| #[trigger] pids.contains(p) && !store.contains_key(NodeId(0, p))
}

/// Whether one of the queries of the pages of `order`, one after the
/// other, is stopped by `e` on its way through the proof built so far.
pub open spec fn stopped_by(
    store: Map<NodeId, Seq<u8>>,
    root: NodeId,
    order: Seq<u32>,
    e: ProofError,
) -> bool {
    exists|k: nat|
        k < order.len() && #[trigger] spec_query_error(store, root, page_ids(order), k) == Some(e)
}

/// The pages of `order` as page ids.
pub open spec fn page_ids(order: Seq<u32>) -> Seq<PageId> {
    Seq::new(order.len(), |i: int| PageId(order[i]))
}

} // verus!
