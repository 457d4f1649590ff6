//! The verification of a statement: the pages it read are checked against
//! the trusted root through the proof, and the pages it wrote are applied
//! to the tree, which gives the new root.

use vstd::prelude::*;
use std::collections::HashMap;
use vstd::std_specs::iter::IteratorSpec;
use crate::cache_page::CachePage;
use crate::digest::{blake2b_256, hash_collision, Digest, Digestible};
use crate::hash::{leaf_hash, spec_leaf_hash};
use crate::merkle_proof::{side_tree, Proof, ProofError, ProofTree, SubProof};
use crate::node::{MerkleNodeLoader, NodeId};
use crate::page::PageId;
use crate::page_map::PageMap;
use crate::read::{ReadContext, ReadError};
use crate::utils::compare_with_root;
use crate::write::{root_height, Apply, UpdateError};
use crate::write_set::{
    is_updates_of, spec_apply_fails, spec_apply_root, spec_apply_store, verify_write_map_base,
};

verus! {

broadcast use vstd::std_specs::hash::group_hash_axioms;

/// Why a statement was not verified.
#[derive(Debug)]
pub enum VerifyError {
    /// The proof does not stand for the pages read.
    Proof(ProofError),
    /// The pages written could not be applied.
    Update(UpdateError),
}

/// Whether the proof stands for the read set: its root hash is the
/// trusted one, and for each page it holds the leaf hash of the page's
/// id and of the digest that the statement saw.
pub open spec fn accepts(
    proof: Proof,
    height: u32,
    reads: Map<u32, Seq<u8>>,
    root_hash: Seq<u8>,
) -> bool {
    &&& proof.tree().hash() == Some(root_hash)
    &&& forall|p: u32| #[trigger]
        reads.contains_key(p) ==> proof.spec_value_hash(p, height) == Ok::<Seq<u8>, ProofError>(
            spec_leaf_hash(p, reads[p]),
        )
}

/// The digests of a read set.
pub open spec fn digest_views(m: Map<u32, Digest>) -> Map<u32, Seq<u8>> {
    Map::new(|p: u32| m.contains_key(p), |p: u32| m[p]@)
}

/// The digests of the pages of a read set.
pub open spec fn page_digests(m: Map<u32, CachePage>) -> Map<u32, Seq<u8>> {
    Map::new(|p: u32| m.contains_key(p), |p: u32| blake2b_256(m[p].bytes@))
}

/// What goes wrong with one page of the read set, if anything.
pub open spec fn page_error(proof: Proof, height: u32, p: u32, digest: Seq<u8>) -> Option<
    ProofError,
> {
    match proof.spec_value_hash(p, height) {
        Ok(h) => if h == spec_leaf_hash(p, digest) {
            None
        } else {
            Some(ProofError::HashMismatch)
        },
        Err(e) => Some(e),
    }
}

/// Checks the pages of `map` against the proof: the root hash first, then
/// each page. An error of a page is reported for a page that has it.
fn check_pages(height: u32, proof: &Proof, map: &HashMap<u32, Digest>, root_hash: Digest) -> (r:
    Result<(), ProofError>)
    ensures
        r is Ok <==> accepts(*proof, height, digest_views(map@), root_hash@),
        r matches Err(e) ==> {
            ||| proof.root is None && e == ProofError::EmptyProof
            ||| proof.root is Some && proof.tree().hash() != Some(root_hash@) && e
                == ProofError::HashMismatch
            ||| exists|p: u32| #[trigger]
                map@.contains_key(p) && page_error(*proof, height, p, map@[p]@) == Some(e)
        },
{
    let computed_root_hash = match proof.root_hash() {
        Ok(h) => h,
        Err(e) => {
            return Err(e);
        },
    };
    match compare_with_root(computed_root_hash, root_hash) {
        Ok(()) => {},
        Err(e) => {
            return Err(e);
        },
    }
    let ghost kv: Seq<(u32, Digest)> = map.iter().remaining().unref();
    for pair in it: map.iter()
        invariant
            it.seq().unref() == kv,
            kv.to_set() == map@.kv_pairs(),
            proof.tree().hash() == Some(root_hash@),
            forall|j: int|
                0 <= j < it.index() ==> page_error(*proof, height, (#[trigger] kv[j]).0, kv[j].1@)
                    is None,
    {
        let (p_id, dig) = pair;
        proof {
            let j = it.index() as int;
            assert(kv[j] == (*p_id, *dig));
            assert(kv.to_set().contains(kv[j]));
            assert(map@.kv_pairs().contains((*p_id, *dig)));
        }
        let page = PageId(*p_id);
        let target_hash = leaf_hash(&page, dig);
        match proof.verify_val(target_hash, page, height) {
            Ok(()) => {},
            Err(e) => {
                proof {
                    assert(map@.contains_key(*p_id));
                    assert(digest_views(map@).contains_key(*p_id));
                    assert(page_error(*proof, height, *p_id, map@[*p_id]@) == Some(e));
                }
                return Err(e);
            },
        }
    }
    proof {
        assert forall|p: u32| #[trigger] map@.contains_key(p) implies proof.spec_value_hash(
            p,
            height,
        ) == Ok::<Seq<u8>, ProofError>(spec_leaf_hash(p, digest_views(map@)[p])) by {
            assert(map@.kv_pairs().contains((p, map@[p])));
            assert(kv.to_set().contains((p, map@[p])));
            let j = choose|j: int| 0 <= j < kv.len() && kv[j] == (p, map@[p]);
            assert(page_error(*proof, height, kv[j].0, kv[j].1@) is None);
        }
    }
    Ok(())
}

/// Checks what a statement read: where it read anything, the root hash
/// of the proof is the trusted one, and the proof holds each page with
/// the digest that the statement saw.
pub fn verify(height: u32, proof: &Proof, map: &HashMap<u32, Digest>, root_hash: Digest) -> (r:
    Result<(), ProofError>)
    ensures
        map@.len() == 0 ==> r is Ok,
        map@.len() != 0 ==> (r is Ok <==> accepts(
            *proof,
            height,
            digest_views(map@),
            root_hash@,
        )),
        r matches Err(e) ==> {
            ||| proof.root is None && e == ProofError::EmptyProof
            ||| proof.root is Some && proof.tree().hash() != Some(root_hash@) && e
                == ProofError::HashMismatch
            ||| exists|p: u32| #[trigger]
                map@.contains_key(p) && page_error(*proof, height, p, map@[p]@) == Some(e)
        },
{
    if !map.is_empty() {
        check_pages(height, proof, map, root_hash)
    } else {
        proof {
            assert(map@.len() == 0);
        }
        Ok(())
    }
}

/// The digests of the pages of a read set, by page id.
pub fn read_digests(read_map: &PageMap) -> (out: HashMap<u32, Digest>)
    ensures
        digest_views(out@) == page_digests(read_map@),
{
    let mut out: HashMap<u32, Digest> = HashMap::new();
    let keys = read_map.keys();
    let mut i: usize = 0;
    while i < keys.len()
        invariant
            i <= keys.len(),
            forall|p: u32| keys@.contains(p) <==> read_map@.contains_key(p),
            forall|p: u32| #[trigger]
                out@.contains_key(p) <==> exists|j: int| 0 <= j < i && keys@[j] == p,
            forall|p: u32| #[trigger]
                out@.contains_key(p) ==> read_map@.contains_key(p) && out@[p]@ == blake2b_256(
                    read_map@[p].bytes@,
                ),
        decreases keys.len() - i,
    {
        let p = keys[i];
        assert(keys@.contains(p));
        match read_map.get(p) {
            Some(cache_p) => {
                out.insert(p, cache_p.to_digest());
            },
            None => {},
        }
        i += 1;
    }
    proof {
        assert forall|p: u32| read_map@.contains_key(p) implies out@.contains_key(p) by {
            assert(keys@.contains(p));
            let j = choose|j: int| 0 <= j < keys@.len() && keys@[j] == p;
            assert(keys@[j] == p);
        }
        assert(digest_views(out@) =~= page_digests(read_map@));
    }
    out
}

/// Checks the pages that a statement read against the proof and the
/// trusted root.
pub fn verify_read_map(
    read_map: &PageMap,
    proof: &Proof,
    old_root_hash: Digest,
    old_r_id: NodeId,
) -> (r: Result<(), ProofError>)
    ensures
        r is Ok <==> accepts(*proof, old_r_id.0, page_digests(read_map@), old_root_hash@),
        r matches Err(e) ==> {
            ||| proof.root is None && e == ProofError::EmptyProof
            ||| proof.root is Some && proof.tree().hash() != Some(old_root_hash@) && e
                == ProofError::HashMismatch
            ||| exists|p: u32| #[trigger]
                read_map@.contains_key(p) && page_error(
                    *proof,
                    old_r_id.0,
                    p,
                    blake2b_256(read_map@[p].bytes@),
                ) == Some(e)
        },
{
    let digests = read_digests(read_map);
    let r = check_pages(old_r_id.get_height(), proof, &digests, old_root_hash);
    proof {
        if let Err(e) = r {
            if exists|p: u32| #[trigger]
                digests@.contains_key(p) && page_error(*proof, old_r_id.0, p, digests@[p]@)
                    == Some(e) {
                let p = choose|p: u32| #[trigger]
                    digests@.contains_key(p) && page_error(*proof, old_r_id.0, p, digests@[p]@)
                        == Some(e);
                assert(digest_views(digests@).contains_key(p));
                assert(page_digests(read_map@).contains_key(p));
                assert(digest_views(digests@)[p] == page_digests(read_map@)[p]);
                assert(read_map@.contains_key(p));
            }
        }
    }
    r
}

/// The number of bytes to keep ready for the proof of `num_p` pages of
/// a tree with the root `root_id`.
pub fn predicate_proof_len(num_p: usize, root_id: NodeId) -> (len: usize)
    requires
        (root_id.0 + 2) * num_p * 32 <= usize::MAX,
    ensures
        len == (root_id.0 + 2) * num_p * 32,
{
    let height = root_id.get_height();
    if num_p == 0 {
        assert((height + 2) * 0 * 32 == 0) by (nonlinear_arith);
        return 0;
    }
    assert((height + 2) * num_p <= (height + 2) * num_p * 32) by (nonlinear_arith);
    assert(height + 2 <= (height + 2) * num_p) by (nonlinear_arith)
        requires
            num_p >= 1,
    ;
    let num_dig = (height as usize + 2) * num_p;
    num_dig * 32
}

/// Builds the proof for the pages `p_ids` of the tree with the root
/// `root_id`, by one query after the other.
pub fn gen_proof<L: MerkleNodeLoader>(loader: &L, root_id: Option<NodeId>, p_ids: &Vec<PageId>) -> (r:
    Result<Proof, ReadError>)
    ensures
        r matches Ok(p) ==> root_id is Some && p.tree() == spec_query_all(
            loader.nodes()@,
            root_id->Some_0,
            p_ids@,
            p_ids@.len(),
        ),
        r matches Err(ReadError::EmptyTree) ==> root_id is None,
        r matches Err(ReadError::Store(_)) ==> !loader.always_answers(),
        r matches Err(ReadError::MissingLeaf) ==> exists|i: int|
            0 <= i < p_ids@.len() && !loader.nodes()@.contains_key(
                NodeId(0, (#[trigger] p_ids@[i]).0),
            ),
        r matches Err(ReadError::Proof(e)) ==> root_id is Some && exists|k: nat|
            k < p_ids@.len() && #[trigger] spec_query_error(
                loader.nodes()@,
                root_id->Some_0,
                p_ids@,
                k,
            ) == Some(e),
        root_id is None ==> r is Err,
        root_id is Some && p_ids@.len() == 0 ==> r is Ok,
        root_id is Some && loader.always_answers() && (forall|i: int|
            0 <= i < p_ids@.len() ==> loader.nodes()@.contains_key(
                NodeId(0, (#[trigger] p_ids@[i]).0),
            )) && (forall|k: nat|
            k < p_ids@.len() ==> #[trigger] spec_query_error(
                loader.nodes()@,
                root_id->Some_0,
                p_ids@,
                k,
            ) is None) ==> r is Ok,
{
    let mut ctx = match ReadContext::new(loader, root_id) {
        Ok(c) => c,
        Err(e) => {
            return Err(e);
        },
    };
    let mut i: usize = 0;
    while i < p_ids.len()
        invariant
            i <= p_ids.len(),
            root_id is Some,
            ctx.loader() == loader,
            ctx.root() == root_id,
            ctx.tree() == spec_query_all(loader.nodes()@, root_id->Some_0, p_ids@, i as nat),
        decreases p_ids.len() - i,
    {
        match ctx.query(p_ids[i]) {
            Ok(_) => {},
            Err(e) => {
                proof {
                    if e is MissingLeaf {
                        assert(!loader.nodes()@.contains_key(NodeId(0, p_ids@[i as int].0)));
                    }
                    if let ReadError::Proof(pe) = e {
                        assert(spec_query_error(
                            loader.nodes()@,
                            root_id->Some_0,
                            p_ids@,
                            i as nat,
                        ) == Some(pe));
                    }
                }
                return Err(e);
            },
        }
        i += 1;
    }
    Ok(ctx.into_proof())
}

/// The proof after the first `k` of the pages were queried, one after
/// the other.
pub open spec fn spec_query_all(
    store: Map<NodeId, Seq<u8>>,
    root: NodeId,
    p_ids: Seq<PageId>,
    k: nat,
) -> crate::merkle_proof::ProofTree
    decreases k,
{
    if k == 0 {
        crate::merkle_proof::ProofTree::Absent
    } else {
        crate::read::spec_query(
            spec_query_all(store, root, p_ids, (k - 1) as nat),
            store,
            root,
            p_ids[k - 1].0,
        )
    }
}

/// What stops the query of the page at index `k`, after the pages before
/// it were queried, on its way through the proof built so far, if
/// anything does.
pub open spec fn spec_query_error(
    store: Map<NodeId, Seq<u8>>,
    root: NodeId,
    p_ids: Seq<PageId>,
    k: nat,
) -> Option<ProofError> {
    let t = spec_query_all(store, root, p_ids, k);
    if t is Absent {
        None
    } else {
        match t.search(NodeId(0, 1), crate::read::id_path(p_ids[k as int].0, root.0)) {
            Ok(_) => None,
            Err(e) => Some(e),
        }
    }
}

/// Whether the verification of a statement needs the proof: the
/// statement read pages, and the tree has a root.
pub fn needs_proof(read_map: &PageMap, root_id: Option<NodeId>) -> (r: bool)
    ensures
        r == (read_map@.len() > 0 && root_id is Some),
{
    read_map.len() > 0 && root_id.is_some()
}

/// Verifies a statement and applies what it wrote. Where the statement
/// read pages of a tree with a root, `proof` must stand for them against
/// the trusted root hash. The pages written are then applied to the tree
/// in ascending order of their ids, which gives the new root and the nodes
/// to write. Whatever comes of it, the read set and the write set are
/// empty afterwards.
pub fn verify_then_update<L: MerkleNodeLoader>(
    loader: &L,
    root_id: Option<NodeId>,
    root_hash: Digest,
    proof: &Proof,
    read_map: &mut PageMap,
    write_map: &mut PageMap,
) -> (r: Result<(Vec<(PageId, Digest)>, Apply), VerifyError>)
    ensures
        final(read_map)@ == Map::<u32, CachePage>::empty(),
        final(write_map)@ == Map::<u32, CachePage>::empty(),
        ({
            let checked = old(read_map)@.len() > 0 && root_id is Some;
            let accepted = accepts(
                *proof,
                root_height(root_id),
                page_digests(old(read_map)@),
                root_hash@,
            );
            &&& (checked && !accepted <==> (r matches Err(VerifyError::Proof(_))))
            &&& !(checked && !accepted) && old(write_map)@.len() == 0 ==> r is Ok
            &&& match r {
                Ok((modif, a)) => {
                    &&& is_updates_of(modif@, old(write_map)@)
                    &&& a.root_id == spec_apply_root(root_id, modif@, modif@.len())
                    &&& a.hashes() == crate::write_set::spec_apply_pending(
                        loader.nodes()@,
                        root_id,
                        modif@,
                        modif@.len(),
                    )
                    &&& loader.nodes()@.union_prefer_right(a.hashes()) == spec_apply_store(
                        loader.nodes()@,
                        root_id,
                        modif@,
                        modif@.len(),
                    )
                },
                Err(VerifyError::Update(UpdateError::Store(_))) => !loader.always_answers(),
                Err(VerifyError::Update(UpdateError::MissingRoot)) => exists|modif: Seq<
                    (PageId, Digest),
                >| #[trigger]
                    is_updates_of(modif, old(write_map)@) && spec_apply_fails(
                        loader.nodes()@,
                        root_id,
                        modif,
                        modif.len(),
                    ),
                Err(VerifyError::Proof(_)) => true,
            }
        }),
{
    if needs_proof(read_map, root_id) {
        let r_id = match root_id {
            Some(id) => id,
            None => NodeId::new(0, 0),
        };
        match verify_read_map(read_map, proof, root_hash, r_id) {
            Ok(()) => {},
            Err(e) => {
                read_map.clear();
                write_map.clear();
                return Err(VerifyError::Proof(e));
            },
        }
    }
    let (modif, res) = verify_write_map_base(loader, write_map, root_id);
    read_map.clear();
    proof {
        assert(is_updates_of(modif@, old(write_map)@));
    }
    match res {
        Ok(a) => Ok((modif, a)),
        Err(e) => Err(VerifyError::Update(e)),
    }
}

/// Why the root of the tree could not be had.
#[derive(Debug)]
pub enum RootError {
    /// The tree has no root.
    NoRoot,
    /// The store lacks the node of the root.
    RootMissing,
    /// The store failed.
    Store(crate::node::StoreError),
}

/// The hash of the root of the tree.
pub fn get_root<L: MerkleNodeLoader>(loader: &L, root_id: Option<NodeId>) -> (r: Result<
    Digest,
    RootError,
>)
    ensures
        match r {
            Ok(h) => root_id is Some && loader.nodes()@.contains_key(root_id->Some_0) && h@
                == loader.nodes()@[root_id->Some_0],
            Err(RootError::NoRoot) => root_id is None,
            Err(RootError::RootMissing) => root_id is Some && !loader.nodes()@.contains_key(
                root_id->Some_0,
            ),
            Err(RootError::Store(_)) => root_id is Some && !loader.always_answers(),
        },
{
    let id = match root_id {
        Some(id) => id,
        None => {
            return Err(RootError::NoRoot);
        },
    };
    match loader.load_node(&id) {
        Ok(Some(n)) => Ok(n.get_hash()),
        Ok(None) => Err(RootError::RootMissing),
        Err(e) => Err(RootError::Store(e)),
    }
}

/// The root of the tree and its hash; a tree without root has the zero
/// digest for its hash.
pub fn get_origin_root<L: MerkleNodeLoader>(loader: &L, root_id: Option<NodeId>) -> (r: Result<
    (Option<NodeId>, Digest),
    RootError,
>)
    ensures
        match r {
            Ok((id, h)) => id == root_id && match root_id {
                Some(root) => loader.nodes()@.contains_key(root) && h@ == loader.nodes()@[root],
                None => h@ == Seq::new(32, |i: int| 0u8),
            },
            Err(RootError::NoRoot) => false,
            Err(RootError::RootMissing) => root_id is Some && !loader.nodes()@.contains_key(
                root_id->Some_0,
            ),
            Err(RootError::Store(_)) => root_id is Some && !loader.always_answers(),
        },
{
    match root_id {
        Some(_) => match get_root(loader, root_id) {
            Ok(h) => Ok((root_id, h)),
            Err(e) => Err(e),
        },
        None => Ok((None, Digest::default())),
    }
}

/// The ids of the first `k` pages.
pub open spec fn first_pages(p_ids: Seq<PageId>, k: nat) -> Set<u32>
    decreases k,
{
    if k == 0 {
        Set::empty()
    } else {
        first_pages(p_ids, (k - 1) as nat).insert(p_ids[k - 1].0)
    }
}

/// **The proof of a run of queries verifies.** Where every node above
/// the leaves has the hash of its children, and the store holds every
/// node above each of the pages up to the root, the proof that queries of
/// the pages build, one after the other, is a proof for those pages: its
/// root hash is the hash of the root, and it holds for each of the pages
/// the hash of its leaf. No query of the run is stopped on its way through
/// the proof, and the store has the leaf of each page.
pub proof fn lemma_queries_build_proof(
    store: Map<NodeId, Seq<u8>>,
    root: NodeId,
    p_ids: Seq<PageId>,
    k: nat,
)
    requires
        crate::tree_model::hash_consistent(store),
        k <= p_ids.len(),
        forall|i: int|
            0 <= i < k ==> crate::proof_model::path_held(store, root, (#[trigger] p_ids[i]).0),
    ensures
        k > 0 ==> crate::proof_model::proof_ok(
            spec_query_all(store, root, p_ids, k),
            store,
            root,
            first_pages(p_ids, k),
        ),
        k > 0 ==> spec_query_all(store, root, p_ids, k).hash() == Some(store[root]),
        forall|i: int|
            0 <= i < k ==> spec_query_all(store, root, p_ids, k).value(
                crate::merkle_proof::idx_path((#[trigger] p_ids[i]).0 as nat, root.0 as nat),
            ) == Ok::<Seq<u8>, ProofError>(store[NodeId(0, p_ids[i].0)]),
        forall|i: nat| i < k ==> #[trigger] spec_query_error(store, root, p_ids, i) is None,
        forall|i: int| 0 <= i < k ==> store.contains_key(NodeId(0, (#[trigger] p_ids[i]).0)),
    decreases k,
{
    if k > 0 {
        let j = (k - 1) as nat;
        lemma_queries_build_proof(store, root, p_ids, j);
        let before = spec_query_all(store, root, p_ids, j);
        if j == 0 {
            assert(before is Absent);
        } else {
            assert(crate::proof_model::path_held(store, root, p_ids[0].0));
            assert(!(before is Absent)) by {
                assert(store.contains_key(crate::read::ancestor(p_ids[0].0, root.0)));
            }
        }
        assert(crate::proof_model::path_held(store, root, p_ids[j as int].0));
        crate::proof_model::lemma_query_keeps_proof(
            store,
            root,
            before,
            first_pages(p_ids, j),
            p_ids[j as int].0,
        );
        let after = spec_query_all(store, root, p_ids, k);
        assert forall|i: int| 0 <= i < k implies after.value(
            crate::merkle_proof::idx_path((#[trigger] p_ids[i]).0 as nat, root.0 as nat),
        ) == Ok::<Seq<u8>, ProofError>(store[NodeId(0, p_ids[i].0)]) by {
            lemma_first_pages(p_ids, k, i);
            assert(crate::proof_model::path_held(store, root, p_ids[i].0));
            crate::proof_model::lemma_proof_verifies(
                store,
                root,
                after,
                first_pages(p_ids, k),
                p_ids[i].0,
            );
        }
        lemma_first_pages(p_ids, k, j as int);
        crate::proof_model::lemma_proof_verifies(
            store,
            root,
            after,
            first_pages(p_ids, k),
            p_ids[j as int].0,
        );
    }
}

/// **The proof of a run of queries of pages of the tree verifies.**
/// Where the store and the root are the tree over some pages, the proof
/// that queries of pages of the tree build, one after the other, has the
/// hash of the root as its root hash and holds the leaf hash of each of
/// the pages; no query is stopped.
pub proof fn lemma_queries_in_tree(
    store: Map<NodeId, Seq<u8>>,
    root: NodeId,
    pages: Seq<Seq<u8>>,
    p_ids: Seq<PageId>,
    k: nat,
)
    requires
        crate::tree_model::is_tree(store, Some(root), pages),
        k <= p_ids.len(),
        forall|i: int| 0 <= i < k ==> (#[trigger] p_ids[i]).0 < pages.len(),
    ensures
        k > 0 ==> spec_query_all(store, root, p_ids, k).hash() == Some(store[root]),
        forall|i: int|
            0 <= i < k ==> spec_query_all(store, root, p_ids, k).value(
                crate::merkle_proof::idx_path((#[trigger] p_ids[i]).0 as nat, root.0 as nat),
            ) == Ok::<Seq<u8>, ProofError>(spec_leaf_hash(p_ids[i].0, pages[p_ids[i].0 as int])),
        forall|i: nat| i < k ==> #[trigger] spec_query_error(store, root, p_ids, i) is None,
        forall|i: int| 0 <= i < k ==> store.contains_key(NodeId(0, (#[trigger] p_ids[i]).0)),
{
    assert forall|i: int| 0 <= i < k implies crate::proof_model::path_held(
        store,
        root,
        (#[trigger] p_ids[i]).0,
    ) by {
        crate::proof_model::lemma_path_in_tree(store, root, pages, p_ids[i].0);
    }
    lemma_queries_build_proof(store, root, p_ids, k);
}

/// Each of the first `k` pages is among the first `k` pages.
pub proof fn lemma_first_pages(p_ids: Seq<PageId>, k: nat, i: int)
    requires
        0 <= i < k,
    ensures
        first_pages(p_ids, k).contains(p_ids[i].0),
    decreases k,
{
    if i < k - 1 {
        lemma_first_pages(p_ids, (k - 1) as nat, i);
    }
}

/// The digests of a part of a proof have 32 bytes each.
pub proof fn lemma_proof_sized(part: SubProof)
    ensures
        crate::proof_model::digests_sized(part.tree()),
    decreases part,
{
    match part {
        SubProof::Leaf(d) => {
            assert(d@.len() == 32);
        },
        SubProof::NonLeaf(n) => {
            if let Some(l) = n.l_child {
                lemma_proof_sized(*l);
            }
            if let Some(r) = n.r_child {
                lemma_proof_sized(*r);
            }
            assert(crate::proof_model::digests_sized(side_tree(n.l_child)));
            assert(crate::proof_model::digests_sized(side_tree(n.r_child)));
        },
    }
}

/// **An accepted read set is true.** Where every node above the leaves
/// has the hash of its children and every leaf the hash of its page, and
/// a proof stands for a read set against the hash of the root, then for
/// every page of the read set the leaf of the page in the store holds the
/// hash of the page's id and of the digest that the statement saw, unless
/// two different inputs have the same hash.
pub proof fn lemma_accepted_reads_are_stored(
    store: Map<NodeId, Seq<u8>>,
    root: NodeId,
    proof: Proof,
    height: u32,
    reads: Map<u32, Digest>,
)
    requires
        crate::tree_model::hash_consistent(store),
        crate::proof_model::leaves_hashed(store),
        store.contains_key(root),
        accepts(proof, height, digest_views(reads), store[root]),
    ensures
        hash_collision() || forall|p: u32| #[trigger]
            reads.contains_key(p) ==> store.contains_key(NodeId(0, p)) && store[NodeId(0, p)]
                == spec_leaf_hash(p, reads[p]@),
{
    if !hash_collision() {
        assert forall|p: u32| #[trigger] reads.contains_key(p) implies store.contains_key(
            NodeId(0, p),
        ) && store[NodeId(0, p)] == spec_leaf_hash(p, reads[p]@) by {
            assert(digest_views(reads).contains_key(p));
            match proof.root {
                Some(part) => {
                    lemma_proof_sized(part);
                    crate::proof_model::lemma_sound(
                        store,
                        root,
                        proof.tree(),
                        height,
                        p,
                        reads[p]@,
                    );
                },
                None => {},
            }
        }
    }
}

/// **An accepted read set is true of the pages of a tree.** Where the
/// store and the root are the tree over some pages, whose hashes have 32
/// bytes each, and a proof stands for a read set against the hash of that
/// root, every page of the read set is a page of the tree and the digest
/// that the statement saw is the digest of that page, unless two
/// different inputs have the same hash.
pub proof fn lemma_accepted_reads_are_true(
    store: Map<NodeId, Seq<u8>>,
    root: NodeId,
    pages: Seq<Seq<u8>>,
    proof: Proof,
    height: u32,
    reads: Map<u32, Digest>,
)
    requires
        crate::tree_model::is_tree(store, Some(root), pages),
        forall|q: int| 0 <= q < pages.len() ==> (#[trigger] pages[q]).len() == 32,
        accepts(proof, height, digest_views(reads), store[root]),
    ensures
        hash_collision() || forall|p: u32| #[trigger]
            reads.contains_key(p) ==> p < pages.len() && reads[p]@ == pages[p as int],
{
    if !hash_collision() {
        assert forall|p: u32| #[trigger] reads.contains_key(p) implies p < pages.len()
            && reads[p]@ == pages[p as int] by {
            assert(digest_views(reads).contains_key(p));
            match proof.root {
                Some(part) => {
                    lemma_proof_sized(part);
                    crate::proof_model::lemma_sound_in_tree(
                        store,
                        root,
                        pages,
                        proof.tree(),
                        height,
                        p,
                        reads[p]@,
                    );
                },
                None => {},
            }
        }
    }
}

} // verus!
