//! Verifiable page storage over an untrusted store: a complete binary Merkle
//! tree over fixed-size pages, proofs for page reads, the update that a
//! batch of page writes makes to the root, and the client's page cache.

// Digests, pages and the nodes of the tree.
pub mod digest;
pub mod hash;
pub mod page;
pub mod node;
pub mod mem_tree;

// Updates of the tree, proofs, and what holds of both.
pub mod write;
pub mod merkle_proof;
pub mod read;
pub mod tree_model;
pub mod proof_model;
pub mod store_model;

// The verification of a statement.
pub mod verify;
pub mod write_set;
pub mod node_check;

// The version filter and the client's cache.
pub mod vbf;
pub mod cache_node;
pub mod lru_store;
pub mod simple_vcache;
pub mod version_cache;

// The two sides of a session.
pub mod client;
pub mod client_bloom;
pub mod server;
pub mod protocol;

// Byte ranges as pages, and the sets of pages of a statement.
pub mod page_io;
pub mod cache_page;
pub mod page_map;
pub mod sorting;

// What surrounds the page layer.
pub mod vfs;
pub mod utils;
pub mod script;
pub mod transaction;
