use std::collections::HashMap;
use v2fs::digest::{Digest, Digestible};
use v2fs::node::{MerkleNode, MerkleNodeLoader, NodeId, ReadInterface, StoreEntries, StoreError};
use v2fs::page::PageId;
use v2fs::write::WriteContext;

struct KeyedStore {
    nodes: HashMap<Digest, MerkleNode>,
}

impl ReadInterface for KeyedStore {
    fn entries(&self) -> StoreEntries {
        unreachable!()
    }

    fn always_reads(&self) -> bool {
        true
    }

    fn get_node(&self, addr: &Digest) -> Result<Option<MerkleNode>, StoreError> {
        Ok(self.nodes.get(addr).cloned())
    }
}

#[test]
fn a_store_read_by_digest_loads_nodes_by_id() {
    let mut store = KeyedStore { nodes: HashMap::new() };
    let id = NodeId::new(0, 0);
    let node = MerkleNode::new("page".to_digest());
    store.nodes.insert(id.to_digest(), node);
    assert_eq!(store.load_node(&id).unwrap().unwrap().get_hash(), "page".to_digest());
    assert!(store.load_node(&NodeId::new(0, 1)).unwrap().is_none());
    let mut ctx = WriteContext::new(&store, Some(id));
    ctx.update("other".to_digest(), PageId(1)).unwrap();
    assert_eq!(ctx.changes().get_root_id(), Some(NodeId::new(1, 0)));
}
