//! Fetching nodes that are not resident.
use crate::hash;
use crate::mkvs::root::Root;
use vstd::prelude::*;

verus! {

/// The content of one node as a store outside the tree hands it over: the
/// value held at the node, if any, and the root hashes of its two subtrees.
#[derive(Clone, Debug, PartialEq, Eq)]
pub struct NodeRecord {
    pub value: Option<Vec<u8>>,
    pub left: hash::Hash,
    pub right: hash::Hash,
}

/// Why a read syncer could not hand over a node.
#[derive(Clone, Copy, Debug, PartialEq, Eq, Structural)]
pub enum SyncError {
    /// The syncer has no backing store.
    Unsupported,
    /// The backing store could not be reached or does not have the node.
    Unavailable,
}

/// A source of nodes that are not resident.
///
/// Nothing is assumed about what an implementation returns: the tree checks
/// every record against the hash it asked for before it uses it.
pub trait ReadSync {
    /// Fetches the node with hash `node` of the tree snapshot `root`.
    fn sync_get(&mut self, root: &Root, node: &hash::Hash) -> Result<NodeRecord, SyncError>;
}

/// The read syncer of a tree that is built from local data only. It fails
/// every fetch.
pub struct NoopReadSyncer;

impl ReadSync for NoopReadSyncer {
    fn sync_get(&mut self, root: &Root, node: &hash::Hash) -> (r: Result<NodeRecord, SyncError>)
        ensures
            r == Err::<NodeRecord, SyncError>(SyncError::Unsupported),
    {
        Err(SyncError::Unsupported)
    }
}

} // verus!
