//! What the worker needs of the host besides an answer to its responses.
use crate::mkvs::sync::ReadSync;
use vstd::prelude::*;

verus! {

/// Why the local storage of the host failed.
#[derive(Clone, Debug, PartialEq, Eq)]
pub struct StorageError {
    pub message: String,
}

/// A key-value store. Nothing is assumed about an implementation.
pub trait KeyValue {
    /// The value stored under `key`.
    fn get(&self, key: Vec<u8>) -> Result<Vec<u8>, StorageError>;

    /// Stores `value` under `key`.
    fn insert(&self, key: Vec<u8>, value: Vec<u8>) -> Result<(), StorageError>;
}

/// The host, as a source of state and of storage. Nothing is assumed about
/// an implementation: the host is not trusted.
pub trait Host {
    /// A read syncer that fetches the nodes of state trees from the host,
    /// or `None` if the host does not serve state.
    fn read_syncer(&self) -> Option<Box<dyn ReadSync>>;

    /// The local storage of the host for the time of one request, or `None`
    /// if the host has none. What is kept there is outside the runtime and
    /// not protected.
    fn untrusted_local_storage(&self, ctx: io_context::Context) -> Option<Box<dyn KeyValue>>;
}

} // verus!
