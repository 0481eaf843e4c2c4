//! Trusted core of a confidential-compute runtime: a merkleized key-value
//! store with a bounded cache, the protocol by which a batch of
//! transactions is executed on top of it, and the decisions of the worker
//! that serves the requests of the host one at a time.
//!
//! Everything here is verified with Verus. The crate relies on two outside
//! crates, and says so where it does: the digest of `sha2`, which it knows
//! by name only (`hash`), and the contexts of `io_context`, which it
//! carries without looking into them (`context`). What the embedding
//! runtime and the host supply comes in through traits without contracts;
//! nothing is assumed about it.
//!
//! - `hash`, `codec`, `signature`, `roothash`, `types`: the data.
//! - `mkvs`: the store.
//! - `txn_tree`, `transaction`, `batch`, `dispatcher`: the execution of a batch.
//! - `rpc`: calls into the runtime.
//! - `worker`, `abort`, `host`, `context`: the worker and what surrounds it.
//! - `scheduler`: committees.
pub mod abort;
pub mod batch;
pub mod codec;
pub mod context;
pub mod dispatcher;
pub mod hash;
pub mod host;
pub mod mkvs;
pub mod roothash;
pub mod rpc;
pub mod scheduler;
pub mod signature;
pub mod transaction;
pub mod txn_tree;
pub mod types;
pub mod worker;
