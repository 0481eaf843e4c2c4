//! Merkleized versioned key-value store.
//!
//! The store is a binary trie. The path of a key is the hash of the key,
//! bit by bit, and the value of a key sits at the node its path leads to:
//! every value is 256 levels down, however long its key. Every node is
//! identified by the hash of its canonical encoding, which holds the hashes
//! of the two subtrees, so the hash of the root commits to the whole
//! content. Two keys with the same hash would share a node; what the store
//! promises of one key in the presence of another, it promises unless
//! those two keys collide.
//!
//! Only part of a tree needs to be resident. A subtree may be present as a
//! bare hash; it is fetched through a read syncer when an operation needs
//! it, and every fetched node is checked against the hash it was asked for.
//! Resident nodes without uncommitted changes form a cache that is bounded
//! by the number of nodes and by the total size of their values. When the
//! cache is over its bounds, the least recently used nodes are dropped;
//! finding them takes a pass over the resident nodes, which happens only
//! after nodes were fetched or committed.
//!
//! Operations descend one level per bit of the path and recurse as they do.
//!
//! - `trie`: the mathematical model of a partially resident tree.
//! - `node`: resident nodes and the operations on them.
//! - `log`: the log of uncommitted writes and the write log of a commit.
//! - `tree`: the tree itself.
//! - `laws`: what holds of every tree.
pub mod laws;
pub mod log;
pub mod node;
pub mod root;
pub mod sync;
pub mod tree;
pub mod trie;
