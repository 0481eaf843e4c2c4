//! The tree: a partially resident merkle trie with a log of uncommitted
//! writes, a bounded cache of committed nodes, and a read syncer for the rest.
use crate::codec::copy_bytes;
use crate::hash;
use crate::hash::{collide, empty_digest};
use crate::mkvs::log::{
    clash_in, committed_log, lemma_clash_persists, lemma_committed_log, lemma_log_entry_at,
    log_entry, log_sorted,
    pending_model, record, shows, write_log, write_model, write_sorted, LogEntry, PendingEntry,
    PendingLogEntry,
};
use crate::mkvs::node::{
    along, capped, erase, evict, kept, lemma_counts_from, lemma_oldest, lemma_pinned_resolved,
    lemma_stamps_bounded, put, resolve, seal, survey, value_model, Ptr, Survey, TreeError,
};
use crate::mkvs::root::{Namespace, Root, RootType};
use crate::mkvs::sync::ReadSync;
use crate::mkvs::trie::{
    akin, erase_result, lemma_covers_lookup, lemma_covers_refl, lemma_covers_root_hash,
    lemma_covers_trans, lemma_erase_other, lemma_erase_same, lemma_erase_shape,
    lemma_paths_differ, lemma_put_other, lemma_put_same, lemma_put_shape, path_bits, proves,
    put_result,
    Lookup, Trie,
};
use vstd::prelude::*;

verus! {

/// Number of nodes a tree caches unless told otherwise.
pub const DEFAULT_NODE_CAPACITY: usize = 50_000;

/// Number of value bytes a tree caches unless told otherwise: 16 MiB.
pub const DEFAULT_VALUE_CAPACITY: usize = 16_777_216;

/// Why a set of options does not describe a tree.
#[derive(Clone, Copy, Debug, PartialEq, Eq, Structural)]
pub enum ConfigError {
    /// Neither a root nor a root type was given.
    MissingRoot,
    /// A root and a root type were given, and the root is of another type.
    RootTypeMismatch,
}

/// The parameters of a new tree.
pub struct Options {
    node_capacity: usize,
    value_capacity: usize,
    root: Option<Root>,
    root_type: Option<RootType>,
}

impl Options {
    /// Largest number of cached nodes; 0 for no limit.
    pub closed spec fn node_capacity(&self) -> usize {
        self.node_capacity
    }

    /// Largest total size of cached values; 0 for no limit.
    pub closed spec fn value_capacity(&self) -> usize {
        self.value_capacity
    }

    /// The root the tree is opened at, if one was given.
    pub closed spec fn root(&self) -> Option<Root> {
        self.root
    }

    /// The root type that was asked for, if one was given.
    pub closed spec fn kind(&self) -> Option<RootType> {
        self.root_type
    }

    /// The type of the tree these options describe.
    pub open spec fn tree_kind(&self) -> RootType {
        match self.root() {
            Some(r) => r.root_type,
            None => self.kind().unwrap(),
        }
    }

    /// Sets the capacity of the cache: the number of nodes and the total
    /// size of values it holds before it evicts. 0 means no limit.
    pub fn with_capacity(self, node_capacity: usize, value_capacity: usize) -> (r: Self)
        ensures
            r.node_capacity() == node_capacity,
            r.value_capacity() == value_capacity,
            r.root() == self.root(),
            r.kind() == self.kind(),
    {
        Options { node_capacity, value_capacity, root: self.root, root_type: self.root_type }
    }

    /// Opens the tree at an existing root.
    pub fn with_root(self, root: Root) -> (r: Self)
        ensures
            r.root() == Some(root),
            r.kind() == self.kind(),
            r.node_capacity() == self.node_capacity(),
            r.value_capacity() == self.value_capacity(),
    {
        Options {
            node_capacity: self.node_capacity,
            value_capacity: self.value_capacity,
            root: Some(root),
            root_type: self.root_type,
        }
    }

    /// Sets the type of the tree.
    pub fn with_root_type(self, root_type: RootType) -> (r: Self)
        ensures
            r.kind() == Some(root_type),
            r.root() == self.root(),
            r.node_capacity() == self.node_capacity(),
            r.value_capacity() == self.value_capacity(),
    {
        Options {
            node_capacity: self.node_capacity,
            value_capacity: self.value_capacity,
            root: self.root,
            root_type: Some(root_type),
        }
    }

    /// What is wrong with the options, if anything is.
    pub open spec fn fault(&self) -> Option<ConfigError> {
        if self.root() is None && self.kind() is None {
            Some(ConfigError::MissingRoot)
        } else if self.root() is Some && self.kind() is Some && self.root().unwrap().root_type
            != self.kind().unwrap() {
            Some(ConfigError::RootTypeMismatch)
        } else {
            None
        }
    }

    /// Builds the tree the options describe. Fails, before anything is
    /// built, if neither a root nor a root type was given, or if both were
    /// given and do not agree.
    pub fn new(self, read_syncer: Box<dyn ReadSync>) -> (r: Result<Tree, ConfigError>)
        ensures
            match r {
                Ok(tree) => self.fault() is None && tree.opened_with(self),
                Err(e) => self.fault() == Some(e),
            },
    {
        match (self.root, self.root_type) {
            (None, None) => Err(ConfigError::MissingRoot),
            (Some(root), Some(root_type)) => {
                if root.root_type != root_type {
                    Err(ConfigError::RootTypeMismatch)
                } else {
                    Ok(Tree::new(read_syncer, &self))
                }
            },
            _ => Ok(Tree::new(read_syncer, &self)),
        }
    }
}

/// A merkleized key-value store over one root.
pub struct Tree {
    root: Ptr,
    root_type: RootType,
    pending: Vec<PendingLogEntry>,
    node_capacity: usize,
    value_capacity: usize,
    clock: u64,
    sync_root: Root,
    syncer: Box<dyn ReadSync>,
    empty: hash::Hash,
}

impl View for Tree {
    type V = Trie;

    /// What is resident of the tree, with all uncommitted writes applied.
    closed spec fn view(&self) -> Trie {
        self.root.model()
    }
}

/// A stamp, unless it is `dropped` or older.
pub open spec fn kept_if(s: Option<u64>, dropped: Option<u64>) -> Option<u64> {
    match dropped {
        Some(t) => kept(s, t),
        None => s,
    }
}

/// Every entry of the write log reads back from the tree.
pub open spec fn entries_read_back(log: Seq<LogEntry>, tree: Trie) -> bool {
    forall|i: int|
        0 <= i < log.len() ==> answer(tree, (#[trigger] log[i]).key@) == Lookup::Resolved(
            value_model(log[i].value),
        )
}

/// The answer of a tree for a key: what it holds at the end of the path
/// of the key.
pub open spec fn answer(t: Trie, key: Seq<u8>) -> Lookup {
    t.lookup(path_bits(key), 0)
}

impl Tree {
    /// The type of the tree.
    pub closed spec fn kind(&self) -> RootType {
        self.root_type
    }

    /// The writes that have not been committed, in the order of their keys.
    pub closed spec fn pending_log(&self) -> Seq<PendingEntry> {
        pending_model(self.pending@)
    }

    /// The root the tree was opened at or last committed as.
    pub closed spec fn sync_root(&self) -> Root {
        self.sync_root
    }

    /// Largest number of cached nodes; 0 for no limit.
    pub closed spec fn node_capacity(&self) -> usize {
        self.node_capacity
    }

    /// Largest total size of cached values; 0 for no limit.
    pub closed spec fn value_capacity(&self) -> usize {
        self.value_capacity
    }

    /// Number of cached nodes: resident nodes without uncommitted changes.
    pub closed spec fn cached_nodes(&self) -> nat {
        self.root.cached_nodes()
    }

    /// Total size of the values that cached nodes hold.
    pub closed spec fn cached_bytes(&self) -> nat {
        self.root.cached_bytes()
    }

    /// The tick of the operation that last used the cached node at the end
    /// of `path`, if a cached node is there.
    pub closed spec fn cached_at(&self, path: Seq<bool>) -> Option<u64> {
        self.root.stamp_at(path, 0)
    }

    /// The tick of the last operation.
    pub closed spec fn now(&self) -> u64 {
        self.clock
    }

    /// Number of cached nodes that were used at tick `t` or later.
    pub closed spec fn cached_nodes_from(&self, t: u64) -> nat {
        self.root.cached_nodes_from(t)
    }

    /// Total size of the values held by cached nodes that were used at tick `t` or later.
    pub closed spec fn cached_bytes_from(&self, t: u64) -> nat {
        self.root.cached_bytes_from(t)
    }

    /// The cached nodes that were used at tick `t` or later alone are more
    /// than the cache may hold. A count that reaches the largest `usize`
    /// is over any limit.
    pub open spec fn over_from(&self, t: u64) -> bool {
        ||| self.node_capacity() > 0 && (capped(self.cached_nodes_from(t)) > self.node_capacity()
            || capped(self.cached_nodes_from(t)) == usize::MAX)
        ||| self.value_capacity() > 0 && (capped(self.cached_bytes_from(t)) > self.value_capacity()
            || capped(self.cached_bytes_from(t)) == usize::MAX)
    }

    /// `after` is `before` with the cached nodes dropped that were last
    /// used at tick `dropped` or earlier, or with none dropped. Nodes are
    /// dropped only as far as needed: those last used at tick `dropped` or
    /// later alone were too many.
    pub open spec fn trim_of(before: Tree, after: Tree, dropped: Option<u64>) -> bool {
        &&& forall|p: Seq<bool>| #[trigger] after.cached_at(p) == kept_if(before.cached_at(p), dropped)
        &&& dropped is None ==> after@ == before@
        &&& (dropped matches Some(t) ==> before.over_from(t))
    }

    /// `after` is `before` after eviction: the least recently used cached
    /// nodes are dropped, as many as needed for the cache to be within its
    /// bounds and no more. Nothing else differs.
    pub open spec fn trimmed(before: Tree, after: Tree) -> bool {
        &&& after.wf()
        &&& before@.covers(after@)
        &&& after.same_setup(&before)
        &&& after.pending_log() == before.pending_log()
        &&& after.sync_root() == before.sync_root()
        &&& after.now() == before.now()
        &&& exists|dropped: Option<u64>| #[trigger] Tree::trim_of(before, after, dropped)
    }

    /// `mid` is `before` after an operation at a new tick has used the
    /// nodes on the path of `key`: a cached node on the path was used now,
    /// every other cached node was last used when it was in `before`.
    pub open spec fn touched(before: Tree, mid: Tree, key: Seq<u8>) -> bool {
        &&& mid.now() >= before.now()
        &&& mid.same_setup(&before)
        &&& mid.sync_root() == before.sync_root()
        &&& forall|p: Seq<bool>|
            !along(p, path_bits(key), 0) ==> #[trigger] mid.cached_at(p) == before.cached_at(p)
        &&& forall|p: Seq<bool>|
            along(p, path_bits(key), 0) ==> (#[trigger] mid.cached_at(p) matches Some(s) ==> s
                == mid.now())
    }

    /// `after` is `before` after a walk down the path of `key` that fetched
    /// what was not resident, followed by eviction.
    pub open spec fn walked(before: Tree, after: Tree, key: Seq<u8>, found: Option<Option<Seq<u8>>>) -> bool {
        exists|mid: Tree| #[trigger]
            Tree::trimmed(mid, after) && Tree::touched(before, mid, key) && mid@.covers(before@)
                && mid.pending_log() == before.pending_log() && (found matches Some(v) ==> answer(
                mid@,
                key,
            ) == Lookup::Resolved(v)) && (answer(before@, key) is Resolved ==> mid@ == before@)
    }

    /// `after` is `before` after `value` was stored under `key`, where the
    /// key held `prev`, followed by eviction.
    pub open spec fn stored(before: Tree, after: Tree, key: Seq<u8>, prev: Option<Seq<u8>>, value: Seq<u8>) -> bool {
        exists|mid: Tree| #[trigger]
            Tree::trimmed(mid, after) && Tree::touched(before, mid, key) && put_result(
                before@,
                mid@,
                path_bits(key),
                prev,
                value,
            )
    }

    /// `after` is `before` after `key` was removed, where the key held
    /// `prev`, followed by eviction.
    pub open spec fn removed(before: Tree, after: Tree, key: Seq<u8>, prev: Option<Seq<u8>>) -> bool {
        exists|mid: Tree| #[trigger]
            Tree::trimmed(mid, after) && Tree::touched(before, mid, key) && erase_result(
                before@,
                mid@,
                path_bits(key),
                prev,
            )
    }

    /// `after` is `before` after all nodes with uncommitted changes were
    /// made cached nodes, used now, followed by eviction.
    pub open spec fn sealed(before: Tree, after: Tree) -> bool {
        exists|mid: Tree| #[trigger]
            Tree::trimmed(mid, after) && mid@ == before@ && mid.now() >= before.now() && mid.same_setup(
                &before,
            ) && (forall|p: Seq<bool>| #[trigger]
                before.cached_at(p) is Some ==> mid.cached_at(p) == before.cached_at(p)) && (forall|
                p: Seq<bool>,
            | #[trigger]
                mid.cached_at(p) is Some ==> mid.cached_at(p) == before.cached_at(p) || mid.cached_at(p)
                    == Some(mid.now()))
    }

    /// The tree never evicts.
    pub open spec fn unbounded(&self) -> bool {
        self.node_capacity() == 0 && self.value_capacity() == 0
    }

    /// Everything about the tree but its configuration and what is cached
    /// is as in `other`.
    pub open spec fn same_setup(&self, other: &Tree) -> bool {
        &&& self.kind() == other.kind()
        &&& self.node_capacity() == other.node_capacity()
        &&& self.value_capacity() == other.value_capacity()
    }

    /// The invariant of the tree without the bounds on the cache.
    spec fn consistent(&self) -> bool {
        &&& self.root.wf()
        &&& self.root.model().sized()
        &&& self.root.top_stamp() <= self.clock
        &&& self.empty@ == empty_digest()
        &&& self.sync_root.root_type == self.root_type
        &&& log_sorted(pending_model(self.pending@))
        &&& self.pins_all()
        &&& clash_in(pending_model(self.pending@)) || self.reads_back_all()
        &&& self.pending.len() == 0 ==> self.root.model().root_hash() == self.sync_root.hash@
    }

    /// The path of every uncommitted write runs through nodes with
    /// uncommitted changes only: eviction leaves it alone.
    spec fn pins_all(&self) -> bool {
        forall|i: int|
            0 <= i < self.pending.len() ==> self.root.pinned(
                path_bits(#[trigger] self.pending[i].key@),
                0,
            )
    }

    /// Every uncommitted write reads back.
    spec fn reads_back_all(&self) -> bool {
        forall|i: int|
            0 <= i < self.pending.len() ==> self.root.model().lookup(
                path_bits(#[trigger] self.pending[i].key@),
                0,
            ) == Lookup::Resolved(value_model(self.pending[i].value))
    }

    /// The invariant of the tree. Among other things: the cache is within
    /// its bounds, every uncommitted write is resident and reads back, and
    /// a tree without uncommitted writes has the root hash of its root.
    pub closed spec fn wf(&self) -> bool {
        &&& self.consistent()
        &&& self.node_capacity > 0 ==> self.root.cached_nodes() <= self.node_capacity
        &&& self.value_capacity > 0 ==> self.root.cached_bytes() <= self.value_capacity
    }

    /// The tree is as `Tree::new` builds it from `opts`.
    pub open spec fn opened_with(&self, opts: Options) -> bool {
        &&& self.wf()
        &&& self.kind() == opts.tree_kind()
        &&& self.node_capacity() == opts.node_capacity()
        &&& self.value_capacity() == opts.value_capacity()
        &&& self.pending_log().len() == 0
        &&& self.sync_root().root_type == opts.tree_kind()
        &&& match opts.root() {
            Some(r) => self.sync_root() == r && self@ == (if r.hash@ == empty_digest() {
                Trie::Empty
            } else {
                Trie::Stub(r.hash@)
            }),
            None => self.sync_root().version == 0 && self.sync_root().hash@ == empty_digest() && self@
                == Trie::Empty,
        }
    }

    /// The tree is as it is right after it was opened at `root`: nothing is
    /// resident, nothing is pending.
    pub open spec fn fresh_at(&self, root: Root) -> bool {
        &&& self.wf()
        &&& self.kind() == root.root_type
        &&& self.pending_log().len() == 0
        &&& self.sync_root() == root
        &&& self@ == (if root.hash@ == empty_digest() {
            Trie::Empty
        } else {
            Trie::Stub(root.hash@)
        })
    }

    /// Drops everything the tree holds and opens it at `root`, with the
    /// read syncer and the capacities it has.
    pub fn reopen(&mut self, root: Root)
        ensures
            final(self).fresh_at(root),
            final(self).node_capacity() == old(self).node_capacity(),
            final(self).value_capacity() == old(self).value_capacity(),
    {
        let empty = hash::Hash::empty_hash();
        self.root = Ptr::from_hash(&root.hash, &empty);
        self.root_type = root.root_type;
        self.pending = Vec::new();
        self.clock = 0;
        self.sync_root = root;
        self.empty = empty;
        assert(pending_model(self.pending@) =~= Seq::<PendingEntry>::empty());
    }

    /// Drops all uncommitted writes: the tree is again what it was when it
    /// was opened or last committed. A tree without uncommitted writes is
    /// left as it is, with all it has cached; otherwise nothing stays
    /// resident.
    pub fn rollback(&mut self)
        requires
            old(self).wf(),
        ensures
            final(self).wf(),
            final(self).same_setup(old(self)),
            final(self).sync_root() == old(self).sync_root(),
            final(self).pending_log().len() == 0,
            final(self)@.root_hash() == old(self).sync_root().hash@,
            old(self).pending_log().len() == 0 ==> *final(self) == *old(self),
            old(self).pending_log().len() > 0 ==> final(self).fresh_at(old(self).sync_root()),
    {
        if self.pending.len() > 0 {
            let root = self.sync_root;
            self.reopen(root);
        }
    }

    /// Builds a tree from the given read syncer and options. The options
    /// must name a root or a root type, and where they name both, the two
    /// must agree: `Options::new` is the constructor that tests this.
    pub fn new(read_syncer: Box<dyn ReadSync>, opts: &Options) -> (tree: Tree)
        requires
            opts.fault() is None,
        ensures
            tree.opened_with(*opts),
    {
        let empty = hash::Hash::empty_hash();
        let (root_type, sync_root) = match opts.root {
            Some(root) => (root.root_type, root),
            None => {
                let root_type = opts.root_type.unwrap();
                (root_type, Root { namespace: Namespace::zero(), version: 0, root_type, hash: empty })
            },
        };
        let tree = Tree {
            root: Ptr::from_hash(&sync_root.hash, &empty),
            root_type,
            pending: Vec::new(),
            node_capacity: opts.node_capacity,
            value_capacity: opts.value_capacity,
            clock: 0,
            sync_root,
            syncer: read_syncer,
            empty,
        };
        assert(pending_model(tree.pending@) =~= Seq::<PendingEntry>::empty());
        tree
    }

    /// Options to chain configuration calls on: the default capacities, and
    /// neither a root nor a root type.
    pub fn make() -> (opts: Options)
        ensures
            opts.node_capacity() == DEFAULT_NODE_CAPACITY,
            opts.value_capacity() == DEFAULT_VALUE_CAPACITY,
            opts.root() is None,
            opts.kind() is None,
    {
        Options {
            node_capacity: DEFAULT_NODE_CAPACITY,
            value_capacity: DEFAULT_VALUE_CAPACITY,
            root: None,
            root_type: None,
        }
    }

    /// The type of the tree.
    pub fn root_type(&self) -> (t: RootType)
        ensures
            t == self.kind(),
    {
        self.root_type
    }

    /// The root the tree was opened at or last committed as.
    pub fn root(&self) -> (r: Root)
        ensures
            r == self.sync_root(),
    {
        self.sync_root
    }

    /// Number of writes that have not been committed.
    pub fn pending_len(&self) -> (n: usize)
        ensures
            n == self.pending_log().len(),
    {
        self.pending.len()
    }

    /// Number of cached nodes and total size of the values they hold, each
    /// capped at the largest `usize`.
    pub fn cache_usage(&self) -> (r: (usize, usize))
        ensures
            r.0 == capped(self.cached_nodes()),
            r.1 == capped(self.cached_bytes()),
    {
        let s = survey(&self.root);
        (s.nodes, s.bytes)
    }
}

/// Whether a survey shows more cached than the capacities allow. A count
/// that hit the cap of `usize` is taken to be over any limit.
fn over_capacity(s: &Survey, node_capacity: usize, value_capacity: usize) -> (b: bool)
    ensures
        b == ((node_capacity > 0 && (s.nodes > node_capacity || s.nodes == usize::MAX)) || (
        value_capacity > 0 && (s.bytes > value_capacity || s.bytes == usize::MAX))),
{
    (node_capacity > 0 && (s.nodes > node_capacity || s.nodes == usize::MAX)) || (value_capacity > 0
        && (s.bytes > value_capacity || s.bytes == usize::MAX))
}

impl Tree {
    /// The next tick of the tree's clock. The clock stops at its largest value.
    fn tick(&mut self) -> (t: u64)
        ensures
            t == final(self).clock,
            t >= old(self).clock,
            final(self).root == old(self).root,
            final(self).root_type == old(self).root_type,
            final(self).pending == old(self).pending,
            final(self).node_capacity == old(self).node_capacity,
            final(self).value_capacity == old(self).value_capacity,
            final(self).sync_root == old(self).sync_root,
            final(self).empty == old(self).empty,
    {
        if self.clock < u64::MAX {
            self.clock = self.clock + 1;
        }
        self.clock
    }

    /// What eviction comes to where nothing was added to the cache:
    /// nothing. The tree is within its bounds as it is.
    proof fn settle(&self)
        requires
            self.consistent(),
            self.node_capacity > 0 ==> self.root.cached_nodes() <= self.node_capacity,
            self.value_capacity > 0 ==> self.root.cached_bytes() <= self.value_capacity,
        ensures
            Tree::trimmed(*self, *self),
    {
        lemma_covers_refl(self.root.model());
        assert(Tree::trim_of(*self, *self, None));
    }

    /// Evicts cached nodes, least recently used first, until the cache is
    /// within its bounds. Nodes with uncommitted changes are not touched.
    fn enforce_capacity(&mut self)
        requires
            old(self).consistent(),
        ensures
            Tree::trimmed(*old(self), *final(self)),
            old(self).unbounded() ==> final(self).root.model() == old(self).root.model(),
            old(self).root.model().covers(final(self).root.model()),
            final(self).root_type == old(self).root_type,
            final(self).pending == old(self).pending,
            final(self).node_capacity == old(self).node_capacity,
            final(self).value_capacity == old(self).value_capacity,
            final(self).sync_root == old(self).sync_root,
    {
        proof {
            lemma_covers_refl(self.root.model());
        }
        let ghost mut dropped: Option<u64> = None;
        if self.node_capacity == 0 && self.value_capacity == 0 {
            assert(Tree::trim_of(*old(self), *self, dropped));
            return ;
        }
        let mut s = survey(&self.root);
        while over_capacity(&s, self.node_capacity, self.value_capacity)
            invariant
                self.consistent(),
                old(self).root.model().covers(self.root.model()),
                self.root_type == old(self).root_type,
                self.pending == old(self).pending,
                self.node_capacity == old(self).node_capacity,
                self.value_capacity == old(self).value_capacity,
                self.sync_root == old(self).sync_root,
                self.clock == old(self).clock,
                s.nodes == capped(self.root.cached_nodes()),
                s.bytes == capped(self.root.cached_bytes()),
                s.oldest == self.root.oldest(),
                forall|p: Seq<bool>| #[trigger]
                    self.root.stamp_at(p, 0) == kept_if(old(self).root.stamp_at(p, 0), dropped),
                dropped is None ==> self.root == old(self).root,
                dropped matches Some(t) ==> old(self).over_from(t) && (self.root.oldest() matches Some(o)
                    ==> o > t),
                forall|t: u64|
                    (dropped matches Some(d) ==> t > d) ==> #[trigger] self.root.cached_nodes_from(t) == old(
                        self,
                    ).root.cached_nodes_from(t),
                forall|t: u64|
                    (dropped matches Some(d) ==> t > d) ==> #[trigger] self.root.cached_bytes_from(t) == old(
                        self,
                    ).root.cached_bytes_from(t),
            decreases self.root.cached_nodes(),
        {
            proof {
                lemma_oldest(self.root);
            }
            let ghost before = self.root;
            match s.oldest {
                Some(t) => {
                    proof {
                        lemma_counts_from(self.root, t);
                        assert(self.root.cached_nodes_from(t) == old(self).root.cached_nodes_from(t));
                        assert(self.root.cached_bytes_from(t) == old(self).root.cached_bytes_from(t));
                    }
                    evict(&mut self.root, t);
                    proof {
                        dropped = Some(t);
                    }
                },
                None => {},
            }
            proof {
                lemma_covers_trans(old(self).root.model(), before.model(), self.root.model());
                lemma_covers_root_hash(before.model(), self.root.model());
                assert forall|i: int| 0 <= i < self.pending.len() implies self.root.pinned(
                    path_bits(#[trigger] self.pending[i].key@),
                    0,
                ) by {
                    assert(before.pinned(path_bits(self.pending[i].key@), 0));
                }
                if !clash_in(pending_model(self.pending@)) {
                    assert forall|i: int| 0 <= i < self.pending.len() implies self.root.model().lookup(
                        path_bits(#[trigger] self.pending[i].key@),
                        0,
                    ) == Lookup::Resolved(value_model(self.pending[i].value)) by {
                        let bits = path_bits(self.pending[i].key@);
                        assert(before.pinned(bits, 0));
                        lemma_pinned_resolved(self.root, bits, 0);
                        lemma_covers_lookup(before.model(), self.root.model(), bits, 0);
                    }
                }
                assert forall|p: Seq<bool>| #[trigger]
                    self.root.stamp_at(p, 0) == kept_if(old(self).root.stamp_at(p, 0), dropped) by {
                    assert(before.stamp_at(p, 0) == before.stamp_at(p, 0));
                }
            }
            s = survey(&self.root);
        }
        assert(Tree::trim_of(*old(self), *self, dropped));
    }

    /// Looks up `key`. Nodes on its path that are not resident are fetched
    /// through the read syncer, checked against the hash they were asked
    /// for, and cached. A key of any length is looked up: its path is its
    /// hash.
    pub fn get(&mut self, key: &[u8]) -> (r: Result<Option<Vec<u8>>, TreeError>)
        requires
            old(self).wf(),
        ensures
            final(self).wf(),
            final(self).same_setup(old(self)),
            final(self).pending_log() == old(self).pending_log(),
            final(self).sync_root() == old(self).sync_root(),
            akin(old(self)@, final(self)@),
            final(self)@.root_hash() == old(self)@.root_hash(),
            answer(old(self)@, key@) is Resolved ==> r is Ok && answer(
                old(self)@,
                key@,
            ) == Lookup::Resolved(value_model(r.unwrap())),
            r matches Ok(v) ==> proves(old(self)@.root_hash(), path_bits(key@), value_model(v)),
            r matches Ok(v) ==> (old(self).unbounded() ==> answer(final(self)@, key@)
                == Lookup::Resolved(value_model(v)) && final(self)@.covers(old(self)@)),
            r matches Err(e) ==> e == TreeError::NodeUnavailable || e == TreeError::ProofMismatch,
            Tree::walked(
                *old(self),
                *final(self),
                key@,
                match r {
                    Ok(v) => Some(value_model(v)),
                    Err(_) => None,
                },
            ),
    {
        proof {
            lemma_covers_refl(self.root.model());
        }
        let path = hash::Hash::digest_bytes(key);
        let stamp = self.tick();
        let mut fetched = false;
        let r = resolve(
            &mut self.root,
            &mut self.syncer,
            &self.sync_root,
            &self.empty,
            path.bytes.as_slice(),
            0,
            stamp,
            &mut fetched,
        );
        let ghost mid = self.root;
        let ghost mid_tree = *self;
        proof {
            self.lemma_still_consistent(*old(self));
            if answer(old(self)@, key@) is Resolved {
                lemma_covers_lookup(mid.model(), old(self).root.model(), path_bits(key@), 0);
            }
            assert(Tree::touched(*old(self), mid_tree, key@));
        }
        if fetched {
            self.enforce_capacity();
        } else {
            proof {
                self.settle();
            }
        }
        proof {
            lemma_covers_root_hash(mid.model(), old(self).root.model());
            lemma_covers_root_hash(mid.model(), self.root.model());
        }
        r
    }

    /// The pending log after a write of `value` to `key`, where the key held
    /// `prev` before: the entry for `key` holds `value`; a new entry notes
    /// whether the key was present, an old one keeps what it noted.
    pub open spec fn logged(
        before: Seq<PendingEntry>,
        after: Seq<PendingEntry>,
        key: Seq<u8>,
        value: Option<Seq<u8>>,
        prev: Option<Seq<u8>>,
    ) -> bool {
        &&& log_sorted(after)
        &&& forall|k: Seq<u8>|
            #[trigger] log_entry(after, k) == (if k == key {
                Some(
                    PendingEntry {
                        key,
                        value,
                        existed: match log_entry(before, key) {
                            Some(e) => e.existed,
                            None => prev is Some,
                        },
                    },
                )
            } else {
                log_entry(before, k)
            })
    }

    /// Stores `value` under `key` and returns the value the key held before.
    /// The write is noted in the pending log; nothing outside the tree changes.
    pub fn insert(&mut self, key: &[u8], value: Vec<u8>) -> (r: Result<Option<Vec<u8>>, TreeError>)
        requires
            old(self).wf(),
        ensures
            final(self).wf(),
            final(self).same_setup(old(self)),
            final(self).sync_root() == old(self).sync_root(),
            answer(old(self)@, key@) is Resolved ==> r is Ok,
            match r {
                Ok(prev) => {
                    &&& put_result(old(self)@, final(self)@, path_bits(key@), value_model(prev), value@)
                    &&& answer(final(self)@, key@) == Lookup::Resolved(Some(value@))
                    &&& Self::logged(
                        old(self).pending_log(),
                        final(self).pending_log(),
                        key@,
                        Some(value@),
                        value_model(prev),
                    )
                    &&& old(self).unbounded() && answer(old(self)@, key@) is Resolved ==> final(self)@
                        == old(self)@.put(path_bits(key@), 0, value@)
                    &&& Tree::stored(*old(self), *final(self), key@, value_model(prev), value@)
                },
                Err(e) => {
                    &&& e == TreeError::NodeUnavailable || e == TreeError::ProofMismatch
                    &&& akin(old(self)@, final(self)@)
                    &&& final(self)@.root_hash() == old(self)@.root_hash()
                    &&& final(self).pending_log() == old(self).pending_log()
                    &&& Tree::walked(*old(self), *final(self), key@, None)
                },
            },
    {
        proof {
            lemma_covers_refl(self.root.model());
        }
        let path = hash::Hash::digest_bytes(key);
        let stamp = self.tick();
        let mut fetched = false;
        let r = resolve(
            &mut self.root,
            &mut self.syncer,
            &self.sync_root,
            &self.empty,
            path.bytes.as_slice(),
            0,
            stamp,
            &mut fetched,
        );
        let ghost mid = self.root;
        proof {
            self.lemma_still_consistent(*old(self));
            lemma_covers_root_hash(mid.model(), old(self).root.model());
        }
        match r {
            Ok(prev) => {
                let ghost bits = path_bits(key@);
                let ghost log_before = self.pending@;
                put(&mut self.root, &self.empty, path.bytes.as_slice(), 0, copy_bytes(value.as_slice()), stamp);
                record(&mut self.pending, key, Some(value), prev.is_some());
                let ghost mid_tree = *self;
                proof {
                    lemma_covers_refl(mid.model().put(path_bits(key@), 0, value@));
                    assert(Tree::touched(*old(self), mid_tree, key@)) by {
                        assert forall|p: Seq<bool>| !along(p, path_bits(key@), 0) implies #[trigger] mid_tree.cached_at(
                            p,
                        ) == old(self).cached_at(p) by {
                            assert(mid.stamp_at(p, 0) == old(self).root.stamp_at(p, 0));
                        }
                    }
                    assert(put_result(old(self)@, mid_tree@, path_bits(key@), value_model(prev), value@));
                }
                proof {
                    lemma_put_same(mid.model(), bits, 0, value@);
                    lemma_put_shape(mid.model(), bits, 0, value@);
                    assert forall|i: int| 0 <= i < self.pending.len() implies self.root.pinned(
                        path_bits(#[trigger] self.pending[i].key@),
                        0,
                    ) by {
                        let b = path_bits(self.pending[i].key@);
                        if self.pending[i].key@ != key@ {
                            let j = choose|j: int| 0 <= j < log_before.len() && log_before[j] == self.pending[i];
                            assert(log_before[j].key@ == self.pending[i].key@);
                            assert(mid.pinned(b, 0));
                        }
                    }
                    if !clash_in(pending_model(self.pending@)) {
                        let log_after = pending_model(self.pending@);
                        assert forall|i: int| 0 <= i < log_before.len() implies log_entry(
                            log_after,
                            (#[trigger] pending_model(log_before)[i]).key,
                        ) is Some by {
                            lemma_log_entry_at(pending_model(log_before), i);
                        }
                        lemma_clash_persists(pending_model(log_before), log_after, key@);
                        let at = choose|k: int| 0 <= k < log_after.len() && #[trigger] log_after[k].key == key@;
                        assert forall|i: int| 0 <= i < self.pending.len() implies self.root.model().lookup(
                            path_bits(#[trigger] self.pending[i].key@),
                            0,
                        ) == Lookup::Resolved(value_model(self.pending[i].value)) by {
                            let b = path_bits(self.pending[i].key@);
                            if self.pending[i].key@ == key@ {
                                lemma_log_entry_at(pending_model(self.pending@), i);
                            } else {
                                let j = choose|j: int|
                                    0 <= j < log_before.len() && log_before[j] == self.pending[i];
                                assert(log_before[j].key@ == self.pending[i].key@);
                                lemma_paths_differ(self.pending[i].key@, key@);
                                assert(log_after[i].key == self.pending[i].key@);
                                assert(!collide(log_after[i].key, log_after[at].key));
                                assert(pending_model(log_before)[j].key == log_before[j].key@);
                                assert(b.skip(0) =~= b);
                                assert(bits.skip(0) =~= bits);
                                lemma_put_other(mid.model(), bits, 0, value@, b);
                            }
                        }
                    }
                    assert(self.pending.len() > 0) by {
                        if self.pending.len() == 0 {
                            assert(log_entry(pending_model(self.pending@), key@) is None);
                        }
                    }
                }
                let ghost written = self.root;
                if fetched {
                    self.enforce_capacity();
                } else {
                    proof {
                        self.settle();
                    }
                }
                proof {
                    lemma_pinned_resolved(self.root, bits, 0);
                    lemma_covers_lookup(written.model(), self.root.model(), bits, 0);
                    if answer(old(self)@, key@) is Resolved {
                        lemma_covers_lookup(mid.model(), old(self).root.model(), bits, 0);
                    }
                }
                Ok(prev)
            },
            Err(e) => {
                let ghost mid_tree = *self;
                proof {
                    assert(Tree::touched(*old(self), mid_tree, key@));
                }
                if fetched {
                    self.enforce_capacity();
                } else {
                    proof {
                        self.settle();
                    }
                }
                proof {
                    lemma_covers_root_hash(mid.model(), self.root.model());
                }
                Err(e)
            },
        }
    }

    /// Removes `key` and returns the value it held. The removal is noted in
    /// the pending log, whether or not the key was present.
    pub fn remove(&mut self, key: &[u8]) -> (r: Result<Option<Vec<u8>>, TreeError>)
        requires
            old(self).wf(),
        ensures
            final(self).wf(),
            final(self).same_setup(old(self)),
            final(self).sync_root() == old(self).sync_root(),
            answer(old(self)@, key@) is Resolved ==> r is Ok,
            match r {
                Ok(prev) => {
                    &&& erase_result(old(self)@, final(self)@, path_bits(key@), value_model(prev))
                    &&& answer(final(self)@, key@) == Lookup::Resolved(None)
                    &&& Self::logged(
                        old(self).pending_log(),
                        final(self).pending_log(),
                        key@,
                        None,
                        value_model(prev),
                    )
                    &&& old(self).unbounded() && answer(old(self)@, key@) is Resolved ==> final(self)@
                        == old(self)@.erase(path_bits(key@), 0)
                    &&& Tree::removed(*old(self), *final(self), key@, value_model(prev))
                },
                Err(e) => {
                    &&& e == TreeError::NodeUnavailable || e == TreeError::ProofMismatch
                    &&& akin(old(self)@, final(self)@)
                    &&& final(self)@.root_hash() == old(self)@.root_hash()
                    &&& final(self).pending_log() == old(self).pending_log()
                    &&& Tree::walked(*old(self), *final(self), key@, None)
                },
            },
    {
        proof {
            lemma_covers_refl(self.root.model());
        }
        let path = hash::Hash::digest_bytes(key);
        let stamp = self.tick();
        let mut fetched = false;
        let r = resolve(
            &mut self.root,
            &mut self.syncer,
            &self.sync_root,
            &self.empty,
            path.bytes.as_slice(),
            0,
            stamp,
            &mut fetched,
        );
        let ghost mid = self.root;
        proof {
            self.lemma_still_consistent(*old(self));
            lemma_covers_root_hash(mid.model(), old(self).root.model());
        }
        match r {
            Ok(prev) => {
                let ghost bits = path_bits(key@);
                let ghost log_before = self.pending@;
                erase(&mut self.root, path.bytes.as_slice(), 0, stamp);
                record(&mut self.pending, key, None, prev.is_some());
                let ghost mid_tree = *self;
                proof {
                    lemma_covers_refl(mid.model().erase(path_bits(key@), 0));
                    assert(Tree::touched(*old(self), mid_tree, key@)) by {
                        assert forall|p: Seq<bool>| !along(p, path_bits(key@), 0) implies #[trigger] mid_tree.cached_at(
                            p,
                        ) == old(self).cached_at(p) by {
                            assert(mid.stamp_at(p, 0) == old(self).root.stamp_at(p, 0));
                        }
                    }
                    assert(erase_result(old(self)@, mid_tree@, path_bits(key@), value_model(prev)));
                }
                proof {
                    lemma_erase_same(mid.model(), bits, 0);
                    lemma_erase_shape(mid.model(), bits, 0);
                    assert forall|i: int| 0 <= i < self.pending.len() implies self.root.pinned(
                        path_bits(#[trigger] self.pending[i].key@),
                        0,
                    ) by {
                        let b = path_bits(self.pending[i].key@);
                        if self.pending[i].key@ != key@ {
                            let j = choose|j: int| 0 <= j < log_before.len() && log_before[j] == self.pending[i];
                            assert(log_before[j].key@ == self.pending[i].key@);
                            assert(mid.pinned(b, 0));
                        }
                    }
                    if !clash_in(pending_model(self.pending@)) {
                        let log_after = pending_model(self.pending@);
                        assert forall|i: int| 0 <= i < log_before.len() implies log_entry(
                            log_after,
                            (#[trigger] pending_model(log_before)[i]).key,
                        ) is Some by {
                            lemma_log_entry_at(pending_model(log_before), i);
                        }
                        lemma_clash_persists(pending_model(log_before), log_after, key@);
                        let at = choose|k: int| 0 <= k < log_after.len() && #[trigger] log_after[k].key == key@;
                        assert forall|i: int| 0 <= i < self.pending.len() implies self.root.model().lookup(
                            path_bits(#[trigger] self.pending[i].key@),
                            0,
                        ) == Lookup::Resolved(value_model(self.pending[i].value)) by {
                            let b = path_bits(self.pending[i].key@);
                            if self.pending[i].key@ == key@ {
                                lemma_log_entry_at(pending_model(self.pending@), i);
                            } else {
                                let j = choose|j: int|
                                    0 <= j < log_before.len() && log_before[j] == self.pending[i];
                                assert(log_before[j].key@ == self.pending[i].key@);
                                lemma_paths_differ(self.pending[i].key@, key@);
                                assert(log_after[i].key == self.pending[i].key@);
                                assert(!collide(log_after[i].key, log_after[at].key));
                                assert(pending_model(log_before)[j].key == log_before[j].key@);
                                assert(b.skip(0) =~= b);
                                assert(bits.skip(0) =~= bits);
                                lemma_erase_other(mid.model(), bits, 0, b);
                            }
                        }
                    }
                    assert(self.pending.len() > 0) by {
                        if self.pending.len() == 0 {
                            assert(log_entry(pending_model(self.pending@), key@) is None);
                        }
                    }
                }
                let ghost written = self.root;
                if fetched {
                    self.enforce_capacity();
                } else {
                    proof {
                        self.settle();
                    }
                }
                proof {
                    lemma_pinned_resolved(self.root, bits, 0);
                    lemma_covers_lookup(written.model(), self.root.model(), bits, 0);
                    if answer(old(self)@, key@) is Resolved {
                        lemma_covers_lookup(mid.model(), old(self).root.model(), bits, 0);
                    }
                }
                Ok(prev)
            },
            Err(e) => {
                let ghost mid_tree = *self;
                proof {
                    assert(Tree::touched(*old(self), mid_tree, key@));
                }
                if fetched {
                    self.enforce_capacity();
                } else {
                    proof {
                        self.settle();
                    }
                }
                proof {
                    lemma_covers_root_hash(mid.model(), self.root.model());
                }
                Err(e)
            },
        }
    }

    /// Makes all uncommitted writes part of the tree: computes the hashes of
    /// the changed nodes, makes the result the root of the tree under the
    /// given namespace and version, and empties the pending log. Returns the
    /// write log, ordered by key, and the new root hash. A commit of a tree
    /// without uncommitted writes returns the hash of the root it had.
    pub fn commit(&mut self, namespace: Namespace, version: u64) -> (r: (Vec<LogEntry>, hash::Hash))
        requires
            old(self).wf(),
        ensures
            final(self).wf(),
            final(self).same_setup(old(self)),
            r.1@ == old(self)@.root_hash(),
            old(self).pending_log().len() == 0 ==> r.1@ == old(self).sync_root().hash@ && r.0@.len() == 0,
            write_model(r.0@) == committed_log(old(self).pending_log()),
            final(self).pending_log().len() == 0,
            final(self).sync_root() == (Root {
                namespace,
                version,
                root_type: old(self).kind(),
                hash: r.1,
            }),
            old(self)@.covers(final(self)@),
            old(self).unbounded() ==> final(self)@ == old(self)@,
            write_sorted(write_model(r.0@)),
            clash_in(old(self).pending_log()) || entries_read_back(r.0@, old(self)@),
            Tree::sealed(*old(self), *final(self)),
    {
        let stamp = self.tick();
        let log = write_log(&self.pending);
        proof {
            let pending = pending_model(self.pending@);
            assert(write_model(log@).len() == log@.len());
            lemma_committed_log(pending);
            if !clash_in(pending) {
                assert forall|i: int| 0 <= i < log.len() implies answer(
                    self.root.model(),
                    (#[trigger] log[i]).key@,
                ) == Lookup::Resolved(value_model(log[i].value)) by {
                    assert(write_model(log@)[i].key == log[i].key@);
                    let j = choose|j: int|
                        0 <= j < pending.len() && shows(#[trigger] pending[j]) && pending[j].key
                            == committed_log(pending)[i].key && pending[j].value == committed_log(
                            pending,
                        )[i].value;
                    assert(self.pending[j].key@ == pending[j].key);
                }
            }
        }
        let hash = seal(&mut self.root, &self.empty, stamp);
        self.pending = Vec::new();
        self.sync_root = Root { namespace, version, root_type: self.root_type, hash };
        assert(pending_model(self.pending@) =~= Seq::<PendingEntry>::empty());
        let ghost mid_tree = *self;
        self.enforce_capacity();
        assert(Tree::trimmed(mid_tree, *self));
        (log, hash)
    }

    /// No cached node was used after the last operation.
    pub proof fn lemma_cached_not_after_now(&self, path: Seq<bool>)
        requires
            self.wf(),
        ensures
            self.cached_at(path) matches Some(s) ==> s <= self.now(),
    {
        lemma_stamps_bounded(self.root, path, 0);
    }

    /// A tree is of the type of its root.
    pub proof fn lemma_kind_of_root(&self)
        requires
            self.wf(),
        ensures
            self.sync_root().root_type == self.kind(),
    {
    }

    /// The pending log of a tree is ordered by key.
    pub proof fn lemma_pending_sorted(&self)
        requires
            self.wf(),
        ensures
            log_sorted(self.pending_log()),
    {
    }

    /// The view of a tree holds only hashes of the length of a hash.
    pub proof fn lemma_sized(&self)
        requires
            self.wf(),
        ensures
            self@.sized(),
    {
    }

    /// After nodes were fetched into `self`, which was `before`, the tree is
    /// still consistent.
    proof fn lemma_still_consistent(&self, before: Tree)
        requires
            before.consistent(),
            self.root.wf(),
            self.root.model().sized(),
            self.root.model().covers(before.root.model()),
            forall|b: Seq<bool>, d: int| #[trigger] before.root.pinned(b, d) ==> self.root.pinned(b, d),
            self.root_type == before.root_type,
            self.pending == before.pending,
            self.sync_root == before.sync_root,
            self.empty == before.empty,
            self.root.top_stamp() <= self.clock,
        ensures
            self.consistent(),
    {
        lemma_covers_root_hash(self.root.model(), before.root.model());
        assert forall|i: int| 0 <= i < self.pending.len() implies self.root.pinned(
            path_bits(#[trigger] self.pending[i].key@),
            0,
        ) by {
            assert(before.root.pinned(path_bits(self.pending[i].key@), 0));
        }
        if !clash_in(pending_model(self.pending@)) {
            assert forall|i: int| 0 <= i < self.pending.len() implies self.root.model().lookup(
                path_bits(#[trigger] self.pending[i].key@),
                0,
            ) == Lookup::Resolved(value_model(self.pending[i].value)) by {
                let bits = path_bits(self.pending[i].key@);
                lemma_covers_lookup(self.root.model(), before.root.model(), bits, 0);
            }
        }
    }
}

/// The cache of a tree is within its bounds.
pub proof fn lemma_cache_bounded(tree: &Tree)
    requires
        tree.wf(),
    ensures
        tree.node_capacity() > 0 ==> tree.cached_nodes() <= tree.node_capacity(),
        tree.value_capacity() > 0 ==> tree.cached_bytes() <= tree.value_capacity(),
{
}

/// Every uncommitted write of a tree reads back, unless two of the keys
/// written collide.
pub proof fn lemma_pending_reads_back(tree: &Tree, i: int)
    requires
        tree.wf(),
        0 <= i < tree.pending_log().len(),
    ensures
        answer(tree@, tree.pending_log()[i].key) == Lookup::Resolved(tree.pending_log()[i].value)
            || clash_in(tree.pending_log()),
{
    assert(tree.pending[i].key@ == tree.pending_log()[i].key);
}

/// A tree without uncommitted writes has the root hash of its root.
pub proof fn lemma_clean_root(tree: &Tree)
    requires
        tree.wf(),
        tree.pending_log().len() == 0,
    ensures
        tree@.root_hash() == tree.sync_root().hash@,
{
}

} // verus!
