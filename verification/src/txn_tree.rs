//! The tree of the inputs and outputs of one round.
//!
//! Every transaction is filed under the hash of its bytes: its input with
//! its position in the batch, its output, and each of its tags.
use crate::codec::{be32, framed, push_all, push_be32, push_framed};
use crate::hash;
use crate::hash::{collide, digest, empty_digest};
use crate::mkvs::log::{
    clash_in, clash_with, committed_log, lemma_clash_persists, lemma_committed_log,
    lemma_log_entry_at, log_entry, log_sorted, mentions, shows, write_model, write_sorted,
    written_clash_in,
    written_clash_with, LogEntry, PendingEntry,
};
use crate::mkvs::node::{value_model, TreeError};
use crate::mkvs::root::Root;
use crate::mkvs::sync::ReadSync;
use crate::mkvs::tree::{answer, entries_read_back, Tree};
use crate::mkvs::trie::{
    lemma_complete_resolves, lemma_paths_differ, lemma_put_other, lemma_put_shape, path_bits, Trie,
};
use crate::transaction::{tags_model, Tag, TagModel};
use vstd::prelude::*;

verus! {

/// The key under which the input of the transaction with hash `tx_hash` is filed.
pub open spec fn input_key(tx_hash: Seq<u8>) -> Seq<u8> {
    seq![0x54u8] + tx_hash + seq![1u8]
}

/// The key under which the output of the transaction with hash `tx_hash` is filed.
pub open spec fn output_key(tx_hash: Seq<u8>) -> Seq<u8> {
    seq![0x54u8] + tx_hash + seq![2u8]
}

/// The key under which a tag with key `tag_key` of the transaction with
/// hash `tx_hash` is filed.
pub open spec fn tag_key(tx_hash: Seq<u8>, tag_key: Seq<u8>) -> Seq<u8> {
    seq![0x45u8] + digest(tag_key) + tx_hash
}

/// What is filed for an input: its position in the batch, then its bytes.
pub open spec fn input_value(batch_order: u32, input: Seq<u8>) -> Seq<u8> {
    be32(batch_order) + input
}

/// What is filed for a tag: its key behind its length, then its value.
pub open spec fn tag_value(tag: TagModel) -> Seq<u8> {
    framed(tag.key) + tag.value
}

/// The trie `t` with `value` filed under `key`.
pub open spec fn filed(t: Trie, key: Seq<u8>, value: Seq<u8>) -> Trie {
    t.put(path_bits(key), 0, value)
}

/// The trie `t` with an input added.
pub open spec fn with_input(t: Trie, input: Seq<u8>, batch_order: u32) -> Trie {
    filed(t, input_key(digest(input)), input_value(batch_order, input))
}

/// The trie `t` with the first `n` of the tags of a transaction added.
pub open spec fn with_tags(t: Trie, tx_hash: Seq<u8>, tags: Seq<TagModel>, n: nat) -> Trie
    decreases n,
{
    if n == 0 {
        t
    } else {
        let tag = tags[n - 1];
        filed(with_tags(t, tx_hash, tags, (n - 1) as nat), tag_key(tx_hash, tag.key), tag_value(tag))
    }
}

/// The trie `t` with the output and the tags of a transaction added.
pub open spec fn with_output(t: Trie, tx_hash: Seq<u8>, output: Seq<u8>, tags: Seq<TagModel>) -> Trie {
    with_tags(filed(t, output_key(tx_hash), output), tx_hash, tags, tags.len())
}

/// The write log names every key about which `after` says something else
/// than `before`, or a key that collides with it.
pub open spec fn names_changes(log: Seq<LogEntry>, before: Trie, after: Trie) -> bool {
    forall|k: Seq<u8>|
        answer(after, k) != answer(before, k) ==> #[trigger] mentions(write_model(log), k)
            || written_clash_with(write_model(log), k)
}

/// Filing a value under `key` changes what a tree says about another key
/// `k` only if the two collide.
proof fn lemma_filed_at(held: Trie, base: Trie, key: Seq<u8>, value: Seq<u8>, k: Seq<u8>)
    requires
        k != key,
    ensures
        answer(held.put(path_bits(key), 0, value), k) == answer(held, k) || collide(k, key),
{
    lemma_paths_differ(k, key);
    if !collide(k, key) {
        assert(path_bits(k).skip(0) =~= path_bits(k));
        assert(path_bits(key).skip(0) =~= path_bits(key));
        lemma_put_other(held, path_bits(key), 0, value, path_bits(k));
    }
}

/// After a write to `key` every pending write stores a value if every one
/// did before and the write stores one.
proof fn lemma_filed_values(before: Seq<PendingEntry>, after: Seq<PendingEntry>, key: Seq<u8>)
    requires
        log_sorted(before),
        log_sorted(after),
        log_entry(after, key) is Some && log_entry(after, key).unwrap().value is Some,
        forall|k: Seq<u8>| k != key ==> #[trigger] log_entry(after, k) == log_entry(before, k),
        forall|i: int| 0 <= i < before.len() ==> (#[trigger] before[i]).value is Some,
    ensures
        forall|i: int| 0 <= i < after.len() ==> (#[trigger] after[i]).value is Some,
{
    assert forall|i: int| 0 <= i < after.len() implies (#[trigger] after[i]).value is Some by {
        lemma_log_entry_at(after, i);
        if after[i].key != key {
            assert(log_entry(before, after[i].key) == Some(after[i]));
            let j = choose|j: int| 0 <= j < before.len() && #[trigger] before[j].key == after[i].key;
            lemma_log_entry_at(before, j);
        }
    }
}

/// After a write to `key` the pending log names every key it named, and `key`.
proof fn lemma_filed_names(before: Seq<PendingEntry>, after: Seq<PendingEntry>, key: Seq<u8>)
    requires
        log_sorted(before),
        log_entry(after, key) is Some,
        forall|k: Seq<u8>| k != key ==> #[trigger] log_entry(after, k) == log_entry(before, k),
    ensures
        forall|i: int| 0 <= i < before.len() ==> log_entry(after, (#[trigger] before[i]).key) is Some,
        exists|i: int| 0 <= i < after.len() && #[trigger] after[i].key == key,
{
    assert forall|i: int| 0 <= i < before.len() implies log_entry(after, (#[trigger] before[i]).key) is Some by {
        lemma_log_entry_at(before, i);
    }
}

/// The tree of the inputs and outputs of one round.
pub struct TxnTree {
    tree: Tree,
    io_root: Root,
    /// What the tree held when it was opened or last committed.
    base: Ghost<Trie>,
}

impl View for TxnTree {
    type V = Trie;

    /// What is resident of the tree.
    closed spec fn view(&self) -> Trie {
        self.tree@
    }
}

impl TxnTree {
    /// The invariant of the tree.
    pub closed spec fn wf(&self) -> bool {
        self.tree.wf()
    }

    /// The tree is held here in full and never evicts: no operation on it
    /// needs the read syncer. Every pending write stores a value, and what
    /// the tree says about a key that no pending write names is what it
    /// said when it was last committed, unless the key collides with a key
    /// that a pending write names.
    pub closed spec fn local(&self) -> bool {
        &&& self.tree.unbounded()
        &&& self.tree@.complete()
        &&& forall|i: int|
            0 <= i < self.tree.pending_log().len() ==> (#[trigger] self.tree.pending_log()[i]).value is Some
        &&& self.rest_unchanged()
    }

    /// What the tree says about a key that no pending write names is what
    /// it said when it was last committed, unless the key collides with a
    /// key that a pending write names.
    pub closed spec fn rest_unchanged(&self) -> bool {
        forall|k: Seq<u8>| #[trigger]
            log_entry(self.tree.pending_log(), k) is None ==> answer(self.tree@, k) == answer(
                self.base@,
                k,
            ) || clash_with(self.tree.pending_log(), k)
    }

    /// What the tree held when it was opened or last committed.
    pub closed spec fn committed(&self) -> Trie {
        self.base@
    }

    /// The writes that have not been committed.
    pub closed spec fn pending_log(&self) -> Seq<PendingEntry> {
        self.tree.pending_log()
    }

    /// The root the tree was opened at.
    pub closed spec fn io_root(&self) -> Root {
        self.io_root
    }

    /// Opens the tree of inputs and outputs at `io_root`. The tree never
    /// evicts. Opened at the hash of the empty tree, it is local.
    pub fn new(read_syncer: Box<dyn ReadSync>, io_root: Root) -> (t: TxnTree)
        ensures
            t.wf(),
            t.io_root() == io_root,
            t.pending_log().len() == 0,
            t@ == (if io_root.hash@ == empty_digest() {
                Trie::Empty
            } else {
                Trie::Stub(io_root.hash@)
            }),
            io_root.hash@ == empty_digest() ==> t.local(),
            t.committed() == t@,
    {
        let opts = Tree::make().with_capacity(0, 0).with_root(io_root);
        let tree = Tree::new(read_syncer, &opts);
        TxnTree { base: Ghost(tree@), tree, io_root }
    }

    /// Files `value` under `key`.
    fn file(&mut self, key: Vec<u8>, value: Vec<u8>) -> (r: Result<(), TreeError>)
        requires
            old(self).wf(),
        ensures
            final(self).wf(),
            final(self).io_root() == old(self).io_root(),
            final(self).committed() == old(self).committed(),
            old(self).local() ==> r is Ok && final(self).local() && final(self)@ == filed(
                old(self)@,
                key@,
                value@,
            ),
    {
        proof {
            if self.local() {
                lemma_complete_resolves(self.tree@, path_bits(key@), 0);
                lemma_put_shape(self.tree@, path_bits(key@), 0, value@);
            }
        }
        let ghost before = self.tree.pending_log();
        let ghost held = self.tree@;
        proof {
            self.tree.lemma_pending_sorted();
        }
        let r = match self.tree.insert(key.as_slice(), value) {
            Ok(_) => Ok(()),
            Err(e) => Err(e),
        };
        proof {
            if old(self).local() {
                let after = self.tree.pending_log();
                lemma_filed_values(before, after, key@);
                lemma_filed_names(before, after, key@);
                let at = choose|i: int| 0 <= i < after.len() && #[trigger] after[i].key == key@;
                assert forall|k: Seq<u8>| #[trigger] log_entry(after, k) is None implies answer(
                    self.tree@,
                    k,
                ) == answer(self.base@, k) || clash_with(after, k) by {
                    lemma_filed_at(held, self.base@, key@, value@, k);
                    lemma_clash_persists(before, after, k);
                    if collide(k, key@) {
                        assert(collide(k, after[at].key));
                    }
                }
            }
        }
        r
    }

    /// Adds an input with its position in the batch.
    pub fn add_input(&mut self, input: &[u8], batch_order: u32) -> (r: Result<(), TreeError>)
        requires
            old(self).wf(),
        ensures
            final(self).wf(),
            final(self).io_root() == old(self).io_root(),
            final(self).committed() == old(self).committed(),
            old(self).local() ==> r is Ok && final(self).local() && final(self)@ == with_input(
                old(self)@,
                input@,
                batch_order,
            ),
    {
        let tx_hash = hash::Hash::digest_bytes(input);
        let mut key: Vec<u8> = Vec::new();
        key.push(0x54u8);
        push_all(&mut key, &tx_hash.bytes);
        key.push(1u8);
        assert(key@ =~= input_key(digest(input@)));
        let mut value: Vec<u8> = Vec::new();
        push_be32(&mut value, batch_order);
        push_all(&mut value, input);
        assert(value@ =~= input_value(batch_order, input@));
        self.file(key, value)
    }

    /// Adds the output and the tags of the transaction with hash `tx_hash`.
    pub fn add_output(&mut self, tx_hash: hash::Hash, output: Vec<u8>, tags: Vec<Tag>) -> (r: Result<
        (),
        TreeError,
    >)
        requires
            old(self).wf(),
        ensures
            final(self).wf(),
            final(self).io_root() == old(self).io_root(),
            final(self).committed() == old(self).committed(),
            old(self).local() ==> r is Ok && final(self).local() && final(self)@ == with_output(
                old(self)@,
                tx_hash@,
                output@,
                tags_model(tags@),
            ),
    {
        let mut key: Vec<u8> = Vec::new();
        key.push(0x54u8);
        push_all(&mut key, &tx_hash.bytes);
        key.push(2u8);
        assert(key@ =~= output_key(tx_hash@));
        let ghost model = tags_model(tags@);
        let ghost base = filed(self@, output_key(tx_hash@), output@);
        match self.file(key, output) {
            Ok(()) => {},
            Err(e) => {
                return Err(e);
            },
        }
        let mut i: usize = 0;
        while i < tags.len()
            invariant
                0 <= i <= tags.len(),
                self.wf(),
                self.io_root() == old(self).io_root(),
                self.committed() == old(self).committed(),
                model == tags_model(tags@),
                old(self).local() ==> self.local() && self@ == with_tags(base, tx_hash@, model, i as nat),
            decreases tags.len() - i,
        {
            let tag = &tags[i];
            let key_hash = hash::Hash::digest_bytes(tag.key.as_slice());
            let mut key: Vec<u8> = Vec::new();
            key.push(0x45u8);
            push_all(&mut key, &key_hash.bytes);
            push_all(&mut key, &tx_hash.bytes);
            assert(key@ =~= tag_key(tx_hash@, model[i as int].key));
            let mut value: Vec<u8> = Vec::new();
            push_framed(&mut value, tag.key.as_slice());
            push_all(&mut value, tag.value.as_slice());
            assert(value@ =~= tag_value(model[i as int]));
            match self.file(key, value) {
                Ok(()) => {},
                Err(e) => {
                    return Err(e);
                },
            }
            i += 1;
        }
        Ok(())
    }

    /// Commits the tree under the namespace and version of the root it was
    /// opened at. Returns the write log and the new root hash.
    ///
    /// The write log is ordered by key, and every entry of it reads back
    /// from the tree unless two of the keys written collide. For a local
    /// tree every entry holds a value, and the log names every key for
    /// which the tree says something else than it did when it was last
    /// committed, or a key that collides with it.
    pub fn commit(&mut self) -> (r: (Vec<LogEntry>, hash::Hash))
        requires
            old(self).wf(),
        ensures
            final(self).wf(),
            final(self).io_root() == old(self).io_root(),
            r.1@ == old(self)@.root_hash(),
            write_model(r.0@) == committed_log(old(self).pending_log()),
            final(self).pending_log().len() == 0,
            write_sorted(write_model(r.0@)),
            clash_in(old(self).pending_log()) || entries_read_back(r.0@, old(self)@),
            old(self).local() ==> {
                &&& final(self).local()
                &&& final(self)@ == old(self)@
                &&& final(self).committed() == old(self)@
                &&& forall|i: int| 0 <= i < r.0.len() ==> (#[trigger] r.0[i]).value is Some
                &&& written_clash_in(write_model(r.0@)) || entries_read_back(r.0@, old(self)@)
                &&& names_changes(r.0@, old(self).committed(), old(self)@)
            },
    {
        let ghost pending = self.tree.pending_log();
        let ghost held = self.tree@;
        let r = self.tree.commit(self.io_root.namespace, self.io_root.version);
        proof {
            lemma_committed_log(pending);
            if old(self).local() {
                let log = write_model(r.0@);
                assert forall|i: int| 0 <= i < r.0.len() implies (#[trigger] r.0[i]).value is Some by {
                    assert(log[i].value == value_model(r.0[i].value));
                    let j = choose|j: int|
                        0 <= j < pending.len() && shows(#[trigger] pending[j]) && pending[j].key
                            == committed_log(pending)[i].key && pending[j].value == committed_log(
                            pending,
                        )[i].value;
                }
                assert forall|k: Seq<u8>| answer(held, k) != answer(self.base@, k) implies #[trigger] mentions(
                    log,
                    k,
                ) || written_clash_with(log, k) by {
                    if log_entry(pending, k) is Some {
                        let j = choose|j: int| 0 <= j < pending.len() && #[trigger] pending[j].key == k;
                        assert(shows(pending[j]));
                    } else {
                        let j = choose|j: int| 0 <= j < pending.len() && collide(k, #[trigger] pending[j].key);
                        assert(shows(pending[j]));
                        assert(mentions(log, pending[j].key));
                        let i = choose|i: int| 0 <= i < log.len() && #[trigger] log[i].key == pending[j].key;
                        assert(collide(k, log[i].key));
                    }
                }
                if clash_in(pending) {
                    let (a, b) = choose|a: int, b: int|
                        0 <= a < pending.len() && 0 <= b < pending.len() && collide(
                            #[trigger] pending[a].key,
                            #[trigger] pending[b].key,
                        );
                    assert(shows(pending[a]) && shows(pending[b]));
                    assert(mentions(log, pending[a].key));
                    assert(mentions(log, pending[b].key));
                    let i = choose|i: int| 0 <= i < log.len() && #[trigger] log[i].key == pending[a].key;
                    let j = choose|j: int| 0 <= j < log.len() && #[trigger] log[j].key == pending[b].key;
                    assert(collide(log[i].key, log[j].key));
                }
                assert(self.tree.pending_log() =~= Seq::<PendingEntry>::empty());
            }
            self.base = Ghost(held);
        }
        r
    }
}

} // verus!
