//! The log of writes that have not been committed, and the write log a
//! commit hands out.
//!
//! The pending log is a vector kept in the order of its keys, with that
//! order as its invariant. It is not a `BTreeMap`: of a map keyed by byte
//! strings the verifier knows nothing after an insert, not even its length.
use crate::codec::copy_bytes;
use crate::mkvs::node::{copy_value, value_model};
use crate::hash::collide;
use vstd::prelude::*;

verus! {

/// One write that has not been committed.
#[derive(Clone, Debug, PartialEq, Eq)]
pub struct PendingLogEntry {
    /// The key that was written.
    pub key: Vec<u8>,
    /// The value it has now; `None` if it was removed.
    pub value: Option<Vec<u8>>,
    /// Whether the key was present when it was first written after the last commit.
    pub existed: bool,
}

/// One change that a commit made: the key, and its new value or `None` for a removal.
#[derive(Clone, Debug, PartialEq, Eq)]
pub struct LogEntry {
    pub key: Vec<u8>,
    pub value: Option<Vec<u8>>,
}

/// The changes of one commit, ordered by key.
pub type WriteLog = Vec<LogEntry>;

/// A pending write, as plain data.
pub struct PendingEntry {
    pub key: Seq<u8>,
    pub value: Option<Seq<u8>>,
    pub existed: bool,
}

/// A committed change, as plain data.
pub struct WriteEntry {
    pub key: Seq<u8>,
    pub value: Option<Seq<u8>>,
}

impl PendingLogEntry {
    /// The entry as plain data.
    pub open spec fn model(self) -> PendingEntry {
        PendingEntry { key: self.key@, value: value_model(self.value), existed: self.existed }
    }
}

impl LogEntry {
    /// The entry as plain data.
    pub open spec fn model(self) -> WriteEntry {
        WriteEntry { key: self.key@, value: value_model(self.value) }
    }
}

/// A pending log as plain data.
pub open spec fn pending_model(log: Seq<PendingLogEntry>) -> Seq<PendingEntry> {
    Seq::new(log.len(), |i: int| log[i].model())
}

/// A write log as plain data.
pub open spec fn write_model(log: Seq<LogEntry>) -> Seq<WriteEntry> {
    Seq::new(log.len(), |i: int| log[i].model())
}

/// The order of keys: byte by byte, a proper prefix before what it is a prefix of.
pub open spec fn key_less(a: Seq<u8>, b: Seq<u8>) -> bool
    decreases a.len(),
{
    if b.len() == 0 {
        false
    } else if a.len() == 0 {
        true
    } else if a[0] != b[0] {
        a[0] < b[0]
    } else {
        key_less(a.drop_first(), b.drop_first())
    }
}

/// No key is before itself.
pub proof fn lemma_key_less_irreflexive(a: Seq<u8>)
    ensures
        !key_less(a, a),
    decreases a.len(),
{
    if a.len() > 0 {
        lemma_key_less_irreflexive(a.drop_first());
    }
}

/// The order of keys is transitive.
pub proof fn lemma_key_less_transitive(a: Seq<u8>, b: Seq<u8>, c: Seq<u8>)
    requires
        key_less(a, b),
        key_less(b, c),
    ensures
        key_less(a, c),
    decreases a.len(),
{
    if a.len() > 0 && b.len() > 0 && c.len() > 0 && a[0] == b[0] && b[0] == c[0] {
        lemma_key_less_transitive(a.drop_first(), b.drop_first(), c.drop_first());
    }
}

/// Of two different keys one is before the other.
pub proof fn lemma_key_less_total(a: Seq<u8>, b: Seq<u8>)
    ensures
        a == b || key_less(a, b) || key_less(b, a),
    decreases a.len(),
{
    if a.len() > 0 && b.len() > 0 && a[0] == b[0] {
        lemma_key_less_total(a.drop_first(), b.drop_first());
        if a.drop_first() == b.drop_first() {
            assert(a =~= seq![a[0]] + a.drop_first());
            assert(b =~= seq![b[0]] + b.drop_first());
        }
    } else if a.len() == 0 && b.len() == 0 {
        assert(a =~= b);
    }
}

/// The entries come in strictly ascending order of their keys.
pub open spec fn log_sorted(log: Seq<PendingEntry>) -> bool {
    forall|i: int, j: int| 0 <= i < j < log.len() ==> key_less(#[trigger] log[i].key, #[trigger] log[j].key)
}

/// The pending write to `key`, if there is one.
pub open spec fn log_entry(log: Seq<PendingEntry>, key: Seq<u8>) -> Option<PendingEntry> {
    if exists|i: int| 0 <= i < log.len() && #[trigger] log[i].key == key {
        Some(log[choose|i: int| 0 <= i < log.len() && #[trigger] log[i].key == key])
    } else {
        None
    }
}

/// Two keys that the pending log names collide.
pub open spec fn clash_in(log: Seq<PendingEntry>) -> bool {
    exists|i: int, j: int|
        0 <= i < log.len() && 0 <= j < log.len() && collide(#[trigger] log[i].key, #[trigger] log[j].key)
}

/// `key` collides with a key that the pending log names.
pub open spec fn clash_with(log: Seq<PendingEntry>, key: Seq<u8>) -> bool {
    exists|i: int| 0 <= i < log.len() && collide(key, #[trigger] log[i].key)
}

/// Two keys that the write log names collide.
pub open spec fn written_clash_in(log: Seq<WriteEntry>) -> bool {
    exists|i: int, j: int|
        0 <= i < log.len() && 0 <= j < log.len() && collide(#[trigger] log[i].key, #[trigger] log[j].key)
}

/// `key` collides with a key that the write log names.
pub open spec fn written_clash_with(log: Seq<WriteEntry>, key: Seq<u8>) -> bool {
    exists|i: int| 0 <= i < log.len() && collide(key, #[trigger] log[i].key)
}

/// A pending log that names every key that another names has every clash
/// that the other has.
pub proof fn lemma_clash_persists(before: Seq<PendingEntry>, after: Seq<PendingEntry>, key: Seq<u8>)
    requires
        forall|i: int| 0 <= i < before.len() ==> log_entry(after, (#[trigger] before[i]).key) is Some,
    ensures
        clash_in(before) ==> clash_in(after),
        clash_with(before, key) ==> clash_with(after, key),
{
    if clash_in(before) {
        let (i, j) = choose|i: int, j: int|
            0 <= i < before.len() && 0 <= j < before.len() && collide(
                #[trigger] before[i].key,
                #[trigger] before[j].key,
            );
        let i2 = choose|k: int| 0 <= k < after.len() && #[trigger] after[k].key == before[i].key;
        let j2 = choose|k: int| 0 <= k < after.len() && #[trigger] after[k].key == before[j].key;
        assert(collide(after[i2].key, after[j2].key));
    }
    if clash_with(before, key) {
        let i = choose|i: int| 0 <= i < before.len() && collide(key, #[trigger] before[i].key);
        let i2 = choose|k: int| 0 <= k < after.len() && #[trigger] after[k].key == before[i].key;
        assert(collide(key, after[i2].key));
    }
}

/// A pending write shows in the write log unless it removes a key that was
/// not there to begin with.
pub open spec fn shows(e: PendingEntry) -> bool {
    e.value is Some || e.existed
}

/// The write log of a commit with the pending log `log`.
pub open spec fn committed_log(log: Seq<PendingEntry>) -> Seq<WriteEntry>
    decreases log.len(),
{
    if log.len() == 0 {
        Seq::empty()
    } else if shows(log.last()) {
        committed_log(log.drop_last()).push(WriteEntry { key: log.last().key, value: log.last().value })
    } else {
        committed_log(log.drop_last())
    }
}

/// The entries of a write log come in strictly ascending order of their keys.
pub open spec fn write_sorted(log: Seq<WriteEntry>) -> bool {
    forall|i: int, j: int| 0 <= i < j < log.len() ==> key_less(#[trigger] log[i].key, #[trigger] log[j].key)
}

/// The write log says something about `key`.
pub open spec fn mentions(log: Seq<WriteEntry>, key: Seq<u8>) -> bool {
    exists|i: int| 0 <= i < log.len() && #[trigger] log[i].key == key
}

/// What the write log of a commit holds: every entry is a pending write
/// that shows, every pending write that shows is in it, and it is ordered
/// by key if the pending log is.
pub proof fn lemma_committed_log(log: Seq<PendingEntry>)
    ensures
        forall|i: int|
            0 <= i < committed_log(log).len() ==> exists|j: int|
                0 <= j < log.len() && shows(#[trigger] log[j]) && log[j].key == (
                #[trigger] committed_log(log)[i]).key && log[j].value == committed_log(log)[i].value,
        forall|j: int|
            0 <= j < log.len() && shows(#[trigger] log[j]) ==> mentions(committed_log(log), log[j].key),
        log_sorted(log) ==> write_sorted(committed_log(log)),
    decreases log.len(),
{
    if log.len() > 0 {
        let rest = log.drop_last();
        let last = log.last();
        let c = committed_log(log);
        let cr = committed_log(rest);
        lemma_committed_log(rest);
        assert forall|i: int| 0 <= i < c.len() implies exists|j: int|
            0 <= j < log.len() && shows(#[trigger] log[j]) && log[j].key == (#[trigger] c[i]).key
                && log[j].value == c[i].value by {
            if i < cr.len() {
                let j = choose|j: int|
                    0 <= j < rest.len() && shows(#[trigger] rest[j]) && rest[j].key == cr[i].key
                        && rest[j].value == cr[i].value;
                assert(log[j] == rest[j]);
            } else {
                assert(log[log.len() - 1] == last);
            }
        }
        assert forall|j: int| 0 <= j < log.len() && shows(#[trigger] log[j]) implies mentions(
            c,
            log[j].key,
        ) by {
            if j < rest.len() {
                assert(rest[j] == log[j]);
                let i = choose|i: int| 0 <= i < cr.len() && #[trigger] cr[i].key == rest[j].key;
                assert(c[i].key == log[j].key);
            } else {
                assert(c[c.len() - 1].key == log[j].key);
            }
        }
        if log_sorted(log) {
            assert(log_sorted(rest)) by {
                assert forall|i: int, j: int| 0 <= i < j < rest.len() implies key_less(
                    #[trigger] rest[i].key,
                    #[trigger] rest[j].key,
                ) by {
                    assert(key_less(log[i].key, log[j].key));
                }
            }
            assert forall|i: int, j: int| 0 <= i < j < c.len() implies key_less(
                #[trigger] c[i].key,
                #[trigger] c[j].key,
            ) by {
                if j < cr.len() {
                    assert(key_less(cr[i].key, cr[j].key));
                } else {
                    let k = choose|k: int|
                        0 <= k < rest.len() && shows(#[trigger] rest[k]) && rest[k].key == cr[i].key
                            && rest[k].value == cr[i].value;
                    assert(key_less(log[k].key, log[log.len() - 1].key));
                }
            }
        }
    }
}

/// How two keys stand to each other.
#[derive(Clone, Copy, Debug, PartialEq, Eq, Structural)]
pub enum KeyOrder {
    Before,
    Same,
    After,
}

/// Compares two keys.
pub fn key_order(a: &[u8], b: &[u8]) -> (r: KeyOrder)
    ensures
        r == KeyOrder::Before <==> key_less(a@, b@),
        r == KeyOrder::Same <==> a@ == b@,
        r == KeyOrder::After <==> key_less(b@, a@),
{
    let mut i: usize = 0;
    proof {
        lemma_key_less_irreflexive(a@);
        lemma_key_less_total(a@, b@);
        if key_less(a@, b@) && key_less(b@, a@) {
            lemma_key_less_transitive(a@, b@, a@);
        }
        assert(a@.skip(0) =~= a@);
        assert(b@.skip(0) =~= b@);
    }
    while i < a.len() && i < b.len()
        invariant
            0 <= i <= a.len(),
            i <= b.len(),
            key_less(a@, b@) == key_less(a@.skip(i as int), b@.skip(i as int)),
            key_less(b@, a@) == key_less(b@.skip(i as int), a@.skip(i as int)),
            !(key_less(a@, b@) && key_less(b@, a@)),
            a@ == b@ ==> !key_less(a@, b@) && !key_less(b@, a@),
            a@ != b@ ==> key_less(a@, b@) || key_less(b@, a@),
        decreases a.len() - i,
    {
        proof {
            assert(a@.skip(i as int).drop_first() =~= a@.skip(i + 1));
            assert(b@.skip(i as int).drop_first() =~= b@.skip(i + 1));
            assert(a@.skip(i as int)[0] == a@[i as int]);
            assert(b@.skip(i as int)[0] == b@[i as int]);
        }
        if a[i] < b[i] {
            return KeyOrder::Before;
        }
        if a[i] > b[i] {
            return KeyOrder::After;
        }
        i += 1;
    }
    if i < b.len() {
        KeyOrder::Before
    } else if i < a.len() {
        KeyOrder::After
    } else {
        KeyOrder::Same
    }
}

/// Finds `key` in a sorted log: the index of its entry and `true`, or the
/// index at which an entry for it belongs and `false`.
pub(crate) fn locate(log: &Vec<PendingLogEntry>, key: &[u8]) -> (r: (usize, bool))
    requires
        log_sorted(pending_model(log@)),
    ensures
        r.0 <= log.len(),
        r.1 ==> r.0 < log.len() && log[r.0 as int].key@ == key@,
        forall|i: int| 0 <= i < r.0 ==> key_less(#[trigger] log[i].key@, key@),
        forall|i: int| r.0 <= i < log.len() && !(r.1 && i == r.0) ==> key_less(key@, #[trigger] log[i].key@),
{
    let mut lo: usize = 0;
    let mut hi: usize = log.len();
    let ghost model = pending_model(log@);
    while lo < hi
        invariant
            0 <= lo <= hi <= log.len(),
            model == pending_model(log@),
            log_sorted(model),
            forall|i: int| 0 <= i < lo ==> key_less(#[trigger] log[i].key@, key@),
            forall|i: int| hi <= i < log.len() ==> key_less(key@, #[trigger] log[i].key@),
        decreases hi - lo,
    {
        let mid = lo + (hi - lo) / 2;
        match key_order(log[mid].key.as_slice(), key) {
            KeyOrder::Before => {
                proof {
                    assert forall|i: int| 0 <= i < mid + 1 implies key_less(#[trigger] log[i].key@, key@) by {
                        if i < mid {
                            assert(key_less(model[i].key, model[mid as int].key));
                            lemma_key_less_transitive(log[i].key@, log[mid as int].key@, key@);
                        }
                    }
                }
                lo = mid + 1;
            },
            KeyOrder::After => {
                proof {
                    assert forall|i: int| mid <= i < log.len() implies key_less(key@, #[trigger] log[i].key@) by {
                        if i > mid {
                            assert(key_less(model[mid as int].key, model[i].key));
                            lemma_key_less_transitive(key@, log[mid as int].key@, log[i].key@);
                        }
                    }
                }
                hi = mid;
            },
            KeyOrder::Same => {
                proof {
                    assert forall|i: int| 0 <= i < mid implies key_less(#[trigger] log[i].key@, key@) by {
                        assert(key_less(model[i].key, model[mid as int].key));
                    }
                    assert forall|i: int| mid < i < log.len() implies key_less(key@, #[trigger] log[i].key@) by {
                        assert(key_less(model[mid as int].key, model[i].key));
                    }
                }
                return (mid, true);
            },
        }
    }
    (lo, false)
}

/// In a sorted log, the entry found at an index is the entry of its key, and
/// a key that is before or after every entry has none.
pub proof fn lemma_log_entry_at(log: Seq<PendingEntry>, i: int)
    requires
        log_sorted(log),
        0 <= i < log.len(),
    ensures
        log_entry(log, log[i].key) == Some(log[i]),
{
    let j = choose|j: int| 0 <= j < log.len() && #[trigger] log[j].key == log[i].key;
    lemma_key_less_irreflexive(log[i].key);
    if j < i {
        assert(key_less(log[j].key, log[i].key));
    } else if i < j {
        assert(key_less(log[i].key, log[j].key));
    }
}

/// Records a write to `key` in a sorted log: an entry for `key` gets the new
/// value and keeps its `existed`; otherwise a new entry is put in its place.
pub(crate) fn record(log: &mut Vec<PendingLogEntry>, key: &[u8], value: Option<Vec<u8>>, existed: bool)
    requires
        log_sorted(pending_model(old(log)@)),
    ensures
        log_sorted(pending_model(final(log)@)),
        forall|k: Seq<u8>|
            #[trigger] log_entry(pending_model(final(log)@), k) == (if k == key@ {
                Some(
                    PendingEntry {
                        key: key@,
                        value: value_model(value),
                        existed: match log_entry(pending_model(old(log)@), key@) {
                            Some(e) => e.existed,
                            None => existed,
                        },
                    },
                )
            } else {
                log_entry(pending_model(old(log)@), k)
            }),
        forall|i: int| 0 <= i < final(log).len() ==> #[trigger] final(log)[i].key@ == key@ || exists|j: int|
            0 <= j < old(log).len() && old(log)[j] == final(log)[i],
{
    let (pos, found) = locate(log, key);
    let ghost before = pending_model(log@);
    if found {
        log[pos].value = value;
    } else {
        log.insert(pos, PendingLogEntry { key: copy_bytes(key), value, existed });
    }
    let ghost after = pending_model(log@);
    proof {
        lemma_key_less_irreflexive(key@);
        if found {
            assert(after =~= before.update(
                pos as int,
                PendingEntry { key: key@, value: value_model(value), existed: before[pos as int].existed },
            ));
            assert forall|i: int, j: int| 0 <= i < j < after.len() implies key_less(
                #[trigger] after[i].key,
                #[trigger] after[j].key,
            ) by {
                assert(key_less(before[i].key, before[j].key));
            }
            lemma_log_entry_at(before, pos as int);
            lemma_log_entry_at(after, pos as int);
            assert forall|k: Seq<u8>| k != key@ implies #[trigger] log_entry(after, k) == log_entry(
                before,
                k,
            ) by {
                if exists|i: int| 0 <= i < before.len() && #[trigger] before[i].key == k {
                    let i = choose|i: int| 0 <= i < before.len() && #[trigger] before[i].key == k;
                    assert(after[i].key == k);
                    lemma_log_entry_at(before, i);
                    lemma_log_entry_at(after, i);
                } else if exists|i: int| 0 <= i < after.len() && #[trigger] after[i].key == k {
                    let i = choose|i: int| 0 <= i < after.len() && #[trigger] after[i].key == k;
                    assert(before[i].key == k);
                }
            }
            assert forall|i: int| 0 <= i < log.len() implies #[trigger] log[i].key@ == key@ || exists|j: int|
                0 <= j < old(log).len() && old(log)[j] == log[i] by {
                if i != pos {
                    assert(old(log)[i] == log[i]);
                }
            }
        } else {
            let entry = PendingEntry { key: key@, value: value_model(value), existed };
            assert(after =~= before.insert(pos as int, entry));
            assert forall|i: int, j: int| 0 <= i < j < after.len() implies key_less(
                #[trigger] after[i].key,
                #[trigger] after[j].key,
            ) by {
                if j < pos {
                    assert(key_less(before[i].key, before[j].key));
                } else if j == pos {
                    assert(before[i].key == old(log)[i].key@);
                } else if i < pos {
                    assert(key_less(before[i].key, before[j - 1].key));
                } else if i == pos {
                    assert(before[j - 1].key == old(log)[j - 1].key@);
                } else {
                    assert(key_less(before[i - 1].key, before[j - 1].key));
                }
            }
            assert(!exists|i: int| 0 <= i < before.len() && #[trigger] before[i].key == key@) by {
                if exists|i: int| 0 <= i < before.len() && #[trigger] before[i].key == key@ {
                    let i = choose|i: int| 0 <= i < before.len() && #[trigger] before[i].key == key@;
                    assert(before[i].key == old(log)[i].key@);
                }
            }
            lemma_log_entry_at(after, pos as int);
            assert forall|k: Seq<u8>| k != key@ implies #[trigger] log_entry(after, k) == log_entry(
                before,
                k,
            ) by {
                if exists|i: int| 0 <= i < before.len() && #[trigger] before[i].key == k {
                    let i = choose|i: int| 0 <= i < before.len() && #[trigger] before[i].key == k;
                    let i2 = if i < pos { i } else { i + 1 };
                    assert(after[i2] == before[i]);
                    lemma_log_entry_at(before, i);
                    lemma_log_entry_at(after, i2);
                } else if exists|i: int| 0 <= i < after.len() && #[trigger] after[i].key == k {
                    let i = choose|i: int| 0 <= i < after.len() && #[trigger] after[i].key == k;
                    let i0 = if i < pos { i } else { i - 1 };
                    assert(before[i0].key == k);
                }
            }
            assert forall|i: int| 0 <= i < log.len() implies #[trigger] log[i].key@ == key@ || exists|j: int|
                0 <= j < old(log).len() && old(log)[j] == log[i] by {
                if i < pos {
                    assert(old(log)[i] == log[i]);
                } else if i > pos {
                    assert(old(log)[i - 1] == log[i]);
                }
            }
        }
    }
}

/// The write log of a commit with the pending log `log`.
pub(crate) fn write_log(log: &Vec<PendingLogEntry>) -> (out: Vec<LogEntry>)
    ensures
        write_model(out@) == committed_log(pending_model(log@)),
{
    let mut out: Vec<LogEntry> = Vec::new();
    let mut i: usize = 0;
    let ghost model = pending_model(log@);
    assert(model.take(0) =~= Seq::<PendingEntry>::empty());
    while i < log.len()
        invariant
            0 <= i <= log.len(),
            model == pending_model(log@),
            write_model(out@) == committed_log(model.take(i as int)),
        decreases log.len() - i,
    {
        let ghost shown = write_model(out@);
        proof {
            assert(model.take(i + 1).drop_last() =~= model.take(i as int));
            assert(model.take(i + 1).last() == model[i as int]);
        }
        let entry = &log[i];
        if entry.value.is_some() || entry.existed {
            out.push(LogEntry { key: copy_bytes(entry.key.as_slice()), value: copy_value(&entry.value) });
            assert(write_model(out@) =~= shown.push(
                WriteEntry { key: model[i as int].key, value: model[i as int].value },
            ));
        }
        i += 1;
    }
    assert(model.take(log.len() as int) =~= model);
    out
}

} // verus!
