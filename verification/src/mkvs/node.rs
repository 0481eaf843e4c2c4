//! Resident nodes and the operations on them.
use crate::codec::{copy_bytes, push_all};
use crate::hash;
use crate::hash::{digest, empty_digest};
use crate::mkvs::root::Root;
use crate::mkvs::sync::{NodeRecord, ReadSync, SyncError};
use crate::mkvs::trie::{
    encode_node, key_bits, lemma_covers_refl, lemma_covers_root_hash, Lookup, Trie,
};
use vstd::prelude::*;

verus! {

/// Length, in bytes, of the path of a key: the length of a hash. A tree is
/// as deep as a path has bits.
pub const PATH_LEN: usize = 32;

/// Why an operation on a tree failed.
#[derive(Clone, Copy, Debug, PartialEq, Eq, Structural)]
pub enum TreeError {
    /// A node on the path is not resident and the read syncer did not hand it over.
    NodeUnavailable,
    /// The read syncer handed over a record that does not hash to the node asked for.
    ProofMismatch,
}

/// A reference to a subtree.
pub(crate) enum Ptr {
    /// The empty subtree.
    Null,
    /// A subtree that is not resident.
    Remote(hash::Hash),
    /// A resident node.
    Resident(Box<Node>),
}

/// A resident node.
pub(crate) struct Node {
    /// Hash of the node; meaningful only while `clean`.
    pub(crate) hash: hash::Hash,
    /// Whether the node is unchanged since it was fetched or last committed.
    pub(crate) clean: bool,
    /// Tick of the operation that last passed through the node.
    pub(crate) stamp: u64,
    pub(crate) value: Option<Vec<u8>>,
    pub(crate) left: Ptr,
    pub(crate) right: Ptr,
}

/// The bytes of an optional value.
pub open spec fn value_model(value: Option<Vec<u8>>) -> Option<Seq<u8>> {
    match value {
        Some(v) => Some(v@),
        None => None,
    }
}

impl Ptr {
    /// The trie this reference stands for.
    pub(crate) open spec fn model(self) -> Trie
        decreases self,
    {
        match self {
            Ptr::Null => Trie::Empty,
            Ptr::Remote(h) => Trie::Stub(h@),
            Ptr::Resident(n) => Trie::Fork {
                value: value_model(n.value),
                left: Box::new(n.left.model()),
                right: Box::new(n.right.model()),
            },
        }
    }

    /// No resident node below this reference has uncommitted changes.
    pub(crate) open spec fn all_clean(self) -> bool
        decreases self,
    {
        match self {
            Ptr::Null => true,
            Ptr::Remote(h) => true,
            Ptr::Resident(n) => n.clean && n.left.all_clean() && n.right.all_clean(),
        }
    }

    /// The stamp of the node the reference is to; 0 if it is to none.
    pub(crate) open spec fn top_stamp(self) -> u64 {
        match self {
            Ptr::Resident(n) => n.stamp,
            _ => 0,
        }
    }

    /// A clean node carries its hash and has only clean nodes below it, and
    /// no node was used after the node above it.
    pub(crate) open spec fn wf(self) -> bool
        decreases self,
    {
        match self {
            Ptr::Null => true,
            Ptr::Remote(h) => true,
            Ptr::Resident(n) => n.left.wf() && n.right.wf() && n.left.top_stamp() <= n.stamp
                && n.right.top_stamp() <= n.stamp && (n.clean ==> n.hash@ == self.model().root_hash()
                && n.left.all_clean() && n.right.all_clean()),
        }
    }

    /// The stamp of the cached node at the end of `path`, if there is one.
    pub(crate) open spec fn stamp_at(self, path: Seq<bool>, depth: int) -> Option<u64>
        decreases self,
    {
        match self {
            Ptr::Resident(n) => if depth >= path.len() {
                if n.clean {
                    Some(n.stamp)
                } else {
                    None
                }
            } else if path[depth] {
                n.right.stamp_at(path, depth + 1)
            } else {
                n.left.stamp_at(path, depth + 1)
            },
            _ => None,
        }
    }

    /// The path `bits` runs, from depth `depth` on, through nodes with
    /// uncommitted changes only, until it ends or leaves the tree.
    pub(crate) open spec fn pinned(self, bits: Seq<bool>, depth: int) -> bool
        decreases self,
    {
        match self {
            Ptr::Null => true,
            Ptr::Remote(h) => false,
            Ptr::Resident(n) => !n.clean && (depth >= bits.len() || if bits[depth] {
                n.right.pinned(bits, depth + 1)
            } else {
                n.left.pinned(bits, depth + 1)
            }),
        }
    }

    /// Number of resident nodes without uncommitted changes: the cached nodes.
    pub(crate) open spec fn cached_nodes(self) -> nat
        decreases self,
    {
        match self {
            Ptr::Null => 0,
            Ptr::Remote(h) => 0,
            Ptr::Resident(n) => (if n.clean { 1nat } else { 0nat }) + n.left.cached_nodes()
                + n.right.cached_nodes(),
        }
    }

    /// Total size of the values held by cached nodes.
    pub(crate) open spec fn cached_bytes(self) -> nat
        decreases self,
    {
        match self {
            Ptr::Null => 0,
            Ptr::Remote(h) => 0,
            Ptr::Resident(n) => (if n.clean {
                match n.value {
                    Some(v) => v@.len(),
                    None => 0nat,
                }
            } else {
                0nat
            }) + n.left.cached_bytes() + n.right.cached_bytes(),
        }
    }

    /// The reference that stands for the subtree with root hash `h`.
    pub(crate) fn from_hash(h: &hash::Hash, empty: &hash::Hash) -> (p: Ptr)
        requires
            empty@ == empty_digest(),
        ensures
            p.wf(),
            p.all_clean(),
            p.model().root_hash() == h@,
            p.model().sized(),
            p.cached_nodes() == 0,
            p.cached_bytes() == 0,
            p.top_stamp() == 0,
            p == (if h@ == empty_digest() { Ptr::Null } else { Ptr::Remote(*h) }),
    {
        if h.same(empty) {
            Ptr::Null
        } else {
            Ptr::Remote(*h)
        }
    }
}

/// A copy of an optional value.
pub(crate) fn copy_value(value: &Option<Vec<u8>>) -> (r: Option<Vec<u8>>)
    ensures
        value_model(r) == value_model(*value),
{
    match value {
        Some(v) => Some(copy_bytes(v.as_slice())),
        None => None,
    }
}

/// The canonical encoding of a node.
pub fn encode(value: &Option<Vec<u8>>, left: &hash::Hash, right: &hash::Hash) -> (out: Vec<u8>)
    ensures
        out@ == encode_node(value_model(*value), left@, right@),
{
    let mut out: Vec<u8> = Vec::new();
    match value {
        Some(v) => {
            out.push(1u8);
            push_all(&mut out, &left.bytes);
            push_all(&mut out, &right.bytes);
            push_all(&mut out, v.as_slice());
            assert(out@ =~= seq![1u8] + left@ + right@ + v@);
        },
        None => {
            out.push(0u8);
            push_all(&mut out, &left.bytes);
            push_all(&mut out, &right.bytes);
            assert(out@ =~= seq![0u8] + left@ + right@);
        },
    }
    out
}

/// Whether `record` is the node with hash `expected`: whether its canonical
/// encoding hashes to `expected`.
pub fn check_record(expected: &hash::Hash, record: &NodeRecord) -> (ok: bool)
    ensures
        ok == (digest(encode_node(value_model(record.value), record.left@, record.right@))
            == expected@),
{
    let bytes = encode(&record.value, &record.left, &record.right);
    hash::Hash::digest_bytes(bytes.as_slice()).same(expected)
}

/// What the canonical encoding of a record hashes to.
pub open spec fn record_hash(record: NodeRecord) -> Seq<u8> {
    digest(encode_node(value_model(record.value), record.left@, record.right@))
}

/// What becomes of what the read syncer handed over for the node with
/// hash `wanted`. A syncer that failed leaves the node unavailable. A
/// record that does not hash to `wanted` is rejected. Any other record is
/// the node: it is taken as it is, with its value and the hashes of its
/// two subtrees.
pub fn admit_record(wanted: &hash::Hash, fetched: Result<NodeRecord, SyncError>) -> (r: Result<
    NodeRecord,
    TreeError,
>)
    ensures
        r == (match fetched {
            Err(_) => Err::<NodeRecord, TreeError>(TreeError::NodeUnavailable),
            Ok(record) => if record_hash(record) == wanted@ {
                Ok(record)
            } else {
                Err(TreeError::ProofMismatch)
            },
        }),
{
    match fetched {
        Err(_) => Err(TreeError::NodeUnavailable),
        Ok(record) => {
            if check_record(wanted, &record) {
                Ok(record)
            } else {
                Err(TreeError::ProofMismatch)
            }
        },
    }
}

/// Bit `i` of `key`.
pub(crate) fn bit_at(key: &[u8], i: usize) -> (b: bool)
    requires
        i < 8 * key.len(),
    ensures
        b == key_bits(key@)[i as int],
{
    let byte = key[i / 8];
    let j: u8 = (i % 8) as u8;
    (byte >> (7u8 - j)) & 1u8 == 1u8
}

/// Walks the path of `key` from `ptr` down, fetching and checking every node
/// on it that is not resident, and returns the value the path ends at.
pub(crate) fn resolve(
    ptr: &mut Ptr,
    syncer: &mut Box<dyn ReadSync>,
    root: &Root,
    empty: &hash::Hash,
    key: &[u8],
    depth: usize,
    stamp: u64,
    fetched: &mut bool,
) -> (r: Result<Option<Vec<u8>>, TreeError>)
    requires
        old(ptr).wf(),
        old(ptr).model().sized(),
        old(ptr).top_stamp() <= stamp,
        empty@ == empty_digest(),
        key.len() <= PATH_LEN,
        depth <= 8 * key.len(),
    ensures
        *old(fetched) ==> *final(fetched),
        !*final(fetched) ==> final(ptr).cached_nodes() == old(ptr).cached_nodes()
            && final(ptr).cached_bytes() == old(ptr).cached_bytes(),
        final(ptr).wf(),
        final(ptr).model().sized(),
        final(ptr).top_stamp() <= stamp,
        final(ptr).model().covers(old(ptr).model()),
        old(ptr).all_clean() ==> final(ptr).all_clean(),
        forall|b: Seq<bool>, d: int| #[trigger] old(ptr).pinned(b, d) ==> final(ptr).pinned(b, d),
        old(ptr).model().lookup(key_bits(key@), depth as int) is Resolved ==> r is Ok
            && final(ptr).model() == old(ptr).model()
            && final(ptr).cached_nodes() == old(ptr).cached_nodes(),
        forall|p: Seq<bool>|
            !along(p, key_bits(key@), depth as int) ==> #[trigger] final(ptr).stamp_at(p, depth as int)
                == old(ptr).stamp_at(p, depth as int),
        forall|p: Seq<bool>|
            along(p, key_bits(key@), depth as int) ==> (#[trigger] final(ptr).stamp_at(
                p,
                depth as int,
            ) matches Some(s) ==> s == stamp),
        match r {
            Ok(v) => final(ptr).model().lookup(key_bits(key@), depth as int) == Lookup::Resolved(
                value_model(v),
            ),
            Err(e) => e == TreeError::NodeUnavailable || e == TreeError::ProofMismatch,
        },
    decreases 8 * key.len() - depth,
{
    proof {
        lemma_covers_refl(ptr.model());
    }
    if let Ptr::Remote(h) = ptr {
        let wanted = *h;
        match admit_record(&wanted, syncer.sync_get(root, &wanted)) {
            Ok(record) => {
                let left = Ptr::from_hash(&record.left, empty);
                let right = Ptr::from_hash(&record.right, empty);
                let node = Node { hash: wanted, clean: true, stamp, value: record.value, left, right };
                *ptr = Ptr::Resident(Box::new(node));
                *fetched = true;
                assert(ptr.model().root_hash() == wanted@);
            },
            Err(e) => {
                return Err(e);
            },
        }
    }
    let ghost mid = *ptr;
    assert(mid.model().covers(old(ptr).model()));
    assert(forall|b: Seq<bool>, d: int| #[trigger] old(ptr).pinned(b, d) ==> mid.pinned(b, d));
    let r = match ptr {
        Ptr::Null => Ok(None),
        Ptr::Remote(_) => Err(TreeError::NodeUnavailable),
        Ptr::Resident(n) => {
            n.stamp = stamp;
            if depth / 8 >= key.len() {
                proof {
                    lemma_covers_refl(mid.model());
                }
                Ok(copy_value(&n.value))
            } else if bit_at(key, depth) {
                proof {
                    lemma_covers_refl(n.left.model());
                }
                let ghost before = n.right;
                let r = resolve(&mut n.right, syncer, root, empty, key, depth + 1, stamp, fetched);
                proof {
                    lemma_covers_root_hash(n.right.model(), before.model());
                }
                r
            } else {
                proof {
                    lemma_covers_refl(n.right.model());
                }
                let ghost before = n.left;
                let r = resolve(&mut n.left, syncer, root, empty, key, depth + 1, stamp, fetched);
                proof {
                    lemma_covers_root_hash(n.left.model(), before.model());
                }
                r
            }
        },
    };
    proof {
        assert forall|b: Seq<bool>, d: int| #[trigger] mid.pinned(b, d) implies ptr.pinned(b, d) by {
            match mid {
                Ptr::Resident(m) => {
                    if d < b.len() {
                        if b[d] {
                            assert(m.right.pinned(b, d + 1));
                        } else {
                            assert(m.left.pinned(b, d + 1));
                        }
                    }
                },
                _ => {},
            }
        }
    }
    proof {
        let bits = key_bits(key@);
        assert forall|p: Seq<bool>| !along(p, bits, depth as int) implies #[trigger] ptr.stamp_at(
            p,
            depth as int,
        ) == old(ptr).stamp_at(p, depth as int) by {
            match (mid, *ptr) {
                (Ptr::Resident(m), Ptr::Resident(f)) => {
                    if depth < p.len() {
                        if depth < bits.len() && p[depth as int] == bits[depth as int] {
                            assert(!along(p, bits, depth + 1));
                        }
                        if p[depth as int] {
                            assert(f.right.stamp_at(p, depth + 1) == m.right.stamp_at(p, depth + 1));
                        } else {
                            assert(f.left.stamp_at(p, depth + 1) == m.left.stamp_at(p, depth + 1));
                        }
                    }
                },
                _ => {},
            }
        }
        assert forall|p: Seq<bool>| along(p, bits, depth as int) implies (#[trigger] ptr.stamp_at(
            p,
            depth as int,
        ) matches Some(s) ==> s == stamp) by {
            match *ptr {
                Ptr::Resident(f) => {
                    if depth < p.len() {
                        assert(along(p, bits, depth + 1));
                        if p[depth as int] {
                            assert(f.right.stamp_at(p, depth + 1) matches Some(s) ==> s == stamp);
                        } else {
                            assert(f.left.stamp_at(p, depth + 1) matches Some(s) ==> s == stamp);
                        }
                    }
                },
                _ => {},
            }
        }
    }
    r
}

/// Stores `value` under `key` in a tree whose path for `key` is resident, and
/// marks the path as changed.
pub(crate) fn put(
    ptr: &mut Ptr,
    empty: &hash::Hash,
    key: &[u8],
    depth: usize,
    value: Vec<u8>,
    stamp: u64,
)
    requires
        old(ptr).wf(),
        old(ptr).top_stamp() <= stamp,
        key.len() <= PATH_LEN,
        depth <= 8 * key.len(),
        old(ptr).model().lookup(key_bits(key@), depth as int) is Resolved,
    ensures
        final(ptr).wf(),
        final(ptr).top_stamp() <= stamp,
        final(ptr).cached_nodes() <= old(ptr).cached_nodes(),
        final(ptr).cached_bytes() <= old(ptr).cached_bytes(),
        final(ptr).model() == old(ptr).model().put(key_bits(key@), depth as int, value@),
        final(ptr).pinned(key_bits(key@), depth as int),
        forall|b: Seq<bool>, d: int| #[trigger] old(ptr).pinned(b, d) ==> final(ptr).pinned(b, d),
        forall|p: Seq<bool>|
            !along(p, key_bits(key@), depth as int) ==> #[trigger] final(ptr).stamp_at(p, depth as int)
                == old(ptr).stamp_at(p, depth as int),
        forall|p: Seq<bool>|
            along(p, key_bits(key@), depth as int) ==> (#[trigger] final(ptr).stamp_at(
                p,
                depth as int,
            ) matches Some(s) ==> s == stamp),
    decreases 8 * key.len() - depth,
{
    if let Ptr::Null = ptr {
        let node = Node {
            hash: *empty,
            clean: false,
            stamp,
            value: None,
            left: Ptr::Null,
            right: Ptr::Null,
        };
        *ptr = Ptr::Resident(Box::new(node));
    }
    let ghost mid = *ptr;
    assert(mid.model().put(key_bits(key@), depth as int, value@) == old(ptr).model().put(
        key_bits(key@),
        depth as int,
        value@,
    ));
    match ptr {
        Ptr::Resident(n) => {
            n.clean = false;
            n.stamp = stamp;
            if depth / 8 >= key.len() {
                n.value = Some(value);
            } else if bit_at(key, depth) {
                put(&mut n.right, empty, key, depth + 1, value, stamp);
            } else {
                put(&mut n.left, empty, key, depth + 1, value, stamp);
            }
        },
        _ => {},
    }
    proof {
        assert forall|b: Seq<bool>, d: int| #[trigger] old(ptr).pinned(b, d) implies ptr.pinned(
            b,
            d,
        ) by {
            match (mid, *ptr) {
                (Ptr::Resident(m), Ptr::Resident(f)) => {
                    if d < b.len() {
                        if b[d] {
                            assert(m.right.pinned(b, d + 1));
                            assert(f.right.pinned(b, d + 1));
                        } else {
                            assert(m.left.pinned(b, d + 1));
                            assert(f.left.pinned(b, d + 1));
                        }
                    }
                },
                _ => {},
            }
        }
    }
    proof {
        let bits = key_bits(key@);
        assert forall|p: Seq<bool>| !along(p, bits, depth as int) implies #[trigger] ptr.stamp_at(
            p,
            depth as int,
        ) == old(ptr).stamp_at(p, depth as int) by {
            match (mid, *ptr) {
                (Ptr::Resident(m), Ptr::Resident(f)) => {
                    if depth < p.len() {
                        if depth < bits.len() && p[depth as int] == bits[depth as int] {
                            assert(!along(p, bits, depth + 1));
                        }
                        if p[depth as int] {
                            assert(f.right.stamp_at(p, depth + 1) == m.right.stamp_at(p, depth + 1));
                        } else {
                            assert(f.left.stamp_at(p, depth + 1) == m.left.stamp_at(p, depth + 1));
                        }
                    }
                },
                _ => {},
            }
        }
        assert forall|p: Seq<bool>| along(p, bits, depth as int) implies (#[trigger] ptr.stamp_at(
            p,
            depth as int,
        ) matches Some(s) ==> s == stamp) by {
            match *ptr {
                Ptr::Resident(f) => {
                    if depth < p.len() {
                        assert(along(p, bits, depth + 1));
                        if p[depth as int] {
                            assert(f.right.stamp_at(p, depth + 1) matches Some(s) ==> s == stamp);
                        } else {
                            assert(f.left.stamp_at(p, depth + 1) matches Some(s) ==> s == stamp);
                        }
                    }
                },
                _ => {},
            }
        }
    }
}

/// Removes `key` from a tree whose path for `key` is resident, marks the path
/// as changed, and drops the nodes that are left holding nothing.
pub(crate) fn erase(ptr: &mut Ptr, key: &[u8], depth: usize, stamp: u64)
    requires
        old(ptr).wf(),
        old(ptr).top_stamp() <= stamp,
        key.len() <= PATH_LEN,
        depth <= 8 * key.len(),
        old(ptr).model().lookup(key_bits(key@), depth as int) is Resolved,
    ensures
        final(ptr).wf(),
        final(ptr).top_stamp() <= stamp,
        final(ptr).cached_nodes() <= old(ptr).cached_nodes(),
        final(ptr).cached_bytes() <= old(ptr).cached_bytes(),
        final(ptr).model() == old(ptr).model().erase(key_bits(key@), depth as int),
        final(ptr).pinned(key_bits(key@), depth as int),
        forall|b: Seq<bool>, d: int| #[trigger] old(ptr).pinned(b, d) ==> final(ptr).pinned(b, d),
        forall|p: Seq<bool>|
            !along(p, key_bits(key@), depth as int) ==> #[trigger] final(ptr).stamp_at(p, depth as int)
                == old(ptr).stamp_at(p, depth as int),
        forall|p: Seq<bool>|
            along(p, key_bits(key@), depth as int) ==> (#[trigger] final(ptr).stamp_at(
                p,
                depth as int,
            ) matches Some(s) ==> s == stamp),
    decreases 8 * key.len() - depth,
{
    let mut hollow = false;
    match ptr {
        Ptr::Resident(n) => {
            n.clean = false;
            n.stamp = stamp;
            if depth / 8 >= key.len() {
                n.value = None;
            } else if bit_at(key, depth) {
                erase(&mut n.right, key, depth + 1, stamp);
            } else {
                erase(&mut n.left, key, depth + 1, stamp);
            }
            hollow = n.value.is_none() && n.left.is_null() && n.right.is_null();
        },
        _ => {},
    }
    let ghost mid = *ptr;
    if hollow {
        *ptr = Ptr::Null;
    }
    proof {
        assert forall|b: Seq<bool>, d: int| #[trigger] old(ptr).pinned(b, d) implies ptr.pinned(
            b,
            d,
        ) by {
            match (*old(ptr), *ptr) {
                (Ptr::Resident(m), Ptr::Resident(f)) => {
                    if d < b.len() {
                        if b[d] {
                            assert(m.right.pinned(b, d + 1));
                            assert(f.right.pinned(b, d + 1));
                        } else {
                            assert(m.left.pinned(b, d + 1));
                            assert(f.left.pinned(b, d + 1));
                        }
                    }
                },
                _ => {},
            }
        }
    }
    proof {
        let bits = key_bits(key@);
        assert forall|p: Seq<bool>| !along(p, bits, depth as int) implies #[trigger] ptr.stamp_at(
            p,
            depth as int,
        ) == old(ptr).stamp_at(p, depth as int) by {
            match (*old(ptr), mid) {
                (Ptr::Resident(m), Ptr::Resident(f)) => {
                    if depth < p.len() {
                        if depth < bits.len() && p[depth as int] == bits[depth as int] {
                            assert(!along(p, bits, depth + 1));
                        }
                        if p[depth as int] {
                            assert(f.right.stamp_at(p, depth + 1) == m.right.stamp_at(p, depth + 1));
                        } else {
                            assert(f.left.stamp_at(p, depth + 1) == m.left.stamp_at(p, depth + 1));
                        }
                        assert(mid.stamp_at(p, depth as int) == old(ptr).stamp_at(p, depth as int));
                    }
                },
                _ => {},
            }
        }
        assert forall|p: Seq<bool>| along(p, bits, depth as int) implies (#[trigger] ptr.stamp_at(
            p,
            depth as int,
        ) matches Some(s) ==> s == stamp) by {
            match *ptr {
                Ptr::Resident(f) => {
                    if depth < p.len() {
                        assert(along(p, bits, depth + 1));
                        if p[depth as int] {
                            assert(f.right.stamp_at(p, depth + 1) matches Some(s) ==> s == stamp);
                        } else {
                            assert(f.left.stamp_at(p, depth + 1) matches Some(s) ==> s == stamp);
                        }
                    }
                },
                _ => {},
            }
        }
    }
}

impl Ptr {
    /// Whether the reference is to the empty subtree.
    pub(crate) fn is_null(&self) -> (b: bool)
        ensures
            b == (*self is Null),
            b == (self.model() == Trie::Empty),
    {
        match self {
            Ptr::Null => true,
            _ => false,
        }
    }
}

/// Computes the hash of every changed node, bottom up, marks all nodes as
/// unchanged, and returns the root hash.
pub(crate) fn seal(ptr: &mut Ptr, empty: &hash::Hash, stamp: u64) -> (h: hash::Hash)
    requires
        old(ptr).wf(),
        old(ptr).top_stamp() <= stamp,
        empty@ == empty_digest(),
    ensures
        final(ptr).wf(),
        final(ptr).top_stamp() <= stamp,
        final(ptr).all_clean(),
        final(ptr).model() == old(ptr).model(),
        h@ == old(ptr).model().root_hash(),
        forall|p: Seq<bool>, d: int| #[trigger]
            old(ptr).stamp_at(p, d) is Some ==> final(ptr).stamp_at(p, d) == old(ptr).stamp_at(p, d),
        forall|p: Seq<bool>, d: int| #[trigger]
            final(ptr).stamp_at(p, d) is Some ==> final(ptr).stamp_at(p, d) == old(ptr).stamp_at(p, d)
                || final(ptr).stamp_at(p, d) == Some(stamp),
    decreases *old(ptr),
{
    let h = match ptr {
        Ptr::Null => *empty,
        Ptr::Remote(h) => *h,
        Ptr::Resident(n) => {
            if n.clean {
                n.hash
            } else {
                let left = seal(&mut n.left, empty, stamp);
                let right = seal(&mut n.right, empty, stamp);
                let bytes = encode(&n.value, &left, &right);
                let h = hash::Hash::digest_bytes(bytes.as_slice());
                n.hash = h;
                n.clean = true;
                n.stamp = stamp;
                h
            }
        },
    };
    proof {
        assert forall|p: Seq<bool>, d: int| #[trigger] old(ptr).stamp_at(p, d) is Some implies ptr.stamp_at(
            p,
            d,
        ) == old(ptr).stamp_at(p, d) by {
            match (*old(ptr), *ptr) {
                (Ptr::Resident(m), Ptr::Resident(f)) => {
                    if d < p.len() {
                        if p[d] {
                            assert(m.right.stamp_at(p, d + 1) is Some);
                        } else {
                            assert(m.left.stamp_at(p, d + 1) is Some);
                        }
                    }
                },
                _ => {},
            }
        }
        assert forall|p: Seq<bool>, d: int| #[trigger] ptr.stamp_at(p, d) is Some implies ptr.stamp_at(
            p,
            d,
        ) == old(ptr).stamp_at(p, d) || ptr.stamp_at(p, d) == Some(stamp) by {
            match (*old(ptr), *ptr) {
                (Ptr::Resident(m), Ptr::Resident(f)) => {
                    if d < p.len() {
                        if p[d] {
                            assert(f.right.stamp_at(p, d + 1) is Some);
                        } else {
                            assert(f.left.stamp_at(p, d + 1) is Some);
                        }
                    }
                },
                _ => {},
            }
        }
    }
    h
}

/// The path `p` goes along `bits` from `depth` to its end.
pub open spec fn along(p: Seq<bool>, bits: Seq<bool>, depth: int) -> bool {
    &&& p.len() <= bits.len()
    &&& forall|i: int| depth <= i < p.len() ==> p[i] == bits[i]
}

impl Ptr {
    /// Number of cached nodes with a stamp of at least `t`.
    pub(crate) open spec fn cached_nodes_from(self, t: u64) -> nat
        decreases self,
    {
        match self {
            Ptr::Null => 0,
            Ptr::Remote(h) => 0,
            Ptr::Resident(n) => (if n.clean && n.stamp >= t {
                1nat
            } else {
                0nat
            }) + n.left.cached_nodes_from(t) + n.right.cached_nodes_from(t),
        }
    }

    /// Total size of the values held by cached nodes with a stamp of at least `t`.
    pub(crate) open spec fn cached_bytes_from(self, t: u64) -> nat
        decreases self,
    {
        match self {
            Ptr::Null => 0,
            Ptr::Remote(h) => 0,
            Ptr::Resident(n) => (if n.clean && n.stamp >= t {
                match n.value {
                    Some(v) => v@.len(),
                    None => 0nat,
                }
            } else {
                0nat
            }) + n.left.cached_bytes_from(t) + n.right.cached_bytes_from(t),
        }
    }
}

/// Where no cached node is older than `t`, all cached nodes count from `t`;
/// where no cached node is as new as `t`, none does.
pub(crate) proof fn lemma_counts_from(p: Ptr, t: u64)
    requires
        p.wf(),
    ensures
        (p.oldest() matches Some(o) ==> o >= t) ==> p.cached_nodes_from(t) == p.cached_nodes()
            && p.cached_bytes_from(t) == p.cached_bytes(),
        p.top_stamp() < t ==> p.cached_nodes_from(t) == 0 && p.cached_bytes_from(t) == 0,
    decreases p,
{
    match p {
        Ptr::Resident(n) => {
            lemma_counts_from(n.left, t);
            lemma_counts_from(n.right, t);
        },
        _ => {},
    }
}

/// A stamp that is newer than `t`, or nothing.
pub open spec fn kept(s: Option<u64>, t: u64) -> Option<u64> {
    match s {
        Some(x) => if x > t {
            s
        } else {
            None
        },
        None => None,
    }
}

/// No cached node below a reference has a newer stamp than the node the
/// reference is to.
pub(crate) proof fn lemma_stamps_bounded(p: Ptr, path: Seq<bool>, depth: int)
    requires
        p.wf(),
    ensures
        p.stamp_at(path, depth) matches Some(s) ==> s <= p.top_stamp(),
    decreases p,
{
    match p {
        Ptr::Resident(n) => {
            if depth < path.len() {
                if path[depth] {
                    lemma_stamps_bounded(n.right, path, depth + 1);
                } else {
                    lemma_stamps_bounded(n.left, path, depth + 1);
                }
            }
        },
        _ => {},
    }
}

/// The smaller of two optional stamps, where an absent stamp does not count.
pub(crate) open spec fn min_stamp(a: Option<u64>, b: Option<u64>) -> Option<u64> {
    match (a, b) {
        (Some(x), Some(y)) => Some(if x <= y { x } else { y }),
        (Some(x), None) => a,
        (None, _) => b,
    }
}

/// A count as a `usize` holds it: capped at the largest `usize`.
pub open spec fn capped(n: nat) -> usize {
    if n > usize::MAX {
        usize::MAX
    } else {
        n as usize
    }
}

impl Ptr {
    /// The stamp of the least recently used cached node, if there is a cached node.
    pub(crate) open spec fn oldest(self) -> Option<u64>
        decreases self,
    {
        match self {
            Ptr::Null => None,
            Ptr::Remote(h) => None,
            Ptr::Resident(n) => min_stamp(
                if n.clean {
                    Some(n.stamp)
                } else {
                    None
                },
                min_stamp(n.left.oldest(), n.right.oldest()),
            ),
        }
    }
}

/// There is a least recently used cached node exactly if there is a cached
/// node, and only cached nodes hold cached bytes.
pub(crate) proof fn lemma_oldest(p: Ptr)
    ensures
        p.oldest() is Some <==> p.cached_nodes() > 0,
        p.cached_bytes() > 0 ==> p.cached_nodes() > 0,
    decreases p,
{
    match p {
        Ptr::Resident(n) => {
            lemma_oldest(n.left);
            lemma_oldest(n.right);
        },
        _ => {},
    }
}

/// A pinned path is resident to its end.
pub(crate) proof fn lemma_pinned_resolved(p: Ptr, bits: Seq<bool>, depth: int)
    requires
        p.pinned(bits, depth),
    ensures
        p.model().lookup(bits, depth) is Resolved,
    decreases p,
{
    match p {
        Ptr::Resident(n) => {
            if depth < bits.len() {
                if bits[depth] {
                    lemma_pinned_resolved(n.right, bits, depth + 1);
                } else {
                    lemma_pinned_resolved(n.left, bits, depth + 1);
                }
            }
        },
        _ => {},
    }
}

/// What a pass over the resident nodes found.
pub(crate) struct Survey {
    /// Number of cached nodes.
    pub(crate) nodes: usize,
    /// Total size of the values they hold.
    pub(crate) bytes: usize,
    /// Stamp of the least recently used one.
    pub(crate) oldest: Option<u64>,
}

/// The sum of two counts, capped at the largest `usize`.
fn capped_sum(a: usize, b: usize) -> (r: usize)
    ensures
        r == capped((a + b) as nat),
{
    if a > usize::MAX - b {
        usize::MAX
    } else {
        a + b
    }
}

/// The smaller of two optional stamps.
fn older(a: Option<u64>, b: Option<u64>) -> (r: Option<u64>)
    ensures
        r == min_stamp(a, b),
{
    match (a, b) {
        (Some(x), Some(y)) => Some(if x <= y { x } else { y }),
        (Some(x), None) => a,
        (None, _) => b,
    }
}

/// Counts the cached nodes below `ptr` and the bytes they hold, and finds the
/// least recently used one.
pub(crate) fn survey(ptr: &Ptr) -> (s: Survey)
    ensures
        s.nodes == capped(ptr.cached_nodes()),
        s.bytes == capped(ptr.cached_bytes()),
        s.oldest == ptr.oldest(),
    decreases ptr,
{
    match ptr {
        Ptr::Null => Survey { nodes: 0, bytes: 0, oldest: None },
        Ptr::Remote(_) => Survey { nodes: 0, bytes: 0, oldest: None },
        Ptr::Resident(n) => {
            let l = survey(&n.left);
            let r = survey(&n.right);
            let below = Survey {
                nodes: capped_sum(l.nodes, r.nodes),
                bytes: capped_sum(l.bytes, r.bytes),
                oldest: older(l.oldest, r.oldest),
            };
            if n.clean {
                let held: usize = match &n.value {
                    Some(v) => v.len(),
                    None => 0,
                };
                Survey {
                    nodes: capped_sum(1, below.nodes),
                    bytes: capped_sum(held, below.bytes),
                    oldest: older(Some(n.stamp), below.oldest),
                }
            } else {
                below
            }
        },
    }
}

/// Drops every cached node whose stamp is at most `threshold`, together with
/// what is resident below it, leaving its hash in its place. Nodes with
/// uncommitted changes stay.
pub(crate) fn evict(ptr: &mut Ptr, threshold: u64)
    requires
        old(ptr).wf(),
        old(ptr).model().sized(),
    ensures
        final(ptr).wf(),
        final(ptr).model().sized(),
        old(ptr).model().covers(final(ptr).model()),
        old(ptr).all_clean() ==> final(ptr).all_clean(),
        forall|b: Seq<bool>, d: int| #[trigger] old(ptr).pinned(b, d) ==> final(ptr).pinned(b, d),
        final(ptr).cached_nodes() <= old(ptr).cached_nodes(),
        final(ptr).cached_bytes() <= old(ptr).cached_bytes(),
        (old(ptr).oldest() matches Some(t) && t <= threshold) ==> final(ptr).cached_nodes()
            < old(ptr).cached_nodes(),
        final(ptr).oldest() matches Some(t) ==> t > threshold,
        final(ptr).top_stamp() <= old(ptr).top_stamp(),
        forall|p: Seq<bool>, d: int| #[trigger]
            final(ptr).stamp_at(p, d) == kept(old(ptr).stamp_at(p, d), threshold),
        forall|t: u64|
            t > threshold ==> #[trigger] final(ptr).cached_nodes_from(t) == old(ptr).cached_nodes_from(t),
        forall|t: u64|
            t > threshold ==> #[trigger] final(ptr).cached_bytes_from(t) == old(ptr).cached_bytes_from(t),
    decreases *old(ptr),
{
    proof {
        assert forall|p: Seq<bool>, d: int| #[trigger] old(ptr).stamp_at(p, d) is Some implies old(
            ptr,
        ).stamp_at(p, d).unwrap() <= old(ptr).top_stamp() by {
            lemma_stamps_bounded(*old(ptr), p, d);
        }
    }
    let mut collapse: Option<hash::Hash> = None;
    match ptr {
        Ptr::Resident(n) => {
            if n.clean && n.stamp <= threshold {
                collapse = Some(n.hash);
            } else {
                let ghost left = n.left;
                let ghost right = n.right;
                evict(&mut n.left, threshold);
                evict(&mut n.right, threshold);
                proof {
                    lemma_covers_root_hash(left.model(), n.left.model());
                    lemma_covers_root_hash(right.model(), n.right.model());
                }
            }
        },
        _ => {},
    }
    if let Some(h) = collapse {
        *ptr = Ptr::Remote(h);
    }
    proof {
        assert forall|t: u64| t > threshold implies #[trigger] ptr.cached_nodes_from(t) == old(
            ptr,
        ).cached_nodes_from(t) by {
            lemma_counts_from(*old(ptr), t);
            match (*old(ptr), *ptr) {
                (Ptr::Resident(m), Ptr::Resident(f)) => {
                    assert(f.left.cached_nodes_from(t) == m.left.cached_nodes_from(t));
                    assert(f.right.cached_nodes_from(t) == m.right.cached_nodes_from(t));
                },
                _ => {},
            }
        }
        assert forall|t: u64| t > threshold implies #[trigger] ptr.cached_bytes_from(t) == old(
            ptr,
        ).cached_bytes_from(t) by {
            lemma_counts_from(*old(ptr), t);
            match (*old(ptr), *ptr) {
                (Ptr::Resident(m), Ptr::Resident(f)) => {
                    assert(f.left.cached_bytes_from(t) == m.left.cached_bytes_from(t));
                    assert(f.right.cached_bytes_from(t) == m.right.cached_bytes_from(t));
                },
                _ => {},
            }
        }
        assert forall|p: Seq<bool>, d: int| #[trigger]
            ptr.stamp_at(p, d) == kept(old(ptr).stamp_at(p, d), threshold) by {
            match (*old(ptr), *ptr) {
                (Ptr::Resident(m), Ptr::Resident(f)) => {
                    if d < p.len() {
                        if p[d] {
                            assert(f.right.stamp_at(p, d + 1) == kept(
                                m.right.stamp_at(p, d + 1),
                                threshold,
                            ));
                        } else {
                            assert(f.left.stamp_at(p, d + 1) == kept(
                                m.left.stamp_at(p, d + 1),
                                threshold,
                            ));
                        }
                    }
                },
                _ => {
                    lemma_stamps_bounded(*old(ptr), p, d);
                },
            }
        }
    }
    proof {
        assert forall|b: Seq<bool>, d: int| #[trigger] old(ptr).pinned(b, d) implies ptr.pinned(
            b,
            d,
        ) by {
            match (*old(ptr), *ptr) {
                (Ptr::Resident(m), Ptr::Resident(f)) => {
                    if d < b.len() {
                        if b[d] {
                            assert(m.right.pinned(b, d + 1));
                            assert(f.right.pinned(b, d + 1));
                        } else {
                            assert(m.left.pinned(b, d + 1));
                            assert(f.left.pinned(b, d + 1));
                        }
                    }
                },
                _ => {},
            }
        }
    }
}

} // verus!
