//! The mathematical model of a partially resident merkle trie.
use crate::hash::{collide, digest, empty_digest};
use vstd::prelude::*;

verus! {

/// A trie of which some subtrees may be known by their hash only.
pub enum Trie {
    /// The empty tree.
    Empty,
    /// A subtree that is not resident; only its root hash is known.
    Stub(Seq<u8>),
    /// A resident node: the value stored under the path that leads here, and
    /// the subtrees for paths that go on with a `0` bit and with a `1` bit.
    Fork { value: Option<Seq<u8>>, left: Box<Trie>, right: Box<Trie> },
}

/// What a partially resident trie can say about one key.
pub enum Lookup {
    /// The path is resident down to the key: the key maps to this value, or is absent.
    Resolved(Option<Seq<u8>>),
    /// The path runs into a subtree that is not resident.
    NotResident,
}

/// Bit `j` (0 is the most significant) of byte `b`.
pub open spec fn byte_bit(b: u8, j: u8) -> bool {
    (b >> (7u8 - j)) & 1u8 == 1u8
}

/// The path of a key: its bits, most significant bit of the first byte first.
pub open spec fn key_bits(key: Seq<u8>) -> Seq<bool> {
    Seq::new(8 * key.len(), |i: int| byte_bit(key[i / 8], (i % 8) as u8))
}

/// The canonical encoding of a node: a tag that tells whether the node holds a
/// value, the hashes of the two subtrees, then the value.
pub open spec fn encode_node(value: Option<Seq<u8>>, left: Seq<u8>, right: Seq<u8>) -> Seq<u8> {
    match value {
        Some(v) => seq![1u8] + left + right + v,
        None => seq![0u8] + left + right,
    }
}

impl Trie {
    /// The hash that identifies this tree.
    pub open spec fn root_hash(self) -> Seq<u8>
        decreases self,
    {
        match self {
            Trie::Empty => empty_digest(),
            Trie::Stub(h) => h,
            Trie::Fork { value, left, right } => digest(
                encode_node(value, left.root_hash(), right.root_hash()),
            ),
        }
    }

    /// Every hash that stands for a non-resident subtree has the length of a hash.
    pub open spec fn sized(self) -> bool
        decreases self,
    {
        match self {
            Trie::Empty => true,
            Trie::Stub(h) => h.len() == 32,
            Trie::Fork { value, left, right } => left.sized() && right.sized(),
        }
    }

    /// Every node of the tree is resident.
    pub open spec fn complete(self) -> bool
        decreases self,
    {
        match self {
            Trie::Empty => true,
            Trie::Stub(h) => false,
            Trie::Fork { value, left, right } => left.complete() && right.complete(),
        }
    }

    /// What the tree says about the key whose path is `bits`, seen from a node
    /// at depth `depth` on that path.
    pub open spec fn lookup(self, bits: Seq<bool>, depth: int) -> Lookup
        decreases self,
    {
        match self {
            Trie::Empty => Lookup::Resolved(None),
            Trie::Stub(h) => Lookup::NotResident,
            Trie::Fork { value, left, right } => if depth >= bits.len() {
                Lookup::Resolved(value)
            } else if bits[depth] {
                right.lookup(bits, depth + 1)
            } else {
                left.lookup(bits, depth + 1)
            },
        }
    }

    /// The tree with `value` stored under the path `bits`. Where the path
    /// runs into a subtree that is not resident, the tree is left as it is.
    pub open spec fn put(self, bits: Seq<bool>, depth: int, value: Seq<u8>) -> Trie
        decreases bits.len() - depth,
    {
        match self {
            Trie::Stub(h) => self,
            Trie::Empty => if depth >= bits.len() {
                Trie::Fork { value: Some(value), left: Box::new(Trie::Empty), right: Box::new(Trie::Empty) }
            } else if bits[depth] {
                Trie::Fork {
                    value: None,
                    left: Box::new(Trie::Empty),
                    right: Box::new(Trie::Empty.put(bits, depth + 1, value)),
                }
            } else {
                Trie::Fork {
                    value: None,
                    left: Box::new(Trie::Empty.put(bits, depth + 1, value)),
                    right: Box::new(Trie::Empty),
                }
            },
            Trie::Fork { value: here, left, right } => if depth >= bits.len() {
                Trie::Fork { value: Some(value), left, right }
            } else if bits[depth] {
                Trie::Fork { value: here, left, right: Box::new(right.put(bits, depth + 1, value)) }
            } else {
                Trie::Fork { value: here, left: Box::new(left.put(bits, depth + 1, value)), right }
            },
        }
    }

    /// A node that holds nothing and leads nowhere is the empty tree.
    pub open spec fn pruned(self) -> Trie {
        match self {
            Trie::Fork { value, left, right } => if value.is_none() && *left == Trie::Empty && *right
                == Trie::Empty {
                Trie::Empty
            } else {
                self
            },
            _ => self,
        }
    }

    /// The tree without the key whose path is `bits`. Nodes that are left
    /// holding nothing are removed on the way back up.
    pub open spec fn erase(self, bits: Seq<bool>, depth: int) -> Trie
        decreases self,
    {
        match self {
            Trie::Empty => self,
            Trie::Stub(h) => self,
            Trie::Fork { value: here, left, right } => if depth >= bits.len() {
                (Trie::Fork { value: None, left, right }).pruned()
            } else if bits[depth] {
                (Trie::Fork { value: here, left, right: Box::new(right.erase(bits, depth + 1)) }).pruned()
            } else {
                (Trie::Fork { value: here, left: Box::new(left.erase(bits, depth + 1)), right }).pruned()
            },
        }
    }

    /// `self` shows everything `other` shows: it is `other` with some
    /// non-resident subtrees replaced by trees with the same root hash.
    pub open spec fn covers(self, other: Trie) -> bool
        decreases other,
    {
        match other {
            Trie::Empty => self == Trie::Empty,
            Trie::Stub(h) => self.root_hash() == h,
            Trie::Fork { value, left, right } => match self {
                Trie::Fork { value: v, left: l, right: r } => v == value && l.covers(*left)
                    && r.covers(*right),
                _ => false,
            },
        }
    }
}

/// Two trees are views of one tree: some tree shows everything either shows.
pub open spec fn akin(a: Trie, b: Trie) -> bool {
    exists|m: Trie| #[trigger] m.covers(a) && m.covers(b) && m.sized()
}

/// Some tree with root hash `root` resolves the path `bits` to `answer`.
pub open spec fn proves(root: Seq<u8>, bits: Seq<bool>, answer: Option<Seq<u8>>) -> bool {
    exists|t: Trie| #[trigger]
        t.sized() && t.root_hash() == root && t.lookup(bits, 0) == Lookup::Resolved(answer)
}

/// `after` is `before` with `value` stored under `bits`, where `before` held
/// `prev`: some tree that `before` is a view of holds `prev` under `bits`,
/// and `after` is a view of that tree with `value` put under `bits`.
pub open spec fn put_result(
    before: Trie,
    after: Trie,
    bits: Seq<bool>,
    prev: Option<Seq<u8>>,
    value: Seq<u8>,
) -> bool {
    exists|m: Trie| #[trigger]
        m.covers(before) && m.sized() && m.lookup(bits, 0) == Lookup::Resolved(prev) && m.put(
            bits,
            0,
            value,
        ).covers(after)
}

/// `after` is `before` without the key under `bits`, where `before` held `prev`.
pub open spec fn erase_result(before: Trie, after: Trie, bits: Seq<bool>, prev: Option<Seq<u8>>) -> bool {
    exists|m: Trie| #[trigger]
        m.covers(before) && m.sized() && m.lookup(bits, 0) == Lookup::Resolved(prev) && m.erase(
            bits,
            0,
        ).covers(after)
}

/// A byte is determined by its eight bits.
proof fn lemma_byte_bits(a: u8, b: u8)
    requires
        forall|j: u8| 0 <= j < 8 ==> byte_bit(a, j) == byte_bit(b, j),
    ensures
        a == b,
{
    assert(byte_bit(a, 0) == byte_bit(b, 0));
    assert(byte_bit(a, 1) == byte_bit(b, 1));
    assert(byte_bit(a, 2) == byte_bit(b, 2));
    assert(byte_bit(a, 3) == byte_bit(b, 3));
    assert(byte_bit(a, 4) == byte_bit(b, 4));
    assert(byte_bit(a, 5) == byte_bit(b, 5));
    assert(byte_bit(a, 6) == byte_bit(b, 6));
    assert(byte_bit(a, 7) == byte_bit(b, 7));
    assert((((a >> 7u8) & 1u8 == 1u8) == ((b >> 7u8) & 1u8 == 1u8) && ((a >> 6u8) & 1u8 == 1u8) == ((b
        >> 6u8) & 1u8 == 1u8) && ((a >> 5u8) & 1u8 == 1u8) == ((b >> 5u8) & 1u8 == 1u8) && ((a >> 4u8)
        & 1u8 == 1u8) == ((b >> 4u8) & 1u8 == 1u8) && ((a >> 3u8) & 1u8 == 1u8) == ((b >> 3u8) & 1u8
        == 1u8) && ((a >> 2u8) & 1u8 == 1u8) == ((b >> 2u8) & 1u8 == 1u8) && ((a >> 1u8) & 1u8 == 1u8)
        == ((b >> 1u8) & 1u8 == 1u8) && ((a >> 0u8) & 1u8 == 1u8) == ((b >> 0u8) & 1u8 == 1u8)) ==> a
        == b) by (bit_vector);
}

/// Different keys have different paths.
pub proof fn lemma_key_bits_injective(a: Seq<u8>, b: Seq<u8>)
    requires
        key_bits(a) == key_bits(b),
    ensures
        a == b,
{
    assert(key_bits(a).len() == 8 * a.len());
    assert(key_bits(b).len() == 8 * b.len());
    assert forall|i: int| 0 <= i < a.len() implies a[i] == b[i] by {
        assert forall|j: u8| 0 <= j < 8 implies byte_bit(a[i], j) == byte_bit(b[i], j) by {
            let k = 8 * i + j;
            assert(k / 8 == i && k % 8 == j);
            assert(key_bits(a)[k] == byte_bit(a[i], j));
            assert(key_bits(b)[k] == byte_bit(b[i], j));
        }
        lemma_byte_bits(a[i], b[i]);
    }
    assert(a =~= b);
}

/// The path of a key in a tree: the bits of the hash of the key. Every
/// path is 256 bits long, however long the key.
pub open spec fn path_bits(key: Seq<u8>) -> Seq<bool> {
    key_bits(digest(key))
}

/// Different keys have different paths, unless they collide.
pub proof fn lemma_paths_differ(a: Seq<u8>, b: Seq<u8>)
    requires
        a != b,
    ensures
        path_bits(a) != path_bits(b) || collide(a, b),
{
    if path_bits(a) == path_bits(b) {
        lemma_key_bits_injective(digest(a), digest(b));
    }
}

/// A tree covers itself.
pub proof fn lemma_covers_refl(t: Trie)
    ensures
        t.covers(t),
    decreases t,
{
    match t {
        Trie::Fork { value, left, right } => {
            lemma_covers_refl(*left);
            lemma_covers_refl(*right);
        },
        _ => {},
    }
}

/// A tree has the root hash of every tree it covers.
pub proof fn lemma_covers_root_hash(a: Trie, b: Trie)
    requires
        a.covers(b),
    ensures
        a.root_hash() == b.root_hash(),
    decreases b,
{
    match b {
        Trie::Fork { value, left, right } => {
            match a {
                Trie::Fork { value: v, left: l, right: r } => {
                    lemma_covers_root_hash(*l, *left);
                    lemma_covers_root_hash(*r, *right);
                },
                _ => {},
            }
        },
        _ => {},
    }
}

/// Covering is transitive.
pub proof fn lemma_covers_trans(a: Trie, b: Trie, c: Trie)
    requires
        a.covers(b),
        b.covers(c),
    ensures
        a.covers(c),
    decreases c,
{
    match c {
        Trie::Empty => {},
        Trie::Stub(h) => {
            lemma_covers_root_hash(a, b);
        },
        Trie::Fork { value, left, right } => {
            match b {
                Trie::Fork { value: vb, left: lb, right: rb } => {
                    match a {
                        Trie::Fork { value: va, left: la, right: ra } => {
                            lemma_covers_trans(*la, *lb, *left);
                            lemma_covers_trans(*ra, *rb, *right);
                        },
                        _ => {},
                    }
                },
                _ => {},
            }
        },
    }
}

/// What a tree resolves, every tree that covers it resolves to the same answer.
pub proof fn lemma_covers_lookup(a: Trie, b: Trie, bits: Seq<bool>, depth: int)
    requires
        a.covers(b),
        b.lookup(bits, depth) is Resolved,
    ensures
        a.lookup(bits, depth) == b.lookup(bits, depth),
    decreases b,
{
    match b {
        Trie::Fork { value, left, right } => {
            match a {
                Trie::Fork { value: v, left: l, right: r } => {
                    if depth >= bits.len() {
                    } else if bits[depth] {
                        lemma_covers_lookup(*r, *right, bits, depth + 1);
                    } else {
                        lemma_covers_lookup(*l, *left, bits, depth + 1);
                    }
                },
                _ => {},
            }
        },
        _ => {},
    }
}

/// A complete tree resolves every key, and only itself covers it.
pub proof fn lemma_complete_resolves(t: Trie, bits: Seq<bool>, depth: int)
    requires
        t.complete(),
    ensures
        t.lookup(bits, depth) is Resolved,
    decreases t,
{
    match t {
        Trie::Fork { value, left, right } => {
            lemma_complete_resolves(*left, bits, depth + 1);
            lemma_complete_resolves(*right, bits, depth + 1);
        },
        _ => {},
    }
}

/// After a put, the key resolves to the new value.
pub proof fn lemma_put_same(t: Trie, bits: Seq<bool>, depth: int, value: Seq<u8>)
    requires
        0 <= depth <= bits.len(),
        t.lookup(bits, depth) is Resolved,
    ensures
        t.put(bits, depth, value).lookup(bits, depth) == Lookup::Resolved(Some(value)),
    decreases bits.len() - depth,
{
    if depth < bits.len() {
        match t {
            Trie::Empty => {
                lemma_put_same(Trie::Empty, bits, depth + 1, value);
            },
            Trie::Stub(h) => {},
            Trie::Fork { value: here, left, right } => {
                if bits[depth] {
                    lemma_put_same(*right, bits, depth + 1, value);
                } else {
                    lemma_put_same(*left, bits, depth + 1, value);
                }
            },
        }
    }
}

/// A put changes the answer for no path but its own.
pub proof fn lemma_put_other(t: Trie, bits: Seq<bool>, depth: int, value: Seq<u8>, other: Seq<bool>)
    requires
        0 <= depth <= bits.len(),
        depth <= other.len(),
        other.skip(depth) != bits.skip(depth),
    ensures
        t.put(bits, depth, value).lookup(other, depth) == t.lookup(other, depth),
    decreases bits.len() - depth,
{
    if depth < bits.len() {
        if depth < other.len() && other[depth] == bits[depth] {
            lemma_skip_differs(other, bits, depth);
            match t {
                Trie::Empty => {
                    lemma_put_other(Trie::Empty, bits, depth + 1, value, other);
                },
                Trie::Stub(h) => {},
                Trie::Fork { value: here, left, right } => {
                    if bits[depth] {
                        lemma_put_other(*right, bits, depth + 1, value, other);
                    } else {
                        lemma_put_other(*left, bits, depth + 1, value, other);
                    }
                },
            }
        } else {
            assert(Trie::Empty.lookup(other, depth + 1) == Lookup::Resolved(None));
        }
    } else {
        assert(bits.skip(depth) =~= Seq::<bool>::empty());
        assert(other.len() > depth) by {
            if other.len() == depth {
                assert(other.skip(depth) =~= Seq::<bool>::empty());
            }
        }
        assert(Trie::Empty.lookup(other, depth + 1) == Lookup::Resolved(None));
    }
}

/// Two paths that differ from `depth` on and agree at `depth` differ from `depth + 1` on.
proof fn lemma_skip_differs(a: Seq<bool>, b: Seq<bool>, depth: int)
    requires
        0 <= depth < a.len(),
        depth < b.len(),
        a[depth] == b[depth],
        a.skip(depth) != b.skip(depth),
    ensures
        a.skip(depth + 1) != b.skip(depth + 1),
{
    if a.skip(depth + 1) == b.skip(depth + 1) {
        assert(a.skip(depth) =~= seq![a[depth]] + a.skip(depth + 1));
        assert(b.skip(depth) =~= seq![b[depth]] + b.skip(depth + 1));
    }
}

/// A put keeps a complete tree complete, and a sized tree sized.
pub proof fn lemma_put_shape(t: Trie, bits: Seq<bool>, depth: int, value: Seq<u8>)
    requires
        0 <= depth <= bits.len(),
    ensures
        t.complete() ==> t.put(bits, depth, value).complete(),
        t.sized() ==> t.put(bits, depth, value).sized(),
    decreases bits.len() - depth,
{
    if depth < bits.len() {
        match t {
            Trie::Empty => {
                lemma_put_shape(Trie::Empty, bits, depth + 1, value);
            },
            Trie::Stub(h) => {},
            Trie::Fork { value: here, left, right } => {
                if bits[depth] {
                    lemma_put_shape(*right, bits, depth + 1, value);
                } else {
                    lemma_put_shape(*left, bits, depth + 1, value);
                }
            },
        }
    }
}

/// After an erase, the key resolves to nothing.
pub proof fn lemma_erase_same(t: Trie, bits: Seq<bool>, depth: int)
    requires
        0 <= depth <= bits.len(),
        t.lookup(bits, depth) is Resolved,
    ensures
        t.erase(bits, depth).lookup(bits, depth) == Lookup::Resolved(None),
    decreases t,
{
    match t {
        Trie::Fork { value: here, left, right } => {
            if depth < bits.len() {
                if bits[depth] {
                    lemma_erase_same(*right, bits, depth + 1);
                } else {
                    lemma_erase_same(*left, bits, depth + 1);
                }
            }
        },
        _ => {},
    }
}

/// An erase changes the answer for no path but its own.
pub proof fn lemma_erase_other(t: Trie, bits: Seq<bool>, depth: int, other: Seq<bool>)
    requires
        0 <= depth <= bits.len(),
        depth <= other.len(),
        other.skip(depth) != bits.skip(depth),
    ensures
        t.erase(bits, depth).lookup(other, depth) == t.lookup(other, depth),
    decreases t,
{
    match t {
        Trie::Fork { value: here, left, right } => {
            if depth < bits.len() {
                if depth < other.len() && other[depth] == bits[depth] {
                    lemma_skip_differs(other, bits, depth);
                    if bits[depth] {
                        lemma_erase_other(*right, bits, depth + 1, other);
                    } else {
                        lemma_erase_other(*left, bits, depth + 1, other);
                    }
                }
            } else {
                assert(bits.skip(depth) =~= Seq::<bool>::empty());
                assert(other.len() > depth) by {
                    if other.len() == depth {
                        assert(other.skip(depth) =~= Seq::<bool>::empty());
                    }
                }
            }
        },
        _ => {},
    }
}

/// An erase keeps a complete tree complete, and a sized tree sized.
pub proof fn lemma_erase_shape(t: Trie, bits: Seq<bool>, depth: int)
    ensures
        t.complete() ==> t.erase(bits, depth).complete(),
        t.sized() ==> t.erase(bits, depth).sized(),
    decreases t,
{
    match t {
        Trie::Fork { value: here, left, right } => {
            lemma_erase_shape(*left, bits, depth + 1);
            lemma_erase_shape(*right, bits, depth + 1);
        },
        _ => {},
    }
}

} // verus!
