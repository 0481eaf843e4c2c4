//! What holds of every tree: the root hash binds the content.
use crate::hash::{collide, digest};
use crate::mkvs::tree::answer;
use crate::mkvs::trie::{
    akin, encode_node, erase_result, lemma_covers_lookup, lemma_covers_root_hash,
    lemma_erase_other, lemma_paths_differ, lemma_put_other, path_bits, proves, put_result, Lookup,
    Trie,
};
use vstd::prelude::*;

verus! {

/// The root hash of a tree has the length of a hash.
pub proof fn lemma_root_hash_len(t: Trie)
    requires
        t.sized(),
    ensures
        t.root_hash().len() == 32,
{
}

/// The encoding of a node determines the node: its value and the hashes of
/// its subtrees.
pub proof fn lemma_encode_injective(
    v1: Option<Seq<u8>>,
    l1: Seq<u8>,
    r1: Seq<u8>,
    v2: Option<Seq<u8>>,
    l2: Seq<u8>,
    r2: Seq<u8>,
)
    requires
        l1.len() == 32,
        r1.len() == 32,
        l2.len() == 32,
        r2.len() == 32,
        encode_node(v1, l1, r1) == encode_node(v2, l2, r2),
    ensures
        v1 == v2,
        l1 == l2,
        r1 == r2,
{
    let e1 = encode_node(v1, l1, r1);
    let e2 = encode_node(v2, l2, r2);
    assert(e1[0] == e2[0]);
    assert(e1.subrange(1, 33) =~= l1);
    assert(e2.subrange(1, 33) =~= l2);
    assert(e1.subrange(33, 65) =~= r1);
    assert(e2.subrange(33, 65) =~= r2);
    match (v1, v2) {
        (Some(a), Some(b)) => {
            assert(e1.subrange(65, e1.len() as int) =~= a);
            assert(e2.subrange(65, e2.len() as int) =~= b);
        },
        _ => {},
    }
}

/// The two byte strings on which the agreement of two trees with the same
/// root hash on the path `bits` rests: the encodings of the first two
/// nodes on the path in which the trees differ, or the encoding of the
/// node that one has where the other is empty, and the empty string.
pub open spec fn crux(a: Trie, b: Trie, bits: Seq<bool>, depth: int) -> (Seq<u8>, Seq<u8>)
    decreases a,
{
    match a {
        Trie::Fork { value: va, left: la, right: ra } => {
            let ea = encode_node(va, la.root_hash(), ra.root_hash());
            match b {
                Trie::Fork { value: vb, left: lb, right: rb } => {
                    let eb = encode_node(vb, lb.root_hash(), rb.root_hash());
                    if ea != eb || depth >= bits.len() {
                        (ea, eb)
                    } else if bits[depth] {
                        crux(*ra, *rb, bits, depth + 1)
                    } else {
                        crux(*la, *lb, bits, depth + 1)
                    }
                },
                _ => (ea, Seq::<u8>::empty()),
            }
        },
        _ => match b {
            Trie::Fork { value: vb, left: lb, right: rb } => (
                encode_node(vb, lb.root_hash(), rb.root_hash()),
                Seq::<u8>::empty(),
            ),
            _ => (Seq::<u8>::empty(), Seq::<u8>::empty()),
        },
    }
}

/// Two trees with the same root hash give the same answer wherever both
/// give one, unless the two byte strings of `crux` collide.
pub proof fn lemma_binding(a: Trie, b: Trie, bits: Seq<bool>, depth: int)
    requires
        a.sized(),
        b.sized(),
        a.root_hash() == b.root_hash(),
        a.lookup(bits, depth) is Resolved,
        b.lookup(bits, depth) is Resolved,
    ensures
        a.lookup(bits, depth) == b.lookup(bits, depth) || collide(
            crux(a, b, bits, depth).0,
            crux(a, b, bits, depth).1,
        ),
    decreases a,
{
    match (a, b) {
        (Trie::Fork { value: va, left: la, right: ra }, Trie::Fork { value: vb, left: lb, right: rb }) => {
            let ea = encode_node(va, la.root_hash(), ra.root_hash());
            let eb = encode_node(vb, lb.root_hash(), rb.root_hash());
            if ea != eb {
                assert(digest(ea) == digest(eb));
            } else {
                lemma_root_hash_len(*la);
                lemma_root_hash_len(*ra);
                lemma_root_hash_len(*lb);
                lemma_root_hash_len(*rb);
                lemma_encode_injective(
                    va,
                    la.root_hash(),
                    ra.root_hash(),
                    vb,
                    lb.root_hash(),
                    rb.root_hash(),
                );
                if depth < bits.len() {
                    if bits[depth] {
                        lemma_binding(*ra, *rb, bits, depth + 1);
                    } else {
                        lemma_binding(*la, *lb, bits, depth + 1);
                    }
                }
            }
        },
        (Trie::Fork { value, left, right }, Trie::Empty) => {
            let e = encode_node(value, left.root_hash(), right.root_hash());
            assert(e.len() > 0);
            assert(e != Seq::<u8>::empty());
            assert(digest(e) == digest(Seq::<u8>::empty()));
        },
        (Trie::Empty, Trie::Fork { value, left, right }) => {
            let e = encode_node(value, left.root_hash(), right.root_hash());
            assert(e.len() > 0);
            assert(e != Seq::<u8>::empty());
            assert(digest(e) == digest(Seq::<u8>::empty()));
        },
        _ => {},
    }
}

/// A tree with root hash `root` that resolves the path `bits` to
/// `answer`, if there is one.
pub open spec fn backing(root: Seq<u8>, bits: Seq<bool>, answer: Option<Seq<u8>>) -> Trie {
    choose|t: Trie| #[trigger]
        t.sized() && t.root_hash() == root && t.lookup(bits, 0) == Lookup::Resolved(answer)
}

/// Two answers for one key that are both backed by trees with the same root
/// hash are the same answer, unless the two byte strings collide on which
/// the agreement of the two backing trees rests.
pub proof fn lemma_proofs_agree(root: Seq<u8>, bits: Seq<bool>, x: Option<Seq<u8>>, y: Option<Seq<u8>>)
    requires
        proves(root, bits, x),
        proves(root, bits, y),
    ensures
        x == y || collide(
            crux(backing(root, bits, x), backing(root, bits, y), bits, 0).0,
            crux(backing(root, bits, x), backing(root, bits, y), bits, 0).1,
        ),
{
    lemma_binding(backing(root, bits, x), backing(root, bits, y), bits, 0);
}

/// Round trip: what a tree holds under a key is what any tree with the same
/// root hash reads back for it. `written` is the tree that was committed,
/// with `value` under `key`; `read` is an answer that a `get` on a tree
/// opened at its root hash gave. The two agree, unless the two byte
/// strings collide on which the agreement of the committed tree and the
/// tree that backs the answer rests. A removed key has the value `None`.
pub proof fn lemma_round_trip(written: Trie, key: Seq<u8>, value: Option<Seq<u8>>, read: Option<Seq<u8>>)
    requires
        written.sized(),
        answer(written, key) == Lookup::Resolved(value),
        proves(written.root_hash(), path_bits(key), read),
    ensures
        read == value || collide(
            crux(written, backing(written.root_hash(), path_bits(key), read), path_bits(key), 0).0,
            crux(written, backing(written.root_hash(), path_bits(key), read), path_bits(key), 0).1,
        ),
{
    lemma_binding(written, backing(written.root_hash(), path_bits(key), read), path_bits(key), 0);
}

/// Two views of one tree have the same root hash, and where both give an
/// answer, they give the same.
pub proof fn lemma_akin(a: Trie, b: Trie, bits: Seq<bool>)
    requires
        akin(a, b),
    ensures
        a.root_hash() == b.root_hash(),
        a.lookup(bits, 0) is Resolved && b.lookup(bits, 0) is Resolved ==> a.lookup(bits, 0) == b.lookup(
            bits,
            0,
        ),
{
    let m = choose|m: Trie| #[trigger] m.covers(a) && m.covers(b) && m.sized();
    lemma_covers_root_hash(m, a);
    lemma_covers_root_hash(m, b);
    if a.lookup(bits, 0) is Resolved && b.lookup(bits, 0) is Resolved {
        lemma_covers_lookup(m, a, bits, 0);
        lemma_covers_lookup(m, b, bits, 0);
    }
}

/// A write to one key changes the answer for no other key: where the tree
/// gave an answer for another key before and gives one after, it is the
/// same, unless the two keys collide.
pub proof fn lemma_write_leaves_others(
    before: Trie,
    after: Trie,
    key: Seq<u8>,
    prev: Option<Seq<u8>>,
    value: Seq<u8>,
    other: Seq<u8>,
)
    requires
        put_result(before, after, path_bits(key), prev, value),
        other != key,
        answer(before, other) is Resolved,
        answer(after, other) is Resolved,
    ensures
        answer(after, other) == answer(before, other) || collide(other, key),
{
    let bits = path_bits(key);
    let m = choose|m: Trie| #[trigger]
        m.covers(before) && m.sized() && m.lookup(bits, 0) == Lookup::Resolved(prev) && m.put(
            bits,
            0,
            value,
        ).covers(after);
    lemma_paths_differ(other, key);
    if path_bits(other) != bits {
        assert(path_bits(other).skip(0) =~= path_bits(other));
        assert(bits.skip(0) =~= bits);
        lemma_covers_lookup(m, before, path_bits(other), 0);
        lemma_put_other(m, bits, 0, value, path_bits(other));
        lemma_covers_lookup(m.put(bits, 0, value), after, path_bits(other), 0);
    }
}

/// A removal of one key changes the answer for no other key, unless the
/// two keys collide.
pub proof fn lemma_removal_leaves_others(
    before: Trie,
    after: Trie,
    key: Seq<u8>,
    prev: Option<Seq<u8>>,
    other: Seq<u8>,
)
    requires
        erase_result(before, after, path_bits(key), prev),
        other != key,
        answer(before, other) is Resolved,
        answer(after, other) is Resolved,
    ensures
        answer(after, other) == answer(before, other) || collide(other, key),
{
    let bits = path_bits(key);
    let m = choose|m: Trie| #[trigger]
        m.covers(before) && m.sized() && m.lookup(bits, 0) == Lookup::Resolved(prev) && m.erase(
            bits,
            0,
        ).covers(after);
    lemma_paths_differ(other, key);
    if path_bits(other) != bits {
        assert(path_bits(other).skip(0) =~= path_bits(other));
        assert(bits.skip(0) =~= bits);
        lemma_covers_lookup(m, before, path_bits(other), 0);
        lemma_erase_other(m, bits, 0, path_bits(other));
        lemma_covers_lookup(m.erase(bits, 0), after, path_bits(other), 0);
    }
}

/// What a write returns as the previous value is what the root hash of
/// the tree before the write commits to.
pub proof fn lemma_previous_value_is_backed(
    before: Trie,
    after: Trie,
    key: Seq<u8>,
    prev: Option<Seq<u8>>,
    value: Seq<u8>,
)
    requires
        put_result(before, after, path_bits(key), prev, value),
    ensures
        proves(before.root_hash(), path_bits(key), prev),
{
    let bits = path_bits(key);
    let m = choose|m: Trie| #[trigger]
        m.covers(before) && m.sized() && m.lookup(bits, 0) == Lookup::Resolved(prev) && m.put(
            bits,
            0,
            value,
        ).covers(after);
    lemma_covers_root_hash(m, before);
}

} // verus!
