//! Fixed-width integers and length-prefixed byte strings as bytes.
use vstd::prelude::*;

verus! {

/// The eight bytes of `x`, most significant first.
pub open spec fn be64(x: u64) -> Seq<u8> {
    seq![
        (x >> 56u64) as u8,
        (x >> 48u64) as u8,
        (x >> 40u64) as u8,
        (x >> 32u64) as u8,
        (x >> 24u64) as u8,
        (x >> 16u64) as u8,
        (x >> 8u64) as u8,
        x as u8,
    ]
}

/// The four bytes of `x`, most significant first.
pub open spec fn be32(x: u32) -> Seq<u8> {
    seq![(x >> 24u32) as u8, (x >> 16u32) as u8, (x >> 8u32) as u8, x as u8]
}

/// A byte string behind its length.
pub open spec fn framed(bytes: Seq<u8>) -> Seq<u8> {
    be64(bytes.len() as u64) + bytes
}

/// A list of byte strings, each behind its length, one after the other.
pub open spec fn frames(items: Seq<Seq<u8>>) -> Seq<u8>
    decreases items.len(),
{
    if items.len() == 0 {
        Seq::empty()
    } else {
        frames(items.drop_last()) + framed(items.last())
    }
}

/// A number is determined by its eight bytes.
pub proof fn lemma_be64_injective(x: u64, y: u64)
    requires
        be64(x) == be64(y),
    ensures
        x == y,
{
    assert(be64(x)[0] == be64(y)[0]);
    assert(be64(x)[1] == be64(y)[1]);
    assert(be64(x)[2] == be64(y)[2]);
    assert(be64(x)[3] == be64(y)[3]);
    assert(be64(x)[4] == be64(y)[4]);
    assert(be64(x)[5] == be64(y)[5]);
    assert(be64(x)[6] == be64(y)[6]);
    assert(be64(x)[7] == be64(y)[7]);
    assert(((x >> 56u64) as u8 == (y >> 56u64) as u8 && (x >> 48u64) as u8 == (y >> 48u64) as u8 && (x
        >> 40u64) as u8 == (y >> 40u64) as u8 && (x >> 32u64) as u8 == (y >> 32u64) as u8 && (x >> 24u64) as u8
        == (y >> 24u64) as u8 && (x >> 16u64) as u8 == (y >> 16u64) as u8 && (x >> 8u64) as u8 == (y
        >> 8u64) as u8 && x as u8 == y as u8) ==> x == y) by (bit_vector);
}

/// A list of frames starts with the frame of its first item.
pub proof fn lemma_frames_front(items: Seq<Seq<u8>>)
    requires
        items.len() > 0,
    ensures
        frames(items) == framed(items[0]) + frames(items.drop_first()),
    decreases items.len(),
{
    if items.len() == 1 {
        assert(items.drop_last() =~= Seq::<Seq<u8>>::empty());
        assert(items.drop_first() =~= Seq::<Seq<u8>>::empty());
        assert(frames(items.drop_last()) =~= Seq::<u8>::empty());
        assert(frames(items) =~= framed(items[0]) + frames(items.drop_first()));
    } else {
        let init = items.drop_last();
        lemma_frames_front(init);
        assert(init.drop_first() =~= items.drop_first().drop_last());
        assert(items.drop_first().last() == items.last());
        assert(init[0] == items[0]);
        assert(frames(items.drop_first()) == frames(init.drop_first()) + framed(items.last()));
        assert(frames(items) =~= framed(items[0]) + frames(items.drop_first()));
    }
}

/// Two lists of equally many byte strings with the same frames are the same list.
pub proof fn lemma_frames_injective(a: Seq<Seq<u8>>, b: Seq<Seq<u8>>)
    requires
        a.len() == b.len(),
        forall|i: int| 0 <= i < a.len() ==> (#[trigger] a[i]).len() <= u64::MAX,
        forall|i: int| 0 <= i < b.len() ==> (#[trigger] b[i]).len() <= u64::MAX,
        frames(a) == frames(b),
    ensures
        a == b,
    decreases a.len(),
{
    if a.len() == 0 {
        assert(a =~= b);
    } else {
        lemma_frames_front(a);
        lemma_frames_front(b);
        let fa = frames(a.drop_first());
        let fb = frames(b.drop_first());
        let e = frames(a);
        assert(e.subrange(0, 8) =~= be64(a[0].len() as u64));
        assert(e.subrange(0, 8) =~= be64(b[0].len() as u64));
        lemma_be64_injective(a[0].len() as u64, b[0].len() as u64);
        assert(e.subrange(8, 8 + a[0].len() as int) =~= a[0]);
        assert(e.subrange(8, 8 + b[0].len() as int) =~= b[0]);
        assert(e.subrange(8 + a[0].len() as int, e.len() as int) =~= fa);
        assert(e.subrange(8 + b[0].len() as int, e.len() as int) =~= fb);
        assert forall|i: int| 0 <= i < a.drop_first().len() implies (#[trigger] a.drop_first()[i]).len()
            <= u64::MAX by {
            assert(a.drop_first()[i] == a[i + 1]);
        }
        assert forall|i: int| 0 <= i < b.drop_first().len() implies (#[trigger] b.drop_first()[i]).len()
            <= u64::MAX by {
            assert(b.drop_first()[i] == b[i + 1]);
        }
        lemma_frames_injective(a.drop_first(), b.drop_first());
        assert(a =~= seq![a[0]] + a.drop_first());
        assert(b =~= seq![b[0]] + b.drop_first());
    }
}

/// Appends `src` to `out`.
pub fn push_all(out: &mut Vec<u8>, src: &[u8])
    ensures
        final(out)@ == old(out)@ + src@,
{
    let mut i: usize = 0;
    while i < src.len()
        invariant
            0 <= i <= src.len(),
            out@ == old(out)@ + src@.subrange(0, i as int),
        decreases src.len() - i,
    {
        out.push(src[i]);
        assert(out@ =~= old(out)@ + src@.subrange(0, i + 1));
        i += 1;
    }
    assert(src@.subrange(0, src.len() as int) =~= src@);
}

/// A copy of `bytes`.
pub fn copy_bytes(bytes: &[u8]) -> (r: Vec<u8>)
    ensures
        r@ == bytes@,
{
    let mut out: Vec<u8> = Vec::new();
    push_all(&mut out, bytes);
    assert(out@ =~= bytes@);
    out
}

/// Appends the eight bytes of `x`, most significant first.
pub fn push_be64(out: &mut Vec<u8>, x: u64)
    ensures
        final(out)@ == old(out)@ + be64(x),
{
    out.push(#[verifier::truncate] ((x >> 56u64) as u8));
    out.push(#[verifier::truncate] ((x >> 48u64) as u8));
    out.push(#[verifier::truncate] ((x >> 40u64) as u8));
    out.push(#[verifier::truncate] ((x >> 32u64) as u8));
    out.push(#[verifier::truncate] ((x >> 24u64) as u8));
    out.push(#[verifier::truncate] ((x >> 16u64) as u8));
    out.push(#[verifier::truncate] ((x >> 8u64) as u8));
    out.push(#[verifier::truncate] (x as u8));
    assert(out@ =~= old(out)@ + be64(x));
}

/// Appends the four bytes of `x`, most significant first.
pub fn push_be32(out: &mut Vec<u8>, x: u32)
    ensures
        final(out)@ == old(out)@ + be32(x),
{
    out.push(#[verifier::truncate] ((x >> 24u32) as u8));
    out.push(#[verifier::truncate] ((x >> 16u32) as u8));
    out.push(#[verifier::truncate] ((x >> 8u32) as u8));
    out.push(#[verifier::truncate] (x as u8));
    assert(out@ =~= old(out)@ + be32(x));
}

/// Appends `bytes` behind its length.
pub fn push_framed(out: &mut Vec<u8>, bytes: &[u8])
    ensures
        final(out)@ == old(out)@ + framed(bytes@),
{
    push_be64(out, bytes.len() as u64);
    push_all(out, bytes);
    assert(out@ =~= old(out)@ + framed(bytes@));
}

/// The byte strings that a list of vectors holds.
pub open spec fn views(items: Seq<Vec<u8>>) -> Seq<Seq<u8>> {
    Seq::new(items.len(), |i: int| items[i]@)
}

/// Appends every item of `items` behind its length.
pub fn push_frames(out: &mut Vec<u8>, items: &Vec<Vec<u8>>)
    ensures
        final(out)@ == old(out)@ + frames(views(items@)),
{
    let mut i: usize = 0;
    let ghost all = views(items@);
    assert(all.take(0) =~= Seq::<Seq<u8>>::empty());
    while i < items.len()
        invariant
            0 <= i <= items.len(),
            all == views(items@),
            out@ == old(out)@ + frames(all.take(i as int)),
        decreases items.len() - i,
    {
        proof {
            assert(all.take(i + 1).drop_last() =~= all.take(i as int));
            assert(all.take(i + 1).last() == items[i as int]@);
        }
        let ghost so_far = out@;
        push_framed(out, items[i].as_slice());
        assert(out@ =~= old(out)@ + frames(all.take(i + 1)));
        i += 1;
    }
    assert(all.take(items.len() as int) =~= all);
}

} // verus!
