//! Block headers and the header of compute results.
use crate::codec::{
    be64, frames, lemma_be64_injective, lemma_frames_injective, push_all, push_be64, push_frames,
    views,
};
use crate::hash;
use crate::hash::digest;
use crate::mkvs::root::Namespace;
use vstd::prelude::*;

verus! {

/// The domain-separation tag under which the header of compute results is
/// signed: the ASCII bytes of `EkComRH-`.
pub const COMPUTE_RESULTS_HEADER_CONTEXT: [u8; 8] = [0x45, 0x6b, 0x43, 0x6f, 0x6d, 0x52, 0x48, 0x2d];

/// The header of a block: the context that consensus supplies for a round.
#[derive(Clone, Copy, Debug, PartialEq, Eq)]
pub struct Header {
    /// Namespace of the runtime.
    pub namespace: Namespace,
    /// Round of the block.
    pub round: u64,
    /// Root hash of the state after the block.
    pub state_root: hash::Hash,
}

/// A block.
#[derive(Clone, Copy, Debug, PartialEq, Eq)]
pub struct Block {
    pub header: Header,
}

/// The header of the results of one round: what the node commits to.
#[derive(Clone, Debug, PartialEq, Eq)]
pub struct ComputeResultsHeader {
    /// The round the results are for.
    pub round: u64,
    /// Hash of the header of the block the round was built on.
    pub previous_hash: hash::Hash,
    /// Root hash of the tree of inputs and outputs.
    pub io_root: Option<hash::Hash>,
    /// Root hash of the state.
    pub state_root: Option<hash::Hash>,
    /// Messages the runtime sends out.
    pub messages: Vec<Vec<u8>>,
}

/// An optional hash as bytes: a 0, or a 1 and the hash.
pub open spec fn optional_hash_bytes(h: Option<hash::Hash>) -> Seq<u8> {
    match h {
        Some(h) => seq![1u8] + h@,
        None => seq![0u8],
    }
}

impl Header {
    /// The canonical encoding of the header: namespace, round, state root.
    pub open spec fn encoding(self) -> Seq<u8> {
        self.namespace@ + be64(self.round) + self.state_root@
    }

    /// The canonical encoding of the header.
    pub fn encode(&self) -> (out: Vec<u8>)
        ensures
            out@ == self.encoding(),
    {
        let mut out: Vec<u8> = Vec::new();
        push_all(&mut out, &self.namespace.bytes);
        push_be64(&mut out, self.round);
        push_all(&mut out, &self.state_root.bytes);
        assert(out@ =~= self.encoding());
        out
    }

    /// The hash of the canonical encoding of the header.
    pub fn encoded_hash(&self) -> (h: hash::Hash)
        ensures
            h@ == digest(self.encoding()),
    {
        let bytes = self.encode();
        hash::Hash::digest_bytes(bytes.as_slice())
    }
}

impl ComputeResultsHeader {
    /// The canonical encoding of the header: round, previous hash, the two
    /// optional roots, the number of messages, and each message behind its
    /// length.
    pub open spec fn encoding(self) -> Seq<u8> {
        be64(self.round) + self.previous_hash@ + optional_hash_bytes(self.io_root)
            + optional_hash_bytes(self.state_root) + be64(self.messages.len() as u64) + frames(
            views(self.messages@),
        )
    }

    /// The canonical encoding of the header.
    pub fn encode(&self) -> (out: Vec<u8>)
        ensures
            out@ == self.encoding(),
    {
        let mut out: Vec<u8> = Vec::new();
        push_be64(&mut out, self.round);
        push_all(&mut out, &self.previous_hash.bytes);
        push_optional_hash(&mut out, &self.io_root);
        push_optional_hash(&mut out, &self.state_root);
        push_be64(&mut out, self.messages.len() as u64);
        push_frames(&mut out, &self.messages);
        assert(out@ =~= self.encoding());
        out
    }
}

/// The canonical encoding of a block header determines the header.
pub proof fn lemma_header_encoding_injective(a: Header, b: Header)
    requires
        a.encoding() == b.encoding(),
    ensures
        a.namespace@ == b.namespace@,
        a.round == b.round,
        a.state_root@ == b.state_root@,
{
    let e = a.encoding();
    assert(e.subrange(0, 32) =~= a.namespace@);
    assert(e.subrange(0, 32) =~= b.namespace@);
    assert(e.subrange(32, 40) =~= be64(a.round));
    assert(e.subrange(32, 40) =~= be64(b.round));
    lemma_be64_injective(a.round, b.round);
    assert(e.subrange(40, 72) =~= a.state_root@);
    assert(e.subrange(40, 72) =~= b.state_root@);
}

/// The canonical encoding of the header of compute results determines the
/// header: what is signed is signed for one header only.
pub proof fn lemma_results_encoding_injective(a: ComputeResultsHeader, b: ComputeResultsHeader)
    requires
        a.encoding() == b.encoding(),
        a.messages@.len() <= u64::MAX,
        b.messages@.len() <= u64::MAX,
        forall|i: int| 0 <= i < a.messages@.len() ==> (#[trigger] a.messages@[i])@.len() <= u64::MAX,
        forall|i: int| 0 <= i < b.messages@.len() ==> (#[trigger] b.messages@[i])@.len() <= u64::MAX,
    ensures
        a.round == b.round,
        a.previous_hash@ == b.previous_hash@,
        optional_hash_bytes(a.io_root) == optional_hash_bytes(b.io_root),
        optional_hash_bytes(a.state_root) == optional_hash_bytes(b.state_root),
        views(a.messages@) == views(b.messages@),
{
    let e = a.encoding();
    let ia = optional_hash_bytes(a.io_root);
    let ib = optional_hash_bytes(b.io_root);
    let sa = optional_hash_bytes(a.state_root);
    let sb = optional_hash_bytes(b.state_root);
    assert(e.subrange(0, 8) =~= be64(a.round));
    assert(e.subrange(0, 8) =~= be64(b.round));
    lemma_be64_injective(a.round, b.round);
    assert(e.subrange(8, 40) =~= a.previous_hash@);
    assert(e.subrange(8, 40) =~= b.previous_hash@);
    assert(e[40] == ia[0] && e[40] == ib[0]);
    assert(ia.len() == ib.len());
    assert(e.subrange(40, 40 + ia.len() as int) =~= ia);
    assert(e.subrange(40, 40 + ib.len() as int) =~= ib);
    let at: int = 40 + ia.len() as int;
    assert(e[at] == sa[0] && e[at] == sb[0]);
    assert(sa.len() == sb.len());
    assert(e.subrange(at, at + sa.len() as int) =~= sa);
    assert(e.subrange(at, at + sb.len() as int) =~= sb);
    let at2: int = at + sa.len() as int;
    assert(e.subrange(at2, at2 + 8) =~= be64(a.messages@.len() as u64));
    assert(e.subrange(at2, at2 + 8) =~= be64(b.messages@.len() as u64));
    lemma_be64_injective(a.messages@.len() as u64, b.messages@.len() as u64);
    let fa = frames(views(a.messages@));
    let fb = frames(views(b.messages@));
    assert(e.subrange(at2 + 8, e.len() as int) =~= fa);
    assert(e.subrange(at2 + 8, e.len() as int) =~= fb);
    lemma_frames_injective(views(a.messages@), views(b.messages@));
}

/// Appends an optional hash.
fn push_optional_hash(out: &mut Vec<u8>, h: &Option<hash::Hash>)
    ensures
        final(out)@ == old(out)@ + optional_hash_bytes(*h),
{
    match h {
        Some(h) => {
            out.push(1u8);
            push_all(out, &h.bytes);
            assert(out@ =~= old(out)@ + (seq![1u8] + h@));
        },
        None => {
            out.push(0u8);
            assert(out@ =~= old(out)@ + seq![0u8]);
        },
    }
}

} // verus!
