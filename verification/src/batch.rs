//! The batch-execution protocol: what happens to a batch once the
//! transaction dispatcher has run it.
use crate::codec::{copy_bytes, views};
use crate::hash;
use crate::hash::digest;
use crate::mkvs::log::{
    clash_in, write_model, write_sorted, written_clash_in, LogEntry, PendingEntry,
};
use crate::mkvs::tree::entries_read_back;
use crate::mkvs::root::{Namespace, Root, RootType};
use crate::mkvs::sync::NoopReadSyncer;
use crate::mkvs::trie::Trie;
use crate::roothash::{Block, ComputeResultsHeader, COMPUTE_RESULTS_HEADER_CONTEXT};
use crate::signature::{PublicKey, SignError, Signature};
use crate::transaction::{all_tags_model, tags_model, Tag, TagModel};
use crate::txn_tree::{names_changes, with_input, with_output, TxnTree};
use crate::types::{Body, ComputedBatch};
use vstd::pervasive::unreached;
use vstd::prelude::*;

verus! {

/// A failure after which the node must not go on.
#[derive(Clone, Copy, Debug, PartialEq, Eq)]
pub enum Fatal {
    /// The tree rebuilt from the inputs does not have the root hash that
    /// the scheduler claimed for them.
    IoRootMismatch { expected: hash::Hash, computed: hash::Hash },
    /// A key is configured and the signer did not sign the results.
    SigningFailed(SignError),
    /// A frame of an established session came with handshake data.
    HandshakeDataInTransport,
    /// A batch has more inputs than can be numbered, or builds on the last
    /// round there is.
    BatchOutOfRange,
}

/// What the worker does after it has handled a request.
#[derive(Clone, Debug, PartialEq, Eq)]
pub enum Outcome {
    /// Send this response to the host.
    Respond(Body),
    /// Send nothing.
    Silent,
    /// Stop the worker.
    Terminate,
    /// Stop the process.
    Fatal(Fatal),
}

/// The tree of the first `n` inputs of a batch, built from nothing.
pub open spec fn inputs_trie(inputs: Seq<Seq<u8>>, n: nat) -> Trie
    decreases n,
{
    if n == 0 {
        Trie::Empty
    } else {
        with_input(inputs_trie(inputs, (n - 1) as nat), inputs[n - 1], (n - 1) as u32)
    }
}

/// The root hash of the tree that holds the inputs of a batch and nothing
/// else. It depends on the inputs and their order alone.
pub open spec fn input_root(inputs: Seq<Seq<u8>>) -> Seq<u8> {
    inputs_trie(inputs, inputs.len()).root_hash()
}

/// The tree `base` with the outputs and tags of the first `n` transactions added.
pub open spec fn outputs_trie(
    base: Trie,
    inputs: Seq<Seq<u8>>,
    outputs: Seq<Seq<u8>>,
    tags: Seq<Seq<TagModel>>,
    n: nat,
) -> Trie
    decreases n,
{
    if n == 0 {
        base
    } else {
        with_output(
            outputs_trie(base, inputs, outputs, tags, (n - 1) as nat),
            digest(inputs[n - 1]),
            outputs[n - 1],
            tags[n - 1],
        )
    }
}

/// Number of transactions that have an input, an output and tags.
pub open spec fn paired(inputs: Seq<Seq<u8>>, outputs: Seq<Seq<u8>>, tags: Seq<Seq<TagModel>>) -> nat {
    let a = if inputs.len() <= outputs.len() {
        inputs.len()
    } else {
        outputs.len()
    };
    if a <= tags.len() {
        a
    } else {
        tags.len()
    }
}

/// The tree of all inputs and outputs of a batch.
pub open spec fn io_trie(inputs: Seq<Seq<u8>>, outputs: Seq<Seq<u8>>, tags: Seq<Seq<TagModel>>) -> Trie {
    outputs_trie(
        inputs_trie(inputs, inputs.len()),
        inputs,
        outputs,
        tags,
        paired(inputs, outputs, tags),
    )
}

/// The write log of a commit with the pending log `pending` is ordered by
/// key, and every entry of it reads back from `tree`, unless two of the
/// keys that `pending` names collide.
pub open spec fn reads_back(log: Seq<LogEntry>, tree: Trie, pending: Seq<PendingEntry>) -> bool {
    &&& write_sorted(write_model(log))
    &&& clash_in(pending) || entries_read_back(log, tree)
}

/// The write log is what turns `before` into `after`. It is ordered by
/// key. Every entry of it reads back from `after`, unless two of the keys
/// it names collide. It names every key about which `after` says
/// something else than `before`, or a key that collides with it.
pub open spec fn is_delta(log: Seq<LogEntry>, before: Trie, after: Trie) -> bool {
    &&& write_sorted(write_model(log))
    &&& written_clash_in(write_model(log)) || entries_read_back(log, after)
    &&& names_changes(log, before, after)
}

/// The tree of the inputs of a batch, committed, with the hash of every input.
pub struct InputTree {
    pub tree: TxnTree,
    pub hashes: Vec<hash::Hash>,
    pub root: hash::Hash,
}

/// Builds the tree of the inputs of a batch from the inputs alone: every
/// input is filed under its hash with its position in the batch, and the
/// tree is committed.
pub fn build_input_tree(namespace: Namespace, version: u64, inputs: &Vec<Vec<u8>>) -> (r: InputTree)
    requires
        inputs.len() <= u32::MAX,
    ensures
        r.tree.wf(),
        r.tree.local(),
        r.tree@ == inputs_trie(views(inputs@), inputs.len() as nat),
        r.tree.pending_log().len() == 0,
        r.tree.committed() == r.tree@,
        r.root@ == input_root(views(inputs@)),
        r.hashes.len() == inputs.len(),
        forall|i: int| 0 <= i < inputs.len() ==> (#[trigger] r.hashes[i])@ == digest(inputs[i]@),
{
    let empty = hash::Hash::empty_hash();
    let mut tree = TxnTree::new(
        Box::new(NoopReadSyncer),
        Root { namespace, version, root_type: RootType::IO, hash: empty },
    );
    let mut hashes: Vec<hash::Hash> = Vec::new();
    let mut i: usize = 0;
    let ghost all = views(inputs@);
    while i < inputs.len()
        invariant
            0 <= i <= inputs.len(),
            inputs.len() <= u32::MAX,
            all == views(inputs@),
            tree.wf(),
            tree.local(),
            tree@ == inputs_trie(all, i as nat),
            hashes.len() == i,
            forall|j: int| 0 <= j < i ==> (#[trigger] hashes[j])@ == digest(inputs[j]@),
        decreases inputs.len() - i,
    {
        hashes.push(hash::Hash::digest_bytes(inputs[i].as_slice()));
        match tree.add_input(inputs[i].as_slice(), i as u32) {
            Ok(()) => {},
            Err(_) => {
                unreached::<()>();
            },
        }
        i += 1;
    }
    let (_, root) = tree.commit();
    InputTree { tree, hashes, root }
}

/// What the second half of the protocol produced: the header to sign and
/// the two write logs.
pub struct Results {
    pub header: ComputeResultsHeader,
    pub io_write_log: Vec<LogEntry>,
    pub state_write_log: Vec<LogEntry>,
}

/// The second half of the protocol for a batch that was executed and whose
/// state was committed as `state_root`.
///
/// Rebuilds the tree of inputs from `inputs` and compares its root hash
/// with `io_root`, the hash the scheduler claimed. If they differ, the
/// batch that was executed is not the batch that was scheduled, and the
/// result is `Fatal::IoRootMismatch`. Otherwise the outputs and tags are
/// added to the same tree, the tree is committed again, and the header of
/// the results is put together.
pub fn assemble_results(
    io_root: hash::Hash,
    inputs: &Vec<Vec<u8>>,
    outputs: &Vec<Vec<u8>>,
    tags: &Vec<Vec<Tag>>,
    messages: Vec<Vec<u8>>,
    block: &Block,
    state_root: hash::Hash,
    state_write_log: Vec<LogEntry>,
) -> (r: Result<Results, Fatal>)
    requires
        inputs.len() <= u32::MAX,
        block.header.round < u64::MAX,
    ensures
        r is Err <==> io_root@ != input_root(views(inputs@)),
        match r {
            Err(e) => e matches Fatal::IoRootMismatch { expected, computed } && expected == io_root
                && computed@ == input_root(views(inputs@)),
            Ok(res) => {
                &&& res.header.round == block.header.round + 1
                &&& res.header.previous_hash@ == digest(block.header.encoding())
                &&& res.header.io_root matches Some(h) && h@ == io_trie(
                    views(inputs@),
                    views(outputs@),
                    all_tags_model(tags@),
                ).root_hash()
                &&& res.header.state_root == Some(state_root)
                &&& res.header.messages == messages
                &&& res.state_write_log == state_write_log
                &&& is_delta(
                    res.io_write_log@,
                    inputs_trie(views(inputs@), inputs.len() as nat),
                    io_trie(views(inputs@), views(outputs@), all_tags_model(tags@)),
                )
            },
        },
{
    let built = build_input_tree(block.header.namespace, block.header.round + 1, inputs);
    if !built.root.same(&io_root) {
        return Err(Fatal::IoRootMismatch { expected: io_root, computed: built.root });
    }
    let mut tree = built.tree;
    let hashes = built.hashes;
    let ghost base = tree@;
    let ghost ins = views(inputs@);
    let ghost outs = views(outputs@);
    let ghost tgs = all_tags_model(tags@);
    let mut n: usize = hashes.len();
    if outputs.len() < n {
        n = outputs.len();
    }
    if tags.len() < n {
        n = tags.len();
    }
    let mut i: usize = 0;
    while i < n
        invariant
            0 <= i <= n,
            n == paired(ins, outs, tgs),
            ins == views(inputs@),
            outs == views(outputs@),
            tgs == all_tags_model(tags@),
            hashes.len() == inputs.len(),
            forall|j: int| 0 <= j < inputs.len() ==> (#[trigger] hashes[j])@ == digest(inputs[j]@),
            tree.wf(),
            tree.local(),
            tree.committed() == base,
            tree@ == outputs_trie(base, ins, outs, tgs, i as nat),
        decreases n - i,
    {
        let output = copy_bytes(outputs[i].as_slice());
        let tx_tags = copy_tags(&tags[i]);
        match tree.add_output(hashes[i], output, tx_tags) {
            Ok(()) => {},
            Err(_) => {
                unreached::<()>();
            },
        }
        i += 1;
    }
    let (io_write_log, final_root) = tree.commit();
    let header = ComputeResultsHeader {
        round: block.header.round + 1,
        previous_hash: block.header.encoded_hash(),
        io_root: Some(final_root),
        state_root: Some(state_root),
        messages,
    };
    Ok(Results { header, io_write_log, state_write_log })
}

/// A copy of a list of tags.
fn copy_tags(tags: &Vec<Tag>) -> (r: Vec<Tag>)
    ensures
        tags_model(r@) == tags_model(tags@),
{
    let mut out: Vec<Tag> = Vec::new();
    let mut i: usize = 0;
    while i < tags.len()
        invariant
            0 <= i <= tags.len(),
            out.len() == i,
            forall|j: int| 0 <= j < i ==> (#[trigger] out[j]).model() == tags[j].model(),
        decreases tags.len() - i,
    {
        out.push(Tag { key: copy_bytes(tags[i].key.as_slice()), value: copy_bytes(tags[i].value.as_slice()) });
        i += 1;
    }
    assert(tags_model(out@) =~= tags_model(tags@));
    out
}

/// `r` is the response that carries `results` with a signature whose
/// bytes are `signature`.
pub open spec fn carries(r: Outcome, results: Results, signature: Seq<u8>) -> bool {
    r matches Outcome::Respond(Body::RuntimeExecuteTxBatchResponse { batch }) && batch.header
        == results.header && batch.io_write_log == results.io_write_log && batch.state_write_log
        == results.state_write_log && batch.rak_sig@ == signature
}

/// Whether the results are to be signed: whether a signing key is
/// configured. `key` is what the signer gave as its public key.
pub fn must_sign(key: &Option<PublicKey>) -> (b: bool)
    ensures
        b == (*key is Some),
{
    key.is_some()
}

/// What the signer is handed to sign the header of the results: the
/// domain-separation tag, and the canonical encoding of the header.
pub fn signing_input(header: &ComputeResultsHeader) -> (r: (Vec<u8>, Vec<u8>))
    ensures
        r.0@ == COMPUTE_RESULTS_HEADER_CONTEXT@,
        r.1@ == header.encoding(),
{
    (copy_bytes(&COMPUTE_RESULTS_HEADER_CONTEXT), header.encode())
}

/// The last step of the protocol: the results with the signature over
/// their header. `key` is the public key the signer gave, `signed` what
/// it returned for the header if it was asked.
///
/// Without a key the results carry the all-zero signature, whatever
/// `signed` is. With a key they carry the signature the signer made; a
/// signer that failed, or was not asked, is fatal.
pub fn finish_batch(
    results: Results,
    key: Option<PublicKey>,
    signed: Option<Result<Signature, SignError>>,
) -> (r: Outcome)
    ensures
        match key {
            None => carries(r, results, Signature::unsigned()),
            Some(_) => match signed {
                Some(Ok(sig)) => carries(r, results, sig@),
                Some(Err(e)) => r == Outcome::Fatal(Fatal::SigningFailed(e)),
                None => r == Outcome::Fatal(Fatal::SigningFailed(SignError::Failed)),
            },
        },
{
    let rak_sig = match key {
        None => Signature::default(),
        Some(_) => match signed {
            Some(Ok(sig)) => sig,
            Some(Err(e)) => {
                return Outcome::Fatal(Fatal::SigningFailed(e));
            },
            None => {
                return Outcome::Fatal(Fatal::SigningFailed(SignError::Failed));
            },
        },
    };
    Outcome::Respond(
        Body::RuntimeExecuteTxBatchResponse {
            batch: ComputedBatch {
                header: results.header,
                io_write_log: results.io_write_log,
                state_write_log: results.state_write_log,
                rak_sig,
            },
        },
    )
}

} // verus!
