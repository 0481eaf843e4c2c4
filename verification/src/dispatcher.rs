//! The call dispatcher: the state cache, the handling of a batch, and the
//! decisions of the worker that serves the host's requests one at a time.
use crate::batch::{
    assemble_results, finish_batch, input_root, inputs_trie, io_trie, is_delta, must_sign,
    reads_back, signing_input, Fatal, Outcome, Results,
};
use crate::codec::views;
use crate::hash;
use crate::hash::digest;
use crate::mkvs::log::{committed_log, write_model};
use crate::mkvs::root::{Root, RootType};
use crate::host::Host;
use crate::mkvs::sync::{NoopReadSyncer, ReadSync};
use crate::mkvs::tree::Tree;
use crate::roothash::Block;
use crate::signature::{PublicKey, SignError, Signature, Signer};
use crate::transaction::{all_tags_model, BatchOutput, DispatchError, TxnContext, TxnDispatcher};
use crate::types::Body;
use std::sync::Arc;
use vstd::prelude::*;

verus! {

/// Largest number of requests that wait in the queue of the dispatcher.
/// A request that arrives while the queue is full is turned away at once.
pub const BACKLOG_SIZE: usize = 10;

/// Number of nodes the state tree caches.
pub const STATE_NODE_CAPACITY: usize = 100_000;

/// Number of value bytes the state tree caches.
pub const STATE_VALUE_CAPACITY: usize = 10_000_000;

/// A state tree bound to the state root it was last seen at. The tree is
/// kept from batch to batch while the root stays the same.
pub struct Cache<P: Host> {
    protocol: Arc<P>,
    mkvs: Tree,
    root: Root,
}

impl<P: Host> Cache<P> {
    /// The tree of the cache.
    pub closed spec fn tree(&self) -> Tree {
        self.mkvs
    }

    /// The root the cache is bound to.
    pub closed spec fn bound_root(&self) -> Root {
        self.root
    }

    /// The invariant of the cache: its tree is valid and stands at the
    /// root the cache is bound to.
    pub open spec fn wf(&self) -> bool {
        self.tree().wf() && self.tree().sync_root() == self.bound_root()
    }

    /// A cache bound to the root that no block has: see `Root::unset`.
    pub fn new(protocol: Arc<P>) -> (cache: Self)
        ensures
            cache.wf(),
            cache.tree().fresh_at(cache.bound_root()),
            cache.tree().node_capacity() == STATE_NODE_CAPACITY,
            cache.tree().value_capacity() == STATE_VALUE_CAPACITY,
            cache.bound_root().version == 0,
            cache.bound_root().root_type == RootType::State,
            cache.bound_root().hash@ == Seq::new(32, |i: int| 0u8),
            cache.bound_root().namespace@ == Seq::new(32, |i: int| 0u8),
    {
        let root = Root::unset();
        Cache { mkvs: Self::new_tree(&protocol, root), root, protocol }
    }

    /// A state tree opened at `root`, with a read syncer of the host. If
    /// the host has none, the tree has no backing store.
    pub fn new_tree(protocol: &Arc<P>, root: Root) -> (tree: Tree)
        ensures
            tree.fresh_at(root),
            tree.node_capacity() == STATE_NODE_CAPACITY,
            tree.value_capacity() == STATE_VALUE_CAPACITY,
    {
        let read_syncer: Box<dyn ReadSync> = match protocol.read_syncer() {
            Some(syncer) => syncer,
            None => Box::new(NoopReadSyncer),
        };
        let opts = Tree::make().with_capacity(STATE_NODE_CAPACITY, STATE_VALUE_CAPACITY).with_root(
            root,
        );
        Tree::new(read_syncer, &opts)
    }

    /// The root the cache is bound to.
    pub fn root(&self) -> (r: Root)
        ensures
            r == self.bound_root(),
    {
        self.root
    }

    /// The tree of the cache.
    pub fn tree_mut(&mut self) -> (t: &mut Tree)
        ensures
            *t == old(self).tree(),
            final(self).tree() == *final(t),
            final(self).bound_root() == old(self).bound_root(),
    {
        &mut self.mkvs
    }

    /// Binds the cache to `root`. If it is bound to `root` already, nothing
    /// happens: the tree stays, with all it holds. Otherwise the tree is
    /// dropped and opened anew at `root`.
    pub fn maybe_replace(&mut self, root: Root)
        requires
            old(self).wf(),
        ensures
            final(self).wf(),
            final(self).bound_root() == root,
            old(self).bound_root() == root ==> final(self).tree() == old(self).tree(),
            old(self).bound_root() != root ==> final(self).tree().fresh_at(root)
                && final(self).tree().node_capacity() == STATE_NODE_CAPACITY
                && final(self).tree().value_capacity() == STATE_VALUE_CAPACITY,
    {
        if self.root.same(&root) {
            return ;
        }
        self.mkvs = Self::new_tree(&self.protocol, root);
        self.root = root;
    }

    /// Notes that the state was committed as version `version` with root
    /// hash `root_hash`. The cache is valid again once its tree was
    /// committed as that.
    pub fn commit(&mut self, version: u64, root_hash: hash::Hash)
        ensures
            final(self).tree() == old(self).tree(),
            final(self).bound_root() == (Root {
                namespace: old(self).bound_root().namespace,
                version,
                root_type: old(self).bound_root().root_type,
                hash: root_hash,
            }),
    {
        self.root.version = version;
        self.root.hash = root_hash;
    }
}

/// The outcome is the fatal mismatch of the claimed and the rebuilt root hash.
pub open spec fn is_mismatch(outcome: Outcome) -> bool {
    outcome matches Outcome::Fatal(Fatal::IoRootMismatch { .. })
}

/// The outcome is a response that carries the results of a batch.
pub open spec fn is_executed(outcome: Outcome) -> bool {
    outcome matches Outcome::Respond(Body::RuntimeExecuteTxBatchResponse { .. })
}

/// The state root that a block names.
pub open spec fn state_root_of(block: Block) -> Root {
    Root {
        namespace: block.header.namespace,
        version: block.header.round,
        root_type: RootType::State,
        hash: block.header.state_root,
    }
}

/// The response that reports a failure to the host.
pub fn error_response(message: String) -> (body: Body)
    ensures
        body matches Body::Error { module, code, message: m } && module@.len() == 0 && code == 0 && m
            == message,
{
    Body::Error { module: String::new(), code: 0, message }
}

/// Asks the signer for its public key and, if it has one, for the
/// signature over the header of `results`.
fn sign_results(signer: &Box<dyn Signer>, results: &Results) -> (r: (
    Option<PublicKey>,
    Option<Result<Signature, SignError>>,
)) {
    let key = signer.public_key();
    let signed = if must_sign(&key) {
        let (context, message) = signing_input(&results.header);
        Some(signer.sign(context.as_slice(), message.as_slice()))
    } else {
        None
    };
    (key, signed)
}

/// The message of the error for a dispatcher that committed the state itself.
pub open spec fn moved_state_message() -> Seq<char> {
    "transaction dispatcher moved the state off its root"@
}

/// The root of the state after the batch on `block` was committed with
/// root hash `hash`: the next round in the namespace of the block.
pub open spec fn next_state_root(block: Block, hash: hash::Hash) -> Root {
    Root {
        namespace: block.header.namespace,
        version: (block.header.round + 1) as u64,
        root_type: RootType::State,
        hash,
    }
}

/// What holds after a batch on `block` was checked on the cache `after`:
/// the cache is bound to the state root of the block, nothing was
/// committed, and the answer is the outputs or a failure.
pub open spec fn checked<P: Host>(after: Cache<P>, outcome: Outcome, block: Block) -> bool {
    &&& after.wf()
    &&& after.bound_root() == state_root_of(block)
    &&& outcome matches Outcome::Respond(body) && (body is Error || body is RuntimeCheckTxBatchResponse)
}

/// What holds after a batch on `block` with the claimed root `io_root` of
/// its inputs was executed on the cache `after`.
///
/// The answer is a failure, the results, or a fatal outcome. After a
/// failure the cache is bound to the state root of the block. Otherwise
/// the state was committed as the next round and the cache is bound to
/// that. Results are given only if `io_root` is the root hash of the tree
/// of the inputs; they are for the next round, name the hash of the header
/// of the block as the previous hash, and carry the root hash the state
/// was committed with.
pub open spec fn executed<P: Host>(
    after: Cache<P>,
    outcome: Outcome,
    io_root: hash::Hash,
    inputs: Seq<Vec<u8>>,
    block: Block,
) -> bool {
    &&& after.wf()
    &&& outcome is Respond || outcome is Fatal
    &&& (outcome matches Outcome::Respond(body) ==> body is Error || body is RuntimeExecuteTxBatchResponse)
    &&& (outcome matches Outcome::Fatal(f) ==> f is IoRootMismatch || f is SigningFailed)
    &&& (outcome matches Outcome::Respond(Body::Error { .. }) ==> after.bound_root() == state_root_of(
        block,
    ))
    &&& !(outcome matches Outcome::Respond(Body::Error { .. })) ==> after.bound_root()
        == next_state_root(block, after.bound_root().hash)
    &&& (outcome matches Outcome::Respond(Body::RuntimeExecuteTxBatchResponse { batch }) ==> {
        &&& io_root@ == input_root(views(inputs))
        &&& batch.header.round == block.header.round + 1
        &&& batch.header.previous_hash@ == digest(block.header.encoding())
        &&& batch.header.state_root == Some(after.bound_root().hash)
    })
    &&& (outcome matches Outcome::Fatal(Fatal::IoRootMismatch { expected, computed }) ==> expected
        == io_root && computed@ == input_root(views(inputs)) && io_root@ != input_root(views(inputs)))
    &&& io_root@ != input_root(views(inputs)) ==> !is_executed(outcome)
}

/// What becomes of a batch after the transaction dispatcher has run it on
/// the tree of the cache, which is bound to the state root of the block.
/// `dispatched` is what the dispatcher returned.
///
/// A dispatcher that left the tree at another root than the cache is bound
/// to has failed, whatever it returned: the tree is opened anew at that
/// root and the failure is reported.
///
/// Otherwise: if the dispatcher failed, the failure is reported and the
/// writes it made to the state are dropped. If the batch was only
/// checked, the outputs are returned and nothing is committed. Else the
/// state is committed as the next round in the namespace of the block, the
/// dispatcher is told the new state root, the cache moves on to it, the
/// tree of inputs and outputs is rebuilt and held against `io_root`, and
/// the results are signed if the signer has a key. A batch that wrote
/// nothing leaves the state root as the block has it.
pub fn conclude_batch<P: Host>(
    cache: &mut Cache<P>,
    txn_dispatcher: &mut Box<dyn TxnDispatcher>,
    signer: &Box<dyn Signer>,
    dispatched: Result<BatchOutput, DispatchError>,
    io_root: hash::Hash,
    inputs: &Vec<Vec<u8>>,
    block: &Block,
    check_only: bool,
) -> (outcome: Outcome)
    requires
        old(cache).tree().wf(),
        old(cache).bound_root() == state_root_of(*block),
        inputs.len() <= u32::MAX,
        block.header.round < u64::MAX,
    ensures
        final(cache).wf(),
        check_only ==> checked(*final(cache), outcome, *block),
        !check_only ==> executed(*final(cache), outcome, io_root, inputs@, *block),
        old(cache).tree().sync_root() != old(cache).bound_root() ==> {
            &&& outcome matches Outcome::Respond(Body::Error { module, code, message })
            &&& module@.len() == 0 && code == 0 && message@ == moved_state_message()
            &&& final(cache).bound_root() == old(cache).bound_root()
            &&& final(cache).tree().fresh_at(old(cache).bound_root())
        },
        old(cache).tree().sync_root() == old(cache).bound_root() ==> match dispatched {
            Err(e) => {
                &&& outcome matches Outcome::Respond(Body::Error { module, code, message })
                &&& module@.len() == 0 && code == 0 && message == e.message
                &&& final(cache).bound_root() == old(cache).bound_root()
                &&& final(cache).tree().pending_log().len() == 0
                &&& final(cache).tree()@.root_hash() == old(cache).bound_root().hash@
                &&& old(cache).tree().pending_log().len() == 0 ==> *final(cache) == *old(cache)
            },
            Ok(out) => if check_only {
                &&& outcome == Outcome::Respond(Body::RuntimeCheckTxBatchResponse { results: out.outputs })
                &&& *final(cache) == *old(cache)
            } else {
                &&& final(cache).bound_root() == next_state_root(*block, final(cache).bound_root().hash)
                &&& final(cache).tree().sync_root() == final(cache).bound_root()
                &&& final(cache).bound_root().hash@ == old(cache).tree()@.root_hash()
                &&& old(cache).tree().pending_log().len() == 0 ==> final(cache).bound_root().hash@
                    == block.header.state_root@
                &&& final(cache).tree().pending_log().len() == 0
                &&& io_root@ != input_root(views(inputs@)) <==> is_mismatch(outcome)
                &&& (outcome matches Outcome::Fatal(Fatal::IoRootMismatch { expected, computed })
                    ==> expected == io_root && computed@ == input_root(views(inputs@)))
                &&& (outcome matches Outcome::Respond(body) ==> body matches Body::RuntimeExecuteTxBatchResponse {
                    batch,
                } && {
                    &&& batch.header.round == block.header.round + 1
                    &&& batch.header.previous_hash@ == digest(block.header.encoding())
                    &&& batch.header.state_root == Some(final(cache).bound_root().hash)
                    &&& batch.header.io_root matches Some(h) && h@ == io_trie(
                        views(inputs@),
                        views(out.outputs@),
                        all_tags_model(out.tags@),
                    ).root_hash()
                    &&& batch.header.messages == out.messages
                    &&& write_model(batch.state_write_log@) == committed_log(
                        old(cache).tree().pending_log(),
                    )
                    &&& old(cache).tree().pending_log().len() == 0 ==> batch.state_write_log@.len() == 0
                    &&& reads_back(
                        batch.state_write_log@,
                        old(cache).tree()@,
                        old(cache).tree().pending_log(),
                    )
                    &&& is_delta(
                        batch.io_write_log@,
                        inputs_trie(views(inputs@), inputs.len() as nat),
                        io_trie(views(inputs@), views(out.outputs@), all_tags_model(out.tags@)),
                    )
                })
                &&& outcome is Respond || outcome is Fatal
                &&& (outcome matches Outcome::Fatal(f) ==> f is IoRootMismatch || f is SigningFailed)
            },
        },
{
    let bound = cache.root;
    if !cache.mkvs.root().same(&bound) {
        cache.mkvs.reopen(bound);
        return Outcome::Respond(
            error_response("transaction dispatcher moved the state off its root".to_owned()),
        );
    }
    match dispatched {
        Err(e) => {
            cache.mkvs.rollback();
            Outcome::Respond(error_response(e.message))
        },
        Ok(out) => {
            if check_only {
                Outcome::Respond(Body::RuntimeCheckTxBatchResponse { results: out.outputs })
            } else {
                proof {
                    cache.mkvs.lemma_kind_of_root();
                }
                let next = block.header.round + 1;
                let (state_write_log, new_state_root) = cache.mkvs.commit(block.header.namespace, next);
                txn_dispatcher.finalize(new_state_root);
                cache.commit(next, new_state_root);
                match assemble_results(
                    io_root,
                    inputs,
                    &out.outputs,
                    &out.tags,
                    out.messages,
                    block,
                    new_state_root,
                    state_write_log,
                ) {
                    Err(fatal) => Outcome::Fatal(fatal),
                    Ok(results) => {
                        let (key, signed) = sign_results(signer, &results);
                        finish_batch(results, key, signed)
                    },
                }
            }
        },
    }
}

/// Handles a batch: binds the state cache to the state root that `block`
/// names, has the transaction dispatcher run the batch against the state
/// tree, with the local storage of the host, and concludes as
/// `conclude_batch` says.
///
/// Whatever the dispatcher does, `checked` holds of a batch that is only
/// checked and `executed` of one that is executed.
pub fn dispatch_txn<P: Host>(
    cache: &mut Cache<P>,
    txn_dispatcher: &mut Box<dyn TxnDispatcher>,
    signer: &Box<dyn Signer>,
    protocol: &Arc<P>,
    ctx: io_context::Context,
    io_root: hash::Hash,
    inputs: Vec<Vec<u8>>,
    block: Block,
    check_only: bool,
) -> (outcome: Outcome)
    requires
        old(cache).wf(),
        inputs.len() <= u32::MAX,
        block.header.round < u64::MAX,
    ensures
        check_only ==> checked(*final(cache), outcome, block),
        !check_only ==> executed(*final(cache), outcome, io_root, inputs@, block),
{
    cache.maybe_replace(
        Root {
            namespace: block.header.namespace,
            version: block.header.round,
            root_type: RootType::State,
            hash: block.header.state_root,
        },
    );
    let ctx = ctx.freeze();
    let untrusted_local = protocol.untrusted_local_storage(io_context::Context::create_child(&ctx));
    let txn_ctx = TxnContext::new(ctx, block.header, check_only);
    let dispatched = txn_dispatcher.dispatch_batch(&mut cache.mkvs, &untrusted_local, &inputs, txn_ctx);
    conclude_batch(cache, txn_dispatcher, signer, dispatched, io_root, &inputs, &block, check_only)
}

} // verus!
