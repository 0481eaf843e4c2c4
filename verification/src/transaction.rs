//! Transactions, and the capability that executes them.
use crate::abort::AbortFlag;
use crate::hash;
use crate::host::KeyValue;
use crate::mkvs::tree::Tree;
use crate::roothash::Header;
use std::sync::Arc;
use vstd::prelude::*;

verus! {

/// An ordered batch of transactions, or of their outputs.
pub type TxnBatch = Vec<Vec<u8>>;

/// A tag that a transaction emits: a key and a value.
#[derive(Clone, Debug, PartialEq, Eq)]
pub struct Tag {
    pub key: Vec<u8>,
    pub value: Vec<u8>,
}

/// The tags of one transaction.
pub type Tags = Vec<Tag>;

/// A tag as plain data.
pub struct TagModel {
    pub key: Seq<u8>,
    pub value: Seq<u8>,
}

impl Tag {
    /// The tag as plain data.
    pub open spec fn model(self) -> TagModel {
        TagModel { key: self.key@, value: self.value@ }
    }
}

/// A list of tags as plain data.
pub open spec fn tags_model(tags: Seq<Tag>) -> Seq<TagModel> {
    Seq::new(tags.len(), |i: int| tags[i].model())
}

/// The tags of a list of transactions as plain data.
pub open spec fn all_tags_model(tags: Seq<Vec<Tag>>) -> Seq<Seq<TagModel>> {
    Seq::new(tags.len(), |i: int| tags_model(tags[i]@))
}

/// What a transaction dispatcher is told about the batch it executes.
#[derive(Clone, Debug)]
pub struct TxnContext {
    /// The context of the request that brought the batch.
    pub io_ctx: Arc<io_context::Context>,
    /// Header of the block the batch is built on.
    pub header: Header,
    /// Whether the batch is only checked: its effects will not be committed.
    pub check_only: bool,
}

impl TxnContext {
    /// The context of a batch: the context of its request, the header of
    /// the block it is built on, and whether it is only checked.
    pub fn new(io_ctx: Arc<io_context::Context>, header: Header, check_only: bool) -> (ctx: TxnContext)
        ensures
            ctx.io_ctx == io_ctx,
            ctx.header == header,
            ctx.check_only == check_only,
    {
        TxnContext { io_ctx, header, check_only }
    }
}

/// What the execution of a batch produced.
#[derive(Clone, Debug, PartialEq, Eq)]
pub struct BatchOutput {
    /// The output of every transaction, in batch order.
    pub outputs: Vec<Vec<u8>>,
    /// The tags of every transaction, in batch order.
    pub tags: Vec<Vec<Tag>>,
    /// Messages the runtime sends out.
    pub messages: Vec<Vec<u8>>,
}

/// Why the execution of a batch failed.
#[derive(Clone, Debug, PartialEq, Eq)]
pub struct DispatchError {
    pub message: String,
}

/// The capability that executes transactions. The embedding runtime
/// supplies it.
///
/// Nothing is assumed about what an implementation returns. It is handed
/// the state tree and must leave it a valid tree, which every use of the
/// tree's operations does.
pub trait TxnDispatcher {
    /// Executes the transactions of `batch` in order against `tree`.
    /// `untrusted_local` is the local storage of the host, if it has one.
    fn dispatch_batch(
        &mut self,
        tree: &mut Tree,
        untrusted_local: &Option<Box<dyn KeyValue>>,
        batch: &Vec<Vec<u8>>,
        ctx: TxnContext,
    ) -> (r: Result<BatchOutput, DispatchError>)
        requires
            old(tree).wf(),
        ensures
            final(tree).wf(),
    ;

    /// Tells the dispatcher the root hash of the state that a batch was committed as.
    fn finalize(&mut self, new_state_root: hash::Hash);

    /// Hands the dispatcher the flag by which an abort of the running batch
    /// is asked for, so that a long batch can look at it and stop early.
    fn set_abort_batch_flag(&mut self, flag: AbortFlag);
}

/// The dispatcher of a runtime that executes no transactions: every batch
/// succeeds with no outputs, and the state is left alone.
pub struct NoopDispatcher;

impl TxnDispatcher for NoopDispatcher {
    fn dispatch_batch(
        &mut self,
        tree: &mut Tree,
        untrusted_local: &Option<Box<dyn KeyValue>>,
        batch: &Vec<Vec<u8>>,
        ctx: TxnContext,
    ) -> (r: Result<BatchOutput, DispatchError>)
        ensures
            *final(tree) == *old(tree),
            r matches Ok(out) && out.outputs@.len() == 0 && out.tags@.len() == 0 && out.messages@.len()
                == 0,
    {
        Ok(BatchOutput { outputs: Vec::new(), tags: Vec::new(), messages: Vec::new() })
    }

    fn finalize(&mut self, new_state_root: hash::Hash) {
    }

    fn set_abort_batch_flag(&mut self, flag: AbortFlag) {
    }
}

} // verus!
