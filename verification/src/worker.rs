//! The worker that serves the requests of the host one at a time: its
//! phases, and what it does with each kind of request.
use crate::abort::AbortFlag;
use crate::batch::{Fatal, Outcome};
use crate::dispatcher::{checked, dispatch_txn, executed, Cache};
use crate::hash;
use crate::host::Host;
use crate::rpc::{
    dispatch_local_rpc, dispatch_rpc, handle_km_policy_update, local_outcome, RpcDemux,
    RpcDispatcher,
};
use crate::signature::Signer;
use crate::transaction::{NoopDispatcher, TxnDispatcher};
use crate::types::Body;
use std::sync::Arc;
use vstd::prelude::*;

verus! {

/// The phases of the worker.
#[derive(Clone, Copy, Debug, PartialEq, Eq, Structural)]
pub enum Phase {
    /// The worker does not exist yet.
    Uninitialized,
    /// The worker waits for the handle on the transport to the host.
    WaitingForProtocol,
    /// The worker serves requests.
    Running,
    /// The worker has stopped for good.
    Terminating,
}

/// The kinds of request the worker tells apart.
#[derive(Clone, Copy, Debug, PartialEq, Eq, Structural)]
pub enum RequestKind {
    RpcCall,
    LocalRpcCall,
    ExecuteTxBatch,
    CheckTxBatch,
    KeyManagerPolicyUpdate,
    Abort,
    /// Anything the worker does not serve.
    Unsupported,
}

/// What happens to the worker.
#[derive(Clone, Copy, Debug, PartialEq, Eq, Structural)]
pub enum Event {
    /// The worker was created.
    Created,
    /// The handle on the transport was supplied.
    ProtocolSupplied,
    /// A request of this kind was taken from the queue.
    Request(RequestKind),
    /// Taking a request from the queue failed.
    ReceiveFailed,
    /// The one who asked for an abort could not be told that it is done.
    AcknowledgeFailed,
}

/// The kind of a request.
pub open spec fn kind_of(body: Body) -> RequestKind {
    match body {
        Body::RuntimeRPCCallRequest { .. } => RequestKind::RpcCall,
        Body::RuntimeLocalRPCCallRequest { .. } => RequestKind::LocalRpcCall,
        Body::RuntimeExecuteTxBatchRequest { .. } => RequestKind::ExecuteTxBatch,
        Body::RuntimeCheckTxBatchRequest { .. } => RequestKind::CheckTxBatch,
        Body::RuntimeKeyManagerPolicyUpdateRequest { .. } => RequestKind::KeyManagerPolicyUpdate,
        Body::RuntimeAbortRequest { .. } => RequestKind::Abort,
        _ => RequestKind::Unsupported,
    }
}

/// The phase after `event` happened in `phase`. An event that cannot
/// happen in a phase changes nothing.
pub open spec fn phase_after(phase: Phase, event: Event) -> Phase {
    match (phase, event) {
        (Phase::Uninitialized, Event::Created) => Phase::WaitingForProtocol,
        (Phase::WaitingForProtocol, Event::ProtocolSupplied) => Phase::Running,
        (Phase::Running, Event::Request(RequestKind::Unsupported)) => Phase::Terminating,
        (Phase::Running, Event::ReceiveFailed) => Phase::Terminating,
        (Phase::Running, Event::AcknowledgeFailed) => Phase::Terminating,
        _ => phase,
    }
}

/// The kind of a request.
pub fn request_kind(body: &Body) -> (kind: RequestKind)
    ensures
        kind == kind_of(*body),
{
    match body {
        Body::RuntimeRPCCallRequest { .. } => RequestKind::RpcCall,
        Body::RuntimeLocalRPCCallRequest { .. } => RequestKind::LocalRpcCall,
        Body::RuntimeExecuteTxBatchRequest { .. } => RequestKind::ExecuteTxBatch,
        Body::RuntimeCheckTxBatchRequest { .. } => RequestKind::CheckTxBatch,
        Body::RuntimeKeyManagerPolicyUpdateRequest { .. } => RequestKind::KeyManagerPolicyUpdate,
        Body::RuntimeAbortRequest { .. } => RequestKind::Abort,
        _ => RequestKind::Unsupported,
    }
}

/// The phase after `event` happened in `phase`.
pub fn next_phase(phase: Phase, event: Event) -> (next: Phase)
    ensures
        next == phase_after(phase, event),
{
    match (phase, event) {
        (Phase::Uninitialized, Event::Created) => Phase::WaitingForProtocol,
        (Phase::WaitingForProtocol, Event::ProtocolSupplied) => Phase::Running,
        (Phase::Running, Event::Request(RequestKind::Unsupported)) => Phase::Terminating,
        (Phase::Running, Event::ReceiveFailed) => Phase::Terminating,
        (Phase::Running, Event::AcknowledgeFailed) => Phase::Terminating,
        _ => phase,
    }
}

/// A worker that has stopped stays stopped, and a worker serves requests
/// only after the transport was supplied.
pub proof fn lemma_phases(phase: Phase, event: Event)
    ensures
        phase == Phase::Terminating ==> phase_after(phase, event) == Phase::Terminating,
        phase_after(phase, event) == Phase::Running ==> phase == Phase::Running || (phase
            == Phase::WaitingForProtocol && event == Event::ProtocolSupplied),
{
}

/// The code of the embedding runtime that sets up its capabilities once
/// the transport to the host is there. `P` is the handle on the transport.
pub trait Initializer<P: Host>: Send + Sync {
    /// Registers the methods of the runtime with the RPC dispatcher and
    /// returns the transaction dispatcher, if the runtime has one.
    fn init(
        &self,
        protocol: &Arc<P>,
        rak: &Box<dyn Signer>,
        rpc_demux: &mut Box<dyn RpcDemux>,
        rpc_dispatcher: &mut Box<dyn RpcDispatcher>,
    ) -> Option<Box<dyn TxnDispatcher>>;
}

/// What a running worker holds: the two state caches, the capabilities of
/// the runtime, and the abort flag.
pub struct Worker<P: Host> {
    cache: Cache<P>,
    cache_check: Cache<P>,
    txn_dispatcher: Box<dyn TxnDispatcher>,
    rpc_demux: Box<dyn RpcDemux>,
    rpc_dispatcher: Box<dyn RpcDispatcher>,
    signer: Box<dyn Signer>,
    protocol: Arc<P>,
    abort_batch: AbortFlag,
}

impl<P: Host> Worker<P> {
    /// The state cache that batches are executed on.
    pub closed spec fn exec_cache(&self) -> Cache<P> {
        self.cache
    }

    /// The state cache that batches are checked on.
    pub closed spec fn check_cache(&self) -> Cache<P> {
        self.cache_check
    }

    /// Both caches are as they are in `other`.
    pub open spec fn keeps_both(&self, other: &Worker<P>) -> bool {
        self.exec_cache() == other.exec_cache() && self.check_cache() == other.check_cache()
    }

    /// The invariant of the worker: both caches are valid.
    pub open spec fn wf(&self) -> bool {
        self.exec_cache().wf() && self.check_cache().wf()
    }

    /// A worker with fresh state caches. Without a transaction dispatcher
    /// the worker uses one that executes nothing. The dispatcher is handed
    /// the abort flag.
    pub fn new(
        txn_dispatcher: Option<Box<dyn TxnDispatcher>>,
        rpc_demux: Box<dyn RpcDemux>,
        rpc_dispatcher: Box<dyn RpcDispatcher>,
        signer: Box<dyn Signer>,
        protocol: Arc<P>,
        abort_batch: AbortFlag,
    ) -> (worker: Self)
        ensures
            worker.wf(),
            worker.exec_cache().tree().fresh_at(worker.exec_cache().bound_root()),
            worker.check_cache().tree().fresh_at(worker.check_cache().bound_root()),
    {
        let mut txn: Box<dyn TxnDispatcher> = match txn_dispatcher {
            Some(txn) => txn,
            None => Box::new(NoopDispatcher),
        };
        txn.set_abort_batch_flag(abort_batch.share());
        Worker {
            cache: Cache::new(protocol.clone()),
            cache_check: Cache::new(protocol.clone()),
            txn_dispatcher: txn,
            rpc_demux,
            rpc_dispatcher,
            signer,
            protocol,
            abort_batch,
        }
    }

    /// Sets the worker up once the transport is there: has the initializer
    /// set up the capabilities of the runtime, and builds the worker with
    /// the transaction dispatcher it returned.
    pub fn start(
        initializer: &Box<dyn Initializer<P>>,
        protocol: Arc<P>,
        rak: Box<dyn Signer>,
        rpc_demux: Box<dyn RpcDemux>,
        rpc_dispatcher: Box<dyn RpcDispatcher>,
        abort_batch: AbortFlag,
    ) -> (worker: Self)
        ensures
            worker.wf(),
            worker.exec_cache().tree().fresh_at(worker.exec_cache().bound_root()),
            worker.check_cache().tree().fresh_at(worker.check_cache().bound_root()),
    {
        let mut rpc_demux = rpc_demux;
        let mut rpc_dispatcher = rpc_dispatcher;
        let txn = initializer.init(&protocol, &rak, &mut rpc_demux, &mut rpc_dispatcher);
        Worker::new(txn, rpc_demux, rpc_dispatcher, rak, protocol, abort_batch)
    }

    /// The root that the cache for execution is bound to.
    pub fn exec_root(&self) -> (r: crate::mkvs::root::Root)
        ensures
            r == self.exec_cache().bound_root(),
    {
        self.cache.root()
    }

    /// The root that the cache for checks is bound to.
    pub fn check_root(&self) -> (r: crate::mkvs::root::Root)
        ensures
            r == self.check_cache().bound_root(),
    {
        self.cache_check.root()
    }

    /// Takes the abort flag down and says whether it was raised: whether
    /// the one who raised it is to be told that the abort is done.
    pub fn take_abort(&self) -> bool {
        self.abort_batch.take()
    }

    /// Handles one request.
    ///
    /// A batch to execute is executed on the cache for execution, as
    /// `executed` says, and leaves the check cache as it is. A batch to
    /// check is checked on the check cache, as `checked` says, and leaves
    /// the cache for execution as it is. A batch with more inputs than can
    /// be numbered, or on the last round there is, is fatal and changes
    /// nothing. A local call that decodes is answered with a response, one
    /// that does not with the failure. The abort marker is answered with
    /// nothing. A request of a kind the worker does not serve stops it.
    pub fn handle(&mut self, ctx: io_context::Context, body: Body) -> (outcome: Outcome)
        requires
            old(self).wf(),
        ensures
            final(self).wf(),
            match body {
                Body::RuntimeRPCCallRequest { request } => final(self).keeps_both(old(self)) && (outcome
                    == Outcome::Fatal(Fatal::HandshakeDataInTransport) || (outcome matches Outcome::Respond(
                    b,
                ) && (b is Error || b is RuntimeRPCCallResponse))),
                Body::RuntimeLocalRPCCallRequest { request } => final(self).keeps_both(old(self))
                    && local_outcome(outcome, request@),
                Body::RuntimeExecuteTxBatchRequest { io_root, inputs, block } => final(self).check_cache() == old(self).check_cache() && if out_of_range(body) {
                    outcome == Outcome::Fatal(Fatal::BatchOutOfRange) && final(self).exec_cache() == old(self).exec_cache()
                } else {
                    executed(final(self).exec_cache(), outcome, io_root, inputs@, block)
                },
                Body::RuntimeCheckTxBatchRequest { inputs, block } => final(self).exec_cache() == old(self).exec_cache() && if out_of_range(body) {
                    outcome == Outcome::Fatal(Fatal::BatchOutOfRange) && final(self).check_cache() == old(self).check_cache()
                } else {
                    checked(final(self).check_cache(), outcome, block)
                },
                Body::RuntimeKeyManagerPolicyUpdateRequest { signed_policy_raw } => outcome
                    == Outcome::Respond(Body::RuntimeKeyManagerPolicyUpdateResponse {  }) && final(self).keeps_both(old(self)),
                Body::RuntimeAbortRequest {  } => outcome == Outcome::Silent && final(self).keeps_both(
                    old(self),
                ),
                _ => outcome == Outcome::Terminate && final(self).keeps_both(old(self)),
            },
            outcome matches Outcome::Fatal(Fatal::BatchOutOfRange) <==> out_of_range(body),
    {
        match body {
            Body::RuntimeRPCCallRequest { request } => dispatch_rpc(
                &mut self.rpc_demux,
                &mut self.rpc_dispatcher,
                &self.protocol,
                ctx,
                request,
            ),
            Body::RuntimeLocalRPCCallRequest { request } => dispatch_local_rpc(
                &mut self.rpc_dispatcher,
                &self.protocol,
                ctx,
                request,
            ),
            Body::RuntimeExecuteTxBatchRequest { io_root, inputs, block } => {
                if inputs.len() > 0xffff_ffff || block.header.round == u64::MAX {
                    Outcome::Fatal(Fatal::BatchOutOfRange)
                } else {
                    dispatch_txn(
                        &mut self.cache,
                        &mut self.txn_dispatcher,
                        &self.signer,
                        &self.protocol,
                        ctx,
                        io_root,
                        inputs,
                        block,
                        false,
                    )
                }
            },
            Body::RuntimeCheckTxBatchRequest { inputs, block } => {
                if inputs.len() > 0xffff_ffff || block.header.round == u64::MAX {
                    Outcome::Fatal(Fatal::BatchOutOfRange)
                } else {
                    dispatch_txn(
                        &mut self.cache_check,
                        &mut self.txn_dispatcher,
                        &self.signer,
                        &self.protocol,
                        ctx,
                        hash::Hash::zero(),
                        inputs,
                        block,
                        true,
                    )
                }
            },
            Body::RuntimeKeyManagerPolicyUpdateRequest { signed_policy_raw } => handle_km_policy_update(
                &mut self.rpc_dispatcher,
                signed_policy_raw,
            ),
            Body::RuntimeAbortRequest {  } => Outcome::Silent,
            _ => Outcome::Terminate,
        }
    }
}

/// The request is a batch that cannot be run: it has more inputs than can
/// be numbered, or it builds on the last round there is.
pub open spec fn out_of_range(body: Body) -> bool {
    match body {
        Body::RuntimeExecuteTxBatchRequest { io_root, inputs, block } => inputs@.len() > u32::MAX
            || block.header.round == u64::MAX,
        Body::RuntimeCheckTxBatchRequest { inputs, block } => inputs@.len() > u32::MAX
            || block.header.round == u64::MAX,
        _ => false,
    }
}

} // verus!
