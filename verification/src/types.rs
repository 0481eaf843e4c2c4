//! What travels between the host and the runtime.
use crate::hash;
use crate::mkvs::log::LogEntry;
use crate::roothash::{Block, ComputeResultsHeader};
use crate::signature::Signature;
use vstd::prelude::*;

verus! {

/// The result of the execution of one batch.
#[derive(Clone, Debug, PartialEq, Eq)]
pub struct ComputedBatch {
    /// What the node commits to.
    pub header: ComputeResultsHeader,
    /// The changes to the tree of inputs and outputs after the inputs were filed.
    pub io_write_log: Vec<LogEntry>,
    /// The changes to the state.
    pub state_write_log: Vec<LogEntry>,
    /// Signature over the header, or the all-zero signature if no key is configured.
    pub rak_sig: Signature,
}

/// The body of a request from the host or of a response to it.
#[derive(Clone, Debug, PartialEq, Eq)]
pub enum Body {
    /// Nothing.
    Empty {  },
    /// A request failed.
    Error { module: String, code: u32, message: String },
    /// The host asks whether the runtime is alive.
    RuntimePingRequest {  },
    /// The host asks the runtime to shut down.
    RuntimeShutdownRequest {  },
    /// A frame of an encrypted RPC session.
    RuntimeRPCCallRequest { request: Vec<u8> },
    RuntimeRPCCallResponse { response: Vec<u8> },
    /// An RPC call from the node itself, not encrypted.
    RuntimeLocalRPCCallRequest { request: Vec<u8> },
    RuntimeLocalRPCCallResponse { response: Vec<u8> },
    /// A batch to check without committing anything.
    RuntimeCheckTxBatchRequest { inputs: Vec<Vec<u8>>, block: Block },
    RuntimeCheckTxBatchResponse { results: Vec<Vec<u8>> },
    /// A batch to execute.
    RuntimeExecuteTxBatchRequest { io_root: hash::Hash, inputs: Vec<Vec<u8>>, block: Block },
    RuntimeExecuteTxBatchResponse { batch: ComputedBatch },
    /// A new policy of the key manager, signed.
    RuntimeKeyManagerPolicyUpdateRequest { signed_policy_raw: Vec<u8> },
    RuntimeKeyManagerPolicyUpdateResponse {  },
    /// Carries nothing; wakes the worker so that it looks at the abort flag.
    RuntimeAbortRequest {  },
    RuntimeAbortResponse {  },
}

} // verus!
