//! RPC calls into the runtime: the capabilities that serve them, and what
//! the worker does with a frame or a local request.
use crate::batch::{Fatal, Outcome};
use crate::codec::{be64, framed, lemma_be64_injective, push_all, push_framed};
use crate::dispatcher::error_response;
use crate::host::{Host, KeyValue};
use crate::mkvs::root::RootType;
use crate::mkvs::sync::NoopReadSyncer;
use crate::mkvs::tree::Tree;
use crate::types::Body;
use std::sync::Arc;
use vstd::prelude::*;

verus! {

/// A call of a method of the runtime.
#[derive(Clone, Debug, PartialEq, Eq)]
pub struct RpcRequest {
    /// Name of the method.
    pub method: Vec<u8>,
    /// The encoded arguments.
    pub args: Vec<u8>,
}

/// The encoded result of a call, or its encoded failure.
#[derive(Clone, Debug, PartialEq, Eq)]
pub struct RpcResponse {
    pub body: Vec<u8>,
}

/// A message of an RPC session.
#[derive(Clone, Debug, PartialEq, Eq)]
pub enum RpcMessage {
    Request(RpcRequest),
    Response(RpcResponse),
    Close,
}

/// The identifier of an RPC session.
#[derive(Clone, Copy, Debug, PartialEq, Eq)]
pub struct SessionId {
    pub bytes: [u8; 32],
}

/// What is known about the peer of an established session.
#[derive(Clone, Debug, PartialEq, Eq)]
pub struct SessionInfo {
    /// The attested identity of the peer, as the session layer reports it.
    pub peer: Vec<u8>,
}

/// What a method is told about the call it serves.
#[derive(Clone, Debug)]
pub struct RpcContext {
    /// The context of the request that brought the call.
    pub io_ctx: Arc<io_context::Context>,
    /// The session the call came in on; `None` for a local call.
    pub session_info: Option<SessionInfo>,
}

impl RpcContext {
    /// The context of a call: the context of its request, and the session
    /// it came in on, which a local call has none of.
    pub fn new(io_ctx: Arc<io_context::Context>, session_info: Option<SessionInfo>) -> (ctx: RpcContext)
        ensures
            ctx.io_ctx == io_ctx,
            ctx.session_info == session_info,
    {
        RpcContext { io_ctx, session_info }
    }
}

/// A decrypted frame of an established session.
#[derive(Clone, Debug, PartialEq, Eq)]
pub struct Frame {
    pub session_id: SessionId,
    pub session_info: Option<SessionInfo>,
    pub message: RpcMessage,
    /// The method name as the host sent it in the clear next to the frame.
    pub untrusted_plaintext: Vec<u8>,
}

/// Why the session layer rejected a frame or could not write one.
#[derive(Clone, Debug, PartialEq, Eq)]
pub struct DemuxError {
    pub message: String,
}

/// The session layer: it decrypts incoming frames, runs handshakes, and
/// encrypts outgoing messages. Nothing is assumed about an implementation.
pub trait RpcDemux {
    /// Processes a frame. Handshake data for the peer, if any, is appended
    /// to `buffer`. Returns the decrypted frame if the frame belongs to an
    /// established session, and `None` if it was part of a handshake.
    fn process_frame(&mut self, data: Vec<u8>, buffer: &mut Vec<u8>) -> Result<Option<Frame>, DemuxError>;

    /// Encrypts `message` for the session and appends it to `buffer`.
    fn write_message(&mut self, session_id: SessionId, message: RpcMessage, buffer: &mut Vec<u8>) -> Result<
        (),
        DemuxError,
    >;

    /// Closes the session and appends the closing frame to `buffer`.
    fn close(&mut self, session_id: SessionId, buffer: &mut Vec<u8>) -> Result<(), DemuxError>;
}

/// The methods of the runtime. Nothing is assumed about an implementation.
/// Each call is handed a store of its own that is dropped after the call.
pub trait RpcDispatcher {
    /// Serves a call that came in on an encrypted session.
    fn dispatch(
        &mut self,
        store: &mut Tree,
        untrusted_local: &Option<Box<dyn KeyValue>>,
        request: RpcRequest,
        ctx: RpcContext,
    ) -> RpcResponse
        requires
            old(store).wf(),
    ;

    /// Serves a call from the node itself.
    fn dispatch_local(
        &mut self,
        store: &mut Tree,
        untrusted_local: &Option<Box<dyn KeyValue>>,
        request: RpcRequest,
        ctx: RpcContext,
    ) -> RpcResponse
        requires
            old(store).wf(),
    ;

    /// Takes in a new signed policy of the key manager.
    fn handle_km_policy_update(&mut self, signed_policy_raw: Vec<u8>);
}

/// What to do with a frame once the session layer has processed it.
#[derive(Clone, Debug, PartialEq, Eq)]
pub enum FrameRoute {
    /// Send this to the host; nothing is dispatched.
    Reply(Body),
    /// Stop the process.
    Abort(Fatal),
    /// Dispatch the request and write the response to the session.
    Call { session_id: SessionId, session_info: Option<SessionInfo>, request: RpcRequest },
    /// Close the session.
    Close { session_id: SessionId },
}

/// The message of the error for a request whose method is not the one the
/// host announced.
pub open spec fn method_mismatch_message() -> Seq<char> {
    "Request's method doesn't match untrusted_plaintext copy."@
}

/// The message of the error for a message that is neither a request nor a close.
pub open spec fn invalid_message_type_message() -> Seq<char> {
    "invalid RPC message type"@
}

/// The message of the error for a local request that does not decode.
pub open spec fn malformed_request_message() -> Seq<char> {
    "malformed RPC request"@
}

/// `body` is the error response with the message `message`.
pub open spec fn is_error(body: Body, message: Seq<char>) -> bool {
    body matches Body::Error { module, code, message: m } && module@.len() == 0 && code == 0 && m@
        == message
}

/// Whether two byte strings are the same.
pub fn same_bytes(a: &[u8], b: &[u8]) -> (r: bool)
    ensures
        r == (a@ == b@),
{
    if a.len() != b.len() {
        return false;
    }
    let mut i: usize = 0;
    while i < a.len()
        invariant
            0 <= i <= a.len(),
            a.len() == b.len(),
            forall|j: int| 0 <= j < i ==> a@[j] == b@[j],
        decreases a.len() - i,
    {
        if a[i] != b[i] {
            return false;
        }
        i += 1;
    }
    assert(a@ =~= b@);
    true
}

/// Decides what to do with a frame. `processed` is what the session layer
/// returned for it, `buffer` the handshake data it produced.
///
/// A rejected frame is reported. A handshake frame is answered with the
/// handshake data. A frame of an established session must come without
/// handshake data. A request is dispatched if its method is the one the
/// host announced, and reported otherwise; a close closes the session;
/// anything else is reported.
pub fn route_frame(processed: Result<Option<Frame>, DemuxError>, buffer: Vec<u8>) -> (route: FrameRoute)
    ensures
        match processed {
            Err(e) => route matches FrameRoute::Reply(body) && is_error(body, e.message@),
            Ok(None) => route == FrameRoute::Reply(Body::RuntimeRPCCallResponse { response: buffer }),
            Ok(Some(frame)) => if buffer@.len() > 0 {
                route == FrameRoute::Abort(Fatal::HandshakeDataInTransport)
            } else {
                match frame.message {
                    RpcMessage::Request(request) => if frame.untrusted_plaintext@ != request.method@ {
                        route matches FrameRoute::Reply(body) && is_error(body, method_mismatch_message())
                    } else {
                        route == (FrameRoute::Call {
                            session_id: frame.session_id,
                            session_info: frame.session_info,
                            request,
                        })
                    },
                    RpcMessage::Close => route == (FrameRoute::Close { session_id: frame.session_id }),
                    RpcMessage::Response(_) => route matches FrameRoute::Reply(body) && is_error(
                        body,
                        invalid_message_type_message(),
                    ),
                }
            },
        },
{
    match processed {
        Err(e) => FrameRoute::Reply(error_response(e.message)),
        Ok(None) => FrameRoute::Reply(Body::RuntimeRPCCallResponse { response: buffer }),
        Ok(Some(frame)) => {
            if buffer.len() > 0 {
                return FrameRoute::Abort(Fatal::HandshakeDataInTransport);
            }
            match frame.message {
                RpcMessage::Request(request) => {
                    if !same_bytes(frame.untrusted_plaintext.as_slice(), request.method.as_slice()) {
                        FrameRoute::Reply(
                            error_response(
                                "Request's method doesn't match untrusted_plaintext copy.".to_owned(),
                            ),
                        )
                    } else {
                        FrameRoute::Call {
                            session_id: frame.session_id,
                            session_info: frame.session_info,
                            request,
                        }
                    }
                },
                RpcMessage::Close => FrameRoute::Close { session_id: frame.session_id },
                RpcMessage::Response(_) => FrameRoute::Reply(
                    error_response("invalid RPC message type".to_owned()),
                ),
            }
        },
    }
}

/// The response to the host after the session layer was asked to write:
/// what it wrote, or the failure it reported.
pub fn written_response(written: Result<(), DemuxError>, buffer: Vec<u8>) -> (body: Body)
    ensures
        match written {
            Ok(()) => body == (Body::RuntimeRPCCallResponse { response: buffer }),
            Err(e) => is_error(body, e.message@),
        },
{
    match written {
        Ok(()) => Body::RuntimeRPCCallResponse { response: buffer },
        Err(e) => error_response(e.message),
    }
}

/// A store for one call: of the type for inputs and outputs, empty, with
/// no backing store. It is never committed.
pub fn ephemeral_store() -> (store: Tree)
    ensures
        store.wf(),
        store.kind() == RootType::IO,
        store@ == crate::mkvs::trie::Trie::Empty,
        store.pending_log().len() == 0,
{
    let opts = Tree::make().with_root_type(RootType::IO);
    Tree::new(Box::new(NoopReadSyncer), &opts)
}

/// Handles a frame of an encrypted RPC session: has the session layer
/// process it, decides with `route_frame`, and for a request dispatches it
/// on an ephemeral store, with the local storage of the host, and has the
/// session layer write the response.
pub fn dispatch_rpc<P: Host>(
    rpc_demux: &mut Box<dyn RpcDemux>,
    rpc_dispatcher: &mut Box<dyn RpcDispatcher>,
    protocol: &Arc<P>,
    ctx: io_context::Context,
    request: Vec<u8>,
) -> (outcome: Outcome)
    ensures
        outcome matches Outcome::Respond(body) && (body is Error || body is RuntimeRPCCallResponse)
            || outcome == Outcome::Fatal(Fatal::HandshakeDataInTransport),
{
    let mut buffer: Vec<u8> = Vec::new();
    let processed = rpc_demux.process_frame(request, &mut buffer);
    match route_frame(processed, buffer) {
        FrameRoute::Reply(body) => Outcome::Respond(body),
        FrameRoute::Abort(fatal) => Outcome::Fatal(fatal),
        FrameRoute::Call { session_id, session_info, request } => {
            let ctx = ctx.freeze();
            let mut store = ephemeral_store();
            let untrusted_local = protocol.untrusted_local_storage(
                io_context::Context::create_child(&ctx),
            );
            let rpc_ctx = RpcContext::new(ctx, session_info);
            let response = rpc_dispatcher.dispatch(&mut store, &untrusted_local, request, rpc_ctx);
            let mut out: Vec<u8> = Vec::new();
            let written = rpc_demux.write_message(session_id, RpcMessage::Response(response), &mut out);
            Outcome::Respond(written_response(written, out))
        },
        FrameRoute::Close { session_id } => {
            let mut out: Vec<u8> = Vec::new();
            let written = rpc_demux.close(session_id, &mut out);
            Outcome::Respond(written_response(written, out))
        },
    }
}

/// The encoding of a local request: the method behind its length, then the arguments.
pub open spec fn request_encoding(method: Seq<u8>, args: Seq<u8>) -> Seq<u8> {
    framed(method) + args
}

/// The eight bytes at `at` as a number, most significant byte first.
fn read_be64(bytes: &[u8], at: usize) -> (x: u64)
    requires
        at + 8 <= bytes.len(),
    ensures
        be64(x) == bytes@.subrange(at as int, at + 8),
{
    let b0 = bytes[at];
    let b1 = bytes[at + 1];
    let b2 = bytes[at + 2];
    let b3 = bytes[at + 3];
    let b4 = bytes[at + 4];
    let b5 = bytes[at + 5];
    let b6 = bytes[at + 6];
    let b7 = bytes[at + 7];
    let x: u64 = ((b0 as u64) << 56u64) | ((b1 as u64) << 48u64) | ((b2 as u64) << 40u64) | ((b3 as u64)
        << 32u64) | ((b4 as u64) << 24u64) | ((b5 as u64) << 16u64) | ((b6 as u64) << 8u64) | (b7 as u64);
    assert((x >> 56u64) as u8 == b0 && (x >> 48u64) as u8 == b1 && (x >> 40u64) as u8 == b2 && (x
        >> 32u64) as u8 == b3 && (x >> 24u64) as u8 == b4 && (x >> 16u64) as u8 == b5 && (x >> 8u64) as u8
        == b6 && x as u8 == b7) by (bit_vector)
        requires
            x == ((b0 as u64) << 56u64) | ((b1 as u64) << 48u64) | ((b2 as u64) << 40u64) | ((b3 as u64)
                << 32u64) | ((b4 as u64) << 24u64) | ((b5 as u64) << 16u64) | ((b6 as u64) << 8u64) | (
            b7 as u64),
    ;
    assert(be64(x) =~= bytes@.subrange(at as int, at + 8));
    x
}

/// Encodes a local request.
pub fn encode_request(request: &RpcRequest) -> (out: Vec<u8>)
    ensures
        out@ == request_encoding(request.method@, request.args@),
{
    let mut out: Vec<u8> = Vec::new();
    push_framed(&mut out, request.method.as_slice());
    push_all(&mut out, request.args.as_slice());
    out
}

/// Decodes a local request. Returns the one request that `bytes` encodes,
/// if there is one.
pub fn decode_request(bytes: &[u8]) -> (r: Option<RpcRequest>)
    ensures
        match r {
            Some(request) => request_encoding(request.method@, request.args@) == bytes@
                && request.method@.len() <= u64::MAX,
            None => forall|method: Seq<u8>, args: Seq<u8>|
                method.len() <= u64::MAX ==> #[trigger] request_encoding(method, args) != bytes@,
        },
{
    if bytes.len() < 8 {
        assert forall|method: Seq<u8>, args: Seq<u8>| #[trigger]
            request_encoding(method, args) != bytes@ by {
            assert(request_encoding(method, args).len() >= 8);
        }
        return None;
    }
    let n = read_be64(bytes, 0);
    if n > (bytes.len() - 8) as u64 {
        assert forall|method: Seq<u8>, args: Seq<u8>| method.len() <= u64::MAX implies #[trigger]
            request_encoding(method, args) != bytes@ by {
            let e = request_encoding(method, args);
            if e == bytes@ {
                assert(e.subrange(0, 8) =~= be64(method.len() as u64));
                lemma_be64_injective(method.len() as u64, n);
                assert(e.len() == 8 + method.len() + args.len());
            }
        }
        return None;
    }
    let len = n as usize;
    let mut method: Vec<u8> = Vec::new();
    let mut args: Vec<u8> = Vec::new();
    push_all(&mut method, slice_of(bytes, 8, 8 + len));
    push_all(&mut args, slice_of(bytes, 8 + len, bytes.len()));
    assert(method@ =~= bytes@.subrange(8, 8 + len));
    assert(args@ =~= bytes@.subrange(8 + len, bytes.len() as int));
    assert(request_encoding(method@, args@) =~= bytes@);
    Some(RpcRequest { method, args })
}

/// The part of `bytes` from `from` up to `to`.
fn slice_of(bytes: &[u8], from: usize, to: usize) -> (part: &[u8])
    requires
        from <= to <= bytes.len(),
    ensures
        part@ == bytes@.subrange(from as int, to as int),
{
    vstd::slice::slice_subrange(bytes, from, to)
}

/// The encoding of a message: a tag for its kind, then for a request its
/// encoding, and for a response its body.
pub open spec fn message_encoding(message: RpcMessage) -> Seq<u8> {
    match message {
        RpcMessage::Request(request) => seq![1u8] + request_encoding(request.method@, request.args@),
        RpcMessage::Response(response) => seq![2u8] + response.body@,
        RpcMessage::Close => seq![3u8],
    }
}

/// Encodes a message.
pub fn encode_message(message: &RpcMessage) -> (out: Vec<u8>)
    ensures
        out@ == message_encoding(*message),
{
    let mut out: Vec<u8> = Vec::new();
    match message {
        RpcMessage::Request(request) => {
            out.push(1u8);
            push_framed(&mut out, request.method.as_slice());
            push_all(&mut out, request.args.as_slice());
            assert(out@ =~= seq![1u8] + request_encoding(request.method@, request.args@));
        },
        RpcMessage::Response(response) => {
            out.push(2u8);
            push_all(&mut out, response.body.as_slice());
        },
        RpcMessage::Close => {
            out.push(3u8);
        },
    }
    out
}

/// The answer to a local call: the response of the dispatcher as a
/// message, encoded.
pub fn local_response(response: RpcResponse) -> (body: Body)
    ensures
        body matches Body::RuntimeLocalRPCCallResponse { response: bytes } && bytes@ == message_encoding(
            RpcMessage::Response(response),
        ),
{
    let message = RpcMessage::Response(response);
    Body::RuntimeLocalRPCCallResponse { response: encode_message(&message) }
}

/// Handles a local RPC call: decodes the request, dispatches it on an
/// ephemeral store, and answers with the response as `local_response`
/// makes it. A request that does not decode is reported.
pub fn dispatch_local_rpc<P: Host>(
    rpc_dispatcher: &mut Box<dyn RpcDispatcher>,
    protocol: &Arc<P>,
    ctx: io_context::Context,
    request: Vec<u8>,
) -> (outcome: Outcome)
    ensures
        local_outcome(outcome, request@),
{
    match decode_request(request.as_slice()) {
        None => Outcome::Respond(error_response("malformed RPC request".to_owned())),
        Some(req) => {
            let ctx = ctx.freeze();
            let mut store = ephemeral_store();
            let untrusted_local = protocol.untrusted_local_storage(
                io_context::Context::create_child(&ctx),
            );
            let rpc_ctx = RpcContext::new(ctx, None);
            let response = rpc_dispatcher.dispatch_local(&mut store, &untrusted_local, req, rpc_ctx);
            assert(decodable(request@)) by {
                assert(request_encoding(req.method@, req.args@) == request@);
            }
            let body = local_response(response);
            assert(is_response_message(body));
            Outcome::Respond(body)
        },
    }
}

/// `body` is the answer to a local call that was dispatched: it carries
/// the encoding of a response message.
pub open spec fn is_response_message(body: Body) -> bool {
    body matches Body::RuntimeLocalRPCCallResponse { response: bytes } && exists|r: RpcResponse| #[trigger]
        message_encoding(RpcMessage::Response(r)) == bytes@
}

/// What holds of the outcome of a local call with the bytes `request`: a
/// request that decodes is answered with a response message, one that
/// does not with the failure.
pub open spec fn local_outcome(outcome: Outcome, request: Seq<u8>) -> bool {
    outcome matches Outcome::Respond(body) && if decodable(request) {
        is_response_message(body)
    } else {
        is_error(body, malformed_request_message())
    }
}

/// Some local request has the encoding `bytes`.
pub open spec fn decodable(bytes: Seq<u8>) -> bool {
    exists|method: Seq<u8>, args: Seq<u8>|
        method.len() <= u64::MAX && #[trigger] request_encoding(method, args) == bytes
}

/// Hands a new policy of the key manager to the RPC dispatcher and
/// acknowledges it.
pub fn handle_km_policy_update(rpc_dispatcher: &mut Box<dyn RpcDispatcher>, signed_policy_raw: Vec<u8>) -> (outcome:
    Outcome)
    ensures
        outcome == Outcome::Respond(Body::RuntimeKeyManagerPolicyUpdateResponse {  }),
{
    rpc_dispatcher.handle_km_policy_update(signed_policy_raw);
    Outcome::Respond(Body::RuntimeKeyManagerPolicyUpdateResponse {  })
}

} // verus!
