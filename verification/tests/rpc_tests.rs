use io_context::Context;
use runtime_core::abort::AbortFlag;
use runtime_core::host::{Host, KeyValue};
use runtime_core::mkvs::sync::ReadSync;
use runtime_core::batch::{Fatal, Outcome};
use runtime_core::mkvs::root::{Namespace, Root, RootType};
use runtime_core::mkvs::sync::NoopReadSyncer;
use runtime_core::mkvs::tree::Tree;
use runtime_core::roothash::{Block, Header};
use runtime_core::rpc::{
    decode_request, dispatch_local_rpc, dispatch_rpc, encode_message, encode_request, ephemeral_store,
    handle_km_policy_update, local_response,
    route_frame, same_bytes, written_response, DemuxError, Frame, FrameRoute, RpcContext, RpcDemux, RpcDispatcher,
    RpcMessage, RpcRequest, RpcResponse, SessionId, SessionInfo,
};
use runtime_core::signature::{PublicKey, SignError, Signature, Signer};
use runtime_core::types::Body;
use runtime_core::worker::{next_phase, request_kind, Event, Phase, RequestKind, Worker};
use std::cell::RefCell;
use std::rc::Rc;
use std::sync::Arc;

fn error(message: &str) -> Body {
    Body::Error { module: String::new(), code: 0, message: message.to_string() }
}

fn session(b: u8) -> SessionId {
    SessionId { bytes: [b; 32] }
}

fn request(method: &[u8], args: &[u8]) -> RpcRequest {
    RpcRequest { method: method.to_vec(), args: args.to_vec() }
}

fn frame(message: RpcMessage, plaintext: &[u8]) -> Frame {
    Frame {
        session_id: session(1),
        session_info: Some(SessionInfo { peer: b"peer".to_vec() }),
        message,
        untrusted_plaintext: plaintext.to_vec(),
    }
}

#[test]
fn a_rejected_frame_is_reported() {
    let route = route_frame(Err(DemuxError { message: "bad frame".to_string() }), Vec::new());
    assert_eq!(route, FrameRoute::Reply(error("bad frame")));
}

#[test]
fn a_handshake_frame_is_answered_with_the_handshake_data() {
    let route = route_frame(Ok(None), vec![1, 2, 3]);
    assert_eq!(route, FrameRoute::Reply(Body::RuntimeRPCCallResponse { response: vec![1, 2, 3] }));
    let route = route_frame(Ok(None), Vec::new());
    assert_eq!(route, FrameRoute::Reply(Body::RuntimeRPCCallResponse { response: Vec::new() }));
}

#[test]
fn handshake_data_with_a_session_frame_is_fatal() {
    let f = frame(RpcMessage::Request(request(b"m", b"")), b"m");
    assert_eq!(route_frame(Ok(Some(f)), vec![0]), FrameRoute::Abort(Fatal::HandshakeDataInTransport));
    let f = frame(RpcMessage::Close, b"");
    assert_eq!(route_frame(Ok(Some(f)), vec![0]), FrameRoute::Abort(Fatal::HandshakeDataInTransport));
}

#[test]
fn a_request_for_another_method_than_announced_is_reported() {
    let f = frame(RpcMessage::Request(request(b"transfer", b"x")), b"balance");
    assert_eq!(
        route_frame(Ok(Some(f)), Vec::new()),
        FrameRoute::Reply(error("Request's method doesn't match untrusted_plaintext copy."))
    );
}

#[test]
fn a_request_for_the_announced_method_is_dispatched() {
    let f = frame(RpcMessage::Request(request(b"transfer", b"x")), b"transfer");
    assert_eq!(
        route_frame(Ok(Some(f)), Vec::new()),
        FrameRoute::Call {
            session_id: session(1),
            session_info: Some(SessionInfo { peer: b"peer".to_vec() }),
            request: request(b"transfer", b"x"),
        }
    );
}

#[test]
fn a_close_closes_the_session() {
    let f = frame(RpcMessage::Close, b"whatever");
    assert_eq!(route_frame(Ok(Some(f)), Vec::new()), FrameRoute::Close { session_id: session(1) });
}

#[test]
fn a_response_from_the_host_is_reported() {
    let f = frame(RpcMessage::Response(RpcResponse { body: vec![1] }), b"");
    assert_eq!(route_frame(Ok(Some(f)), Vec::new()), FrameRoute::Reply(error("invalid RPC message type")));
}

#[test]
fn written_response_is_what_was_written_or_the_failure() {
    assert_eq!(written_response(Ok(()), vec![4, 5]), Body::RuntimeRPCCallResponse { response: vec![4, 5] });
    assert_eq!(written_response(Err(DemuxError { message: "no session".to_string() }), vec![4, 5]), error("no session"));
}

#[test]
fn same_bytes_compares_content() {
    assert!(same_bytes(b"", b""));
    assert!(same_bytes(b"abc", b"abc"));
    assert!(!same_bytes(b"abc", b"abd"));
    assert!(!same_bytes(b"abc", b"ab"));
    assert!(!same_bytes(b"", b"a"));
}

#[test]
fn request_encoding_is_length_method_arguments() {
    let bytes = encode_request(&request(b"get", &[9, 8]));
    assert_eq!(bytes, vec![0, 0, 0, 0, 0, 0, 0, 3, b'g', b'e', b't', 9, 8]);
    assert_eq!(decode_request(&bytes), Some(request(b"get", &[9, 8])));
    assert_eq!(encode_request(&request(b"", b"")), vec![0; 8]);
    assert_eq!(decode_request(&[0; 8]), Some(request(b"", b"")));
    let long = request(&vec![b'm'; 300], &vec![7; 1000]);
    let bytes = encode_request(&long);
    assert_eq!(&bytes[..8], &[0, 0, 0, 0, 0, 0, 1, 44]);
    assert_eq!(decode_request(&bytes), Some(long));
}

#[test]
fn malformed_requests_do_not_decode() {
    assert_eq!(decode_request(&[]), None);
    assert_eq!(decode_request(&[0; 7]), None);
    assert_eq!(decode_request(&[0, 0, 0, 0, 0, 0, 0, 1]), None);
    assert_eq!(decode_request(&[0xff; 12]), None);
    assert_eq!(decode_request(&[0, 0, 0, 0, 0, 0, 0, 2, b'a']), None);
}

#[test]
fn the_ephemeral_store_is_an_empty_io_tree() {
    let mut store = ephemeral_store();
    assert_eq!(store.root_type(), RootType::IO);
    assert_eq!(store.root().hash, runtime_core::hash::Hash::empty_hash());
    assert_eq!(store.get(b"k"), Ok(None));
    assert_eq!(store.insert(b"k", vec![1]), Ok(None));
    assert_eq!(ephemeral_store().get(b"k"), Ok(None));
}

struct TestHost;

impl Host for TestHost {
    fn read_syncer(&self) -> Option<Box<dyn ReadSync>> {
        Some(Box::new(NoopReadSyncer))
    }

    fn untrusted_local_storage(&self, _ctx: Context) -> Option<Box<dyn KeyValue>> {
        None
    }
}

fn host() -> Arc<TestHost> {
    Arc::new(TestHost)
}

#[derive(Default)]
struct Calls {
    log: Vec<String>,
}

struct Demux {
    calls: Rc<RefCell<Calls>>,
    next: Option<Result<Option<Frame>, DemuxError>>,
    handshake: Vec<u8>,
    fail_write: bool,
}

impl RpcDemux for Demux {
    fn process_frame(&mut self, data: Vec<u8>, buffer: &mut Vec<u8>) -> Result<Option<Frame>, DemuxError> {
        self.calls.borrow_mut().log.push(format!("process {:?}", data));
        buffer.extend_from_slice(&self.handshake);
        self.next.take().unwrap()
    }

    fn write_message(&mut self, session_id: SessionId, message: RpcMessage, buffer: &mut Vec<u8>) -> Result<(), DemuxError> {
        self.calls.borrow_mut().log.push(format!("write {}", session_id.bytes[0]));
        if self.fail_write {
            return Err(DemuxError { message: "write failed".to_string() });
        }
        match message {
            RpcMessage::Response(r) => {
                buffer.push(0xee);
                buffer.extend_from_slice(&r.body);
                Ok(())
            }
            _ => panic!("only responses are written"),
        }
    }

    fn close(&mut self, session_id: SessionId, buffer: &mut Vec<u8>) -> Result<(), DemuxError> {
        self.calls.borrow_mut().log.push(format!("close {}", session_id.bytes[0]));
        buffer.push(0xcc);
        Ok(())
    }
}

struct Methods {
    calls: Rc<RefCell<Calls>>,
}

impl RpcDispatcher for Methods {
    fn dispatch(
        &mut self,
        store: &mut Tree,
        untrusted_local: &Option<Box<dyn KeyValue>>,
        request: RpcRequest,
        ctx: RpcContext,
    ) -> RpcResponse {
        assert!(ctx.session_info.is_some());
        assert!(untrusted_local.is_none());
        assert_eq!(store.get(b"scratch"), Ok(None));
        store.insert(b"scratch", vec![1]).unwrap();
        self.calls.borrow_mut().log.push(format!("dispatch {}", String::from_utf8_lossy(&request.method)));
        RpcResponse { body: request.args }
    }

    fn dispatch_local(
        &mut self,
        store: &mut Tree,
        untrusted_local: &Option<Box<dyn KeyValue>>,
        request: RpcRequest,
        ctx: RpcContext,
    ) -> RpcResponse {
        assert!(ctx.session_info.is_none());
        assert!(untrusted_local.is_none());
        assert!(ctx.io_ctx.done().is_none());
        assert_eq!(store.get(b"scratch"), Ok(None));
        store.insert(b"scratch", vec![1]).unwrap();
        self.calls.borrow_mut().log.push(format!("local {}", String::from_utf8_lossy(&request.method)));
        RpcResponse { body: request.args.iter().rev().cloned().collect() }
    }

    fn handle_km_policy_update(&mut self, signed_policy_raw: Vec<u8>) {
        self.calls.borrow_mut().log.push(format!("policy {:?}", signed_policy_raw));
    }
}

fn demux(calls: &Rc<RefCell<Calls>>, next: Result<Option<Frame>, DemuxError>) -> Box<dyn RpcDemux> {
    Box::new(Demux { calls: calls.clone(), next: Some(next), handshake: Vec::new(), fail_write: false })
}

fn methods(calls: &Rc<RefCell<Calls>>) -> Box<dyn RpcDispatcher> {
    Box::new(Methods { calls: calls.clone() })
}

#[test]
fn an_rpc_call_is_dispatched_and_its_response_written() {
    let calls = Rc::new(RefCell::new(Calls::default()));
    let f = frame(RpcMessage::Request(request(b"echo", b"hello")), b"echo");
    let mut d = demux(&calls, Ok(Some(f)));
    let mut m = methods(&calls);
    let outcome = dispatch_rpc(&mut d, &mut m, &host(), Context::background(), vec![1, 2]);
    let mut expected = vec![0xee];
    expected.extend_from_slice(b"hello");
    assert_eq!(outcome, Outcome::Respond(Body::RuntimeRPCCallResponse { response: expected }));
    assert_eq!(calls.borrow().log, vec!["process [1, 2]", "dispatch echo", "write 1"]);
    // Every call gets a store of its own.
    let f = frame(RpcMessage::Request(request(b"echo", b"again")), b"echo");
    let mut d = demux(&calls, Ok(Some(f)));
    assert!(matches!(dispatch_rpc(&mut d, &mut m, &host(), Context::background(), vec![3]), Outcome::Respond(Body::RuntimeRPCCallResponse { .. })));
}

#[test]
fn an_rpc_close_closes_and_answers() {
    let calls = Rc::new(RefCell::new(Calls::default()));
    let mut d = demux(&calls, Ok(Some(frame(RpcMessage::Close, b""))));
    let mut m = methods(&calls);
    assert_eq!(dispatch_rpc(&mut d, &mut m, &host(), Context::background(), vec![]), Outcome::Respond(Body::RuntimeRPCCallResponse { response: vec![0xcc] }));
    assert_eq!(calls.borrow().log, vec!["process []", "close 1"]);
}

#[test]
fn an_rpc_handshake_is_echoed() {
    let calls = Rc::new(RefCell::new(Calls::default()));
    let mut d: Box<dyn RpcDemux> =
        Box::new(Demux { calls: calls.clone(), next: Some(Ok(None)), handshake: vec![7, 7], fail_write: false });
    let mut m = methods(&calls);
    assert_eq!(dispatch_rpc(&mut d, &mut m, &host(), Context::background(), vec![]), Outcome::Respond(Body::RuntimeRPCCallResponse { response: vec![7, 7] }));
}

#[test]
fn an_rpc_frame_with_handshake_data_is_fatal() {
    let calls = Rc::new(RefCell::new(Calls::default()));
    let f = frame(RpcMessage::Request(request(b"echo", b"hello")), b"echo");
    let mut d: Box<dyn RpcDemux> =
        Box::new(Demux { calls: calls.clone(), next: Some(Ok(Some(f))), handshake: vec![7], fail_write: false });
    let mut m = methods(&calls);
    assert_eq!(dispatch_rpc(&mut d, &mut m, &host(), Context::background(), vec![]), Outcome::Fatal(Fatal::HandshakeDataInTransport));
    assert_eq!(calls.borrow().log, vec!["process []"]);
}

#[test]
fn an_rpc_write_failure_is_reported() {
    let calls = Rc::new(RefCell::new(Calls::default()));
    let f = frame(RpcMessage::Request(request(b"echo", b"hello")), b"echo");
    let mut d: Box<dyn RpcDemux> =
        Box::new(Demux { calls: calls.clone(), next: Some(Ok(Some(f))), handshake: Vec::new(), fail_write: true });
    let mut m = methods(&calls);
    assert_eq!(dispatch_rpc(&mut d, &mut m, &host(), Context::background(), vec![]), Outcome::Respond(error("write failed")));
}

#[test]
fn an_rpc_method_mismatch_is_not_dispatched() {
    let calls = Rc::new(RefCell::new(Calls::default()));
    let f = frame(RpcMessage::Request(request(b"echo", b"hello")), b"other");
    let mut d = demux(&calls, Ok(Some(f)));
    let mut m = methods(&calls);
    assert_eq!(
        dispatch_rpc(&mut d, &mut m, &host(), Context::background(), vec![]),
        Outcome::Respond(error("Request's method doesn't match untrusted_plaintext copy."))
    );
    assert_eq!(calls.borrow().log, vec!["process []"]);
}

#[test]
fn a_local_call_is_decoded_and_dispatched() {
    let calls = Rc::new(RefCell::new(Calls::default()));
    let mut m = methods(&calls);
    let outcome = dispatch_local_rpc(&mut m, &host(), Context::background(), encode_request(&request(b"rev", &[1, 2, 3])));
    assert_eq!(outcome, Outcome::Respond(Body::RuntimeLocalRPCCallResponse { response: vec![2, 3, 2, 1] }));
    assert_eq!(calls.borrow().log, vec!["local rev"]);
}

#[test]
fn messages_are_encoded_behind_a_tag() {
    assert_eq!(
        encode_message(&RpcMessage::Request(request(b"get", &[9]))),
        vec![1, 0, 0, 0, 0, 0, 0, 0, 3, b'g', b'e', b't', 9]
    );
    assert_eq!(encode_message(&RpcMessage::Response(RpcResponse { body: vec![7, 8] })), vec![2, 7, 8]);
    assert_eq!(encode_message(&RpcMessage::Response(RpcResponse { body: vec![] })), vec![2]);
    assert_eq!(encode_message(&RpcMessage::Close), vec![3]);
    assert_eq!(
        local_response(RpcResponse { body: vec![7, 8] }),
        Body::RuntimeLocalRPCCallResponse { response: vec![2, 7, 8] }
    );
}

#[test]
fn contexts_hold_what_they_are_made_of() {
    let io = Context::background().freeze();
    let ctx = RpcContext::new(io.clone(), Some(SessionInfo { peer: b"p".to_vec() }));
    assert!(Arc::ptr_eq(&ctx.io_ctx, &io));
    assert_eq!(ctx.session_info, Some(SessionInfo { peer: b"p".to_vec() }));
    assert_eq!(RpcContext::new(io, None).session_info, None);
}

#[test]
fn a_malformed_local_call_is_reported() {
    let calls = Rc::new(RefCell::new(Calls::default()));
    let mut m = methods(&calls);
    assert_eq!(dispatch_local_rpc(&mut m, &host(), Context::background(), vec![1, 2, 3]), Outcome::Respond(error("malformed RPC request")));
    assert!(calls.borrow().log.is_empty());
}

#[test]
fn a_policy_update_is_handed_on_and_acknowledged() {
    let calls = Rc::new(RefCell::new(Calls::default()));
    let mut m = methods(&calls);
    assert_eq!(
        handle_km_policy_update(&mut m, vec![5, 6]),
        Outcome::Respond(Body::RuntimeKeyManagerPolicyUpdateResponse {})
    );
    assert_eq!(calls.borrow().log, vec!["policy [5, 6]"]);
}

#[test]
fn request_kinds() {
    let block = Block { header: Header { namespace: Namespace { bytes: [0; 32] }, round: 1, state_root: runtime_core::hash::Hash::empty_hash() } };
    assert_eq!(request_kind(&Body::RuntimeRPCCallRequest { request: vec![] }), RequestKind::RpcCall);
    assert_eq!(request_kind(&Body::RuntimeLocalRPCCallRequest { request: vec![] }), RequestKind::LocalRpcCall);
    assert_eq!(
        request_kind(&Body::RuntimeExecuteTxBatchRequest { io_root: runtime_core::hash::Hash::empty_hash(), inputs: vec![], block }),
        RequestKind::ExecuteTxBatch
    );
    assert_eq!(request_kind(&Body::RuntimeCheckTxBatchRequest { inputs: vec![], block }), RequestKind::CheckTxBatch);
    assert_eq!(
        request_kind(&Body::RuntimeKeyManagerPolicyUpdateRequest { signed_policy_raw: vec![] }),
        RequestKind::KeyManagerPolicyUpdate
    );
    assert_eq!(request_kind(&Body::RuntimeAbortRequest {}), RequestKind::Abort);
    assert_eq!(request_kind(&Body::RuntimePingRequest {}), RequestKind::Unsupported);
    assert_eq!(request_kind(&Body::RuntimeShutdownRequest {}), RequestKind::Unsupported);
    assert_eq!(request_kind(&Body::Empty {}), RequestKind::Unsupported);
    assert_eq!(request_kind(&Body::RuntimeRPCCallResponse { response: vec![] }), RequestKind::Unsupported);
    assert_eq!(request_kind(&Body::RuntimeAbortResponse {}), RequestKind::Unsupported);
    assert_eq!(request_kind(&error("x")), RequestKind::Unsupported);
}

#[test]
fn phases_of_the_worker() {
    assert_eq!(next_phase(Phase::Uninitialized, Event::Created), Phase::WaitingForProtocol);
    assert_eq!(next_phase(Phase::WaitingForProtocol, Event::ProtocolSupplied), Phase::Running);
    assert_eq!(next_phase(Phase::Running, Event::Request(RequestKind::RpcCall)), Phase::Running);
    assert_eq!(next_phase(Phase::Running, Event::Request(RequestKind::Abort)), Phase::Running);
    assert_eq!(next_phase(Phase::Running, Event::Request(RequestKind::ExecuteTxBatch)), Phase::Running);
    assert_eq!(next_phase(Phase::Running, Event::Request(RequestKind::Unsupported)), Phase::Terminating);
    assert_eq!(next_phase(Phase::Running, Event::ReceiveFailed), Phase::Terminating);
    // What cannot happen in a phase changes nothing.
    assert_eq!(next_phase(Phase::Uninitialized, Event::ProtocolSupplied), Phase::Uninitialized);
    assert_eq!(next_phase(Phase::WaitingForProtocol, Event::Request(RequestKind::RpcCall)), Phase::WaitingForProtocol);
    assert_eq!(next_phase(Phase::WaitingForProtocol, Event::ReceiveFailed), Phase::WaitingForProtocol);
    assert_eq!(next_phase(Phase::Running, Event::ProtocolSupplied), Phase::Running);
    assert_eq!(next_phase(Phase::Running, Event::AcknowledgeFailed), Phase::Terminating);
    assert_eq!(next_phase(Phase::WaitingForProtocol, Event::AcknowledgeFailed), Phase::WaitingForProtocol);
    for event in [
        Event::Created,
        Event::ProtocolSupplied,
        Event::Request(RequestKind::RpcCall),
        Event::ReceiveFailed,
        Event::AcknowledgeFailed,
    ] {
        assert_eq!(next_phase(Phase::Terminating, event), Phase::Terminating);
    }
}

struct NoKey;

impl Signer for NoKey {
    fn public_key(&self) -> Option<PublicKey> {
        None
    }

    fn sign(&self, _context: &[u8], _message: &[u8]) -> Result<Signature, SignError> {
        Err(SignError::NoKey)
    }
}

fn worker(calls: &Rc<RefCell<Calls>>, flag: &AbortFlag) -> Worker<TestHost> {
    Worker::new(None, demux(calls, Ok(None)), methods(calls), Box::new(NoKey), host(), flag.share())
}

fn some_block(round: u64) -> Block {
    Block { header: Header { namespace: Namespace { bytes: [2; 32] }, round, state_root: runtime_core::hash::Hash::empty_hash() } }
}

#[test]
fn the_worker_routes_requests() {
    let calls = Rc::new(RefCell::new(Calls::default()));
    let flag = AbortFlag::new();
    let mut w = worker(&calls, &flag);
    assert_eq!(w.handle(Context::background(), Body::RuntimeAbortRequest {}), Outcome::Silent);
    assert_eq!(
        w.handle(Context::background(), Body::RuntimeKeyManagerPolicyUpdateRequest { signed_policy_raw: vec![1] }),
        Outcome::Respond(Body::RuntimeKeyManagerPolicyUpdateResponse {})
    );
    assert_eq!(
        w.handle(Context::background(), Body::RuntimeLocalRPCCallRequest { request: encode_request(&request(b"rev", &[1, 2])) }),
        Outcome::Respond(Body::RuntimeLocalRPCCallResponse { response: vec![2, 2, 1] })
    );
    assert_eq!(
        w.handle(Context::background(), Body::RuntimeRPCCallRequest { request: vec![9] }),
        Outcome::Respond(Body::RuntimeRPCCallResponse { response: vec![] })
    );
    assert_eq!(w.handle(Context::background(), Body::RuntimePingRequest {}), Outcome::Terminate);
    assert_eq!(w.handle(Context::background(), Body::RuntimeAbortResponse {}), Outcome::Terminate);
    assert_eq!(calls.borrow().log, vec!["policy [1]", "local rev", "process [9]"]);
}

#[test]
fn the_worker_checks_and_executes_on_separate_caches() {
    let calls = Rc::new(RefCell::new(Calls::default()));
    let flag = AbortFlag::new();
    let mut w = worker(&calls, &flag);
    assert_eq!(w.exec_root(), Root::unset());
    assert_eq!(w.check_root(), Root::unset());
    let outcome = w.handle(Context::background(), Body::RuntimeCheckTxBatchRequest { inputs: vec![b"tx".to_vec()], block: some_block(4) });
    assert_eq!(outcome, Outcome::Respond(Body::RuntimeCheckTxBatchResponse { results: vec![] }));
    assert_eq!(w.exec_root(), Root::unset());
    assert_eq!(w.check_root().version, 4);
    // The empty batch has the empty tree of inputs.
    let outcome = w.handle(Context::background(), Body::RuntimeExecuteTxBatchRequest {
        io_root: runtime_core::hash::Hash::empty_hash(),
        inputs: vec![],
        block: some_block(8),
    });
    match outcome {
        Outcome::Respond(Body::RuntimeExecuteTxBatchResponse { batch }) => {
            assert_eq!(batch.header.round, 9);
            assert_eq!(batch.header.io_root, Some(runtime_core::hash::Hash::empty_hash()));
            assert_eq!(batch.header.state_root, Some(runtime_core::hash::Hash::empty_hash()));
            assert!(batch.io_write_log.is_empty() && batch.state_write_log.is_empty());
        }
        other => panic!("results expected, got {:?}", other),
    }
    assert_eq!(w.exec_root().version, 9);
    assert_eq!(w.check_root().version, 4);
    // A claimed root that is not the root of the inputs is fatal.
    let outcome = w.handle(Context::background(), Body::RuntimeExecuteTxBatchRequest {
        io_root: runtime_core::hash::Hash::empty_hash(),
        inputs: vec![b"tx".to_vec()],
        block: some_block(9),
    });
    assert!(matches!(outcome, Outcome::Fatal(Fatal::IoRootMismatch { .. })));
}

#[test]
fn a_batch_on_the_last_round_is_fatal() {
    let calls = Rc::new(RefCell::new(Calls::default()));
    let flag = AbortFlag::new();
    let mut w = worker(&calls, &flag);
    let outcome = w.handle(Context::background(), Body::RuntimeCheckTxBatchRequest { inputs: vec![], block: some_block(u64::MAX) });
    assert_eq!(outcome, Outcome::Fatal(Fatal::BatchOutOfRange));
    let outcome = w.handle(Context::background(), Body::RuntimeExecuteTxBatchRequest {
        io_root: runtime_core::hash::Hash::empty_hash(),
        inputs: vec![],
        block: some_block(u64::MAX),
    });
    assert_eq!(outcome, Outcome::Fatal(Fatal::BatchOutOfRange));
    assert_eq!(w.exec_root(), Root::unset());
}

#[test]
fn the_abort_flag_is_taken_once() {
    let calls = Rc::new(RefCell::new(Calls::default()));
    let flag = AbortFlag::new();
    let w = worker(&calls, &flag);
    assert!(!w.take_abort());
    assert!(!flag.is_raised());
    flag.raise();
    assert!(flag.is_raised());
    assert!(flag.share().is_raised());
    assert!(w.take_abort());
    assert!(!w.take_abort());
    assert!(!flag.is_raised());
    flag.share().raise();
    assert!(flag.take());
    assert!(!flag.take());
}
