//! Whole calls over an in-process cluster: every node has a send queue, a
//! wire and a server of its own, and everything runs on the calling thread.

use std::collections::{BTreeSet, HashMap};
use std::sync::atomic::{AtomicBool, AtomicUsize, Ordering};
use std::sync::{Arc, Mutex};
use std::time::Duration;

use tokio::sync::mpsc;

use quorums::call_types::{
    answer, node_response, ordered_node_response, rpc_result, FanOut, Reply,
};
use quorums::channel::{
    receive_step, sender_step, Calls, ConnectionAction, ConnectionEvent, Inbound, NodeTask,
    SenderStep,
};
use quorums::codegen::{CallType, GorumsGenerator, Method, Service};
use quorums::correctable::{Polled, Update};
use quorums::health::{Prober, ProberAction, ProberEvent};
use quorums::interceptor::{run, run_server, ChainStep};
use quorums::manager::{Address, Launch, Watcher};
use quorums::message::Message;
use quorums::record::Outbox;
use quorums::responses::{Event, Step};
use quorums::server::{
    end_stream, failure_message, handler_reply, health_check, request_of, Dispatch, Handler,
};
use quorums::{
    check_node, correctable_call, multicast, ordered_quorum_call, quorum_call, rpc_call, unicast,
    CallInfo, CancellationToken, ConfigContext, Configuration, CorrectableMethod, Error,
    HealthConfig, HealthStatus, Manager, MulticastMethod, Node, NodeContext, NodeResponse,
    NodeStatus, OrderedNodeResponse, OrderedQuorumCallMethod, QuorumCallMethod, RpcCallMethod,
    Server, ServerCallInfo, ServerCtx, Status, UnicastMethod,
};

// ── Messages ──────────────────────────────────────────────────────────────────

#[derive(Debug, Clone, PartialEq)]
struct ReadResponse {
    ok: bool,
    value: String,
}

struct StorageReadMethod;
struct StorageWriteMethod;
struct StorageStreamMethod;
struct HealthMethod;

const WRITE_METHOD: &str = "/storage.Storage/Write";
const READ_METHOD: &str = "/storage.Storage/Read";
const STREAM_METHOD: &str = "/storage.Storage/StreamRead";

impl QuorumCallMethod for StorageReadMethod {
    type Req = String;
    type Resp = ReadResponse;
    const PATH: &'static str = READ_METHOD;
}
impl OrderedQuorumCallMethod for StorageReadMethod {
    type Req = String;
    type Resp = ReadResponse;
    const PATH: &'static str = READ_METHOD;
}
impl RpcCallMethod for StorageReadMethod {
    type Req = String;
    type Resp = ReadResponse;
    const PATH: &'static str = READ_METHOD;
}
impl MulticastMethod for StorageWriteMethod {
    type Req = (String, String);
    const PATH: &'static str = WRITE_METHOD;
}
impl UnicastMethod for StorageWriteMethod {
    type Req = (String, String);
    const PATH: &'static str = WRITE_METHOD;
}
impl CorrectableMethod for StorageStreamMethod {
    type Req = String;
    type Resp = ReadResponse;
    const PATH: &'static str = STREAM_METHOD;
}
impl RpcCallMethod for HealthMethod {
    type Req = ();
    type Resp = bool;
    const PATH: &'static str = "/_gorums/health";
}

fn encode_text(text: &str) -> Vec<u8> {
    prost::Message::encode_to_vec(&text.to_string())
}

fn decode_text(bytes: &Vec<u8>) -> Result<String, prost::DecodeError> {
    prost::Message::decode(bytes.as_slice())
}

fn encode_write(key: &str, value: &str) -> Vec<u8> {
    encode_text(&format!("{key}={value}"))
}

fn encode_response(resp: &ReadResponse) -> Vec<u8> {
    encode_text(&format!("{}{}", if resp.ok { "+" } else { "-" }, resp.value))
}

fn decode_response(bytes: &Vec<u8>) -> Result<ReadResponse, prost::DecodeError> {
    let text = decode_text(bytes)?;
    Ok(ReadResponse { ok: text.starts_with('+'), value: text[1..].to_string() })
}

fn decode_bool(bytes: &Vec<u8>) -> Result<bool, prost::DecodeError> {
    prost::Message::decode(bytes.as_slice())
}

// ── Cluster ───────────────────────────────────────────────────────────────────

type Shared = Arc<Mutex<Calls>>;
type ClientInterceptor = Box<dyn Fn(CallInfo) -> Result<(), Error>>;
type ServerSideInterceptor = Box<dyn Fn(ServerCallInfo) -> Result<(), Status>>;
type Data = Arc<Mutex<HashMap<String, String>>>;

enum Run {
    Unary(Box<dyn Fn(ServerCtx, String) -> Result<Option<Vec<u8>>, Status>>),
    Streaming(Box<dyn Fn(ServerCtx, String) -> Result<(), Status>>),
}

type TestServer = Server<Run, ServerSideInterceptor>;
type TestManager = Manager<Shared, Box<dyn Fn(u32, NodeStatus)>>;
type Cfg = Configuration<Shared>;
type CfgContext = ConfigContext<Shared, ClientInterceptor>;
type OneContext = NodeContext<Shared, ClientInterceptor>;

fn share(calls: Calls) -> Shared {
    Arc::new(Mutex::new(calls))
}

fn address(text: &str) -> Address {
    Address { given: text.to_string(), canonical: Some(text.to_string()) }
}

fn storage_server(data: Data, interceptors: Vec<ServerSideInterceptor>) -> TestServer {
    let mut srv = interceptors.into_iter().fold(Server::new(), |s, i| s.with_interceptor(i));
    let writes = Arc::clone(&data);
    srv.register_handler(
        WRITE_METHOD.to_string(),
        Run::Unary(Box::new(move |_ctx, req| {
            let (key, value) = req.split_once('=').unwrap();
            writes.lock().unwrap().insert(key.to_string(), value.to_string());
            Ok(None)
        })),
    );
    srv.register_handler(
        READ_METHOD.to_string(),
        Run::Unary(Box::new(move |_ctx, key| {
            let resp = match data.lock().unwrap().get(&key) {
                Some(value) => ReadResponse { ok: true, value: value.clone() },
                None => ReadResponse { ok: false, value: String::new() },
            };
            Ok(Some(encode_response(&resp)))
        })),
    );
    srv
}

fn streaming_server(count: u32) -> TestServer {
    let mut srv = Server::new();
    srv.register_streaming_handler(
        STREAM_METHOD.to_string(),
        Run::Streaming(Box::new(move |ctx, key| {
            let mut ctx = ctx.release();
            for i in 0..count {
                let value = format!("{key}-v{i}");
                ctx.send(encode_response(&ReadResponse { ok: true, value }))?;
            }
            Ok(())
        })),
    );
    srv
}

/// What a server sends back for one message.
fn serve(server: &TestServer, wire: Message) -> Vec<Message> {
    let info = server.call_info(&wire, Some("127.0.0.1:50000".to_string()));
    let mut chain = run_server(&server.interceptors);
    let mut step: ChainStep<Status> = chain.step();
    let verdict = loop {
        match step {
            ChainStep::Invoke(i) => {
                let result = (server.interceptors[i])(info.clone());
                step = chain.on_verdict(result);
            }
            ChainStep::Done(r) => break r,
        }
    };
    let handler = match server.dispatch(&wire, verdict) {
        Dispatch::Reply(msg) => return vec![msg],
        Dispatch::Ignore => return Vec::new(),
        Dispatch::Invoke(handler) => handler,
    };
    let lock = Arc::new(tokio::sync::Mutex::new(()));
    let guard = Arc::clone(&lock).try_lock_owned().unwrap();
    let (tx, mut rx) = mpsc::unbounded_channel();
    let ctx = ServerCtx::new(guard, Outbox::over(tx.clone()), &wire);
    let mut out: Vec<Message> = Vec::new();
    let mut last: Vec<Message> = Vec::new();
    match handler {
        Handler::Health => {
            drop(ctx);
            let reply = health_check();
            last.extend(handler_reply(&wire, Ok(Some(prost::Message::encode_to_vec(&reply.ok)))));
        }
        Handler::Unary(Run::Unary(f)) => {
            if let Some(req) = request_of(&wire, decode_text) {
                last.extend(handler_reply(&wire, f(ctx, req)));
            }
        }
        Handler::Streaming(Run::Streaming(f)) => {
            if let Some(req) = request_of(&wire, decode_text) {
                let mut end = Outbox::over(tx);
                let outcome = f(ctx, req);
                end_stream(&mut end, wire.message_seq_no, &wire.method, outcome);
            }
        }
        _ => unreachable!(),
    }
    assert!(lock.try_lock().is_ok());
    while let Ok(sent) = rx.try_recv() {
        out.push(sent.unwrap());
    }
    out.extend(last);
    out
}

struct Peer {
    node: Node<Shared>,
    task: NodeTask,
    server: TestServer,
}

impl Peer {
    fn start(launch: Launch<Shared>, server: TestServer) -> Peer {
        Peer { node: launch.node, task: launch.task, server }
    }

    fn feed(&mut self, event: ConnectionEvent) -> ConnectionAction {
        let calls = Arc::clone(&self.node.channel().calls);
        let mut calls = calls.lock().unwrap();
        self.task.connection.on_event(event, &mut calls.router)
    }

    fn connect(&mut self) {
        assert_eq!(self.feed(ConnectionEvent::Due), ConnectionAction::Connect);
        assert_eq!(self.feed(ConnectionEvent::ConnectSucceeded), ConnectionAction::OpenStream);
        assert_eq!(self.feed(ConnectionEvent::Opened), ConnectionAction::Serve);
    }

    /// Carries everything in the send queue to the server and its answers
    /// back.
    fn pump(&mut self) {
        let calls = Arc::clone(&self.node.channel().calls);
        let (mut wire, mut wire_rx) = Outbox::new();
        while let Ok(req) = self.task.send_rx.try_recv() {
            let mut calls = calls.lock().unwrap();
            let step = sender_step(Some(req), &mut wire, &mut calls.router);
            assert_eq!(step, SenderStep::Sent);
            for msg in serve(&self.server, wire_rx.try_recv().unwrap()) {
                assert!(receive_step(Inbound::Message(msg), &mut calls.router));
            }
        }
    }
}

struct Cluster {
    mgr: TestManager,
    cfg: Cfg,
    peers: Vec<Peer>,
}

impl Cluster {
    fn of(servers: Vec<TestServer>) -> Cluster {
        let mut mgr = Manager::new();
        let addrs: Vec<Address> =
            (0..servers.len()).map(|i| address(&format!("127.0.0.1:{}", 19001 + i))).collect();
        let (launches, cfg) = mgr.add_node_list(&addrs, &share);
        let peers = launches.into_iter().zip(servers).map(|(l, s)| Peer::start(l, s)).collect();
        Cluster { mgr, cfg: cfg.expect("add_node_list"), peers }
    }

    fn seeded(n: usize, key: &str, value: &str) -> Cluster {
        Cluster::distinct(vec![value.to_string(); n], key)
    }

    fn distinct(values: Vec<String>, key: &str) -> Cluster {
        let servers = values.into_iter().map(|value| {
            let data: Data = Data::default();
            data.lock().unwrap().insert(key.to_string(), value);
            storage_server(data, Vec::new())
        });
        Cluster::of(servers.collect())
    }

    fn streaming(n: usize, count: u32) -> Cluster {
        Cluster::of((0..n).map(|_| streaming_server(count)).collect())
    }

    fn pump(&mut self) {
        for peer in &mut self.peers {
            peer.pump();
        }
    }

    fn intercept(chain: &Vec<ClientInterceptor>, info: CallInfo) -> Result<(), Error> {
        let mut progress = run(chain);
        let mut step: ChainStep<Error> = progress.step();
        loop {
            match step {
                ChainStep::Invoke(i) => {
                    let result = (chain[i])(info.clone());
                    step = progress.on_verdict(result);
                }
                ChainStep::Done(r) => return r,
            }
        }
    }

    fn context(&self) -> CfgContext {
        self.cfg.context()
    }

    // ── Calls ─────────────────────────────────────────────────────────────

    fn rpc(&mut self, ctx: &OneContext, key: &str) -> Result<ReadResponse, Error> {
        let verdict = Cluster::intercept(&ctx.interceptors, ctx.call_info(READ_METHOD));
        let calls = Arc::clone(&ctx.node.channel().calls);
        let mut rx = rpc_call(
            ctx,
            verdict,
            &mut calls.lock().unwrap(),
            encode_text(key),
            StorageReadMethod,
        )?;
        self.pump();
        let reply = if ctx.cancel.is_cancelled() {
            Reply::Cancelled
        } else {
            match rx.try_recv() {
                Ok(r) => Reply::Arrived(r),
                Err(_) => Reply::Dropped,
            }
        };
        rpc_result(reply, decode_response)
    }

    fn unicast(&mut self, ctx: &OneContext, key: &str, value: &str) -> Result<(), Error> {
        let verdict = Cluster::intercept(&ctx.interceptors, ctx.call_info(WRITE_METHOD));
        let calls = Arc::clone(&ctx.node.channel().calls);
        let mut rx = unicast(
            ctx,
            verdict,
            &mut calls.lock().unwrap(),
            encode_write(key, value),
            StorageWriteMethod,
        )?;
        self.pump();
        answer(if ctx.cancel.is_cancelled() {
            Reply::Cancelled
        } else {
            match rx.try_recv() {
                Ok(r) => Reply::Arrived(r),
                Err(_) => Reply::Dropped,
            }
        })
    }

    fn multicast(&mut self, ctx: &CfgContext, key: &str, value: &str) -> Result<(), Error> {
        let verdict = Cluster::intercept(&ctx.interceptors, ctx.call_info(WRITE_METHOD));
        let (fan_out, mut acks) =
            multicast(ctx, verdict, encode_write(key, value), StorageWriteMethod)?;
        let mut events = Vec::new();
        for i in 0..fan_out.nodes.len() {
            let calls = Arc::clone(&fan_out.nodes[i].channel().calls);
            let sent = fan_out.send_oneway(i, &mut calls.lock().unwrap());
            self.pump();
            let ack = match sent {
                Err(e) => Err(e),
                Ok(mut rx) => rx.try_recv().unwrap_or(Err(Error::NodeClosed)),
            };
            events.push(Event::Reply((fan_out.nodes[i].id(), ack)));
        }
        events.push(Event::Closed);
        if acks.cancel().is_cancelled() {
            events.insert(0, Event::Cancelled);
        }
        for event in events {
            match acks.on_event(event) {
                Step::Wait(next) => acks = next,
                Step::Done(r) => return r,
            }
        }
        unreachable!()
    }

    /// The answer of every node to a two-way fan-out, by position.
    fn answers(&mut self, launch: Option<FanOut<Shared>>) -> Vec<(u32, Result<Message, Error>)> {
        let fan_out = launch.expect("dispatched once");
        let mut out = Vec::new();
        for i in 0..fan_out.nodes.len() {
            let calls = Arc::clone(&fan_out.nodes[i].channel().calls);
            let sent = fan_out.send_twoway(i, &mut calls.lock().unwrap());
            self.pump();
            let reply = match sent {
                Err(e) => Err(e),
                Ok(mut rx) => answer(match rx.try_recv() {
                    Ok(r) => Reply::Arrived(r),
                    Err(_) => Reply::Dropped,
                }),
            };
            out.push((fan_out.nodes[i].id(), reply));
        }
        out
    }

    fn events(
        &mut self,
        launch: Option<FanOut<Shared>>,
        cancelled: bool,
    ) -> Vec<Event<NodeResponse<ReadResponse>>> {
        let mut events: Vec<_> = self
            .answers(launch)
            .into_iter()
            .map(|(id, r)| Event::Reply(node_response(id, r, decode_response)))
            .collect();
        events.push(Event::Closed);
        if cancelled {
            events.insert(0, Event::Cancelled);
        }
        events
    }

    fn ordered_events(
        &mut self,
        launch: Option<FanOut<Shared>>,
        cancelled: bool,
    ) -> Vec<Event<OrderedNodeResponse<ReadResponse>>> {
        let mut events: Vec<_> = self
            .answers(launch)
            .into_iter()
            .enumerate()
            .map(|(i, (id, r))| Event::Reply(ordered_node_response(i, id, r, decode_response)))
            .collect();
        events.push(Event::Closed);
        if cancelled {
            events.insert(0, Event::Cancelled);
        }
        events
    }

    fn read(
        &mut self,
        ctx: &CfgContext,
        key: &str,
        all: bool,
    ) -> Result<ReadResponse, Error> {
        let verdict = Cluster::intercept(&ctx.interceptors, ctx.call_info(READ_METHOD));
        let responses = quorum_call(ctx, verdict, encode_text(key), StorageReadMethod)?;
        let (launch, mut waiting) = if all { responses.all() } else { responses.majority() };
        let cancelled = waiting.cancel().is_cancelled();
        for event in self.events(launch, cancelled) {
            match waiting.on_event(event) {
                Step::Wait(next) => waiting = next,
                Step::Done(r) => return r,
            }
        }
        unreachable!()
    }

    fn read_quorum(
        &mut self,
        ctx: &CfgContext,
        key: &str,
        f: impl Fn(&[ReadResponse]) -> Option<ReadResponse>,
    ) -> Result<ReadResponse, Error> {
        let verdict = Cluster::intercept(&ctx.interceptors, ctx.call_info(READ_METHOD));
        let responses = quorum_call(ctx, verdict, encode_text(key), StorageReadMethod)?;
        let (launch, mut waiting) = responses.quorum();
        for event in self.events(launch, false) {
            match waiting.on_event(event, &f) {
                Step::Wait(next) => waiting = next,
                Step::Done(r) => return r,
            }
        }
        unreachable!()
    }

    fn ordered_read(
        &mut self,
        ctx: &CfgContext,
        key: &str,
        all: bool,
    ) -> Result<ReadResponse, Error> {
        let verdict = Cluster::intercept(&ctx.interceptors, ctx.call_info(READ_METHOD));
        let responses = ordered_quorum_call(ctx, verdict, encode_text(key), StorageReadMethod)?;
        let (launch, mut waiting) = if all { responses.all() } else { responses.majority() };
        let cancelled = waiting.cancel().is_cancelled();
        for event in self.ordered_events(launch, cancelled) {
            match waiting.on_event(event) {
                Step::Wait(next) => waiting = next,
                Step::Done(r) => return r,
            }
        }
        unreachable!()
    }

    fn ordered_read_quorum(
        &mut self,
        ctx: &CfgContext,
        key: &str,
        f: impl Fn(&[Option<ReadResponse>]) -> Option<ReadResponse>,
    ) -> Result<ReadResponse, Error> {
        let verdict = Cluster::intercept(&ctx.interceptors, ctx.call_info(READ_METHOD));
        let responses = ordered_quorum_call(ctx, verdict, encode_text(key), StorageReadMethod)?;
        let (launch, mut waiting) = responses.quorum();
        for event in self.ordered_events(launch, false) {
            match waiting.on_event(event, &f) {
                Step::Wait(next) => waiting = next,
                Step::Done(r) => return r,
            }
        }
        unreachable!()
    }

    /// Every update of a correctable call, in order of arrival.
    fn updates(&mut self, fan_out: FanOut<Shared>) -> Vec<NodeResponse<ReadResponse>> {
        let mut out = Vec::new();
        for i in 0..fan_out.nodes.len() {
            let calls = Arc::clone(&fan_out.nodes[i].channel().calls);
            let id = fan_out.nodes[i].id();
            let sent = fan_out.send_streaming(i, &mut calls.lock().unwrap());
            self.pump();
            match sent {
                Err(e) => out.push(node_response(id, Err(e), decode_response)),
                Ok(mut rx) => {
                    while let Ok(r) = rx.try_recv() {
                        out.push(node_response(id, r, decode_response));
                    }
                }
            }
        }
        out
    }

    fn health(&mut self, prober: &Prober<Shared>) -> Result<bool, Error> {
        let ctx: OneContext = prober.node.context();
        let calls = Arc::clone(&ctx.node.channel().calls);
        let mut rx =
            rpc_call(&ctx, Ok(()), &mut calls.lock().unwrap(), Vec::new(), HealthMethod)?;
        self.pump();
        rpc_result(
            match rx.try_recv() {
                Ok(r) => Reply::Arrived(r),
                Err(_) => Reply::Dropped,
            },
            decode_bool,
        )
    }
}

// ── Calls ─────────────────────────────────────────────────────────────────────

#[test]
fn test_multicast_then_quorum_call() {
    let servers =
        (0..3).map(|_| storage_server(Data::default(), Vec::new())).collect();
    let mut cluster = Cluster::of(servers);
    let ctx = cluster.context();
    cluster.multicast(&ctx, "hello", "world").expect("multicast");
    let resp = cluster.read(&ctx, "hello", false).expect("quorum_call majority");
    assert!(resp.ok, "expected ok=true");
    assert_eq!(resp.value, "world");
}

#[test]
fn test_rpc_and_unicast() {
    let mut cluster = Cluster::of(vec![storage_server(Data::default(), Vec::new())]);
    let node = cluster.mgr.node(1).unwrap().clone();
    let ctx: OneContext = node.context();
    cluster.unicast(&ctx, "x", "42").expect("unicast");
    let resp = cluster.rpc(&ctx, "x").expect("rpc_call");
    assert!(resp.ok);
    assert_eq!(resp.value, "42");
}

#[test]
fn test_codegen_client_and_server() {
    let mut generator = GorumsGenerator::new();
    generator.method(READ_METHOD.to_string(), CallType::QuorumCall);
    generator.method(WRITE_METHOD.to_string(), CallType::Multicast);
    let method = |name: &str, proto: &str, resp: &str| Method {
        name: name.to_string(),
        proto_name: proto.to_string(),
        input_type: format!("{proto}Request"),
        output_type: resp.to_string(),
    };
    let service = Service {
        name: "Storage".to_string(),
        proto_name: "Storage".to_string(),
        package: "storage".to_string(),
        methods: vec![method("read", "Read", "ReadResponse"), method("write", "Write", "()")],
    };
    let mut code = String::new();
    generator.generate(service, &mut code);
    assert!(code.contains("pub struct StorageReadMethod;"));
    assert!(code.contains("impl ::quorums::QuorumCallMethod for StorageReadMethod {"));
    assert!(code.contains("impl ::quorums::MulticastMethod for StorageWriteMethod {"));
    assert!(code.contains("pub mod storage_client {"));
    assert!(code.contains("    pub trait StorageServer: "));
    assert!(code.contains("    pub fn register_storage<S: StorageServer>("));

    let servers =
        (0..3).map(|_| storage_server(Data::default(), Vec::new())).collect();
    let mut cluster = Cluster::of(servers);
    let ctx = cluster.context();
    cluster.multicast(&ctx, "gen_key", "gen_val").expect("generated write");
    let resp = cluster.read(&ctx, "gen_key", false).expect("generated read");
    assert!(resp.ok, "expected ok=true from generated client");
    assert_eq!(resp.value, "gen_val");
}

#[test]
fn test_correctable_majority() {
    let mut cluster = Cluster::streaming(3, 2);
    let ctx = cluster.context();
    let (fan_out, updates) =
        correctable_call(&ctx, Ok(()), encode_text("hello"), StorageStreamMethod)
            .expect("correctable dispatch");
    let mut waiting = updates.majority();
    let mut result = None;
    for nr in cluster.updates(fan_out) {
        match waiting.on_event(Event::Reply(nr)) {
            Step::Wait(next) => waiting = next,
            Step::Done(r) => {
                result = Some(r);
                break;
            }
        }
    }
    assert!(result.unwrap().expect("correctable majority").ok);

    let (fan_out, updates) =
        correctable_call(&ctx, Ok(()), encode_text("hello"), StorageStreamMethod)
            .expect("correctable dispatch 2");
    let mut total = 0usize;
    for nr in cluster.updates(fan_out) {
        assert!(updates.poll_next().is_none());
        match updates.on_poll(Polled::Item(nr)) {
            Update::Item(Ok(nr)) => {
                assert!(nr.result.is_ok());
                total += 1;
            }
            _ => panic!("expected an update"),
        }
    }
    assert_eq!(total, 6, "expected 2 responses × 3 nodes = 6 total");
}

#[test]
fn test_quorum_fn_on_responses() {
    let mut cluster = Cluster::seeded(3, "qfn", "quorum_value");
    let ctx = cluster.context();
    let asked = AtomicUsize::new(0);
    let resp = cluster
        .read_quorum(&ctx, "qfn", |replies| {
            asked.fetch_add(1, Ordering::SeqCst);
            let ok: Vec<&str> =
                replies.iter().filter(|r| r.ok).map(|r| r.value.as_str()).collect();
            if ok.len() < 2 {
                return None;
            }
            let target = ok[0];
            if ok.iter().filter(|&&v| v == target).count() >= 2 {
                Some(ReadResponse { ok: true, value: target.to_string() })
            } else {
                None
            }
        })
        .expect("custom quorum_fn");
    assert!(resp.ok);
    assert_eq!(resp.value, "quorum_value");
    assert_eq!(asked.load(Ordering::SeqCst), 2);
}

#[test]
fn test_quorum_fn_on_correctable() {
    let mut cluster = Cluster::streaming(3, 3);
    let ctx = cluster.context();
    let (fan_out, updates) =
        correctable_call(&ctx, Ok(()), encode_text("hello"), StorageStreamMethod)
            .expect("correctable qfn dispatch");
    let mut waiting = updates.quorum();
    let mut result = None;
    for nr in cluster.updates(fan_out) {
        let qf = |vals: &[ReadResponse]| {
            if vals.len() >= 4 { Some(vals.last().unwrap().clone()) } else { None }
        };
        match waiting.on_event(Event::Reply(nr), qf) {
            Step::Wait(next) => waiting = next,
            Step::Done(r) => {
                result = Some(r);
                break;
            }
        }
    }
    let resp = result.unwrap().expect("correctable quorum_fn");
    assert!(resp.ok);
    assert_eq!(resp.value, "hello-v0");
}

// ── Cancellation and deadlines ────────────────────────────────────────────────

#[test]
fn test_rpc_call_cancelled_immediately() {
    let mut cluster = Cluster::of(vec![storage_server(Data::default(), Vec::new())]);
    let node = cluster.mgr.node(1).unwrap().clone();
    let token = CancellationToken::new();
    token.cancel();
    let ctx: OneContext = node.context().with_cancel(token);
    let result = cluster.rpc(&ctx, "x");
    assert!(matches!(result, Err(Error::Cancelled)), "expected Cancelled, got {result:?}");
}

#[test]
fn test_quorum_call_cancelled_immediately() {
    let mut cluster = Cluster::seeded(3, "cancel_test", "val");
    let token = CancellationToken::new();
    token.cancel();
    let ctx = cluster.context().with_cancel(token);
    let result = cluster.read(&ctx, "cancel_test", false);
    assert!(matches!(result, Err(Error::Cancelled)), "expected Cancelled, got {result:?}");
}

#[test]
fn test_unicast_cancelled_immediately() {
    let mut cluster = Cluster::of(vec![storage_server(Data::default(), Vec::new())]);
    let node = cluster.mgr.node(1).unwrap().clone();
    let token = CancellationToken::new();
    token.cancel();
    let ctx: OneContext = node.context().with_cancel(token);
    let result = cluster.unicast(&ctx, "k", "v");
    assert!(matches!(result, Err(Error::Cancelled)), "expected Cancelled, got {result:?}");
}

#[test]
fn test_with_timeout_deadline() {
    // Servers without a read handler: no response ever comes.
    let mut cluster = Cluster::of((0..3).map(|_| Server::new()).collect());
    let parent = CancellationToken::new();
    let (ctx, deadline) =
        cluster.context().with_cancel(parent.clone()).with_timeout(Duration::from_millis(150));
    assert_eq!(deadline.after, Duration::from_millis(150));
    assert!(!ctx.cancel.is_cancelled());
    deadline.token.cancel();
    assert!(ctx.cancel.is_cancelled());
    assert!(!parent.is_cancelled());
    let result = cluster.read(&ctx, "x", false);
    assert!(
        matches!(result, Err(Error::Cancelled)),
        "expected Cancelled from timeout, got {result:?}"
    );
}

// ── Interceptors ──────────────────────────────────────────────────────────────

#[test]
fn test_interceptor_logging_on_quorum_call() {
    let mut cluster = Cluster::seeded(3, "ilog", "ival");
    let log: Arc<Mutex<Vec<String>>> = Arc::default();
    let log2 = Arc::clone(&log);
    let ctx = cluster.context().with_interceptor(Box::new(move |info: CallInfo| {
        log2.lock().unwrap().push(info.method.clone());
        Ok(())
    }));
    let resp = cluster.read(&ctx, "ilog", false).expect("majority");
    assert!(resp.ok);
    assert_eq!(resp.value, "ival");
    let entries = log.lock().unwrap();
    assert_eq!(entries.len(), 1);
    assert_eq!(entries[0], READ_METHOD);
}

#[test]
fn test_interceptor_abort_on_rpc_call() {
    let mut cluster = Cluster::seeded(1, "k", "v");
    let node = cluster.mgr.node(1).unwrap().clone();
    let ctx: OneContext =
        node.context().with_interceptor(Box::new(|_info: CallInfo| Err(Error::Cancelled)));
    let result = cluster.rpc(&ctx, "k");
    assert!(
        matches!(result, Err(Error::Cancelled)),
        "interceptor should have aborted the call, got {result:?}"
    );
    assert_eq!(node.channel().calls.lock().unwrap().seq, 0);
}

#[test]
fn test_interceptor_chain_order() {
    let mut cluster = Cluster::seeded(1, "order", "v");
    let counter = Arc::new(AtomicUsize::new(0));
    let (c1, c2) = (Arc::clone(&counter), Arc::clone(&counter));
    let ctx = cluster
        .context()
        .with_interceptor(Box::new(move |_: CallInfo| {
            assert_eq!(
                c1.fetch_add(1, Ordering::SeqCst),
                0,
                "first interceptor should see counter=0"
            );
            Ok(())
        }))
        .with_interceptor(Box::new(move |_: CallInfo| {
            assert_eq!(
                c2.fetch_add(1, Ordering::SeqCst),
                1,
                "second interceptor should see counter=1"
            );
            Ok(())
        }));
    cluster.read(&ctx, "order", false).expect("majority");
    assert_eq!(counter.load(Ordering::SeqCst), 2, "both interceptors must have run");
}

/// The node IDs that the interceptors of a quorum call see.
fn node_ids_seen(cluster: &mut Cluster, ctx: CfgContext, key: &str) -> Vec<u32> {
    let captured: Arc<Mutex<Vec<u32>>> = Arc::default();
    let cap = Arc::clone(&captured);
    let ctx = ctx.with_interceptor(Box::new(move |info: CallInfo| {
        *cap.lock().unwrap() = info.node_ids.clone();
        Ok(())
    }));
    cluster.read(&ctx, key, false).expect("majority");
    let mut ids = captured.lock().unwrap().clone();
    ids.sort();
    ids
}

#[test]
fn test_interceptor_sees_node_ids() {
    let mut cluster = Cluster::seeded(3, "nids", "v");
    let ctx = cluster.context();
    let ids = node_ids_seen(&mut cluster, ctx, "nids");
    assert_eq!(ids.len(), 3, "should have 3 node IDs for a 3-node config");
}

// ── Configuration views ───────────────────────────────────────────────────────

#[test]
fn test_view_without_nodes() {
    let mut cluster = Cluster::seeded(3, "wo", "v");
    let all_ids = cluster.cfg.node_ids();
    let removed_id = *all_ids.last().unwrap();
    let two_node = cluster.cfg.without_nodes(&[removed_id]);
    assert_eq!(two_node.size(), 2);
    let remaining: BTreeSet<u32> =
        all_ids.iter().copied().filter(|id| *id != removed_id).collect();
    assert_eq!(two_node.node_ids().into_iter().collect::<BTreeSet<_>>(), remaining);
    let resp = cluster.read(&two_node.context(), "wo", true).expect("all");
    assert!(resp.ok);
}

#[test]
fn test_view_sub_config() {
    let mut cluster = Cluster::seeded(4, "sc", "v");
    let all_ids = cluster.cfg.node_ids();
    let pick = vec![all_ids[0], all_ids[2]];
    let sub = cluster.cfg.sub_config(&pick);
    assert_eq!(sub.size(), 2);
    let mut sub_ids = sub.node_ids();
    sub_ids.sort();
    let mut pick_sorted = pick.clone();
    pick_sorted.sort();
    assert_eq!(sub_ids, pick_sorted);
    let seen = node_ids_seen(&mut cluster, sub.context(), "sc");
    assert_eq!(seen, pick_sorted);
}

#[test]
fn test_view_merge() {
    let cluster = Cluster::seeded(4, "mg", "v");
    let cfg = &cluster.cfg;
    let all_ids = cfg.node_ids();
    let left = cfg.sub_config(&all_ids[..2]);
    let right = cfg.sub_config(&all_ids[2..]);
    let merged = left.merge(&right);
    assert_eq!(merged.size(), 4);
    let mut merged_ids = merged.node_ids();
    merged_ids.sort();
    let mut all_sorted = all_ids.clone();
    all_sorted.sort();
    assert_eq!(merged_ids, all_sorted);
    let merged2 = merged.merge(cfg);
    assert_eq!(merged2.size(), 4);
}

#[test]
fn test_view_intersect_and_except() {
    let cluster = Cluster::seeded(4, "ie", "v");
    let cfg = &cluster.cfg;
    let all_ids = cfg.node_ids();
    let ab = cfg.sub_config(&all_ids[..3]);
    let bc = cfg.sub_config(&all_ids[1..]);
    let intersection = ab.intersect(&bc);
    let mut inter_ids = intersection.node_ids();
    inter_ids.sort();
    assert_eq!(inter_ids, vec![all_ids[1], all_ids[2]]);
    let diff = ab.except(&bc);
    assert_eq!(diff.size(), 1);
    assert_eq!(diff.node_ids(), vec![all_ids[0]]);
    let diff2 = bc.except(&ab);
    assert_eq!(diff2.size(), 1);
    assert_eq!(diff2.node_ids(), vec![all_ids[3]]);
}

#[test]
fn test_manager_with_new_nodes() {
    let mut cluster = Cluster::seeded(2, "wnn", "v");
    let data: Data = Data::default();
    data.lock().unwrap().insert("wnn".into(), "v".into());
    let base = cluster.cfg.clone();
    let (launches, extended) =
        cluster.mgr.with_new_nodes(&base, &vec![address("127.0.0.1:19099")], &share);
    let extended = extended.expect("with_new_nodes");
    for launch in launches {
        let server = storage_server(Arc::clone(&data), Vec::new());
        cluster.peers.push(Peer::start(launch, server));
    }
    assert_eq!(extended.size(), 3);
    let resp = cluster.read(&extended.context(), "wnn", false).expect("majority");
    assert!(resp.ok);
    assert_eq!(resp.value, "v");
}

#[test]
fn test_manager_remove_node() {
    let mut cluster = Cluster::seeded(3, "rn", "v");
    let ids = cluster.cfg.node_ids();
    assert!(cluster.mgr.remove_node(ids[0]), "remove should return true for existing node");
    assert!(!cluster.mgr.remove_node(ids[0]), "second remove should return false");
    assert!(cluster.mgr.node(ids[0]).is_none(), "node should be gone from pool");
    assert_eq!(cluster.cfg.size(), 3, "cfg is unchanged by pool removal");
    let ctx = cluster.context();
    let resp = cluster.read(&ctx, "rn", false).expect("majority");
    assert!(resp.ok);
}

#[test]
fn test_view_with_additional_nodes_dedup() {
    let cluster = Cluster::seeded(3, "dup", "v");
    let same = cluster.cfg.with_additional_nodes(cluster.cfg.nodes().to_vec());
    assert_eq!(same.size(), 3, "no duplicates expected");
}

// ── Node status ───────────────────────────────────────────────────────────────

#[test]
fn test_node_reaches_connected() {
    let mut cluster = Cluster::of(vec![Server::new()]);
    let node = cluster.mgr.node(1).unwrap().clone();
    let initial = node.status();
    assert!(
        matches!(initial, NodeStatus::Connecting | NodeStatus::Connected),
        "initial status should be Connecting or Connected, got {initial:?}"
    );
    cluster.peers[0].connect();
    assert_eq!(node.status(), NodeStatus::Connected);
}

#[test]
fn test_node_reconnects_after_stream_drop() {
    let mut cluster = Cluster::of(vec![Server::new()]);
    let node = cluster.mgr.node(1).unwrap().clone();
    let peer = &mut cluster.peers[0];
    peer.connect();
    let rx = node.subscribe_status();
    assert_eq!(*rx.borrow(), NodeStatus::Connected, "should be Connected now");
    assert_eq!(peer.feed(ConnectionEvent::StreamDied), ConnectionAction::Backoff(200));
    assert_eq!(*rx.borrow(), NodeStatus::Reconnecting);
    assert_eq!(peer.feed(ConnectionEvent::Due), ConnectionAction::Connect);
    assert_eq!(*rx.borrow(), NodeStatus::Reconnecting);
    assert_eq!(peer.feed(ConnectionEvent::ConnectFailed), ConnectionAction::Backoff(500));
    assert_eq!(*rx.borrow(), NodeStatus::Unreachable);
    assert_eq!(peer.feed(ConnectionEvent::Due), ConnectionAction::Connect);
    assert_eq!(peer.feed(ConnectionEvent::ConnectSucceeded), ConnectionAction::OpenStream);
    assert_eq!(peer.feed(ConnectionEvent::OpenFailed), ConnectionAction::Backoff(200));
    assert_eq!(*rx.borrow(), NodeStatus::Unreachable);
    assert_eq!(peer.feed(ConnectionEvent::Opened), ConnectionAction::Serve);
    assert_eq!(*rx.borrow(), NodeStatus::Connected);
    assert_eq!(peer.feed(ConnectionEvent::Shutdown), ConnectionAction::Stop);
    assert_eq!(*rx.borrow(), NodeStatus::Closed);
    assert_eq!(peer.feed(ConnectionEvent::Due), ConnectionAction::Stop);
    assert_eq!(*rx.borrow(), NodeStatus::Closed);
}

/// Tells the callback of each watcher about a status that it has not seen.
fn run_watchers(mgr: &TestManager, watchers: &mut Vec<Watcher>) {
    for w in watchers {
        if w.rx.has_changed().unwrap() {
            let status = *w.rx.borrow_and_update();
            (mgr.callback(w.callback).unwrap())(w.node_id, status);
        }
    }
}

#[test]
fn test_manager_on_status_change_callback() {
    let events: Arc<Mutex<Vec<(u32, NodeStatus)>>> = Arc::default();
    let events2 = Arc::clone(&events);
    let mut mgr: TestManager = Manager::new();
    let none = mgr.on_status_change(Box::new(move |id, status| {
        events2.lock().unwrap().push((id, status));
    }));
    assert!(none.is_empty());
    let mut launch = mgr.add_node(1, &address("127.0.0.1:19001"), &share).expect("add_node");
    let mut watchers = std::mem::take(&mut launch.watchers);
    assert_eq!(watchers.len(), 1);
    let mut peer = Peer::start(launch, Server::new());
    peer.connect();
    run_watchers(&mgr, &mut watchers);
    let got = events.lock().unwrap().clone();
    assert!(!got.is_empty(), "callback should have fired at least once");
    assert!(got.iter().all(|(id, _)| *id == 1), "all events should be for node 1");
    assert!(
        got.iter().any(|(_, s)| *s == NodeStatus::Connected),
        "Connected event expected; got {got:?}"
    );
}

#[test]
fn test_manager_callback_fires_for_late_registration() {
    let events: Arc<Mutex<Vec<(u32, NodeStatus)>>> = Arc::default();
    let events2 = Arc::clone(&events);
    let mut mgr: TestManager = Manager::new();
    let launch = mgr.add_node(1, &address("127.0.0.1:19001"), &share).expect("add_node");
    assert!(launch.watchers.is_empty());
    let mut watchers = mgr.on_status_change(Box::new(move |id, status| {
        events2.lock().unwrap().push((id, status));
    }));
    assert_eq!(watchers.len(), 1);
    let mut peer = Peer::start(launch, Server::new());
    peer.connect();
    run_watchers(&mgr, &mut watchers);
    assert_eq!(*events.lock().unwrap(), vec![(1, NodeStatus::Connected)]);
}

#[test]
fn test_node_status_subscribe_watch() {
    let mut cluster = Cluster::of(vec![Server::new()]);
    let node = cluster.mgr.node(1).unwrap().clone();
    let rx = node.subscribe_status();
    let initial = *rx.borrow();
    assert!(
        matches!(initial, NodeStatus::Connecting | NodeStatus::Connected),
        "unexpected initial status: {initial:?}"
    );
    cluster.peers[0].connect();
    assert!(rx.has_changed().unwrap());
    assert_eq!(*rx.borrow(), NodeStatus::Connected);
    let rx2 = node.subscribe_status();
    assert_eq!(*rx2.borrow(), NodeStatus::Connected);
}

// ── Ordered quorum calls ──────────────────────────────────────────────────────

fn numbered(n: usize, prefix: &str) -> Vec<String> {
    (0..n).map(|i| format!("{prefix}{i}")).collect()
}

#[test]
fn test_ordered_quorum_call_majority() {
    let mut cluster = Cluster::seeded(3, "oqc_maj", "shared");
    let ctx = cluster.context();
    let resp = cluster.ordered_read(&ctx, "oqc_maj", false).expect("majority");
    assert!(resp.ok);
    assert_eq!(resp.value, "shared");
}

#[test]
fn test_ordered_quorum_call_all() {
    let mut cluster = Cluster::seeded(3, "oqc_all", "v");
    let ctx = cluster.context();
    let resp = cluster.ordered_read(&ctx, "oqc_all", true).expect("all");
    assert!(resp.ok);
    assert_eq!(resp.value, "v");
}

#[test]
fn test_ordered_quorum_call_threshold_returns_lowest_position() {
    let mut cluster = Cluster::distinct(numbered(3, "val"), "oqc_pos");
    let ctx = cluster.context();
    let resp = cluster.ordered_read(&ctx, "oqc_pos", true).expect("all");
    assert!(resp.ok);
    assert_eq!(resp.value, "val0", "threshold should return the lowest-position response");
}

#[test]
fn test_ordered_quorum_call_quorum_fn_accepts_on_position_0() {
    let mut cluster = Cluster::distinct(numbered(3, "node"), "oqc_qfn");
    let ctx = cluster.context();
    let resp = cluster
        .ordered_read_quorum(&ctx, "oqc_qfn", |slots| slots[0].clone())
        .expect("ordered quorum fn");
    assert!(resp.ok);
    assert_eq!(resp.value, "node0", "should get position-0 node's value");
}

#[test]
fn test_ordered_quorum_call_quorum_fn_sees_positions() {
    let mut cluster = Cluster::distinct(numbered(3, "node"), "oqc_pos2");
    let ctx = cluster.context();
    let resp = cluster
        .ordered_read_quorum(&ctx, "oqc_pos2", |slots| slots[1].clone())
        .expect("ordered quorum fn position 1");
    assert!(resp.ok);
    assert_eq!(resp.value, "node1");
}

#[test]
fn test_ordered_quorum_call_quorum_fn_requires_majority_of_slots() {
    let mut cluster = Cluster::distinct(numbered(3, "x"), "oqc_maj2");
    let ctx = cluster.context();
    let resp = cluster
        .ordered_read_quorum(&ctx, "oqc_maj2", |slots| {
            let filled: Vec<&ReadResponse> = slots.iter().flatten().collect();
            if filled.len() >= 2 {
                slots.iter().flatten().next().cloned()
            } else {
                None
            }
        })
        .expect("majority-of-slots quorum fn");
    assert!(resp.ok);
    assert_eq!(resp.value, "x0");
}

#[test]
fn test_ordered_quorum_call_cancelled() {
    let mut cluster = Cluster::seeded(3, "oqc_cancel", "v");
    let token = CancellationToken::new();
    token.cancel();
    let ctx = cluster.context().with_cancel(token);
    let result = cluster.ordered_read(&ctx, "oqc_cancel", false);
    assert!(matches!(result, Err(Error::Cancelled)), "expected Cancelled, got {result:?}");
}

#[test]
fn test_ordered_quorum_call_interceptor() {
    let mut cluster = Cluster::seeded(3, "oqc_int", "v");
    let called = Arc::new(AtomicBool::new(false));
    let called2 = Arc::clone(&called);
    let ctx = cluster.context().with_interceptor(Box::new(move |_: CallInfo| {
        called2.store(true, Ordering::SeqCst);
        Ok(())
    }));
    cluster.ordered_read(&ctx, "oqc_int", false).expect("majority");
    assert!(called.load(Ordering::SeqCst), "interceptor must have run");
}

// ── Server interceptors ───────────────────────────────────────────────────────

#[test]
fn test_server_interceptor_runs() {
    let counter = Arc::new(AtomicUsize::new(0));
    let counter2 = Arc::clone(&counter);
    let data: Data = Data::default();
    data.lock().unwrap().insert("k".into(), "v".into());
    let i: ServerSideInterceptor = Box::new(move |_| {
        counter2.fetch_add(1, Ordering::SeqCst);
        Ok(())
    });
    let mut cluster = Cluster::of(vec![storage_server(data, vec![i])]);
    let ctx: OneContext = cluster.cfg.nodes()[0].context();
    for _ in 0..3 {
        cluster.rpc(&ctx, "k").expect("rpc");
    }
    assert!(
        counter.load(Ordering::SeqCst) >= 3,
        "server interceptor must have run for each message"
    );
}

#[test]
fn test_server_interceptor_rejects() {
    let i: ServerSideInterceptor = Box::new(|_| {
        Err(Status::new(
            tonic::Code::PermissionDenied as i32,
            "blocked by interceptor".to_string(),
        ))
    });
    let mut cluster = Cluster::of(vec![storage_server(Data::default(), vec![i])]);
    let ctx: OneContext = cluster.cfg.nodes()[0].context();
    let result = cluster.rpc(&ctx, "x");
    match result {
        Err(Error::Transport(status)) => {
            assert_eq!(status.code(), 7);
            assert_eq!(status.message(), "blocked by interceptor");
        }
        _ => panic!("expected Transport error from rejected interceptor, got {result:?}"),
    }
}

#[test]
fn test_server_interceptor_has_peer_addr() {
    let seen: Arc<Mutex<Option<String>>> = Arc::default();
    let seen2 = Arc::clone(&seen);
    let data: Data = Data::default();
    data.lock().unwrap().insert("pk".into(), "pv".into());
    let i: ServerSideInterceptor = Box::new(move |info: ServerCallInfo| {
        *seen2.lock().unwrap() = info.peer_addr;
        Ok(())
    });
    let mut cluster = Cluster::of(vec![storage_server(data, vec![i])]);
    let ctx: OneContext = cluster.cfg.nodes()[0].context();
    cluster.rpc(&ctx, "pk").expect("rpc");
    let addr_seen = seen.lock().unwrap().clone();
    assert!(addr_seen.is_some(), "peer_addr should be populated; got None");
}

#[test]
fn test_server_interceptor_chain_runs_in_order() {
    let log: Arc<Mutex<Vec<u8>>> = Arc::default();
    let (log2, log3) = (Arc::clone(&log), Arc::clone(&log));
    let data: Data = Data::default();
    data.lock().unwrap().insert("cl".into(), "cv".into());
    let i1: ServerSideInterceptor = Box::new(move |_| {
        log2.lock().unwrap().push(1);
        Ok(())
    });
    let i2: ServerSideInterceptor = Box::new(move |_| {
        log3.lock().unwrap().push(2);
        Ok(())
    });
    let mut cluster = Cluster::of(vec![storage_server(data, vec![i1, i2])]);
    let ctx: OneContext = cluster.cfg.nodes()[0].context();
    cluster.rpc(&ctx, "cl").expect("rpc");
    assert_eq!(
        *log.lock().unwrap(),
        vec![1, 2],
        "interceptors must run in registration order"
    );
}

// ── Metadata ──────────────────────────────────────────────────────────────────

fn metadata_server(captured: Arc<Mutex<Vec<(String, String)>>>) -> TestServer {
    let mut srv = Server::new();
    srv.register_handler(
        READ_METHOD.to_string(),
        Run::Unary(Box::new(move |ctx, _key| {
            *captured.lock().unwrap() = ctx.metadata().to_vec();
            let resp = ReadResponse { ok: true, value: "x".into() };
            Ok(Some(encode_response(&resp)))
        })),
    );
    srv
}

#[test]
fn test_metadata_forwarded_rpc_call() {
    let captured: Arc<Mutex<Vec<(String, String)>>> = Arc::default();
    let mut cluster = Cluster::of(vec![metadata_server(Arc::clone(&captured))]);
    let ctx: OneContext = cluster.cfg.nodes()[0]
        .context()
        .with_metadata("authorization".into(), "Bearer token123".into())
        .with_metadata("x-request-id".into(), "req-42".into());
    cluster.rpc(&ctx, "x").expect("rpc");
    let meta = captured.lock().unwrap().clone();
    let map: HashMap<String, String> = meta.into_iter().collect();
    assert_eq!(map.get("authorization").map(|s| s.as_str()), Some("Bearer token123"));
    assert_eq!(map.get("x-request-id").map(|s| s.as_str()), Some("req-42"));
}

#[test]
fn test_metadata_forwarded_quorum_call() {
    let captured: Arc<Mutex<Vec<(String, String)>>> = Arc::default();
    let mut cluster = Cluster::of(vec![metadata_server(Arc::clone(&captured))]);
    let ctx = cluster
        .context()
        .with_metadata("trace-id".into(), "t-001".into())
        .with_metadata("user-id".into(), "u-99".into());
    cluster.read(&ctx, "x", false).expect("majority");
    let meta = captured.lock().unwrap().clone();
    let map: HashMap<String, String> = meta.into_iter().collect();
    assert_eq!(map.get("trace-id").map(|s| s.as_str()), Some("t-001"));
    assert_eq!(map.get("user-id").map(|s| s.as_str()), Some("u-99"));
}

#[test]
fn test_metadata_visible_to_client_interceptor() {
    let mut cluster = Cluster::seeded(1, "meta_ci", "v");
    let seen: Arc<Mutex<Vec<(String, String)>>> = Arc::default();
    let seen2 = Arc::clone(&seen);
    let ctx: OneContext = cluster.cfg.nodes()[0]
        .context::<ClientInterceptor>()
        .with_interceptor(Box::new(move |info: CallInfo| {
            *seen2.lock().unwrap() = info.metadata.clone();
            Ok(())
        }))
        .with_metadata("x-custom".into(), "hello".into());
    cluster.rpc(&ctx, "meta_ci").expect("rpc");
    let meta = seen.lock().unwrap().clone();
    assert_eq!(meta, vec![("x-custom".to_string(), "hello".to_string())]);
}

#[test]
fn test_metadata_get_helper() {
    let found: Arc<Mutex<Option<String>>> = Arc::default();
    let found2 = Arc::clone(&found);
    let mut srv: TestServer = Server::new();
    srv.register_handler(
        READ_METHOD.to_string(),
        Run::Unary(Box::new(move |ctx, _key| {
            *found2.lock().unwrap() = ctx.metadata_get("api-key").map(|s| s.to_string());
            Ok(Some(encode_response(&ReadResponse { ok: true, value: "x".into() })))
        })),
    );
    let mut cluster = Cluster::of(vec![srv]);
    let ctx: OneContext = cluster.cfg.nodes()[0]
        .context()
        .with_metadata("api-key".into(), "secret-42".into());
    cluster.rpc(&ctx, "x").expect("rpc");
    assert_eq!(*found.lock().unwrap(), Some("secret-42".to_string()));
}

#[test]
fn test_metadata_empty_when_none_set() {
    let captured: Arc<Mutex<Vec<(String, String)>>> =
        Arc::new(Mutex::new(vec![("stale".to_string(), "stale".to_string())]));
    let mut cluster = Cluster::of(vec![metadata_server(Arc::clone(&captured))]);
    let ctx: OneContext = cluster.cfg.nodes()[0].context();
    cluster.rpc(&ctx, "x").expect("rpc");
    assert!(
        captured.lock().unwrap().is_empty(),
        "metadata should be empty when nothing was set"
    );
}

// ── Updates of a correctable call ─────────────────────────────────────────────

#[test]
fn test_correctable_next_drains_to_none() {
    let mut cluster = Cluster::streaming(1, 2);
    let ctx = cluster.context();
    let (fan_out, updates) =
        correctable_call(&ctx, Ok(()), encode_text("drain"), StorageStreamMethod)
            .expect("dispatch");
    let mut queue = cluster.updates(fan_out).into_iter();
    let mut count = 0usize;
    loop {
        assert!(updates.poll_next().is_none());
        let polled = match queue.next() {
            Some(nr) => Polled::Item(nr),
            None => Polled::Closed,
        };
        match updates.on_poll(polled) {
            Update::Item(Ok(_)) => count += 1,
            Update::End => break,
            _ => panic!("unexpected error from next()"),
        }
    }
    assert_eq!(count, 2, "expected 2 responses from 1 node");
}

#[test]
fn test_correctable_next_cancelled() {
    let cluster = Cluster::streaming(1, 1);
    let token = CancellationToken::new();
    let ctx = cluster.context().with_cancel(token.clone());
    let (_fan_out, updates) =
        correctable_call(&ctx, Ok(()), encode_text("slow"), StorageStreamMethod)
            .expect("dispatch");
    assert!(updates.poll_next().is_none());
    assert!(matches!(updates.on_poll(Polled::Pending), Update::Pending));
    token.cancel();
    assert!(matches!(updates.poll_next(), Some(Update::Item(Err(Error::Cancelled)))));
}

#[test]
fn test_correctable_next_already_cancelled() {
    let cluster = Cluster::streaming(1, 1);
    let token = CancellationToken::new();
    token.cancel();
    let ctx = cluster.context().with_cancel(token);
    let (_fan_out, updates) =
        correctable_call(&ctx, Ok(()), encode_text("pre_cancel"), StorageStreamMethod)
            .expect("dispatch");
    assert!(matches!(updates.poll_next(), Some(Update::Item(Err(Error::Cancelled)))));
}

// ── Health ────────────────────────────────────────────────────────────────────

fn test_health_config() -> HealthConfig {
    HealthConfig { interval: Duration::from_millis(100), timeout: Duration::from_millis(300) }
}

#[test]
fn test_health_checker_becomes_healthy() {
    let mut cluster = Cluster::seeded(1, "hc_up", "v");
    let node = cluster.cfg.nodes()[0].clone();
    let (checker, mut prober) = check_node(node, test_health_config());
    assert_eq!(checker.status(), HealthStatus::Unknown, "initial status should be Unknown");
    assert_eq!(prober.on_event(ProberEvent::<bool>::Started), (ProberAction::Probe, false));
    let probe = cluster.health(&prober);
    assert!(matches!(probe, Ok(true)));
    assert_eq!(prober.on_event(ProberEvent::Completed(probe)), (ProberAction::Wait, true));
    assert_eq!(checker.status(), HealthStatus::Healthy);
}

#[test]
fn test_health_checker_unreachable_node() {
    let cluster = Cluster::of(vec![Server::new()]);
    let node = cluster.cfg.nodes()[0].clone();
    let (checker, mut prober) = check_node(node, test_health_config());
    assert_eq!(prober.on_event(ProberEvent::<bool>::TimedOut), (ProberAction::Wait, true));
    assert_eq!(checker.status(), HealthStatus::Unhealthy);
    let failed = ProberEvent::<bool>::Completed(Err(Error::NodeClosed));
    assert_eq!(prober.on_event(failed), (ProberAction::Wait, false));
    assert_eq!(checker.status(), HealthStatus::Unhealthy);
}

#[test]
fn test_health_checker_subscribe_notified() {
    let mut cluster = Cluster::seeded(1, "hc_sub", "v");
    let node = cluster.cfg.nodes()[0].clone();
    let (checker, mut prober) = check_node(node, test_health_config());
    let mut rx = checker.subscribe();
    assert!(!rx.has_changed().unwrap());
    let probe = cluster.health(&prober);
    prober.on_event(ProberEvent::Completed(probe));
    assert!(rx.has_changed().unwrap());
    assert_eq!(*rx.borrow_and_update(), HealthStatus::Healthy);
    let probe = cluster.health(&prober);
    prober.on_event(ProberEvent::Completed(probe));
    assert!(!rx.has_changed().unwrap());
}

#[test]
fn test_health_checker_drop_stops_probing() {
    let mut cluster = Cluster::seeded(1, "hc_drop", "v");
    let node = cluster.cfg.nodes()[0].clone();
    let (checker, mut prober) = check_node(node, test_health_config());
    let probe = cluster.health(&prober);
    prober.on_event(ProberEvent::Completed(probe));
    assert_eq!(checker.status(), HealthStatus::Healthy);
    assert!(!prober.cancel.is_cancelled());
    checker.stop();
    assert!(prober.cancel.is_cancelled());
    assert_eq!(prober.on_event(ProberEvent::<bool>::Elapsed), (ProberAction::Stop, false));
    assert_eq!(prober.on_event(ProberEvent::<bool>::Cancelled), (ProberAction::Stop, false));
    assert_eq!(prober.on_event(ProberEvent::<bool>::TimedOut), (ProberAction::Stop, false));
    assert_eq!(checker.status(), HealthStatus::Healthy);
}

#[test]
fn test_health_checker_multiple_nodes() {
    let mut cluster = Cluster::seeded(3, "hc_multi", "v");
    let nodes = cluster.cfg.nodes().to_vec();
    let mut checkers = Vec::new();
    for node in nodes {
        let (checker, mut prober) = check_node(node, test_health_config());
        let probe = cluster.health(&prober);
        prober.on_event(ProberEvent::Completed(probe));
        checkers.push(checker);
    }
    assert!(
        checkers.iter().all(|c| c.status() == HealthStatus::Healthy),
        "all nodes should be Healthy"
    );
}

#[test]
fn rejected_messages_carry_the_request_number() {
    let msg = failure_message(9, READ_METHOD, &Status::internal("broken"));
    assert_eq!(msg.message_seq_no, 9);
    assert_eq!(msg.status_code, 13);
    assert_eq!(msg.status_message, "broken");
    assert!(msg.payload.is_empty());
}
