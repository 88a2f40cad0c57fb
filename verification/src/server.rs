//! The server side: handlers, their contexts, and the messages that answer a
//! request.

use vstd::prelude::*;

use std::marker::PhantomData;
use tokio::sync::{mpsc, oneshot, OwnedMutexGuard};

use crate::channel::{registered, status_error, OutboundRequest};
use crate::error::{Error, ErrorView};
use crate::health::{HealthCheckResponse, HEALTH_METHOD};
use crate::interceptor::ServerCallInfo;
use crate::message::{
    last_value, last_wins, lemma_last_wins, metadata_entries, Message, MessageView, MetadataView,
    STATUS_STREAM_DONE,
};
use crate::record::{queued, Outbox};
use crate::router::{answered, delivery, PendingCall};
use crate::status::{is_code, plain_status, Status, StatusView, CODE_OK, CODE_UNAVAILABLE};
use crate::table::{
    distinct_keys, entries_view, lemma_lookup_first, lemma_lookup_none, lemma_with_entry, lookup,
    with_entry, Table,
};
use crate::text::same_text;

verus! {

// ── Messages ──────────────────────────────────────────────────────────────────

/// A message that answers the request `seq` of `method`.
pub open spec fn response_view(
    seq: u64,
    method: Seq<char>,
    status_code: u32,
    status_message: Seq<char>,
    payload: Seq<u8>,
) -> MessageView {
    MessageView {
        message_seq_no: seq,
        method,
        status_code,
        status_message,
        payload,
        metadata: seq![],
    }
}

/// The message of a successful response.
pub open spec fn reply_view(seq: u64, method: Seq<char>, payload: Seq<u8>) -> MessageView {
    response_view(seq, method, 0, seq![], payload)
}

/// The message of a failed response.
pub open spec fn failure_view(seq: u64, method: Seq<char>, status: StatusView) -> MessageView {
    response_view(seq, method, status.code as u32, status.message, seq![])
}

/// The message that ends a stream of responses.
pub open spec fn stream_done_view(seq: u64, method: Seq<char>) -> MessageView {
    response_view(seq, method, STATUS_STREAM_DONE, seq![], seq![])
}

fn response_message(
    seq: u64,
    method: &str,
    status_code: u32,
    status_message: &str,
    payload: Vec<u8>,
) -> (r: Message)
    ensures
        r@ == response_view(seq, method@, status_code, status_message@, payload@),
{
    let r = Message {
        message_seq_no: seq,
        method: method.to_string(),
        status_code,
        status_message: status_message.to_string(),
        payload,
        metadata: Table::new(),
    };
    assert(r@.metadata =~= Seq::<(Seq<char>, String)>::empty());
    r
}

/// The message of a successful response.
pub fn reply_message(seq: u64, method: &str, payload: Vec<u8>) -> (r: Message)
    ensures
        r@ == reply_view(seq, method@, payload@),
{
    proof {
        reveal_strlit("");
    }
    assert(""@ =~= Seq::<char>::empty());
    response_message(seq, method, 0, "", payload)
}

/// The message of a failed response.
pub fn failure_message(seq: u64, method: &str, status: &Status) -> (r: Message)
    ensures
        r@ == failure_view(seq, method@, status@),
        is_code(status@.code as int),
{
    let code: i32 = status.code();
    let payload: Vec<u8> = Vec::new();
    assert(payload@ =~= Seq::<u8>::empty());
    response_message(seq, method, code as u32, status.message(), payload)
}

/// The message that ends a stream of responses.
pub fn stream_done_message(seq: u64, method: &str) -> (r: Message)
    ensures
        r@ == stream_done_view(seq, method@),
{
    proof {
        reveal_strlit("");
    }
    assert(""@ =~= Seq::<char>::empty());
    let payload: Vec<u8> = Vec::new();
    assert(payload@ =~= Seq::<u8>::empty());
    response_message(seq, method, STATUS_STREAM_DONE, "", payload)
}

/// The sending end of the response channel of a stream.
pub type ResponseSender = mpsc::UnboundedSender<Result<Message, Status>>;

/// An end of the response channel of a stream.
pub type Responder = Outbox<Result<Message, Status>>;

/// What the messages say that were put into a response channel; `None` is a
/// status in place of a message.
pub open spec fn response_views(sent: Seq<Result<Message, Status>>) -> Seq<Option<MessageView>> {
    sent.map_values(
        |r: Result<Message, Status>|
            match r {
                Ok(msg) => Some(msg@),
                Err(_) => None,
            },
    )
}

/// Whether `msg` was put into the response channel `tx`, with outcome `sent`.
pub open spec fn pushed(
    tx: ResponseSender,
    msg: Message,
    sent: Result<(), mpsc::error::SendError<Result<Message, Status>>>,
) -> bool {
    queued(tx, Ok(msg), sent)
}

// ── ServerCtx ─────────────────────────────────────────────────────────────────

/// Marker type: the per-stream ordering lock is held.
pub struct Locked(());

/// Marker type: the per-stream ordering lock has been released.
pub struct Released(());

/// Context passed to every server-side handler.
///
/// The type parameter tracks whether the per-stream ordering lock is held:
/// handlers receive `ServerCtx<Locked>`, and [`release`][ServerCtx::release]
/// consumes it and returns `ServerCtx<Released>`. Dropping either releases
/// the lock if it is still held.
pub struct ServerCtx<S = Locked> {
    guard: Option<OwnedMutexGuard<()>>,
    out: Responder,
    msg_seq_no: u64,
    method: String,
    metadata: Vec<(String, String)>,
    state: PhantomData<S>,
}

impl<S> ServerCtx<S> {
    /// The ordering lock, if it is held.
    pub closed spec fn lock(&self) -> Option<OwnedMutexGuard<()>> {
        self.guard
    }

    /// Write end of the response channel for this stream.
    pub closed spec fn response_tx(&self) -> ResponseSender {
        self.out.sender()
    }

    /// The responses that were pushed so far, in order.
    pub closed spec fn responses(&self) -> Seq<Result<Message, Status>> {
        self.out.sent()
    }

    /// Sequence number of the request: stamped on all responses.
    pub closed spec fn seq_no(&self) -> u64 {
        self.msg_seq_no
    }

    /// Method of the request: stamped on all responses.
    pub closed spec fn method_path(&self) -> Seq<char> {
        self.method@
    }

    /// Per-call metadata forwarded by the client.
    pub closed spec fn entries(&self) -> Seq<(String, String)> {
        self.metadata@
    }

    /// The per-call metadata sent by the client, in insertion order.
    pub fn metadata(&self) -> (r: &[(String, String)])
        ensures
            r@ == self.entries(),
    {
        self.metadata.as_slice()
    }

    /// Look up the first value for `key` in the per-call metadata.
    pub fn metadata_get(&self, key: &str) -> (r: Option<&str>)
        ensures
            match lookup(entries_view(self.entries()), key@) {
                Some(value) => r matches Some(text) && text@ == value@,
                None => r is None,
            },
    {
        let ghost entries = entries_view(self.metadata@);
        for i in 0..self.metadata.len()
            invariant
                entries == entries_view(self.metadata@),
                forall|j: int| 0 <= j < i ==> (#[trigger] entries[j]).0 != key@,
        {
            if same_text(self.metadata[i].0.as_str(), key) {
                proof {
                    lemma_lookup_first(entries, key@, i as int);
                }
                return Some(self.metadata[i].1.as_str());
            }
        }
        proof {
            lemma_lookup_none(entries, key@);
        }
        None
    }

    /// Push one streaming response to the client. Fails with the status
    /// `Unavailable` if the response stream has closed.
    pub fn send(&mut self, payload: Vec<u8>) -> (r: Result<(), Status>)
        ensures
            exists|
                msg: Message,
                sent: Result<(), mpsc::error::SendError<Result<Message, Status>>>,
            |
                {
                    &&& msg@ == reply_view(old(self).seq_no(), old(self).method_path(), payload@)
                    &&& #[trigger] pushed(old(self).response_tx(), msg, sent)
                    &&& final(self).responses() == old(self).responses().push(Ok(msg))
                    &&& match sent {
                        Ok(_) => r is Ok,
                        Err(_) => r matches Err(status) && status@ == plain_status(
                            CODE_UNAVAILABLE,
                            "stream closed"@,
                        ),
                    }
                },
            final(self).lock() == old(self).lock(),
            final(self).response_tx() == old(self).response_tx(),
            final(self).seq_no() == old(self).seq_no(),
            final(self).method_path() == old(self).method_path(),
            final(self).entries() == old(self).entries(),
    {
        let msg = reply_message(self.msg_seq_no, self.method.as_str(), payload);
        let sent = self.out.send(Ok(msg));
        assert(pushed(old(self).response_tx(), msg, sent));
        match sent {
            Ok(()) => Ok(()),
            Err(_) => Err(Status::unavailable("stream closed")),
        }
    }
}

impl ServerCtx<Locked> {
    /// The context of a request, with the ordering lock of its stream and an
    /// end of its response channel.
    pub fn new(guard: OwnedMutexGuard<()>, out: Responder, wire: &Message) -> (r: Self)
        ensures
            r.lock() == Some(guard),
            r.response_tx() == out.sender(),
            r.responses() == out.sent(),
            r.seq_no() == wire.message_seq_no,
            r.method_path() == wire.method@,
            entries_view(r.entries()) == wire.metadata@,
    {
        ServerCtx {
            guard: Some(guard),
            out,
            msg_seq_no: wire.message_seq_no,
            method: wire.method.clone(),
            metadata: metadata_entries(&wire.metadata),
            state: PhantomData,
        }
    }

    /// Release the per-stream ordering lock. After this the server may
    /// dispatch the next message of this stream while the handler goes on.
    pub fn release(self) -> (r: ServerCtx<Released>)
        ensures
            r.lock() is None,
            r.response_tx() == self.response_tx(),
            r.responses() == self.responses(),
            r.seq_no() == self.seq_no(),
            r.method_path() == self.method_path(),
            r.entries() == self.entries(),
    {
        ServerCtx {
            guard: None,
            out: self.out,
            msg_seq_no: self.msg_seq_no,
            method: self.method,
            metadata: self.metadata,
            state: PhantomData,
        }
    }
}

// ── Server ────────────────────────────────────────────────────────────────────

/// The handler of a method. `H` is what the server runs.
pub enum Handler<H> {
    /// The built-in health check.
    Health,
    /// Answers with one response, or with none.
    Unary(H),
    /// Answers with a stream of responses.
    Streaming(H),
}

/// The server: its handlers and interceptors.
pub struct Server<H, I> {
    pub handlers: Table<Handler<H>>,
    pub interceptors: Vec<I>,
}

impl<H, I> Server<H, I> {
    /// A server with the built-in health check.
    pub fn new() -> (r: Self)
        ensures
            r.handlers@ == seq![(HEALTH_METHOD@, Handler::<H>::Health)],
            r.interceptors@ == Seq::<I>::empty(),
    {
        let mut handlers: Table<Handler<H>> = Table::new();
        handlers.insert(HEALTH_METHOD.to_string(), Handler::Health);
        assert(handlers@ =~= seq![(HEALTH_METHOD@, Handler::<H>::Health)]);
        Server { handlers, interceptors: Vec::new() }
    }

    /// Append a server-side interceptor. Interceptors run in registration
    /// order before the handler is invoked for each incoming message.
    pub fn with_interceptor(self, interceptor: I) -> (r: Self)
        ensures
            r.interceptors@ == self.interceptors@.push(interceptor),
            r.handlers == self.handlers,
    {
        let mut interceptors = self.interceptors;
        interceptors.push(interceptor);
        Server { handlers: self.handlers, interceptors }
    }

    /// Register a handler for `method`. It answers two-way methods with one
    /// response and one-way methods with none.
    pub fn register_handler(&mut self, method: String, handler: H)
        ensures
            final(self).handlers@ == with_entry(
                old(self).handlers@,
                method@,
                Handler::Unary(handler),
            ),
            final(self).interceptors == old(self).interceptors,
    {
        self.handlers.insert(method, Handler::Unary(handler));
    }

    /// Register a streaming handler for `method`. It sends any number of
    /// responses; an end-of-stream message follows when it returns.
    pub fn register_streaming_handler(&mut self, method: String, handler: H)
        ensures
            final(self).handlers@ == with_entry(
                old(self).handlers@,
                method@,
                Handler::Streaming(handler),
            ),
            final(self).interceptors == old(self).interceptors,
    {
        self.handlers.insert(method, Handler::Streaming(handler));
    }

    /// What the interceptors of an incoming message are told.
    pub fn call_info(&self, wire: &Message, peer_addr: Option<String>) -> (r: ServerCallInfo)
        ensures
            r.method@ == wire.method@,
            r.peer_addr == peer_addr,
    {
        ServerCallInfo { method: wire.method.clone(), peer_addr }
    }

    /// What is done with a message once its interceptors have run:
    /// a rejected call is answered with the status, and otherwise the handler
    /// of the method is invoked, if there is one.
    pub fn dispatch(&self, wire: &Message, verdict: Result<(), Status>) -> (r: Dispatch<'_, H>)
        ensures
            match verdict {
                Err(status) => {
                    &&& r matches Dispatch::Reply(msg)
                    &&& msg@ == failure_view(wire.message_seq_no, wire.method@, status@)
                },
                Ok(_) => match lookup(self.handlers@, wire.method@) {
                    None => r is Ignore,
                    Some(handler) => r matches Dispatch::Invoke(h) && *h == handler,
                },
            },
    {
        match verdict {
            Err(status) => Dispatch::Reply(
                failure_message(wire.message_seq_no, wire.method.as_str(), &status),
            ),
            Ok(()) => match self.handlers.get(wire.method.as_str()) {
                None => Dispatch::Ignore,
                Some(handler) => Dispatch::Invoke(handler),
            },
        }
    }
}

impl<H, I> Default for Server<H, I> {
    fn default() -> (r: Self)
        ensures
            r.handlers@ == seq![(HEALTH_METHOD@, Handler::<H>::Health)],
            r.interceptors@ == Seq::<I>::empty(),
    {
        Server::new()
    }
}

/// What is done with an incoming message.
pub enum Dispatch<'a, H> {
    /// Answer it with this message.
    Reply(Message),
    /// Nothing: no handler is registered for its method.
    Ignore,
    /// Invoke its handler.
    Invoke(&'a Handler<H>),
}

// ── Handlers ──────────────────────────────────────────────────────────────────

/// The request of a message, as `decode` reads it. A message that cannot be
/// decoded has no request, and its handler is not invoked.
pub fn request_of<T, F: FnOnce(&Vec<u8>) -> Result<T, prost::DecodeError>>(
    wire: &Message,
    decode: F,
) -> (r: Option<T>)
    requires
        call_requires(decode, (&wire.payload,)),
    ensures
        exists|d: Result<T, prost::DecodeError>|
            {
                &&& #[trigger] call_ensures(decode, (&wire.payload,), d)
                &&& r == match d {
                    Ok(request) => Some(request),
                    Err(_) => None,
                }
            },
{
    match decode(&wire.payload) {
        Ok(request) => Some(request),
        Err(_) => None,
    }
}

/// The answer of the built-in health check.
pub fn health_check() -> (r: HealthCheckResponse)
    ensures
        r.ok,
{
    HealthCheckResponse { ok: true }
}

/// The message that answers a request after its handler returned: a response
/// with the encoded payload, nothing, or the status of a failure.
pub fn handler_reply(wire: &Message, outcome: Result<Option<Vec<u8>>, Status>) -> (r: Option<
    Message,
>)
    ensures
        match outcome {
            Ok(None) => r is None,
            Ok(Some(payload)) => r matches Some(msg) && msg@ == reply_view(
                wire.message_seq_no,
                wire.method@,
                payload@,
            ),
            Err(status) => r matches Some(msg) && msg@ == failure_view(
                wire.message_seq_no,
                wire.method@,
                status@,
            ),
        },
{
    let seq: u64 = wire.message_seq_no;
    let method = wire.method.as_str();
    match outcome {
        Ok(None) => None,
        Ok(Some(payload)) => Some(reply_message(seq, method, payload)),
        Err(status) => Some(failure_message(seq, method, &status)),
    }
}

/// The messages that end a stream of responses after its handler returned:
/// the status of a failure, and then always the end-of-stream message.
pub open spec fn stream_end_views(
    seq: u64,
    method: Seq<char>,
    failure: Option<StatusView>,
) -> Seq<MessageView> {
    match failure {
        None => seq![stream_done_view(seq, method)],
        Some(status) => seq![failure_view(seq, method, status), stream_done_view(seq, method)],
    }
}

/// The status of a failed handler.
pub open spec fn failure_of(outcome: Result<(), Status>) -> Option<StatusView> {
    match outcome {
        Ok(_) => None,
        Err(status) => Some(status@),
    }
}

/// Ends a stream of responses after its handler returned: pushes the status
/// of a failure, and then always the end-of-stream message.
pub fn end_stream(out: &mut Responder, seq: u64, method: &str, outcome: Result<(), Status>)
    ensures
        final(out).sender() == old(out).sender(),
        response_views(final(out).sent()) == response_views(old(out).sent()) + stream_end_views(
            seq,
            method@,
            failure_of(outcome),
        ).map_values(|m: MessageView| Some(m)),
{
    if let Err(status) = outcome {
        let failure = failure_message(seq, method, &status);
        let told = out.send(Ok(failure));
    }
    let done = stream_done_message(seq, method);
    let told = out.send(Ok(done));
    assert(response_views(out.sent()) =~= response_views(old(out).sent()) + stream_end_views(
        seq,
        method@,
        failure_of(outcome),
    ).map_values(|m: MessageView| Some(m)));
}

// ── Laws ──────────────────────────────────────────────────────────────────────

/// A failure reaches the client as it is: the message of a failed response is
/// neither a success nor the end of a stream, and the error that the client
/// reads off it has the code and the message of the status. A failure with
/// the code of success is none.
pub proof fn lemma_failure_reaches_client(seq: u64, method: Seq<char>, status: StatusView)
    requires
        is_code(status.code as int),
        status.code != CODE_OK,
    ensures
        failure_view(seq, method, status).message_seq_no == seq,
        failure_view(seq, method, status).status_code != 0,
        failure_view(seq, method, status).status_code != STATUS_STREAM_DONE,
        status_error(
            failure_view(seq, method, status).status_code,
            failure_view(seq, method, status).status_message,
        ) == ErrorView::Transport(plain_status(status.code, status.message)),
{
}

/// A response reaches the caller of its request: the message that answers a
/// two-way request, received while the request is pending, is handed to the
/// caller, and the call is then over.
pub proof fn lemma_reply_reaches_caller(
    before: Map<u64, PendingCall>,
    after: Map<u64, PendingCall>,
    req: OutboundRequest,
    tx: oneshot::Sender<Result<Message, Error>>,
    reply: Message,
    payload: Seq<u8>,
)
    requires
        req.response_tx == Some(tx),
        reply@ == reply_view(req.msg.message_seq_no, req.msg.method@, payload),
        delivery(registered(before, req), after, reply.message_seq_no, Ok(reply)),
    ensures
        reply.status_code == 0,
        answered(tx, Ok(reply)),
        after.get(req.msg.message_seq_no) is None,
{
}

/// The end-of-stream message comes last, exactly once, whatever the handler
/// returned.
pub proof fn lemma_stream_ends_once(
    seq: u64,
    method: Seq<char>,
    failure: Option<StatusView>,
    i: int,
)
    requires
        failure matches Some(status) ==> is_code(status.code as int),
        0 <= i < stream_end_views(seq, method, failure).len(),
    ensures
        stream_end_views(seq, method, failure)[i].status_code == STATUS_STREAM_DONE <==> i
            == stream_end_views(seq, method, failure).len() - 1,
        stream_end_views(seq, method, failure)[i].message_seq_no == seq,
{
}

/// The messages of a streaming call: one for each payload that its handler
/// sent, and then those that end the stream.
pub open spec fn streaming_views(
    seq: u64,
    method: Seq<char>,
    payloads: Seq<Seq<u8>>,
    failure: Option<StatusView>,
) -> Seq<MessageView> {
    payloads.map_values(|p: Seq<u8>| reply_view(seq, method, p)) + stream_end_views(
        seq,
        method,
        failure,
    )
}

/// All messages of a streaming call carry the number and the method of its
/// request. Those that the handler sent come first, each a success with its
/// payload; the end-of-stream message comes last, once.
pub proof fn lemma_streaming_messages(
    seq: u64,
    method: Seq<char>,
    payloads: Seq<Seq<u8>>,
    failure: Option<StatusView>,
    i: int,
)
    requires
        failure matches Some(status) ==> is_code(status.code as int),
        0 <= i < streaming_views(seq, method, payloads, failure).len(),
    ensures
        streaming_views(seq, method, payloads, failure).len() == payloads.len() + if failure is Some {
            2int
        } else {
            1int
        },
        streaming_views(seq, method, payloads, failure)[i].message_seq_no == seq,
        streaming_views(seq, method, payloads, failure)[i].method == method,
        i < payloads.len() ==> streaming_views(seq, method, payloads, failure)[i] == reply_view(
            seq,
            method,
            payloads[i],
        ),
        streaming_views(seq, method, payloads, failure)[i].status_code == STATUS_STREAM_DONE <==> i
            == streaming_views(seq, method, payloads, failure).len() - 1,
{
}

/// The end-of-stream code is no gRPC code.
pub proof fn lemma_stream_done_is_no_code()
    ensures
        !is_code(STATUS_STREAM_DONE as int),
{
}

/// A server answers health checks from the start: a message to the health
/// method that the interceptors let pass reaches the built-in handler.
pub proof fn lemma_health_is_registered<H>(handlers: Seq<(Seq<char>, Handler<H>)>)
    requires
        handlers == seq![(HEALTH_METHOD@, Handler::<H>::Health)],
    ensures
        lookup(handlers, HEALTH_METHOD@) == Some(Handler::<H>::Health),
{
    lemma_lookup_first(handlers, HEALTH_METHOD@, 0);
}

/// Registering a handler makes it the handler of its method, in place of any
/// earlier one, and leaves every other method alone.
pub proof fn lemma_registration<H>(
    handlers: Seq<(Seq<char>, Handler<H>)>,
    method: Seq<char>,
    handler: Handler<H>,
    other: Seq<char>,
)
    requires
        distinct_keys(handlers),
        other != method,
    ensures
        lookup(with_entry(handlers, method, handler), method) == Some(handler),
        lookup(with_entry(handlers, method, handler), other) == lookup(handlers, other),
{
    lemma_with_entry(handlers, method, handler);
}

/// What a client attaches to a call, the handler finds: under each key the
/// value that was attached last, and nothing under any other key.
pub proof fn lemma_metadata_reaches_handler(attached: MetadataView, key: Seq<char>)
    ensures
        lookup(last_wins(attached), key) == last_value(attached, key),
{
    lemma_last_wins(attached);
}

} // verus!
