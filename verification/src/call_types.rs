//! The call types: what is sent for a call, to whom, and what its result is.
//!
//! A call runs the interceptors of its context, then sends its request to one
//! node or to every node of a configuration, then waits for what it needs.
//! The interceptors and the waiting are left to the caller: the functions here
//! take the result of the interceptors and the replies as they come.

use vstd::prelude::*;

use std::marker::PhantomData;
use tokio::sync::{mpsc, oneshot};
use tokio_util::sync::CancellationToken;

use crate::channel::{enqueued, Calls, OutboundRequest};
use crate::config::ConfigContext;
use crate::correctable::Correctable;
use crate::error::{
    is_codec_error_of, node_errors_view, result_view, send_failure, Error, ErrorView, NodeError,
    NodeErrorView, QuorumCallCause, QuorumCallError,
};
use crate::message::{
    build_wire_message, last_wins, metadata_map, request_view, Message, MessageView, MetadataMap,
};
use crate::method::{
    CorrectableMethod, MulticastMethod, OrderedQuorumCallMethod, QuorumCallMethod, RpcCallMethod,
    UnicastMethod,
};
use crate::node::{calls_of, Node, NodeContext};
use crate::ordered_responses::{OrderedNodeResponse, OrderedResponses};
use crate::responses::{push_transport_failure, replies, Event, NodeResponse, Responses, Step};
use crate::router::stream_registered;
use crate::table::entries_view;

verus! {

// ── Requests ──────────────────────────────────────────────────────────────────

/// The calls of a node before and after `req` was put into its send queue: it
/// is the one request that was.
pub open spec fn one_put(before: Calls, after: Calls, req: OutboundRequest) -> bool {
    &&& after.ledger.queue() == before.ledger.queue()
    &&& after.ledger.put() == before.ledger.put().push(req)
}

/// Whether `req` carries `msg` and asks for the response that `rx` receives.
pub open spec fn twoway_request(
    req: OutboundRequest,
    msg: MessageView,
    rx: oneshot::Receiver<Result<Message, Error>>,
) -> bool {
    &&& req.msg@ == msg
    &&& req.send_ack is None
    &&& req.response_tx matches Some(tx) && call_ensures(
        oneshot::channel::<Result<Message, Error>>,
        (),
        (tx, rx),
    )
}

/// The calls of `node` before and after a two-way request with `msg` was
/// enqueued, and nothing else: `r` is the receiver of its response, or the
/// error of the queue.
pub open spec fn twoway_sent<S>(
    node: Node<S>,
    before: Calls,
    after: Calls,
    msg: MessageView,
    r: Result<oneshot::Receiver<Result<Message, Error>>, Error>,
) -> bool {
    exists|
        req: OutboundRequest,
        rx: oneshot::Receiver<Result<Message, Error>>,
        sent: Result<(), Error>,
    |
        {
            &&& #[trigger] twoway_request(req, msg, rx)
            &&& #[trigger] enqueued(node.inner.channel.mailbox.queue(), req, sent)
            &&& one_put(before, after, req)
            &&& r == match sent {
                Ok(_) => Ok(rx),
                Err(e) => Err(e),
            }
        }
}

/// Whether `req` carries `msg` and asks for the acknowledgement that `rx`
/// receives.
pub open spec fn oneway_request(
    req: OutboundRequest,
    msg: MessageView,
    rx: oneshot::Receiver<Result<(), Error>>,
) -> bool {
    &&& req.msg@ == msg
    &&& req.response_tx is None
    &&& req.send_ack matches Some(tx) && call_ensures(
        oneshot::channel::<Result<(), Error>>,
        (),
        (tx, rx),
    )
}

/// The calls of `node` before and after a one-way request with `msg` was
/// enqueued, and nothing else: `r` is the receiver of its acknowledgement, or
/// the error of the queue.
pub open spec fn oneway_sent<S>(
    node: Node<S>,
    before: Calls,
    after: Calls,
    msg: MessageView,
    r: Result<oneshot::Receiver<Result<(), Error>>, Error>,
) -> bool {
    exists|
        req: OutboundRequest,
        rx: oneshot::Receiver<Result<(), Error>>,
        sent: Result<(), Error>,
    |
        {
            &&& #[trigger] oneway_request(req, msg, rx)
            &&& #[trigger] enqueued(node.inner.channel.mailbox.queue(), req, sent)
            &&& one_put(before, after, req)
            &&& r == match sent {
                Ok(_) => Ok(rx),
                Err(e) => Err(e),
            }
        }
}

/// Whether `req` carries `msg` and asks for nothing on its own.
pub open spec fn plain_request(req: OutboundRequest, msg: MessageView) -> bool {
    &&& req.msg@ == msg
    &&& req.response_tx is None
    &&& req.send_ack is None
}

/// Send one two-way request to `node`, under the next sequence number of its
/// stream. `calls` are those of the node. The result receives the response.
pub fn send_twoway<S>(
    node: &Node<S>,
    calls: &mut Calls,
    method: &str,
    payload: Vec<u8>,
    metadata: MetadataMap,
) -> (r: Result<oneshot::Receiver<Result<Message, Error>>, Error>)
    requires
        calls_of(*old(calls), *node),
        old(calls).seq < u64::MAX,
    ensures
        final(calls).seq == old(calls).seq + 1,
        final(calls).router == old(calls).router,
        twoway_sent(
            *node,
            *old(calls),
            *final(calls),
            request_view(final(calls).seq, method@, payload@, metadata@),
            r,
        ),
{
    let seq: u64 = calls.next_seq();
    let msg = build_wire_message(seq, method, payload, metadata);
    let ghost wire = msg@;
    let (tx, rx) = oneshot::channel();
    let req = OutboundRequest { msg, response_tx: Some(tx), send_ack: None };
    assert(twoway_request(req, wire, rx));
    let sent = node.channel().enqueue(calls, req);
    assert(enqueued(node.inner.channel.mailbox.queue(), req, sent));
    match sent {
        Ok(()) => Ok(rx),
        Err(e) => Err(e),
    }
}

/// Send one one-way request to `node`, under the next sequence number of its
/// stream. The result is told when the message has left the send queue.
pub fn send_oneway<S>(
    node: &Node<S>,
    calls: &mut Calls,
    method: &str,
    payload: Vec<u8>,
    metadata: MetadataMap,
) -> (r: Result<oneshot::Receiver<Result<(), Error>>, Error>)
    requires
        calls_of(*old(calls), *node),
        old(calls).seq < u64::MAX,
    ensures
        final(calls).seq == old(calls).seq + 1,
        final(calls).router == old(calls).router,
        oneway_sent(
            *node,
            *old(calls),
            *final(calls),
            request_view(final(calls).seq, method@, payload@, metadata@),
            r,
        ),
{
    let seq: u64 = calls.next_seq();
    let msg = build_wire_message(seq, method, payload, metadata);
    let ghost wire = msg@;
    let (tx, rx) = oneshot::channel();
    let req = OutboundRequest { msg, response_tx: None, send_ack: Some(tx) };
    assert(oneway_request(req, wire, rx));
    let sent = node.channel().enqueue(calls, req);
    assert(enqueued(node.inner.channel.mailbox.queue(), req, sent));
    match sent {
        Ok(()) => Ok(rx),
        Err(e) => Err(e),
    }
}

/// Send one streaming request to `node`, under the next sequence number of
/// its stream. The result receives the responses; its other end is registered
/// while `calls` is borrowed, so that it is there for every response.
pub fn send_streaming<S>(
    node: &Node<S>,
    calls: &mut Calls,
    method: &str,
    payload: Vec<u8>,
    metadata: MetadataMap,
) -> (r: Result<mpsc::UnboundedReceiver<Result<Message, Error>>, Error>)
    requires
        calls_of(*old(calls), *node),
        old(calls).seq < u64::MAX,
    ensures
        final(calls).seq == old(calls).seq + 1,
        exists|
            req: OutboundRequest,
            rx: mpsc::UnboundedReceiver<Result<Message, Error>>,
            sent: Result<(), Error>,
        |
            {
                &&& #[trigger] stream_registered(
                    old(calls).router@,
                    final(calls).router@,
                    final(calls).seq,
                    rx,
                )
                &&& plain_request(
                    req,
                    request_view(final(calls).seq, method@, payload@, metadata@),
                )
                &&& #[trigger] enqueued(node.inner.channel.mailbox.queue(), req, sent)
                &&& one_put(*old(calls), *final(calls), req)
                &&& r == match sent {
                    Ok(_) => Ok(rx),
                    Err(e) => Err(e),
                }
            },
{
    let seq: u64 = calls.next_seq();
    let msg = build_wire_message(seq, method, payload, metadata);
    let rx = calls.register_stream(seq);
    let req = OutboundRequest { msg, response_tx: None, send_ack: None };
    let sent = node.channel().enqueue(calls, req);
    assert(stream_registered(old(calls).router@, calls.router@, calls.seq, rx));
    assert(enqueued(node.inner.channel.mailbox.queue(), req, sent));
    match sent {
        Ok(()) => Ok(rx),
        Err(e) => Err(e),
    }
}

// ── Replies ───────────────────────────────────────────────────────────────────

/// What became of a request that waits.
pub enum Reply<R> {
    /// The token of the call fired.
    Cancelled,
    /// The node dropped the request.
    Dropped,
    /// The answer arrived.
    Arrived(R),
}

/// Whether `r` is what `decode` makes of `payload`: a value, or a codec
/// error.
pub open spec fn decoded<T, F: FnOnce(&Vec<u8>) -> Result<T, prost::DecodeError>>(
    decode: F,
    payload: Vec<u8>,
    r: Result<T, Error>,
) -> bool {
    exists|d: Result<T, prost::DecodeError>|
        {
            &&& #[trigger] call_ensures(decode, (&payload,), d)
            &&& match d {
                Ok(value) => r == Ok::<T, Error>(value),
                Err(cause) => r matches Err(e) && is_codec_error_of(e, cause),
            }
        }
}

/// Decode the payload of a message with `decode`.
pub fn decode_payload<T, F: FnOnce(&Vec<u8>) -> Result<T, prost::DecodeError>>(
    wire: &Message,
    decode: F,
) -> (r: Result<T, Error>)
    requires
        call_requires(decode, (&wire.payload,)),
    ensures
        decoded(decode, wire.payload, r),
{
    match decode(&wire.payload) {
        Ok(value) => Ok(value),
        Err(cause) => Err(Error::from(cause)),
    }
}

/// Whether `r` is the result of a two-way request that was answered with
/// `answer`: a response is decoded, and an error is passed on.
pub open spec fn answer_decoded<T, F: FnOnce(&Vec<u8>) -> Result<T, prost::DecodeError>>(
    decode: F,
    answer: Result<Message, Error>,
    r: Result<T, Error>,
) -> bool {
    match answer {
        Ok(wire) => decoded(decode, wire.payload, r),
        Err(e) => r == Err::<T, Error>(e),
    }
}

fn decode_answer<T, F: FnOnce(&Vec<u8>) -> Result<T, prost::DecodeError>>(
    answer: Result<Message, Error>,
    decode: F,
) -> (r: Result<T, Error>)
    requires
        answer matches Ok(wire) ==> call_requires(decode, (&wire.payload,)),
    ensures
        answer_decoded(decode, answer, r),
{
    match answer {
        Ok(wire) => decode_payload(&wire, decode),
        Err(e) => Err(e),
    }
}

/// The result of waiting for an answer: a request that the node dropped fails
/// because the node is closed.
pub open spec fn answer_of<R>(reply: Reply<Result<R, Error>>) -> Result<R, Error> {
    match reply {
        Reply::Cancelled => Err(Error::Cancelled),
        Reply::Dropped => Err(Error::NodeClosed),
        Reply::Arrived(answer) => answer,
    }
}

/// The result of waiting for an answer.
pub fn answer<R>(reply: Reply<Result<R, Error>>) -> (r: Result<R, Error>)
    ensures
        r == answer_of(reply),
{
    match reply {
        Reply::Cancelled => Err(Error::Cancelled),
        Reply::Dropped => Err(Error::NodeClosed),
        Reply::Arrived(answer) => answer,
    }
}

// ── Single-node calls ─────────────────────────────────────────────────────────

/// Send a request to a single node, if the interceptors let it pass. The
/// result receives the response; see [`rpc_result`].
pub fn rpc_call<M: RpcCallMethod, S, I>(
    ctx: &NodeContext<S, I>,
    verdict: Result<(), Error>,
    calls: &mut Calls,
    payload: Vec<u8>,
    _m: M,
) -> (r: Result<oneshot::Receiver<Result<Message, Error>>, Error>)
    requires
        calls_of(*old(calls), ctx.node),
        verdict is Ok ==> old(calls).seq < u64::MAX,
    ensures
        match verdict {
            Err(e) => {
                &&& r == Err::<oneshot::Receiver<Result<Message, Error>>, Error>(e)
                &&& *final(calls) == *old(calls)
            },
            Ok(_) => {
                &&& final(calls).seq == old(calls).seq + 1
                &&& final(calls).router == old(calls).router
                &&& twoway_sent(
                    ctx.node,
                    *old(calls),
                    *final(calls),
                    request_view(
                        final(calls).seq,
                        M::PATH@,
                        payload@,
                        last_wins(entries_view(ctx.metadata@)),
                    ),
                    r,
                )
            },
        },
{
    match verdict {
        Err(e) => Err(e),
        Ok(()) => send_twoway(&ctx.node, calls, M::PATH, payload, metadata_map(&ctx.metadata)),
    }
}

/// The result of an RPC: the decoded response, or the error that came instead
/// of it.
pub fn rpc_result<T, F: FnOnce(&Vec<u8>) -> Result<T, prost::DecodeError>>(
    reply: Reply<Result<Message, Error>>,
    decode: F,
) -> (r: Result<T, Error>)
    requires
        reply matches Reply::Arrived(Ok(wire)) ==> call_requires(decode, (&wire.payload,)),
    ensures
        answer_decoded(decode, answer_of(reply), r),
{
    decode_answer(answer(reply), decode)
}

/// Send a one-way request to a single node, if the interceptors let it pass.
/// The result is told when the message has left the send queue; see
/// [`answer`].
pub fn unicast<M: UnicastMethod, S, I>(
    ctx: &NodeContext<S, I>,
    verdict: Result<(), Error>,
    calls: &mut Calls,
    payload: Vec<u8>,
    _m: M,
) -> (r: Result<oneshot::Receiver<Result<(), Error>>, Error>)
    requires
        calls_of(*old(calls), ctx.node),
        verdict is Ok ==> old(calls).seq < u64::MAX,
    ensures
        match verdict {
            Err(e) => {
                &&& r == Err::<oneshot::Receiver<Result<(), Error>>, Error>(e)
                &&& *final(calls) == *old(calls)
            },
            Ok(_) => {
                &&& final(calls).seq == old(calls).seq + 1
                &&& final(calls).router == old(calls).router
                &&& oneway_sent(
                    ctx.node,
                    *old(calls),
                    *final(calls),
                    request_view(
                        final(calls).seq,
                        M::PATH@,
                        payload@,
                        last_wins(entries_view(ctx.metadata@)),
                    ),
                    r,
                )
            },
        },
{
    match verdict {
        Err(e) => Err(e),
        Ok(()) => send_oneway(&ctx.node, calls, M::PATH, payload, metadata_map(&ctx.metadata)),
    }
}

// ── Fan-out ───────────────────────────────────────────────────────────────────

/// The same request for every node of a configuration.
pub struct FanOut<S> {
    pub nodes: Vec<Node<S>>,
    pub method: String,
    pub payload: Vec<u8>,
    pub metadata: MetadataMap,
}

/// Whether the fan-out goes to every node of the configuration of `ctx`, with
/// this method and payload and the metadata of `ctx`.
pub open spec fn fans_out<S, I>(
    fan_out: FanOut<S>,
    ctx: ConfigContext<S, I>,
    method: Seq<char>,
    payload: Seq<u8>,
) -> bool {
    &&& fan_out.nodes@ == ctx.config@
    &&& fan_out.method@ == method
    &&& fan_out.payload@ == payload
    &&& fan_out.metadata@ == last_wins(entries_view(ctx.metadata@))
}

fn fan_out<S, I>(ctx: &ConfigContext<S, I>, method: &str, payload: Vec<u8>) -> (r: FanOut<S>)
    ensures
        fans_out(r, *ctx, method@, payload@),
{
    let nodes = ctx.config.nodes();
    let mut targets: Vec<Node<S>> = Vec::new();
    for i in 0..nodes.len()
        invariant
            targets@ == nodes@.take(i as int),
    {
        targets.push(nodes[i].clone());
        assert(targets@ =~= nodes@.take(i + 1));
    }
    assert(targets@ =~= nodes@);
    FanOut {
        nodes: targets,
        method: method.to_string(),
        payload,
        metadata: metadata_map(&ctx.metadata),
    }
}

impl<S> FanOut<S> {
    /// The message for the next sequence number of a node's stream.
    pub open spec fn message(&self, seq: u64) -> MessageView {
        request_view(seq, self.method@, self.payload@, self.metadata@)
    }

    fn copy_payload(&self) -> (r: Vec<u8>)
        ensures
            r@ == self.payload@,
    {
        let r = self.payload.clone();
        assert(r@ =~= self.payload@);
        r
    }

    /// Send the two-way request to the node at `position`.
    pub fn send_twoway(&self, position: usize, calls: &mut Calls) -> (r: Result<
        oneshot::Receiver<Result<Message, Error>>,
        Error,
    >)
        requires
            position < self.nodes@.len(),
            calls_of(*old(calls), self.nodes@[position as int]),
            old(calls).seq < u64::MAX,
        ensures
            final(calls).seq == old(calls).seq + 1,
            final(calls).router == old(calls).router,
            twoway_sent(
                self.nodes@[position as int],
                *old(calls),
                *final(calls),
                self.message(final(calls).seq),
                r,
            ),
    {
        send_twoway(
            &self.nodes[position],
            calls,
            self.method.as_str(),
            self.copy_payload(),
            self.metadata.clone(),
        )
    }

    /// Send the one-way request to the node at `position`.
    pub fn send_oneway(&self, position: usize, calls: &mut Calls) -> (r: Result<
        oneshot::Receiver<Result<(), Error>>,
        Error,
    >)
        requires
            position < self.nodes@.len(),
            calls_of(*old(calls), self.nodes@[position as int]),
            old(calls).seq < u64::MAX,
        ensures
            final(calls).seq == old(calls).seq + 1,
            final(calls).router == old(calls).router,
            oneway_sent(
                self.nodes@[position as int],
                *old(calls),
                *final(calls),
                self.message(final(calls).seq),
                r,
            ),
    {
        send_oneway(
            &self.nodes[position],
            calls,
            self.method.as_str(),
            self.copy_payload(),
            self.metadata.clone(),
        )
    }

    /// Send the streaming request to the node at `position`.
    pub fn send_streaming(&self, position: usize, calls: &mut Calls) -> (r: Result<
        mpsc::UnboundedReceiver<Result<Message, Error>>,
        Error,
    >)
        requires
            position < self.nodes@.len(),
            calls_of(*old(calls), self.nodes@[position as int]),
            old(calls).seq < u64::MAX,
        ensures
            final(calls).seq == old(calls).seq + 1,
            exists|
                req: OutboundRequest,
                rx: mpsc::UnboundedReceiver<Result<Message, Error>>,
                sent: Result<(), Error>,
            |
                {
                    &&& #[trigger] stream_registered(
                        old(calls).router@,
                        final(calls).router@,
                        final(calls).seq,
                        rx,
                    )
                    &&& plain_request(req, self.message(final(calls).seq))
                    &&& #[trigger] enqueued(
                        self.nodes@[position as int].inner.channel.mailbox.queue(),
                        req,
                        sent,
                    )
                    &&& one_put(*old(calls), *final(calls), req)
                    &&& r == match sent {
                        Ok(_) => Ok(rx),
                        Err(e) => Err(e),
                    }
                },
    {
        send_streaming(
            &self.nodes[position],
            calls,
            self.method.as_str(),
            self.copy_payload(),
            self.metadata.clone(),
        )
    }
}

/// A fan-out sends one request to each node, and nothing else to any of them:
/// each queue has got, after what it had before, the message of the fan-out
/// under the sequence number of its node.
pub proof fn lemma_one_request_per_node<S>(
    fan_out: FanOut<S>,
    before: Seq<Calls>,
    after: Seq<Calls>,
    twoway: Seq<Result<oneshot::Receiver<Result<Message, Error>>, Error>>,
    oneway: Seq<Result<oneshot::Receiver<Result<(), Error>>, Error>>,
    position: int,
)
    requires
        0 <= position < fan_out.nodes@.len(),
        forall|p: int|
            #![trigger after[p]]
            0 <= p < fan_out.nodes@.len() ==> twoway_sent(
                fan_out.nodes@[p],
                before[p],
                after[p],
                fan_out.message(after[p].seq),
                twoway[p],
            ) || oneway_sent(
                fan_out.nodes@[p],
                before[p],
                after[p],
                fan_out.message(after[p].seq),
                oneway[p],
            ),
    ensures
        after[position].ledger.put().len() == before[position].ledger.put().len() + 1,
        after[position].ledger.put().drop_last() == before[position].ledger.put(),
        after[position].ledger.put().last().msg@ == fan_out.message(after[position].seq),
{
    let (b, a) = (before[position].ledger.put(), after[position].ledger.put());
    assert(a.drop_last() =~= b);
}

// ── Multicast ─────────────────────────────────────────────────────────────────

/// Send the same request to every node in the configuration, if the
/// interceptors let it pass. No responses are collected; see
/// [`MulticastAcks`].
pub fn multicast<M: MulticastMethod, S, I>(
    ctx: &ConfigContext<S, I>,
    verdict: Result<(), Error>,
    payload: Vec<u8>,
    _m: M,
) -> (r: Result<(FanOut<S>, MulticastAcks), Error>)
    requires
        verdict is Ok ==> ctx.config@.len() > 0,
    ensures
        match verdict {
            Err(e) => r == Err::<(FanOut<S>, MulticastAcks), Error>(e),
            Ok(_) => r matches Ok((fan_out, acks)) && fans_out(fan_out, *ctx, M::PATH@, payload@)
                && acks.token() == ctx.cancel && acks.received() == Seq::<
                (u32, Result<(), Error>),
            >::empty(),
        },
{
    match verdict {
        Err(e) => Err(e),
        Ok(()) => Ok((fan_out(ctx, M::PATH, payload), MulticastAcks::new(ctx.cancel.clone()))),
    }
}

/// The node errors of the acknowledgements that failed with a status, in
/// order of arrival.
pub open spec fn ack_failures(received: Seq<(u32, Result<(), Error>)>) -> Seq<NodeErrorView>
    decreases received.len(),
{
    if received.len() == 0 {
        seq![]
    } else {
        let (node_id, ack) = received.last();
        match ack {
            Err(Error::Transport(status)) => ack_failures(received.drop_last()).push(
                NodeErrorView { node_id, cause: status@ },
            ),
            _ => ack_failures(received.drop_last()),
        }
    }
}

/// The outcome of a multicast, when an event comes after the acknowledgements
/// `received`; `None` is to wait for more.
pub open spec fn multicast_outcome(
    received: Seq<(u32, Result<(), Error>)>,
    event: Event<(u32, Result<(), Error>)>,
) -> Option<Result<(), ErrorView>> {
    match event {
        Event::Cancelled => Some(Err(ErrorView::Cancelled)),
        Event::Closed => if ack_failures(received).len() == 0 {
            Some(Ok(()))
        } else {
            Some(Err(send_failure(ack_failures(received))))
        },
        Event::Reply(_) => None,
    }
}

/// Waits until every node has acknowledged a multicast.
pub struct MulticastAcks {
    cancel: CancellationToken,
    node_errors: Vec<NodeError>,
    received: Ghost<Seq<(u32, Result<(), Error>)>>,
}

/// What a [`MulticastAcks`] does with an event: it is done with the outcome, or waits with
/// the event recorded.
pub open spec fn multicast_stepped(
    before: MulticastAcks,
    event: Event<(u32, Result<(), Error>)>,
    step: Step<MulticastAcks, ()>,
) -> bool {
    match multicast_outcome(before.received(), event) {
        Some(outcome) => step matches Step::Done(result) && result_view(result) == outcome,
        None => {
            &&& event matches Event::Reply(reply)
            &&& step matches Step::Wait(next)
            &&& next.received() == before.received().push(reply)
            &&& next.token() == before.token()
        },
    }
}

impl MulticastAcks {
    #[verifier::type_invariant]
    spec fn inv(self) -> bool {
        node_errors_view(self.node_errors@) == ack_failures(self.received@)
    }

    /// The acknowledgements so far, in order of arrival.
    pub closed spec fn received(&self) -> Seq<(u32, Result<(), Error>)> {
        self.received@
    }

    /// The token of the call.
    pub closed spec fn token(&self) -> CancellationToken {
        self.cancel
    }

    /// Has received nothing.
    pub fn new(cancel: CancellationToken) -> (r: Self)
        ensures
            r.token() == cancel,
            r.received() == Seq::<(u32, Result<(), Error>)>::empty(),
    {
        let node_errors: Vec<NodeError> = Vec::new();
        assert(node_errors_view(node_errors@) =~= Seq::<NodeErrorView>::empty());
        MulticastAcks { cancel, node_errors, received: Ghost(Seq::empty()) }
    }

    /// The token of the call.
    pub fn cancel(&self) -> (r: &CancellationToken)
        ensures
            *r == self.token(),
    {
        &self.cancel
    }

    /// Takes an event. The multicast succeeds once no further acknowledgement
    /// can arrive, unless a node failed with a status.
    pub fn on_event(self, event: Event<(u32, Result<(), Error>)>) -> (step: Step<Self, ()>)
        ensures
            multicast_stepped(self, event, step),
    {
        proof {
            use_type_invariant(&self);
        }
        let mut node_errors = self.node_errors;
        match event {
            Event::Cancelled => Step::Done(Err(Error::Cancelled)),
            Event::Closed => {
                assert(node_errors_view(node_errors@).len() == node_errors@.len());
                if node_errors.len() == 0 {
                    Step::Done(Ok(()))
                } else {
                    Step::Done(
                        Err(
                            Error::QuorumCall(
                                QuorumCallError { cause: QuorumCallCause::SendFailure, node_errors },
                            ),
                        ),
                    )
                }
            },
            Event::Reply(ack) => {
                let ghost now = self.received@.push(ack);
                assert(now.drop_last() =~= self.received@);
                if let (node_id, Err(Error::Transport(status))) = ack {
                    push_transport_failure(&mut node_errors, node_id, status);
                }
                Step::Wait(MulticastAcks { cancel: self.cancel, node_errors, received: Ghost(now) })
            },
        }
    }
}

/// The outcome of a multicast, over a whole run of events; `None` is a
/// multicast that still waits.
pub open spec fn multicast_run(
    received: Seq<(u32, Result<(), Error>)>,
    events: Seq<Event<(u32, Result<(), Error>)>>,
) -> Option<Result<(), ErrorView>>
    decreases events.len(),
{
    if events.len() == 0 {
        None
    } else {
        match multicast_outcome(received, events[0]) {
            Some(outcome) => Some(outcome),
            None => match events[0] {
                Event::Reply(ack) => multicast_run(received.push(ack), events.drop_first()),
                _ => None,
            },
        }
    }
}

/// What a [`MulticastAcks`] returns is what its events call for: where it takes the
/// events one after the other, its last step is the outcome of the whole run.
pub proof fn lemma_multicast_follows_events(
    states: Seq<MulticastAcks>,
    events: Seq<Event<(u32, Result<(), Error>)>>,
    last: Step<MulticastAcks, ()>,
)
    requires
        events.len() > 0,
        states.len() == events.len(),
        forall|i: int|
            0 <= i < events.len() - 1 ==> multicast_stepped(
                states[i],
                events[i],
                Step::Wait(#[trigger] states[i + 1]),
            ),
        multicast_stepped(states.last(), events.last(), last),
    ensures
        multicast_run(states[0].received(), events) == match last {
            Step::Done(result) => Some(result_view(result)),
            Step::Wait(_) => None,
        },
    decreases events.len(),
{
    if events.len() == 1 {
        reveal_with_fuel(multicast_run, 2);
        assert(states[0] == states.last() && events[0] == events.last());
    } else {
        let (rest, later) = (states.drop_first(), events.drop_first());
        assert(multicast_stepped(states[0], events[0], Step::Wait(states[0int + 1])));
        assert forall|i: int| 0 <= i < later.len() - 1 implies multicast_stepped(
            rest[i],
            later[i],
            Step::Wait(#[trigger] rest[i + 1]),
        ) by {
            assert(rest[i + 1] == states[(i + 1) + 1]);
        }
        assert(rest.last() == states.last() && later.last() == events.last());
        lemma_multicast_follows_events(rest, later, last);
        assert(rest[0] == states[1]);
    }
}

/// A multicast waits for all acknowledgements and succeeds exactly if no node
/// failed with a status; otherwise it fails with the errors of those that did.
/// If its token fires first, it is cancelled.
pub proof fn lemma_multicast_run(
    before: Seq<(u32, Result<(), Error>)>,
    acks: Seq<(u32, Result<(), Error>)>,
    end: Event<(u32, Result<(), Error>)>,
)
    requires
        !(end is Reply),
    ensures
        multicast_run(before, replies(acks).push(end)) == Some(
            if end is Cancelled {
                Err(ErrorView::Cancelled)
            } else if ack_failures(before + acks).len() == 0 {
                Ok(())
            } else {
                Err(send_failure(ack_failures(before + acks)))
            },
        ),
    decreases acks.len(),
{
    let events = replies(acks).push(end);
    if acks.len() == 0 {
        assert(before + acks =~= before);
        assert(events[0] == end);
    } else {
        let now = before.push(acks[0]);
        let rest = acks.drop_first();
        assert(events[0] == Event::Reply(acks[0]));
        assert(now + rest =~= before + acks);
        assert(events.drop_first() =~= replies(rest).push(end));
        lemma_multicast_run(now, rest, end);
    }
}

// ── Quorum calls ──────────────────────────────────────────────────────────────

/// Send a request to every node in the configuration, if the interceptors let
/// it pass. The fan-out is dispatched by the terminal method that aggregates
/// the responses.
pub fn quorum_call<M: QuorumCallMethod, S, I>(
    ctx: &ConfigContext<S, I>,
    verdict: Result<(), Error>,
    payload: Vec<u8>,
    _m: M,
) -> (r: Result<Responses<M::Resp, FanOut<S>>, Error>)
    requires
        verdict is Ok ==> ctx.config@.len() > 0,
    ensures
        match verdict {
            Err(e) => r == Err::<Responses<M::Resp, FanOut<S>>, Error>(e),
            Ok(_) => {
                &&& r matches Ok(responses)
                &&& responses.size == ctx.config@.len()
                &&& responses.cancel == ctx.cancel
                &&& responses.launch matches Some(launch) && fans_out(
                    launch,
                    *ctx,
                    M::PATH@,
                    payload@,
                )
            },
        },
{
    match verdict {
        Err(e) => Err(e),
        Ok(()) => Ok(
            Responses {
                size: ctx.config.size(),
                cancel: ctx.cancel.clone(),
                launch: Some(fan_out(ctx, M::PATH, payload)),
                values: PhantomData,
            },
        ),
    }
}

/// The response of one node in a quorum call.
pub fn node_response<T, F: FnOnce(&Vec<u8>) -> Result<T, prost::DecodeError>>(
    node_id: u32,
    answer: Result<Message, Error>,
    decode: F,
) -> (r: NodeResponse<T>)
    requires
        answer matches Ok(wire) ==> call_requires(decode, (&wire.payload,)),
    ensures
        r.node_id == node_id,
        answer_decoded(decode, answer, r.result),
{
    NodeResponse { node_id, result: decode_answer(answer, decode) }
}

/// Like [`quorum_call`], with each response tagged with the **position** of
/// its node in the configuration.
pub fn ordered_quorum_call<M: OrderedQuorumCallMethod, S, I>(
    ctx: &ConfigContext<S, I>,
    verdict: Result<(), Error>,
    payload: Vec<u8>,
    _m: M,
) -> (r: Result<OrderedResponses<M::Resp, FanOut<S>>, Error>)
    requires
        verdict is Ok ==> ctx.config@.len() > 0,
    ensures
        match verdict {
            Err(e) => r == Err::<OrderedResponses<M::Resp, FanOut<S>>, Error>(e),
            Ok(_) => {
                &&& r matches Ok(responses)
                &&& responses.size == ctx.config@.len()
                &&& responses.cancel == ctx.cancel
                &&& responses.launch matches Some(launch) && fans_out(
                    launch,
                    *ctx,
                    M::PATH@,
                    payload@,
                )
            },
        },
{
    match verdict {
        Err(e) => Err(e),
        Ok(()) => Ok(
            OrderedResponses {
                size: ctx.config.size(),
                cancel: ctx.cancel.clone(),
                launch: Some(fan_out(ctx, M::PATH, payload)),
                values: PhantomData,
            },
        ),
    }
}

/// The response of one node in an ordered quorum call.
pub fn ordered_node_response<T, F: FnOnce(&Vec<u8>) -> Result<T, prost::DecodeError>>(
    position: usize,
    node_id: u32,
    answer: Result<Message, Error>,
    decode: F,
) -> (r: OrderedNodeResponse<T>)
    requires
        answer matches Ok(wire) ==> call_requires(decode, (&wire.payload,)),
    ensures
        r.position == position,
        r.node_id == node_id,
        answer_decoded(decode, answer, r.result),
{
    OrderedNodeResponse { position, node_id, result: decode_answer(answer, decode) }
}

// ── Correctable calls ─────────────────────────────────────────────────────────

/// Send a request to every node in the configuration, if the interceptors let
/// it pass. The fan-out is to be dispatched at once; each node then sends
/// responses until it is done.
pub fn correctable_call<M: CorrectableMethod, S, I>(
    ctx: &ConfigContext<S, I>,
    verdict: Result<(), Error>,
    payload: Vec<u8>,
    _m: M,
) -> (r: Result<(FanOut<S>, Correctable<M::Resp>), Error>)
    ensures
        match verdict {
            Err(e) => r == Err::<(FanOut<S>, Correctable<M::Resp>), Error>(e),
            Ok(_) => {
                &&& r matches Ok((launch, updates))
                &&& fans_out(launch, *ctx, M::PATH@, payload@)
                &&& updates.size == ctx.config@.len()
                &&& updates.cancel == ctx.cancel
            },
        },
{
    match verdict {
        Err(e) => Err(e),
        Ok(()) => Ok(
            (
                fan_out(ctx, M::PATH, payload),
                Correctable {
                    size: ctx.config.size(),
                    cancel: ctx.cancel.clone(),
                    values: PhantomData,
                },
            ),
        ),
    }
}

} // verus!
