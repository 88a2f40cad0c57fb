//! Laws of the connection to a node: its status, its pending calls, and what
//! goes out and comes in on its stream.

use vstd::prelude::*;

use tokio::sync::{mpsc, oneshot, watch};

use crate::channel::{
    acknowledged, endpoint_uri, no_calls, receive_step, sender_step, status_error, Calls,
    Connection, ConnectionAction, ConnectionEvent, Inbound, NodeChannel, NodeTask,
    OutboundRequest, SenderStep,
};
use crate::error::{Error, ErrorView};
use crate::message::Message;
use crate::node::{Node, NodeStatus};
use crate::record::{
    finished, queue_made, queued, subscribed, value_made, value_read, Board, Ledger, Mailbox,
    Outbox, Viewer,
};
use crate::router::{
    all_cancelled, answered, cancelled, delivery, streamed, PendingCall, Router,
};
use crate::status::{status_display, Status};
use crate::text::begins_with;

verus! {

// ── Pending calls ─────────────────────────────────────────────────────────────

/// Whether the caller that waits for one response was handed `result`.
pub open spec fn handed(
    tx: oneshot::Sender<Result<Message, Error>>,
    result: Result<Message, Error>,
) -> bool {
    exists|r: Result<(), Result<Message, Error>>| #[trigger]
        call_ensures(oneshot::Sender::<Result<Message, Error>>::send, (tx, result), r)
}

/// Whether a caller was told an error that says `err`: in place of its one
/// response, or as the last item of its stream.
pub open spec fn told(call: PendingCall, err: ErrorView) -> bool {
    match call {
        PendingCall::Response(tx) => exists|e: Error| e@ == err && #[trigger] handed(tx, Err(e)),
        PendingCall::Stream(out) => exists|e: Error|
            e@ == err && #[trigger] finished(out, Err(e)),
    }
}

/// Whether every pending call was told the error, and none is pending.
pub open spec fn all_told(before: Router, after: Router, err: ErrorView) -> bool {
    &&& forall|seq: u64| !(#[trigger] after@.contains_key(seq))
    &&& forall|seq: u64| #[trigger] before@.contains_key(seq) ==> told(before@[seq], err)
}

proof fn lemma_all_told(before: Router, after: Router, err: ErrorView)
    requires
        all_cancelled(before@, after@, err),
    ensures
        all_told(before, after, err),
{
    assert forall|seq: u64| #[trigger] before@.contains_key(seq) implies told(
        before@[seq],
        err,
    ) by {
        assert(cancelled(before@[seq], err));
        match before@[seq] {
            PendingCall::Response(tx) => {
                let e = choose|e: Error|
                    e@ == err && #[trigger] answered(tx, Err(e));
                assert(handed(tx, Err(e)));
            },
            PendingCall::Stream(_) => {},
        }
    }
}

/// Whether `result` was delivered to call `seq`, and to no other: a caller
/// that waits for one response is handed it and waits no more; a stream gets
/// it as one more item, and stays as long as its receiver takes items.
pub open spec fn delivered(
    before: Router,
    after: Router,
    seq: u64,
    result: Result<Message, Error>,
) -> bool {
    &&& forall|other: u64| other != seq ==> #[trigger] after@.get(other) == before@.get(other)
    &&& before@.get(seq) is None ==> after@.get(seq) is None
    &&& before@.get(seq) matches Some(PendingCall::Response(tx)) ==> handed(tx, result)
        && after@.get(seq) is None
    &&& before@.get(seq) matches Some(PendingCall::Stream(out)) ==> stream_got(
        out,
        after@.get(seq),
        result,
    )
}

/// Whether a stream was sent an item: once the receiver is gone it is over,
/// else it goes on, with that item after those before it.
pub open spec fn stream_got(
    out: Outbox<Result<Message, Error>>,
    after: Option<PendingCall>,
    result: Result<Message, Error>,
) -> bool {
    exists|r: Result<(), mpsc::error::SendError<Result<Message, Error>>>|
        {
            &&& #[trigger] queued(out.sender(), result, r)
            &&& r is Err ==> after is None
            &&& r is Ok ==> (after matches Some(PendingCall::Stream(next)) && next.sender()
                == out.sender() && next.sent() == out.sent().push(result))
        }
}

proof fn lemma_delivered(before: Router, after: Router, seq: u64, result: Result<Message, Error>)
    requires
        delivery(before@, after@, seq, result),
    ensures
        delivered(before, after, seq, result),
{
    match before@.get(seq) {
        None => {},
        Some(PendingCall::Response(tx)) => {
            assert(answered(tx, result));
            assert(handed(tx, result));
        },
        Some(PendingCall::Stream(out)) => {
            let (next, r) = choose|
                next: Outbox<Result<Message, Error>>,
                r: Result<(), mpsc::error::SendError<Result<Message, Error>>>,
            |
                {
                    &&& #[trigger] queued(out.sender(), result, r)
                    &&& #[trigger] streamed(out, next, result)
                    &&& after@ == if r is Ok {
                        before@.insert(seq, PendingCall::Stream(next))
                    } else {
                        before@.remove(seq)
                    }
                };
            assert(queued(out.sender(), result, r));
            assert(stream_got(out, after@.get(seq), result));
        },
    }
}

/// A response goes to the call with its number and to no other.
pub proof fn law_deliver(router: &mut Router, seq: u64, result: Result<Message, Error>)
    requires
        call_ensures(Router::deliver, (router, seq, result), ()),
    ensures
        delivered(*old(router), *final(router), seq, result),
{
    lemma_delivered(*old(router), *final(router), seq, result);
}

/// A call that waits for one response gets the one that comes first: after
/// it, another response with its number changes nothing.
pub proof fn law_one_response(
    router: &mut Router,
    seq: u64,
    tx: oneshot::Sender<Result<Message, Error>>,
    first: &mut Router,
    result: Result<Message, Error>,
    second: &mut Router,
    again: Result<Message, Error>,
)
    requires
        call_ensures(Router::register_with_sender, (router, seq, tx), ()),
        call_ensures(Router::deliver, (first, seq, result), ()),
        call_ensures(Router::deliver, (second, seq, again), ()),
        *old(first) == *final(router),
        *old(second) == *final(first),
    ensures
        final(router)@.get(seq) == Some(PendingCall::Response(tx)),
        handed(tx, result),
        forall|other: u64| other != seq ==> #[trigger] final(second)@.get(other) == old(router)@.get(
            other,
        ),
        final(second)@ == old(second)@,
        final(second)@.get(seq) is None,
{
    lemma_delivered(*old(first), *final(first), seq, result);
    assert forall|other: u64| other != seq implies #[trigger] final(second)@.get(other)
        == old(router)@.get(other) by {
        assert(final(first)@.get(other) == old(first)@.get(other));
        assert(final(router)@.get(other) == old(router)@.get(other));
    }
}

/// A stream is registered empty, under its number, and taken out when it is
/// closed; the other calls stay.
pub proof fn law_streams_open_and_close(
    router: &mut Router,
    seq: u64,
    rx: mpsc::UnboundedReceiver<Result<Message, Error>>,
    closing: &mut Router,
    other: u64,
)
    requires
        call_ensures(Router::register_stream, (router, seq), rx),
        call_ensures(Router::close_stream, (closing, seq), ()),
    ensures
        final(router)@.get(seq) matches Some(PendingCall::Stream(out)) && queue_made(
            out.sender(),
            rx,
        ) && out.sent().len() == 0,
        other != seq ==> final(router)@.get(other) == old(router)@.get(other),
        final(closing)@.get(seq) is None,
        other != seq ==> final(closing)@.get(other) == old(closing)@.get(other),
{
}

/// When all calls are cancelled each one is told the error, and none is left.
/// A new router has none.
pub proof fn law_cancel_all(router: &mut Router, err: Error, fresh: Router)
    requires
        call_ensures(Router::cancel_all, (router, err), ()),
        call_ensures(Router::new, (), fresh),
    ensures
        all_told(*old(router), *final(router), err@),
        forall|seq: u64| !(#[trigger] fresh@.contains_key(seq)),
{
    lemma_all_told(*old(router), *final(router), err@);
}

// ── Calls of a node ───────────────────────────────────────────────────────────

/// The numbers of the calls of a node count up from 1, each given out once.
pub proof fn law_sequence_numbers(
    router: Router,
    ledger: Ledger<OutboundRequest>,
    fresh: Calls,
    calls: &mut Calls,
    seq: u64,
    later: &mut Calls,
    later_seq: u64,
)
    requires
        call_ensures(Calls::new, (router, ledger), fresh),
        call_ensures(Calls::next_seq, (calls,), seq),
        call_ensures(Calls::next_seq, (later,), later_seq),
        old(calls).seq < u64::MAX,
        old(later).seq < u64::MAX,
    ensures
        *old(calls) == fresh ==> seq == 1,
        fresh.router == router && fresh.ledger == ledger,
        final(calls).seq == old(calls).seq + 1,
        seq > old(calls).seq,
        final(calls).router == old(calls).router && final(calls).ledger == old(calls).ledger,
        old(later).seq >= final(calls).seq ==> later_seq > seq,
        *old(later) == *final(calls) ==> later_seq == seq + 1,
{
}

/// A streaming call is registered under its number; the numbering and the
/// queue stay.
pub proof fn law_register_stream(
    calls: &mut Calls,
    seq: u64,
    rx: mpsc::UnboundedReceiver<Result<Message, Error>>,
    other: u64,
)
    requires
        call_ensures(Calls::register_stream, (calls, seq), rx),
    ensures
        final(calls).router@.get(seq) matches Some(PendingCall::Stream(out)) && queue_made(
            out.sender(),
            rx,
        ) && out.sent().len() == 0,
        other != seq ==> final(calls).router@.get(other) == old(calls).router@.get(other),
        final(calls).seq == old(calls).seq,
        final(calls).ledger == old(calls).ledger,
{
}

/// A request is put into the send queue of the node once, behind those before
/// it; it fails, with `NodeClosed`, exactly if the queue does not take it.
pub proof fn law_enqueue<S>(
    channel: NodeChannel<S>,
    calls: &mut Calls,
    req: OutboundRequest,
    r: Result<(), Error>,
)
    requires
        old(calls).ledger.queue() == channel.mailbox.queue(),
        call_ensures(NodeChannel::<S>::enqueue, (&channel, calls, req), r),
    ensures
        final(calls).ledger.put() == old(calls).ledger.put().push(req),
        final(calls).ledger.queue() == old(calls).ledger.queue(),
        final(calls).seq == old(calls).seq,
        final(calls).router == old(calls).router,
        r matches Err(e) ==> e is NodeClosed,
        exists|sent: Result<(), mpsc::error::SendError<OutboundRequest>>| #[trigger]
            queued(channel.mailbox.queue(), req, sent) && (r is Ok <==> sent is Ok),
{
}

/// A node shows and hands out the status of its own channel.
pub proof fn law_status_is_read<S>(
    node: Node<S>,
    status: NodeStatus,
    rx: watch::Receiver<NodeStatus>,
    current: NodeStatus,
    other_rx: watch::Receiver<NodeStatus>,
    channel: &NodeChannel<S>,
)
    requires
        call_ensures(Node::<S>::status, (&node,), status),
        call_ensures(Node::<S>::subscribe_status, (&node,), rx),
        call_ensures(NodeChannel::<S>::current_status, (&node.inner.channel,), current),
        call_ensures(NodeChannel::<S>::subscribe_status, (&node.inner.channel,), other_rx),
        call_ensures(Node::<S>::channel, (&node,), channel),
    ensures
        value_read(node.inner.channel.status.sender(), status),
        subscribed(node.inner.channel.status.sender(), rx),
        value_read(node.inner.channel.status.sender(), current),
        subscribed(node.inner.channel.status.sender(), other_rx),
        *channel == node.inner.channel,
{
}

/// A channel starts as `Connecting`, before its first attempt, with nothing
/// shown; its task takes what is put into its queue and shows its status.
pub proof fn law_connect<S, F: FnOnce(Calls) -> S>(share: F, r: (NodeChannel<S>, NodeTask))
    requires
        call_ensures(NodeChannel::<S>::connect::<F>, (share,), r),
    ensures
        queue_made(r.0.mailbox.queue(), r.1.send_rx),
        r.1.connection.board.sender() == r.0.status.sender(),
        exists|rx: watch::Receiver<NodeStatus>| #[trigger]
            value_made(r.0.status.sender(), rx, NodeStatus::Connecting),
        r.1.connection.first_attempt,
        !r.1.connection.closed,
        r.1.connection.board.shown().len() == 0,
        exists|calls: Calls|
            {
                &&& #[trigger] call_ensures(share, (calls,), r.0.calls)
                &&& calls.seq == 0
                &&& calls.router@.dom() == Set::<u64>::empty()
                &&& calls.ledger.queue() == r.0.mailbox.queue()
                &&& calls.ledger.put().len() == 0
            },
{
    let calls = choose|calls: Calls| #[trigger]
        call_ensures(share, (calls,), r.0.calls) && no_calls(
            calls,
            r.0.mailbox.queue(),
        );
    assert(calls.router@.dom() =~= Set::<u64>::empty());
}

// ── The status of a connection ────────────────────────────────────────────────

/// Whether an event is a failure after which the task tries again.
pub open spec fn is_setback(event: ConnectionEvent) -> bool {
    event is ConnectFailed || event is OpenFailed || event is StreamDied
}

/// A connection that was not closed tries again after every failure, after a
/// wait: half a second if it could not connect, a fifth of a second if it had
/// connected.
pub proof fn law_connection_tries_again(
    c: &mut Connection,
    event: ConnectionEvent,
    router: &mut Router,
    action: ConnectionAction,
    next: &mut Connection,
    next_router: &mut Router,
    next_action: ConnectionAction,
)
    requires
        call_ensures(Connection::on_event, (c, event, router), action),
        call_ensures(
            Connection::on_event,
            (next, ConnectionEvent::Due, next_router),
            next_action,
        ),
        !old(c).closed,
        is_setback(event),
        *old(next) == *final(c),
    ensures
        action == ConnectionAction::Backoff(
            if event is ConnectFailed {
                500
            } else {
                200
            },
        ),
        next_action is Connect,
        final(next).board.shown() == old(next).board.shown().push(NodeStatus::Reconnecting),
        !final(next).closed,
{
}

/// An attempt that goes well goes on: it connects, opens the stream, and
/// serves it. The node is shown as connected exactly from then on.
pub proof fn law_connection_goes_on(
    c: &mut Connection,
    event: ConnectionEvent,
    router: &mut Router,
    action: ConnectionAction,
)
    requires
        call_ensures(Connection::on_event, (c, event, router), action),
        !old(c).closed,
    ensures
        event is Due <==> action is Connect,
        event is ConnectSucceeded <==> action is OpenStream,
        event is Opened <==> action is Serve,
        is_setback(event) <==> action is Backoff,
        event is Shutdown <==> action is Stop,
        event is ConnectSucceeded ==> final(c).board.shown() == old(c).board.shown(),
        !(event is ConnectSucceeded) ==> final(c).board.shown().len() == old(c).board.shown().len()
            + 1 && final(c).board.shown().drop_last() == old(c).board.shown(),
        event is Opened <==> final(c).board.shown().len() > old(c).board.shown().len()
            && final(c).board.shown().last() is Connected,
        event is Shutdown <==> final(c).board.shown().len() > old(c).board.shown().len()
            && final(c).board.shown().last() is Closed,
        event is ConnectFailed || event is OpenFailed <==> final(c).board.shown().len()
            > old(c).board.shown().len() && final(c).board.shown().last() is Unreachable,
        event is StreamDied ==> final(c).board.shown().last() is Reconnecting,
        event is Due && old(c).first_attempt ==> final(c).board.shown().last() is Connecting,
        event is Due && !old(c).first_attempt ==> final(c).board.shown().last() is Reconnecting,
        final(c).board.sender() == old(c).board.sender(),
        final(c).closed <==> event is Shutdown,
        final(c).first_attempt <==> old(c).first_attempt && (event is Due
            || event is ConnectSucceeded),
{
    if !(event is ConnectSucceeded) {
        assert(final(c).board.shown().drop_last() =~= old(c).board.shown());
    }
}

/// A closed connection is closed for good: whatever happens next, it stops,
/// shows nothing, and leaves the pending calls alone.
pub proof fn law_closed_for_good(
    c: &mut Connection,
    router: &mut Router,
    action: ConnectionAction,
    next: &mut Connection,
    event: ConnectionEvent,
    next_router: &mut Router,
    next_action: ConnectionAction,
)
    requires
        call_ensures(Connection::on_event, (c, ConnectionEvent::Shutdown, router), action),
        call_ensures(Connection::on_event, (next, event, next_router), next_action),
        *old(next) == *final(c),
    ensures
        action is Stop,
        next_action is Stop,
        final(next).closed,
        final(next).board.shown() == final(c).board.shown(),
        final(next_router)@ == old(next_router)@,
{
}

/// When the stream of a node dies, every caller that waits is told that it is
/// down, and none waits any more; no other event concerns the callers.
pub proof fn law_stream_death_is_told(
    c: &mut Connection,
    event: ConnectionEvent,
    router: &mut Router,
    action: ConnectionAction,
)
    requires
        call_ensures(Connection::on_event, (c, event, router), action),
    ensures
        !old(c).closed && event is StreamDied ==> all_told(
            *old(router),
            *final(router),
            ErrorView::StreamDown,
        ),
        old(c).closed || !(event is StreamDied) ==> final(router)@ == old(router)@,
{
    if !old(c).closed && event is StreamDied {
        lemma_all_told(*old(router), *final(router), ErrorView::StreamDown);
    }
}

// ── The stream ────────────────────────────────────────────────────────────────

/// Whether the sender of a one-way call was told how it went.
pub open spec fn told_sent(ack: oneshot::Sender<Result<(), Error>>, r: Result<(), Error>) -> bool {
    exists|back: Result<(), Result<(), Error>>| #[trigger]
        call_ensures(oneshot::Sender::<Result<(), Error>>::send, (ack, r), back)
}

/// Each request goes on the wire once, in order, and unchanged; its caller
/// waits for the response under its number from then on, and who asked for it
/// is told whether the wire took it. The end of the queue is a shutdown.
pub proof fn law_sender_step(
    next: Option<OutboundRequest>,
    wire: &mut Outbox<Message>,
    router: &mut Router,
    step: SenderStep,
    other: u64,
)
    requires
        call_ensures(sender_step, (next, wire, router), step),
    ensures
        next is None <==> step is Shutdown,
        next is None ==> *final(wire) == *old(wire) && final(router)@ == old(router)@,
        next matches Some(req) ==> {
            &&& final(wire).sender() == old(wire).sender()
            &&& final(wire).sent() == old(wire).sent().push(req.msg)
            &&& req.response_tx matches Some(tx) ==> final(router)@.get(req.msg.message_seq_no)
                == Some(PendingCall::Response(tx))
            &&& req.response_tx is None || other != req.msg.message_seq_no ==> final(router)@.get(
                other,
            ) == old(router)@.get(other)
            &&& exists|sent: Result<(), mpsc::error::SendError<Message>>|
                {
                    &&& #[trigger] queued(old(wire).sender(), req.msg, sent)
                    &&& step is Sent <==> sent is Ok
                    &&& step is StreamDied <==> sent is Err
                    &&& req.send_ack matches Some(ack) ==> (sent is Ok ==> told_sent(ack, Ok(())))
                        && (sent is Err ==> told_sent(ack, Err(Error::StreamDown)))
                }
        },
{
    if let Some(req) = next {
        let sent = choose|sent: Result<(), mpsc::error::SendError<Message>>|
            {
                &&& #[trigger] queued(old(wire).sender(), req.msg, sent)
                &&& step == if sent is Ok {
                    SenderStep::Sent
                } else {
                    SenderStep::StreamDied
                }
                &&& req.send_ack matches Some(ack) ==> acknowledged(
                    ack,
                    if sent is Ok {
                        Ok(())
                    } else {
                        Err(Error::StreamDown)
                    },
                )
            };
        if let Some(ack) = req.send_ack {
            if sent is Ok {
                assert(acknowledged(ack, Ok(())));
                assert(told_sent(ack, Ok(())));
            } else {
                assert(acknowledged(ack, Err(Error::StreamDown)));
                assert(told_sent(ack, Err(Error::StreamDown)));
            }
        }
        assert(queued(old(wire).sender(), req.msg, sent));
    }
}

/// A message that comes in goes to the call with its number: as it is if its
/// status is 0, else as a transport error with that status; a status that is
/// no code counts as unknown. The mark of the end of a stream closes that
/// stream. A stream that breaks fails all calls with its status, and one that
/// ends leaves them waiting.
pub proof fn law_receive_step(inbound: Inbound, router: &mut Router, more: bool, other: u64)
    requires
        call_ensures(receive_step, (inbound, router), more),
    ensures
        more <==> inbound is Message,
        inbound matches Inbound::Message(msg) ==> {
            &&& other != msg.message_seq_no ==> final(router)@.get(other) == old(router)@.get(other)
            &&& msg.status_code == 0xFFFF_FFFEu32 ==> final(router)@.get(msg.message_seq_no)
                is None
            &&& msg.status_code == 0 ==> delivered(
                *old(router),
                *final(router),
                msg.message_seq_no,
                Ok(msg),
            )
            &&& msg.status_code != 0 && msg.status_code != 0xFFFF_FFFEu32 ==> exists|
                status: Status,
            |
                {
                    &&& status@.message == msg.status_message@
                    &&& status@.text == status_display(status@.code, msg.status_message@)
                    &&& msg.status_code <= 16 ==> status@.code == msg.status_code
                    &&& msg.status_code > 16 ==> status@.code == 2
                    &&& #[trigger] delivered(
                        *old(router),
                        *final(router),
                        msg.message_seq_no,
                        Err(Error::Transport(status)),
                    )
                }
        },
        inbound is End ==> final(router)@ == old(router)@,
        inbound matches Inbound::Failed(status) ==> all_told(
            *old(router),
            *final(router),
            ErrorView::Transport(status@),
        ),
{
    match inbound {
        Inbound::Message(msg) => {
            if msg.status_code == 0 {
                lemma_delivered(*old(router), *final(router), msg.message_seq_no, Ok(msg));
            } else if msg.status_code != 0xFFFF_FFFEu32 {
                let e = choose|e: Error|
                    {
                        &&& e@ == status_error(
                            msg.status_code,
                            msg.status_message@,
                        )
                        &&& #[trigger] delivery(
                            old(router)@,
                            final(router)@,
                            msg.message_seq_no,
                            Err(e),
                        )
                    };
                lemma_delivered(*old(router), *final(router), msg.message_seq_no, Err(e));
                if let Error::Transport(status) = e {
                    assert(delivered(
                        *old(router),
                        *final(router),
                        msg.message_seq_no,
                        Err(Error::Transport(status)),
                    ));
                }
            }
        },
        Inbound::End => {},
        Inbound::Failed(status) => {
            lemma_all_told(*old(router), *final(router), ErrorView::Transport(status@));
        },
    }
}

/// The URI of a node is its address, after `http://` unless the address names
/// its scheme.
pub proof fn law_endpoint_uri(addr: &str, r: String)
    requires
        call_ensures(endpoint_uri, (addr,), r),
    ensures
        (exists|rest: Seq<char>| addr@ == #[trigger] ("http://"@ + rest)) || (exists|
            rest: Seq<char>,
        |
            addr@ == #[trigger] ("https://"@ + rest)) ==> r@ == addr@,
        !(exists|rest: Seq<char>| addr@ == #[trigger] ("http://"@ + rest)) && !(exists|
            rest: Seq<char>,
        |
            addr@ == #[trigger] ("https://"@ + rest)) ==> r@ == "http://"@ + addr@,
{
    lemma_begins_with(addr@, "http://"@);
    lemma_begins_with(addr@, "https://"@);
}

proof fn lemma_begins_with(s: Seq<char>, prefix: Seq<char>)
    ensures
        begins_with(s, prefix) <==> exists|rest: Seq<char>|
            s == #[trigger] (prefix + rest),
{
    if begins_with(s, prefix) {
        assert(s =~= prefix + s.skip(prefix.len() as int));
    }
    if exists|rest: Seq<char>| s == #[trigger] (prefix + rest) {
        let rest = choose|rest: Seq<char>| s == #[trigger] (prefix + rest);
        assert(s.take(prefix.len() as int) =~= prefix);
    }
}

// ── Ends of channels ──────────────────────────────────────────────────────────

/// What is put into a queue through an end is put there once, behind what was
/// put there before; a new end has put nothing there.
pub proof fn law_queues<T>(
    made: (Outbox<T>, mpsc::UnboundedReceiver<T>),
    tx: mpsc::UnboundedSender<T>,
    over: Outbox<T>,
    out: &mut Outbox<T>,
    item: T,
    r: Result<(), mpsc::error::SendError<T>>,
    shared: (Mailbox<T>, Ledger<T>, mpsc::UnboundedReceiver<T>),
    mailbox: Mailbox<T>,
    ledger: &mut Ledger<T>,
    put: Result<(), mpsc::error::SendError<T>>,
)
    requires
        call_ensures(Outbox::<T>::new, (), made),
        call_ensures(Outbox::<T>::over, (tx,), over),
        call_ensures(Outbox::<T>::send, (out, item), r),
        call_ensures(Mailbox::<T>::new, (), shared),
        old(ledger).queue() == mailbox.queue(),
        call_ensures(Mailbox::<T>::send, (&mailbox, ledger, item), put),
    ensures
        queue_made(made.0.sender(), made.1) && made.0.sent().len() == 0,
        over.sender() == tx && over.sent().len() == 0,
        final(out).sent() == old(out).sent().push(item),
        final(out).sender() == old(out).sender(),
        queued(old(out).sender(), item, r),
        queue_made(shared.0.queue(), shared.2),
        shared.1.queue() == shared.0.queue() && shared.1.put().len() == 0,
        final(ledger).put() == old(ledger).put().push(item),
        final(ledger).queue() == old(ledger).queue(),
        queued(mailbox.queue(), item, put),
{
}

/// A board shows each value once, after those before it; its viewer reads what
/// it shows.
pub proof fn law_boards<T: Copy>(
    init: T,
    made: (Board<T>, Viewer<T>, watch::Receiver<T>),
    board: &mut Board<T>,
    value: T,
    read: T,
    rx: watch::Receiver<T>,
)
    requires
        call_ensures(Board::<T>::new, (init,), made),
        call_ensures(Board::<T>::set, (board, value), ()),
        call_ensures(Viewer::<T>::current, (&made.1,), read),
        call_ensures(Viewer::<T>::subscribe, (&made.1,), rx),
    ensures
        value_made(made.0.sender(), made.2, init) && made.0.shown().len() == 0,
        value_read(made.0.sender(), read),
        subscribed(made.0.sender(), rx),
        final(board).shown() == old(board).shown().push(value),
        final(board).sender() == old(board).sender(),
{
}

} // verus!
