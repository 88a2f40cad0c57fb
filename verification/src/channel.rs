//! The channel to a node: its send queue, its sequence numbers, its pending
//! calls and its connection.
//!
//! A node has one stream, which its background task opens, serves and reopens.
//! The task itself waits and connects; what it does with each thing that
//! happens is decided here.

use vstd::prelude::*;

use tokio::sync::{mpsc, oneshot, watch};

use crate::error::{Error, ErrorView};
use crate::message::{Message, STATUS_STREAM_DONE};
use crate::node::NodeStatus;
use crate::record::{
    queue_made, queued, subscribed, value_made, value_read, Board, Ledger, Mailbox, Outbox, Viewer,
};
use crate::router::{all_cancelled, delivery, stream_registered, PendingCall, Router};
use crate::status::{code_of, plain_status, Status};
use crate::text::{begins_with, starts_with};

verus! {

// ── Requests ──────────────────────────────────────────────────────────────────

/// A request enqueued on a node's send channel.
pub struct OutboundRequest {
    /// The wire envelope to send.
    pub msg: Message,
    /// For two-way calls: where the response goes. `None` for one-way calls.
    pub response_tx: Option<oneshot::Sender<Result<Message, Error>>>,
    /// For one-way calls that wait: notified when the message has left the
    /// send queue. `None` for fire-and-forget.
    pub send_ack: Option<oneshot::Sender<Result<(), Error>>>,
}

/// The calls on the stream of a node: the last sequence number that was
/// given out, who waits for an answer, and the ledger of the send queue.
pub struct Calls {
    pub seq: u64,
    pub router: Router,
    pub ledger: Ledger<OutboundRequest>,
}

/// Whether `calls` are those of a node whose send queue is `queue`, and there
/// is none yet.
pub open spec fn no_calls(calls: Calls, queue: mpsc::UnboundedSender<OutboundRequest>) -> bool {
    &&& calls.seq == 0
    &&& calls.router@ == Map::<u64, PendingCall>::empty()
    &&& calls.ledger.queue() == queue
    &&& calls.ledger.put() == Seq::<OutboundRequest>::empty()
}

impl Calls {
    /// No call yet.
    pub fn new(router: Router, ledger: Ledger<OutboundRequest>) -> (r: Self)
        ensures
            r.seq == 0,
            r.router == router,
            r.ledger == ledger,
    {
        Calls { seq: 0, router, ledger }
    }

    /// Allocate the next sequence number of this node's stream.
    pub fn next_seq(&mut self) -> (seq: u64)
        requires
            old(self).seq < u64::MAX,
        ensures
            seq_allocated(*old(self), *final(self), seq),
    {
        self.seq = self.seq + 1;
        self.seq
    }

    /// Pre-register a streaming call and return the receiver of its
    /// responses. Must come before the request is enqueued, so that the entry
    /// exists before any response can arrive.
    pub fn register_stream(&mut self, seq: u64) -> (rx: mpsc::UnboundedReceiver<
        Result<Message, Error>,
    >)
        ensures
            final(self).seq == old(self).seq,
            final(self).ledger == old(self).ledger,
            stream_registered(old(self).router@, final(self).router@, seq, rx),
    {
        self.router.register_stream(seq)
    }
}

/// The calls before and after the sequence number `seq` was given out.
pub open spec fn seq_allocated(before: Calls, after: Calls, seq: u64) -> bool {
    &&& seq == before.seq + 1
    &&& after.seq == seq
    &&& after.router == before.router
    &&& after.ledger == before.ledger
}

/// No sequence number is given out twice: a later one is larger.
pub proof fn lemma_seqs_increase(
    before: Calls,
    after: Calls,
    seq: u64,
    later_before: Calls,
    later_after: Calls,
    later: u64,
)
    requires
        seq_allocated(before, after, seq),
        after.seq <= later_before.seq,
        seq_allocated(later_before, later_after, later),
    ensures
        seq < later,
        before.seq < after.seq < later_after.seq,
{
}

// ── Channel ───────────────────────────────────────────────────────────────────

/// Per-node logical channel: the sending end of the queue, the status, and a
/// handle `S` to the [`Calls`] that it shares with its background task.
pub struct NodeChannel<S> {
    pub mailbox: Mailbox<OutboundRequest>,
    /// Current connectivity status: the task shows it, callers read or
    /// subscribe.
    pub status: Viewer<NodeStatus>,
    pub calls: S,
}

/// What the background task of a node works with.
pub struct NodeTask {
    /// The receiving end of the send queue.
    pub send_rx: mpsc::UnboundedReceiver<OutboundRequest>,
    pub connection: Connection,
}

/// Whether `task` is to serve `channel`: it takes the requests off the send
/// queue, sets the status, which is `Connecting`, and has done nothing yet.
pub open spec fn serves<S>(task: NodeTask, channel: NodeChannel<S>) -> bool {
    &&& queue_made(channel.mailbox.queue(), task.send_rx)
    &&& exists|rx: watch::Receiver<NodeStatus>| #[trigger]
        value_made(channel.status.sender(), rx, NodeStatus::Connecting)
    &&& task.connection.board.sender() == channel.status.sender()
    &&& task.connection.course() == fresh_course()
}

/// Whether `req` was put into the send queue `tx`, with outcome `r`.
pub open spec fn enqueued(
    tx: mpsc::UnboundedSender<OutboundRequest>,
    req: OutboundRequest,
    r: Result<(), Error>,
) -> bool {
    exists|sent: Result<(), mpsc::error::SendError<OutboundRequest>>|
        {
            &&& #[trigger] queued(tx, req, sent)
            &&& r == if sent is Ok {
                Ok(())
            } else {
                Err::<(), Error>(Error::NodeClosed)
            }
        }
}

impl<S> NodeChannel<S> {
    /// The channel to a node, and the task that is to serve it. The status is
    /// `Connecting` until the task says otherwise. `share` makes the handle to
    /// the calls of the node, of which there are none yet.
    pub fn connect<F: FnOnce(Calls) -> S>(share: F) -> (r: (Self, NodeTask))
        requires
            forall|calls: Calls| call_requires(share, (calls,)),
        ensures
            exists|calls: Calls| #[trigger]
                call_ensures(share, (calls,), r.0.calls) && no_calls(calls, r.0.mailbox.queue()),
            serves(r.1, r.0),
    {
        let (mailbox, ledger, send_rx) = Mailbox::new();
        let none = Calls::new(Router::new(), ledger);
        let calls = share(none);
        let (board, status, status_rx) = Board::new(NodeStatus::Connecting);
        let connection = Connection { board, first_attempt: true, closed: false };
        let channel = NodeChannel { mailbox, status, calls };
        assert(value_made(channel.status.sender(), status_rx, NodeStatus::Connecting));
        let r = (channel, NodeTask { send_rx, connection });
        assert(call_ensures(share, (none,), r.0.calls) && no_calls(none, r.0.mailbox.queue()));
        r
    }

    /// Enqueue a request. `calls` are those of the node. Returns
    /// `Err(Error::NodeClosed)` if the task is gone.
    pub fn enqueue(&self, calls: &mut Calls, req: OutboundRequest) -> (r: Result<(), Error>)
        requires
            old(calls).ledger.queue() == self.mailbox.queue(),
        ensures
            enqueued(self.mailbox.queue(), req, r),
            final(calls).ledger.queue() == old(calls).ledger.queue(),
            final(calls).ledger.put() == old(calls).ledger.put().push(req),
            final(calls).seq == old(calls).seq,
            final(calls).router == old(calls).router,
    {
        let sent = self.mailbox.send(&mut calls.ledger, req);
        assert(queued(self.mailbox.queue(), req, sent));
        match sent {
            Ok(()) => Ok(()),
            Err(_) => Err(Error::NodeClosed),
        }
    }

    /// The node's current connectivity status, without blocking.
    pub fn current_status(&self) -> (r: NodeStatus)
        ensures
            value_read(self.status.sender(), r),
    {
        self.status.current()
    }

    /// A new receiver of this node's status.
    pub fn subscribe_status(&self) -> (r: watch::Receiver<NodeStatus>)
        ensures
            subscribed(self.status.sender(), r),
    {
        self.status.subscribe()
    }
}

// ── Connection ────────────────────────────────────────────────────────────────

/// The connection of a node, as its background task drives it.
pub struct Connection {
    /// Where the status of the node is shown.
    pub board: Board<NodeStatus>,
    /// No attempt to connect has ended yet.
    pub first_attempt: bool,
    /// The send queue was closed: no further attempts.
    pub closed: bool,
}

/// What happens to the connection of a node.
#[derive(Debug, Clone, Copy, PartialEq, Eq, Structural)]
pub enum ConnectionEvent {
    /// It is time to connect.
    Due,
    /// The attempt to connect failed.
    ConnectFailed,
    /// The node is connected; the stream is not open yet.
    ConnectSucceeded,
    /// The stream could not be opened.
    OpenFailed,
    /// The stream is open.
    Opened,
    /// The stream broke.
    StreamDied,
    /// The send queue was closed.
    Shutdown,
}

/// What the background task does next. Whatever it does, it also watches its
/// send queue: once the queue is closed and nothing is left in it, that is a
/// [`Shutdown`][ConnectionEvent::Shutdown].
#[derive(Debug, Clone, Copy, PartialEq, Eq, Structural)]
pub enum ConnectionAction {
    /// Connect to the node.
    Connect,
    /// Open the stream.
    OpenStream,
    /// Serve the stream until it ends.
    Serve,
    /// Wait this many milliseconds; the next attempt is then due.
    Backoff(u64),
    /// End the task.
    Stop,
}

/// Milliseconds between a failed attempt to connect and the next attempt.
pub const CONNECT_BACKOFF_MS: u64 = 500;

/// Milliseconds between the end of a stream, or the failure to open one, and
/// the next attempt.
pub const STREAM_BACKOFF_MS: u64 = 200;

/// The status that an event brings about, if any. The first attempt is
/// `Connecting`, every later one `Reconnecting`.
pub open spec fn status_after(first_attempt: bool, event: ConnectionEvent) -> Option<NodeStatus> {
    match event {
        ConnectionEvent::Due => if first_attempt {
            Some(NodeStatus::Connecting)
        } else {
            Some(NodeStatus::Reconnecting)
        },
        ConnectionEvent::ConnectFailed => Some(NodeStatus::Unreachable),
        ConnectionEvent::ConnectSucceeded => None,
        ConnectionEvent::OpenFailed => Some(NodeStatus::Unreachable),
        ConnectionEvent::Opened => Some(NodeStatus::Connected),
        ConnectionEvent::StreamDied => Some(NodeStatus::Reconnecting),
        ConnectionEvent::Shutdown => Some(NodeStatus::Closed),
    }
}

/// What is done after an event.
pub open spec fn action_after(event: ConnectionEvent) -> ConnectionAction {
    match event {
        ConnectionEvent::Due => ConnectionAction::Connect,
        ConnectionEvent::ConnectFailed => ConnectionAction::Backoff(CONNECT_BACKOFF_MS),
        ConnectionEvent::ConnectSucceeded => ConnectionAction::OpenStream,
        ConnectionEvent::OpenFailed => ConnectionAction::Backoff(STREAM_BACKOFF_MS),
        ConnectionEvent::Opened => ConnectionAction::Serve,
        ConnectionEvent::StreamDied => ConnectionAction::Backoff(STREAM_BACKOFF_MS),
        ConnectionEvent::Shutdown => ConnectionAction::Stop,
    }
}

/// Whether an event ends an attempt to connect.
pub open spec fn ends_attempt(event: ConnectionEvent) -> bool {
    !(event is Due) && !(event is ConnectSucceeded)
}

/// The state of a connection: whether no attempt to connect has ended yet,
/// whether the send queue was closed, and the statuses that were shown.
#[verifier::ext_equal]
pub struct Course {
    pub first_attempt: bool,
    pub closed: bool,
    pub shown: Seq<NodeStatus>,
}

/// Nothing has happened.
pub open spec fn fresh_course() -> Course {
    Course { first_attempt: true, closed: false, shown: seq![] }
}

/// The state after an event: the status that the event brings about is shown
/// last. Once the send queue was closed nothing happens any more.
pub open spec fn advanced(before: Course, event: ConnectionEvent) -> Course {
    if before.closed {
        before
    } else {
        Course {
            first_attempt: before.first_attempt && !ends_attempt(event),
            closed: event is Shutdown,
            shown: match status_after(before.first_attempt, event) {
                Some(status) => before.shown.push(status),
                None => before.shown,
            },
        }
    }
}

/// The state after a whole run of events.
pub open spec fn course_of(events: Seq<ConnectionEvent>) -> Course
    decreases events.len(),
{
    if events.len() == 0 {
        fresh_course()
    } else {
        advanced(course_of(events.drop_last()), events.last())
    }
}

impl Connection {
    /// The state of the connection.
    pub open spec fn course(&self) -> Course {
        Course {
            first_attempt: self.first_attempt,
            closed: self.closed,
            shown: self.board.shown(),
        }
    }

    /// Reacts to an event: shows the status of the node, cancels the pending
    /// calls when the stream died, and says what to do next. Once the send
    /// queue was closed nothing happens any more.
    pub fn on_event(&mut self, event: ConnectionEvent, router: &mut Router) -> (action:
        ConnectionAction)
        ensures
            final(self).board.sender() == old(self).board.sender(),
            final(self).course() == advanced(old(self).course(), event),
            action == if old(self).closed {
                ConnectionAction::Stop
            } else {
                action_after(event)
            },
            if !old(self).closed && event is StreamDied {
                all_cancelled(old(router)@, final(router)@, ErrorView::StreamDown)
            } else {
                final(router)@ == old(router)@
            },
    {
        if self.closed {
            return ConnectionAction::Stop;
        }
        match event {
            ConnectionEvent::Due => {
                if self.first_attempt {
                    self.board.set(NodeStatus::Connecting);
                } else {
                    self.board.set(NodeStatus::Reconnecting);
                }
                ConnectionAction::Connect
            },
            ConnectionEvent::ConnectFailed => {
                self.board.set(NodeStatus::Unreachable);
                self.first_attempt = false;
                ConnectionAction::Backoff(CONNECT_BACKOFF_MS)
            },
            ConnectionEvent::ConnectSucceeded => ConnectionAction::OpenStream,
            ConnectionEvent::OpenFailed => {
                self.board.set(NodeStatus::Unreachable);
                self.first_attempt = false;
                ConnectionAction::Backoff(STREAM_BACKOFF_MS)
            },
            ConnectionEvent::Opened => {
                self.board.set(NodeStatus::Connected);
                self.first_attempt = false;
                ConnectionAction::Serve
            },
            ConnectionEvent::StreamDied => {
                self.board.set(NodeStatus::Reconnecting);
                self.first_attempt = false;
                router.cancel_all(Error::StreamDown);
                ConnectionAction::Backoff(STREAM_BACKOFF_MS)
            },
            ConnectionEvent::Shutdown => {
                self.board.set(NodeStatus::Closed);
                self.first_attempt = false;
                self.closed = true;
                ConnectionAction::Stop
            },
        }
    }
}

/// What a connection shows is what its events call for: after each event the
/// connection is in the state of the events so far.
pub proof fn lemma_connection_follows_events(
    states: Seq<Connection>,
    events: Seq<ConnectionEvent>,
)
    requires
        states.len() == events.len() + 1,
        states[0].course() == fresh_course(),
        forall|i: int|
            0 <= i < events.len() ==> (#[trigger] states[i + 1]).course() == advanced(
                states[i].course(),
                events[i],
            ),
    ensures
        states.last().course() == course_of(events),
    decreases events.len(),
{
    if events.len() > 0 {
        let n = events.len() - 1;
        let before = states.drop_last();
        assert forall|i: int| 0 <= i < n implies (#[trigger] before[i + 1]).course() == advanced(
            before[i].course(),
            events.drop_last()[i],
        ) by {
            assert(before[i + 1] == states[i + 1]);
        }
        lemma_connection_follows_events(before, events.drop_last());
        assert(states[n + 1].course() == advanced(states[n].course(), events[n]));
    }
}

/// `Closed` is final: a connection shows no status after it, whatever happens.
pub proof fn lemma_closed_is_final(events: Seq<ConnectionEvent>, i: int)
    requires
        0 <= i < course_of(events).shown.len(),
        course_of(events).shown[i] is Closed,
    ensures
        i == course_of(events).shown.len() - 1,
        course_of(events).closed,
    decreases events.len(),
{
    let before = course_of(events.drop_last());
    if i < before.shown.len() {
        lemma_closed_is_final(events.drop_last(), i);
    }
}

/// `Connecting` is the status of the first attempt alone: once another status
/// was shown, a connection never shows `Connecting` again.
pub proof fn lemma_connecting_comes_first(events: Seq<ConnectionEvent>, i: int, j: int)
    requires
        0 <= i < j < course_of(events).shown.len(),
        course_of(events).shown[j] is Connecting,
    ensures
        course_of(events).shown[i] is Connecting,
    decreases events.len(),
{
    let before = course_of(events.drop_last());
    if j < before.shown.len() {
        lemma_connecting_comes_first(events.drop_last(), i, j);
    } else {
        lemma_first_attempt_shows_connecting(events.drop_last(), i);
    }
}

/// Until an attempt to connect has ended, nothing but `Connecting` was shown.
proof fn lemma_first_attempt_shows_connecting(events: Seq<ConnectionEvent>, i: int)
    requires
        0 <= i < course_of(events).shown.len(),
        course_of(events).first_attempt,
    ensures
        course_of(events).shown[i] is Connecting,
    decreases events.len(),
{
    if i < course_of(events.drop_last()).shown.len() {
        lemma_first_attempt_shows_connecting(events.drop_last(), i);
    }
}

/// Whether an event can come of an action.
pub open spec fn comes_of(action: ConnectionAction, event: ConnectionEvent) -> bool {
    match action {
        ConnectionAction::Connect => event is ConnectFailed || event is ConnectSucceeded
            || event is Shutdown,
        ConnectionAction::OpenStream => event is OpenFailed || event is Opened || event is Shutdown,
        ConnectionAction::Serve => event is StreamDied || event is Shutdown,
        ConnectionAction::Backoff(_) => event is Due || event is Shutdown,
        ConnectionAction::Stop => false,
    }
}

/// Whether a run of events is one of a task that does what the connection
/// says: the first attempt is due at once, and every later event comes of the
/// action before it.
pub open spec fn task_run(events: Seq<ConnectionEvent>) -> bool {
    &&& events.len() > 0 ==> events[0] is Due
    &&& forall|i: int|
        0 < i < events.len() ==> comes_of(action_after(events[i - 1]), #[trigger] events[i])
}

/// Which status can come after which.
pub open spec fn may_follow(before: NodeStatus, after: NodeStatus) -> bool {
    match before {
        NodeStatus::Connecting => after is Connected || after is Unreachable || after is Closed,
        NodeStatus::Connected => after is Reconnecting || after is Closed,
        NodeStatus::Reconnecting => !(after is Connecting),
        NodeStatus::Unreachable => after is Reconnecting || after is Closed,
        NodeStatus::Closed => false,
    }
}

/// Whether a node shows `status` after `event`; `first` is whether its first
/// attempt to connect is the last one so far.
pub open spec fn shows(event: ConnectionEvent, first: bool, status: NodeStatus) -> bool {
    match event {
        ConnectionEvent::Due => status == if first {
            NodeStatus::Connecting
        } else {
            NodeStatus::Reconnecting
        },
        ConnectionEvent::ConnectSucceeded => status == if first {
            NodeStatus::Connecting
        } else {
            NodeStatus::Reconnecting
        },
        ConnectionEvent::ConnectFailed => status is Unreachable,
        ConnectionEvent::OpenFailed => status is Unreachable,
        ConnectionEvent::Opened => status is Connected,
        ConnectionEvent::StreamDied => status is Reconnecting,
        ConnectionEvent::Shutdown => status is Closed,
    }
}

/// What a node shows is what happened last: `Connecting` is the first attempt
/// to connect, `Reconnecting` a later one or a stream that died, `Unreachable`
/// an attempt that failed, `Connected` an open stream, and `Closed` a closed
/// send queue. The first attempt takes up to two events.
pub proof fn lemma_status_tells_the_state(events: Seq<ConnectionEvent>)
    requires
        task_run(events),
        events.len() > 0,
    ensures
        course_of(events).shown.len() > 0,
        shows(events.last(), events.len() <= 2, course_of(events).shown.last()),
        course_of(events).closed == (events.last() is Shutdown),
        course_of(events).first_attempt == (events.len() <= 2 && !ends_attempt(events.last())),
    decreases events.len(),
{
    let before = events.drop_last();
    if before.len() == 0 {
        assert(before =~= Seq::<ConnectionEvent>::empty());
        assert(course_of(before) == fresh_course());
        assert(events.last() is Due);
    } else {
        lemma_task_run_before(events);
        lemma_status_tells_the_state(before);
        if before.len() == 1 {
            assert(before.last() is Due);
        }
    }
}

/// The events before the last one are a run of the task too, and the last one
/// comes of the action before it.
proof fn lemma_task_run_before(events: Seq<ConnectionEvent>)
    requires
        task_run(events),
        events.len() > 1,
    ensures
        task_run(events.drop_last()),
        comes_of(action_after(events.drop_last().last()), events.last()),
{
    let before = events.drop_last();
    assert forall|i: int| 0 < i < before.len() implies comes_of(
        action_after(before[i - 1]),
        #[trigger] before[i],
    ) by {
        assert(comes_of(action_after(events[i - 1]), events[i]));
    }
    let n = events.len() - 1;
    assert(comes_of(action_after(events[n - 1]), events[n]));
}

/// The order of the statuses: `Connecting` comes first and only once, a failed
/// attempt is `Unreachable` and the next one `Reconnecting`, `Connected` is
/// followed by `Reconnecting` or `Closed`, and nothing follows `Closed`.
pub proof fn lemma_status_order(events: Seq<ConnectionEvent>, i: int)
    requires
        task_run(events),
        0 <= i < course_of(events).shown.len(),
    ensures
        course_of(events).shown[i] is Connecting <==> i == 0,
        i > 0 ==> may_follow(course_of(events).shown[i - 1], course_of(events).shown[i]),
    decreases events.len(),
{
    let before = events.drop_last();
    let shown = course_of(before).shown;
    if before.len() == 0 {
        assert(before =~= Seq::<ConnectionEvent>::empty());
        assert(course_of(before) == fresh_course());
    } else {
        lemma_task_run_before(events);
        lemma_status_tells_the_state(before);
        if i < shown.len() {
            lemma_status_order(before, i);
        } else {
            lemma_status_order(before, i - 1);
            assert(before.len() >= 2 || before.last() is Due);
        }
    }
}

// ── Endpoint ──────────────────────────────────────────────────────────────────

/// The URI of a node: its address, with `http://` before it unless it names
/// its scheme.
pub open spec fn uri_of(addr: Seq<char>) -> Seq<char> {
    if begins_with(addr, "http://"@) || begins_with(addr, "https://"@) {
        addr
    } else {
        "http://"@ + addr
    }
}

/// The URI to connect to.
pub fn endpoint_uri(addr: &str) -> (r: String)
    ensures
        r@ == uri_of(addr@),
{
    if starts_with(addr, "http://") || starts_with(addr, "https://") {
        addr.to_string()
    } else {
        "http://".to_string().concat(addr)
    }
}

// ── Sending ───────────────────────────────────────────────────────────────────

/// What became of one turn of the sender.
#[derive(Debug, Clone, Copy, PartialEq, Eq, Structural)]
pub enum SenderStep {
    /// The request is on the wire.
    Sent,
    /// The stream died.
    StreamDied,
    /// The send queue was closed.
    Shutdown,
}

/// The registry after the request was taken off the queue: a two-way call
/// waits for its response from now on.
pub open spec fn registered(
    before: Map<u64, PendingCall>,
    req: OutboundRequest,
) -> Map<u64, PendingCall> {
    match req.response_tx {
        Some(tx) => before.insert(req.msg.message_seq_no, PendingCall::Response(tx)),
        None => before,
    }
}

/// Whether the sender of a one-way call was told the outcome `r`.
pub open spec fn acknowledged(ack: oneshot::Sender<Result<(), Error>>, r: Result<(), Error>) -> bool {
    exists|back: Result<(), Result<(), Error>>| #[trigger]
        call_ensures(oneshot::Sender::<Result<(), Error>>::send, (ack, r), back)
}

/// One turn of the sender: registers the request that came off the queue,
/// puts its message on the wire, and acknowledges it. `None` is a queue that
/// was closed.
pub fn sender_step(
    next: Option<OutboundRequest>,
    wire: &mut Outbox<Message>,
    router: &mut Router,
) -> (step: SenderStep)
    ensures
        match next {
            None => {
                &&& step is Shutdown
                &&& final(router)@ == old(router)@
                &&& *final(wire) == *old(wire)
            },
            Some(req) => {
                &&& final(router)@ == registered(old(router)@, req)
                &&& final(wire).sender() == old(wire).sender()
                &&& final(wire).sent() == old(wire).sent().push(req.msg)
                &&& exists|sent: Result<(), mpsc::error::SendError<Message>>|
                    {
                        &&& #[trigger] queued(old(wire).sender(), req.msg, sent)
                        &&& step == if sent is Ok {
                            SenderStep::Sent
                        } else {
                            SenderStep::StreamDied
                        }
                        &&& req.send_ack matches Some(ack) ==> acknowledged(
                            ack,
                            if sent is Ok {
                                Ok(())
                            } else {
                                Err(Error::StreamDown)
                            },
                        )
                    }
            },
        },
{
    let req = match next {
        None => return SenderStep::Shutdown,
        Some(req) => req,
    };
    let seq: u64 = req.msg.message_seq_no;
    if let Some(tx) = req.response_tx {
        router.register_with_sender(seq, tx);
    }
    let sent = wire.send(req.msg);
    assert(queued(old(wire).sender(), req.msg, sent));
    match sent {
        Err(_) => {
            if let Some(ack) = req.send_ack {
                let told = ack.send(Err(Error::StreamDown));
            }
            SenderStep::StreamDied
        },
        Ok(()) => {
            if let Some(ack) = req.send_ack {
                let told = ack.send(Ok(()));
            }
            SenderStep::Sent
        },
    }
}

/// A caller whose request could not be sent is not left waiting: its call is
/// pending when the stream dies, and is then cancelled with all the others.
pub proof fn lemma_unsent_call_is_pending(
    before: Map<u64, PendingCall>,
    req: OutboundRequest,
    tx: oneshot::Sender<Result<Message, Error>>,
)
    requires
        req.response_tx == Some(tx),
    ensures
        registered(before, req).contains_key(req.msg.message_seq_no),
        registered(before, req)[req.msg.message_seq_no] == PendingCall::Response(tx),
{
}

// ── Receiving ─────────────────────────────────────────────────────────────────

/// What comes in on the stream of a node.
pub enum Inbound {
    Message(Message),
    /// The peer closed the stream.
    End,
    /// The stream broke.
    Failed(Status),
}

/// The error that a message with a status other than success stands for.
pub open spec fn status_error(code: u32, message: Seq<char>) -> ErrorView {
    ErrorView::Transport(plain_status(code_of(code as int) as i32, message))
}

/// Reacts to what came in on the stream: delivers a response to its caller,
/// closes a stream of responses, or cancels every pending call. Returns
/// whether there is more to receive.
pub fn receive_step(inbound: Inbound, router: &mut Router) -> (more: bool)
    ensures
        more == (inbound is Message),
        match inbound {
            Inbound::Message(msg) => if msg.status_code == STATUS_STREAM_DONE {
                final(router)@ == old(router)@.remove(msg.message_seq_no)
            } else if msg.status_code == 0 {
                delivery(old(router)@, final(router)@, msg.message_seq_no, Ok(msg))
            } else {
                exists|e: Error|
                    {
                        &&& e@ == status_error(msg.status_code, msg.status_message@)
                        &&& #[trigger] delivery(
                            old(router)@,
                            final(router)@,
                            msg.message_seq_no,
                            Err(e),
                        )
                    }
            },
            Inbound::End => final(router)@ == old(router)@,
            Inbound::Failed(status) => {
                all_cancelled(old(router)@, final(router)@, ErrorView::Transport(status@))
            },
        },
{
    match inbound {
        Inbound::Message(msg) => {
            let seq: u64 = msg.message_seq_no;
            let code: u32 = msg.status_code;
            if code == STATUS_STREAM_DONE {
                router.close_stream(seq);
            } else if code == 0 {
                router.deliver(seq, Ok(msg));
            } else {
                assert(code <= 16 ==> code as i32 == code) by (bit_vector);
                assert(code > 16 ==> (code as i32) < 0 || (code as i32) > 16) by (bit_vector);
                let status = Status::new(
                    #[verifier::truncate]
                    (code as i32),
                    msg.status_message.clone(),
                );
                let e = Error::Transport(status);
                assert(e@ == status_error(msg.status_code, msg.status_message@));
                router.deliver(seq, Err(e));
            }
            true
        },
        Inbound::End => false,
        Inbound::Failed(status) => {
            router.cancel_all(Error::Transport(status));
            false
        },
    }
}

} // verus!
