//! The order in which a server dispatches the messages of a stream.
//!
//! Each stream has an ordering lock. The loop of the stream takes the lock,
//! then the next message, and hands both to the task that dispatches the
//! message: from there the lock travels in the context of the handler. The
//! message lets go of the lock when its handler releases the context, or when
//! the context is dropped: after the handler has returned, or because the
//! message was rejected, could not be decoded, or has no handler.

use vstd::prelude::*;

verus! {

/// What happens to the loop of a stream.
#[derive(Debug, Clone, Copy, PartialEq, Eq, Structural)]
pub enum LoopEvent {
    /// The stream was opened.
    Started,
    /// The loop got the ordering lock.
    Locked,
    /// The next message arrived.
    Received,
    /// A task was started that dispatches the message, with the lock.
    Dispatched,
    /// The client closed the stream, or it broke.
    Ended,
}

/// What the loop of a stream does next.
#[derive(Debug, Clone, Copy, PartialEq, Eq, Structural)]
pub enum LoopAction {
    /// Wait for the ordering lock.
    Lock,
    /// Wait for the next message.
    Receive,
    /// Start a task that dispatches the message, and hand it the lock.
    Dispatch,
    /// End the loop.
    Stop,
}

/// What is done after an event.
pub open spec fn loop_action(event: LoopEvent) -> LoopAction {
    match event {
        LoopEvent::Started => LoopAction::Lock,
        LoopEvent::Locked => LoopAction::Receive,
        LoopEvent::Received => LoopAction::Dispatch,
        LoopEvent::Dispatched => LoopAction::Lock,
        LoopEvent::Ended => LoopAction::Stop,
    }
}

/// What the loop of a stream does after an event. The lock comes before the
/// message: no message is taken while the one before it holds the lock.
pub fn stream_loop(event: LoopEvent) -> (r: LoopAction)
    ensures
        r == loop_action(event),
{
    match event {
        LoopEvent::Started => LoopAction::Lock,
        LoopEvent::Locked => LoopAction::Receive,
        LoopEvent::Received => LoopAction::Dispatch,
        LoopEvent::Dispatched => LoopAction::Lock,
        LoopEvent::Ended => LoopAction::Stop,
    }
}

/// Whether an event can come of an action.
pub open spec fn loop_event_of(action: LoopAction, event: LoopEvent) -> bool {
    match action {
        LoopAction::Lock => event is Locked,
        LoopAction::Receive => event is Received || event is Ended,
        LoopAction::Dispatch => event is Dispatched,
        LoopAction::Stop => false,
    }
}

// ── Runs ──────────────────────────────────────────────────────────────────────

/// What happens on a stream.
pub enum StreamEvent {
    /// Something happens to the loop.
    Loop(LoopEvent),
    /// The message with this number lets go of the lock.
    LetGo(nat),
}

/// Who holds the ordering lock.
pub enum Holder {
    Nobody,
    Loop,
    Message(nat),
}

/// The state of a stream.
pub struct Turn {
    /// What the loop does; `None` before the stream was opened.
    pub action: Option<LoopAction>,
    pub holder: Holder,
    /// How many messages have arrived.
    pub received: nat,
    /// How many messages were dispatched. They are numbered from 0, in order.
    pub dispatched: nat,
}

/// Whether an event can happen: the loop does what it is told, the lock is
/// given to one holder at a time, and only its holder lets go of it.
pub open spec fn possible(turn: Turn, event: StreamEvent) -> bool {
    match event {
        StreamEvent::Loop(e) => {
            &&& match turn.action {
                None => e is Started,
                Some(action) => loop_event_of(action, e),
            }
            &&& e is Locked ==> turn.holder is Nobody
        },
        StreamEvent::LetGo(i) => turn.holder == Holder::Message(i),
    }
}

/// The state after an event.
pub open spec fn turn_after(turn: Turn, event: StreamEvent) -> Turn {
    match event {
        StreamEvent::LetGo(_) => Turn { holder: Holder::Nobody, ..turn },
        StreamEvent::Loop(e) => {
            let next = Turn { action: Some(loop_action(e)), ..turn };
            match e {
                LoopEvent::Started => next,
                LoopEvent::Locked => Turn { holder: Holder::Loop, ..next },
                LoopEvent::Received => Turn { received: turn.received + 1, ..next },
                LoopEvent::Dispatched => Turn {
                    holder: Holder::Message(turn.dispatched),
                    dispatched: turn.dispatched + 1,
                    ..next
                },
                LoopEvent::Ended => Turn { holder: Holder::Nobody, ..next },
            }
        },
    }
}

/// The state after a whole run of events.
pub open spec fn turn_of(events: Seq<StreamEvent>) -> Turn
    decreases events.len(),
{
    if events.len() == 0 {
        Turn { action: None, holder: Holder::Nobody, received: 0, dispatched: 0 }
    } else {
        turn_after(turn_of(events.drop_last()), events.last())
    }
}

/// Whether the events are a run of a stream: each one can happen after those
/// before it.
pub open spec fn stream_run(events: Seq<StreamEvent>) -> bool
    decreases events.len(),
{
    events.len() > 0 ==> {
        &&& stream_run(events.drop_last())
        &&& possible(turn_of(events.drop_last()), events.last())
    }
}

/// Whether the event `a` of a run is the dispatch of message `i`.
pub open spec fn dispatches(events: Seq<StreamEvent>, a: int, i: nat) -> bool {
    &&& 0 <= a < events.len()
    &&& events[a] == StreamEvent::Loop(LoopEvent::Dispatched)
    &&& turn_of(events.take(a)).dispatched == i
}

// ── Laws ──────────────────────────────────────────────────────────────────────

/// Between taking the lock and handing it on, the loop holds it; a message
/// that has arrived is dispatched before the next one is taken.
proof fn lemma_turn(events: Seq<StreamEvent>)
    requires
        stream_run(events),
    ensures
        ({
            let turn = turn_of(events);
            &&& turn.action == Some(LoopAction::Receive) || turn.action == Some(
                LoopAction::Dispatch,
            ) <==> turn.holder is Loop
            &&& turn.received == turn.dispatched + if turn.action == Some(LoopAction::Dispatch) {
                1nat
            } else {
                0nat
            }
            &&& turn.holder matches Holder::Message(i) ==> i < turn.dispatched
        }),
    decreases events.len(),
{
    if events.len() > 0 {
        lemma_turn(events.drop_last());
    }
}

/// A message that was dispatched holds the lock until it lets go of it.
proof fn lemma_holds_until_let_go(events: Seq<StreamEvent>, a: int, i: nat)
    requires
        stream_run(events),
        dispatches(events, a, i),
    ensures
        turn_of(events).dispatched > i,
        turn_of(events).holder == Holder::Message(i) || exists|c: int|
            a < c < events.len() && #[trigger] events[c] == StreamEvent::LetGo(i),
    decreases events.len(),
{
    let before = events.drop_last();
    let n = events.len() - 1;
    assert(events[n] == events.last());
    if a == n {
        assert(events.take(a) =~= before);
    } else {
        assert(before.take(a) =~= events.take(a));
        assert(before[a] == events[a]);
        lemma_holds_until_let_go(before, a, i);
        if turn_of(before).holder == Holder::Message(i) {
            lemma_turn(before);
        } else {
            let c = choose|c: int|
                a < c < before.len() && #[trigger] before[c] == StreamEvent::LetGo(i);
            assert(events[c] == StreamEvent::LetGo(i));
        }
    }
}

/// The events up to one of a run are a run.
proof fn lemma_run_take(events: Seq<StreamEvent>, n: int)
    requires
        stream_run(events),
        0 <= n <= events.len(),
    ensures
        stream_run(events.take(n)),
        n < events.len() ==> possible(turn_of(events.take(n)), events[n]),
    decreases events.len(),
{
    if n == events.len() {
        assert(events.take(n) =~= events);
    } else {
        let before = events.drop_last();
        assert(before.take(n) =~= events.take(n));
        if n < before.len() {
            lemma_run_take(before, n);
            assert(before[n] == events[n]);
        } else {
            assert(events.take(n) =~= before);
        }
    }
}

/// Messages are dispatched in the order in which they arrive, one after the
/// other: the message that is dispatched is the one that arrived last, and of
/// two dispatches the later one has the larger number and comes only after the
/// earlier message has let go of the lock.
pub proof fn lemma_fifo(events: Seq<StreamEvent>, a: int, i: nat, b: int, j: nat)
    requires
        stream_run(events),
        a < b,
        dispatches(events, a, i),
        dispatches(events, b, j),
    ensures
        i < j,
        turn_of(events.take(b)).received == j + 1,
        exists|c: int| a < c < b && #[trigger] events[c] == StreamEvent::LetGo(i),
{
    let before = events.take(b);
    lemma_run_take(events, b);
    lemma_turn(before);
    assert(before.take(a) =~= events.take(a));
    assert(before[a] == events[a]);
    lemma_holds_until_let_go(before, a, i);
    let c = choose|c: int| a < c < before.len() && #[trigger] before[c] == StreamEvent::LetGo(i);
    assert(events[c] == StreamEvent::LetGo(i));
}

/// A message delays the stream but does not block it: once its holder has let
/// go of the lock, the loop can take it and go on to the next message, while
/// the handler may still run.
pub proof fn lemma_letting_go_frees_the_stream(events: Seq<StreamEvent>, i: nat)
    requires
        stream_run(events),
        turn_of(events).holder == Holder::Message(i),
    ensures
        stream_run(events.push(StreamEvent::LetGo(i))),
        stream_run(
            events.push(StreamEvent::LetGo(i)).push(StreamEvent::Loop(LoopEvent::Locked)),
        ),
{
    lemma_lock_is_next(events);
    let freed = events.push(StreamEvent::LetGo(i));
    let locked = freed.push(StreamEvent::Loop(LoopEvent::Locked));
    assert(freed.drop_last() =~= events);
    assert(stream_run(freed));
    assert(turn_of(freed).holder is Nobody);
    assert(locked.drop_last() =~= freed);
}

/// While a message holds the lock, the loop waits for it.
proof fn lemma_lock_is_next(events: Seq<StreamEvent>)
    requires
        stream_run(events),
    ensures
        turn_of(events).holder is Message ==> turn_of(events).action == Some(LoopAction::Lock),
    decreases events.len(),
{
    if events.len() > 0 {
        lemma_lock_is_next(events.drop_last());
    }
}

} // verus!
