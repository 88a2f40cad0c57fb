//! The responses of an ordered quorum call, each tagged with the position of
//! its node in the configuration.

use vstd::prelude::*;

use std::marker::PhantomData;
use tokio_util::sync::CancellationToken;

use crate::error::{
    incomplete, node_errors_view, result_view, Error, ErrorView, NodeError, NodeErrorView,
};
use crate::responses::{
    enough, incomplete_error, majority_of, node_error_of, push_failure, push_transport_failure,
    replies, Event, Step,
};

verus! {

/// A single response from one node in an ordered quorum call, tagged with the
/// node's **position** in the configuration (0-based index).
#[derive(Debug)]
pub struct OrderedNodeResponse<T> {
    pub position: usize,
    pub node_id: u32,
    pub result: Result<T, Error>,
}

// ── What was received ─────────────────────────────────────────────────────────

/// One slot for each of the `size` nodes: the value of its successful reply,
/// or `None` while it has not replied. Of several replies with the same
/// position the last one counts.
pub open spec fn slots_of<T>(
    size: nat,
    received: Seq<OrderedNodeResponse<T>>,
) -> Seq<Option<T>>
    decreases received.len(),
{
    if received.len() == 0 {
        Seq::new(size, |i: int| None)
    } else {
        let before = slots_of(size, received.drop_last());
        match received.last().result {
            Ok(value) => before.update(received.last().position as int, Some(value)),
            Err(_) => before,
        }
    }
}

/// The number of successful replies.
pub open spec fn success_count<T>(received: Seq<OrderedNodeResponse<T>>) -> nat
    decreases received.len(),
{
    if received.len() == 0 {
        0
    } else if received.last().result is Ok {
        success_count(received.drop_last()) + 1
    } else {
        success_count(received.drop_last())
    }
}

/// The node errors of all failed replies, in order of arrival.
pub open spec fn ordered_failures<T>(
    received: Seq<OrderedNodeResponse<T>>,
) -> Seq<NodeErrorView>
    decreases received.len(),
{
    if received.len() == 0 {
        seq![]
    } else {
        match received.last().result {
            Ok(_) => ordered_failures(received.drop_last()),
            Err(e) => ordered_failures(received.drop_last()).push(
                node_error_of(received.last().node_id, e),
            ),
        }
    }
}

/// The node errors of the replies that failed with a status, in order of
/// arrival.
pub open spec fn ordered_transport_failures<T>(
    received: Seq<OrderedNodeResponse<T>>,
) -> Seq<NodeErrorView>
    decreases received.len(),
{
    if received.len() == 0 {
        seq![]
    } else {
        match received.last().result {
            Err(Error::Transport(status)) => ordered_transport_failures(
                received.drop_last(),
            ).push(NodeErrorView { node_id: received.last().node_id, cause: status@ }),
            _ => ordered_transport_failures(received.drop_last()),
        }
    }
}

/// Whether every successful reply comes from one of the `size` positions.
pub open spec fn positions_within<T>(size: nat, received: Seq<OrderedNodeResponse<T>>) -> bool {
    forall|i: int|
        0 <= i < received.len() && (#[trigger] received[i]).result is Ok ==> received[i].position
            < size
}

/// The value in the first slot that has one.
pub open spec fn lowest<T>(slots: Seq<Option<T>>) -> Option<T>
    decreases slots.len(),
{
    if slots.len() == 0 {
        None
    } else if slots[0] is Some {
        slots[0]
    } else {
        lowest(slots.drop_first())
    }
}

/// The outcome of an ordered call that waits for `k` successes, when an event
/// comes after the replies `received`; `None` is to wait for more. The call
/// succeeds with the value of the lowest position once there are enough.
pub open spec fn ordered_outcome<T>(
    size: nat,
    k: nat,
    received: Seq<OrderedNodeResponse<T>>,
    event: Event<OrderedNodeResponse<T>>,
) -> Option<Result<T, ErrorView>> {
    match event {
        Event::Cancelled => Some(Err(ErrorView::Cancelled)),
        Event::Closed => Some(Err(incomplete(ordered_failures(received)))),
        Event::Reply(reply) => {
            let now = received.push(reply);
            if reply.result is Ok && enough(k, success_count(now)) {
                Some(Ok(lowest(slots_of(size, now))->0))
            } else {
                None
            }
        },
    }
}

// ── Responses ─────────────────────────────────────────────────────────────────

/// Collects responses from an ordered quorum call.
///
/// Like [`Responses`][crate::responses::Responses], except that each response
/// is tagged with its node's position in the configuration:
///
/// - `first`, `majority`, `all` and `threshold` wait for successes and return
///   the value from the **lowest-position** node among those that responded.
/// - `quorum` asks about one slot per configuration node, so that the quorum
///   function can reason about *which* node replied.
#[must_use]
pub struct OrderedResponses<T, L> {
    /// Number of nodes in the configuration this call is sent to.
    pub size: usize,
    pub cancel: CancellationToken,
    /// The fan-out, until it is handed out to be dispatched.
    pub launch: Option<L>,
    pub values: PhantomData<T>,
}

impl<T, L> OrderedResponses<T, L> {
    /// Number of nodes in the configuration this call is sent to.
    pub fn size(&self) -> (r: usize)
        ensures
            r == self.size,
    {
        self.size
    }

    /// Hands out the fan-out to be dispatched immediately. The terminal
    /// methods do so on entry; a second call hands out nothing.
    pub fn send_now(&mut self) -> (r: Option<L>)
        ensures
            r == old(self).launch,
            *final(self) == (OrderedResponses { launch: None, ..*old(self) }),
    {
        self.launch.take()
    }

    /// Wait for the first successful reply; return the value from that node.
    pub fn first(self) -> (r: (Option<L>, OrderedThreshold<T>))
        ensures
            r.0 == self.launch,
            r.1.fresh(self.size as nat, 1, self.cancel),
    {
        self.threshold(1)
    }

    /// Wait until a simple majority have replied successfully.
    pub fn majority(self) -> (r: (Option<L>, OrderedThreshold<T>))
        ensures
            r.0 == self.launch,
            r.1.fresh(self.size as nat, majority_of(self.size as nat), self.cancel),
    {
        let q: usize = self.size / 2 + 1;
        self.threshold(q)
    }

    /// Wait for **all** nodes to reply successfully.
    pub fn all(self) -> (r: (Option<L>, OrderedThreshold<T>))
        ensures
            r.0 == self.launch,
            r.1.fresh(self.size as nat, self.size as nat, self.cancel),
    {
        let n: usize = self.size;
        self.threshold(n)
    }

    /// Wait for at least `k` successful replies, then return the value from
    /// the **lowest-position** node among those that responded.
    pub fn threshold(self, k: usize) -> (r: (Option<L>, OrderedThreshold<T>))
        ensures
            r.0 == self.launch,
            r.1.fresh(self.size as nat, k as nat, self.cancel),
    {
        let mut this = self;
        let launch = this.send_now();
        (launch, OrderedThreshold::new(this.size, k, this.cancel))
    }

    /// Drive aggregation with an ordered quorum function of the caller.
    pub fn quorum(self) -> (r: (Option<L>, OrderedQuorum<T>))
        ensures
            r.0 == self.launch,
            r.1.collected(self.size as nat, seq![], self.cancel),
    {
        let mut this = self;
        let launch = this.send_now();
        (launch, OrderedQuorum::new(this.size, this.cancel))
    }
}

fn empty_slots<T>(size: usize) -> (r: Vec<Option<T>>)
    ensures
        r@ == slots_of::<T>(size as nat, seq![]),
{
    let mut slots: Vec<Option<T>> = Vec::new();
    for i in 0..size
        invariant
            slots@ == Seq::new(i as nat, |j: int| None::<T>),
    {
        slots.push(None);
        assert(slots@ =~= Seq::new((i + 1) as nat, |j: int| None::<T>));
    }
    assert(slots@ =~= slots_of::<T>(size as nat, seq![]));
    slots
}

/// Takes the value out of the first slot that has one.
fn take_lowest<T>(slots: Vec<Option<T>>) -> (r: Option<T>)
    ensures
        r == lowest(slots@),
{
    let mut left = slots;
    let n: usize = left.len();
    assert(slots@.skip(0) =~= slots@);
    for i in 0..n
        invariant
            n == slots@.len(),
            left@ == slots@,
            lowest(slots@) == lowest(slots@.skip(i as int)),
    {
        assert(slots@.skip(i as int).drop_first() =~= slots@.skip(i + 1));
        if left[i].is_some() {
            return left.swap_remove(i);
        }
    }
    None
}

// ── Threshold ─────────────────────────────────────────────────────────────────

/// Waits for at least `k` successful replies.
pub struct OrderedThreshold<T> {
    cancel: CancellationToken,
    k: usize,
    slots: Vec<Option<T>>,
    count: usize,
    node_errors: Vec<NodeError>,
    received: Ghost<Seq<OrderedNodeResponse<T>>>,
}

/// What an [`OrderedThreshold`] does with an event: it is done with the outcome, or waits with
/// the event recorded.
pub open spec fn ordered_stepped<T>(
    before: OrderedThreshold<T>,
    event: Event<OrderedNodeResponse<T>>,
    step: Step<OrderedThreshold<T>, T>,
) -> bool {
    match ordered_outcome(before.size(), before.k(), before.received(), event) {
        Some(outcome) => step matches Step::Done(result) && result_view(result) == outcome,
        None => {
            &&& event matches Event::Reply(reply)
            &&& step matches Step::Wait(next)
            &&& next.received() == before.received().push(reply)
            &&& next.size() == before.size()
            &&& next.k() == before.k()
            &&& next.token() == before.token()
        },
    }
}

impl<T> OrderedThreshold<T> {
    #[verifier::type_invariant]
    spec fn inv(self) -> bool {
        &&& self.slots@ == slots_of(self.slots@.len(), self.received@)
        &&& self.count == success_count(self.received@)
        &&& !enough(self.k as nat, self.count as nat)
        &&& node_errors_view(self.node_errors@) == ordered_failures(self.received@)
        &&& positions_within(self.slots@.len(), self.received@)
    }

    /// The replies so far, in order of arrival.
    pub closed spec fn received(&self) -> Seq<OrderedNodeResponse<T>> {
        self.received@
    }

    /// The number of nodes in the configuration.
    pub closed spec fn size(&self) -> nat {
        self.slots@.len()
    }

    /// The number of successes to wait for.
    pub closed spec fn k(&self) -> nat {
        self.k as nat
    }

    /// The token of the call.
    pub closed spec fn token(&self) -> CancellationToken {
        self.cancel
    }

    /// Waits for `k` successes of `size` nodes and has received nothing.
    pub open spec fn fresh(&self, size: nat, k: nat, cancel: CancellationToken) -> bool {
        &&& self.size() == size
        &&& self.k() == k
        &&& self.token() == cancel
        &&& self.received() == Seq::<OrderedNodeResponse<T>>::empty()
    }

    /// Waits for `k` successes of `size` nodes.
    pub fn new(size: usize, k: usize, cancel: CancellationToken) -> (r: Self)
        ensures
            r.fresh(size as nat, k as nat, cancel),
    {
        let node_errors: Vec<NodeError> = Vec::new();
        assert(node_errors_view(node_errors@) =~= Seq::<NodeErrorView>::empty());
        OrderedThreshold {
            cancel,
            k,
            slots: empty_slots(size),
            count: 0,
            node_errors,
            received: Ghost(Seq::empty()),
        }
    }

    /// The token of the call.
    pub fn cancel(&self) -> (r: &CancellationToken)
        ensures
            *r == self.token(),
    {
        &self.cancel
    }

    /// Takes an event. The call succeeds with the value of the lowest
    /// position once there are enough successes, is incomplete if no further
    /// reply can arrive before that, and is cancelled with its token.
    pub fn on_event(self, event: Event<OrderedNodeResponse<T>>) -> (step: Step<Self, T>)
        requires
            event matches Event::Reply(reply) ==> reply.result is Ok ==> reply.position
                < self.size(),
        ensures
            ordered_stepped(self, event, step),
    {
        proof {
            use_type_invariant(&self);
        }
        let reply = match event {
            Event::Cancelled => return Step::Done(Err(Error::Cancelled)),
            Event::Closed => return Step::Done(Err(incomplete_error(self.node_errors))),
            Event::Reply(reply) => reply,
        };
        let ghost now = self.received@.push(reply);
        let ghost size = self.slots@.len();
        assert(now.drop_last() =~= self.received@);
        assert(positions_within(size, now)) by {
            assert forall|i: int| 0 <= i < now.len() && (#[trigger] now[i]).result is Ok implies now[i].position
                < size by {
                if i < self.received@.len() {
                    assert(now[i] == self.received@[i]);
                }
            }
        }
        let mut node_errors = self.node_errors;
        let mut slots = self.slots;
        match reply.result {
            Err(e) => {
                push_failure(&mut node_errors, reply.node_id, e);
                Step::Wait(
                    OrderedThreshold {
                        cancel: self.cancel,
                        k: self.k,
                        slots,
                        count: self.count,
                        node_errors,
                        received: Ghost(now),
                    },
                )
            },
            Ok(value) => {
                slots.set(reply.position, Some(value));
                let count: usize = self.count + 1;
                if count >= self.k {
                    proof {
                        lemma_lowest_exists(slots@, reply.position as int);
                    }
                    Step::Done(Ok(take_lowest(slots).unwrap()))
                } else {
                    Step::Wait(
                        OrderedThreshold {
                            cancel: self.cancel,
                            k: self.k,
                            slots,
                            count,
                            node_errors,
                            received: Ghost(now),
                        },
                    )
                }
            },
        }
    }
}

// ── Quorum ────────────────────────────────────────────────────────────────────

/// Waits until an ordered quorum function of the caller is satisfied with the
/// slots.
pub struct OrderedQuorum<T> {
    cancel: CancellationToken,
    slots: Vec<Option<T>>,
    node_errors: Vec<NodeError>,
    received: Ghost<Seq<OrderedNodeResponse<T>>>,
}

impl<T> OrderedQuorum<T> {
    #[verifier::type_invariant]
    spec fn inv(self) -> bool {
        &&& self.slots@ == slots_of(self.slots@.len(), self.received@)
        &&& node_errors_view(self.node_errors@) == ordered_transport_failures(self.received@)
    }

    /// The replies so far, in order of arrival.
    pub closed spec fn received(&self) -> Seq<OrderedNodeResponse<T>> {
        self.received@
    }

    /// The number of nodes in the configuration.
    pub closed spec fn size(&self) -> nat {
        self.slots@.len()
    }

    /// The token of the call.
    pub closed spec fn token(&self) -> CancellationToken {
        self.cancel
    }

    /// Waits for `size` nodes and has received these replies.
    pub open spec fn collected(
        &self,
        size: nat,
        received: Seq<OrderedNodeResponse<T>>,
        cancel: CancellationToken,
    ) -> bool {
        &&& self.size() == size
        &&& self.token() == cancel
        &&& self.received() == received
    }

    /// Waits for `size` nodes.
    pub fn new(size: usize, cancel: CancellationToken) -> (r: Self)
        ensures
            r.collected(size as nat, seq![], cancel),
    {
        let node_errors: Vec<NodeError> = Vec::new();
        assert(node_errors_view(node_errors@) =~= Seq::<NodeErrorView>::empty());
        OrderedQuorum {
            cancel,
            slots: empty_slots(size),
            node_errors,
            received: Ghost(Seq::empty()),
        }
    }

    /// The token of the call.
    pub fn cancel(&self) -> (r: &CancellationToken)
        ensures
            *r == self.token(),
    {
        &self.cancel
    }

    /// Takes an event. After each successful reply the quorum function `f` is
    /// asked about the slots, one per configuration node and `None` until that
    /// node has replied: a value resolves the call, and otherwise the
    /// collecting goes on.
    pub fn on_event<F: FnOnce(&[Option<T>]) -> Option<T>>(
        self,
        event: Event<OrderedNodeResponse<T>>,
        f: F,
    ) -> (step: Step<Self, T>)
        requires
            event matches Event::Reply(reply) ==> reply.result is Ok ==> reply.position
                < self.size(),
            event matches Event::Reply(reply) ==> reply.result is Ok ==> forall|slots: &[Option<T>]|
                slots@ == slots_of(self.size(), self.received().push(reply))
                    ==> #[trigger] call_requires(f, (slots,)),
        ensures
            match event {
                Event::Cancelled => step == Step::<Self, T>::Done(Err(Error::Cancelled)),
                Event::Closed => step matches Step::Done(Err(e)) && e@ == incomplete(
                    ordered_transport_failures(self.received()),
                ),
                Event::Reply(reply) => {
                    let now = self.received().push(reply);
                    if reply.result is Ok {
                        exists|slots: &[Option<T>], answer: Option<T>|
                            {
                                &&& slots@ == slots_of(self.size(), now)
                                &&& #[trigger] call_ensures(f, (slots,), answer)
                                &&& match answer {
                                    Some(value) => step == Step::<Self, T>::Done(Ok(value)),
                                    None => step matches Step::Wait(next) && next.collected(
                                        self.size(),
                                        now,
                                        self.token(),
                                    ),
                                }
                            }
                    } else {
                        step matches Step::Wait(next) && next.collected(
                            self.size(),
                            now,
                            self.token(),
                        )
                    }
                },
            },
    {
        proof {
            use_type_invariant(&self);
        }
        let reply = match event {
            Event::Cancelled => return Step::Done(Err(Error::Cancelled)),
            Event::Closed => return Step::Done(Err(incomplete_error(self.node_errors))),
            Event::Reply(reply) => reply,
        };
        let ghost now = self.received@.push(reply);
        assert(now.drop_last() =~= self.received@);
        let cancel = self.cancel;
        let mut node_errors = self.node_errors;
        let mut slots = self.slots;
        match reply.result {
            Ok(value) => {
                slots.set(reply.position, Some(value));
                let seen = slots.as_slice();
                let answer = f(seen);
                assert(call_ensures(f, (seen,), answer));
                if let Some(value) = answer {
                    return Step::Done(Ok(value));
                }
            },
            Err(Error::Transport(status)) => {
                push_transport_failure(&mut node_errors, reply.node_id, status);
            },
            Err(_) => {},
        }
        Step::Wait(OrderedQuorum { cancel, slots, node_errors, received: Ghost(now) })
    }
}

// ── Laws ──────────────────────────────────────────────────────────────────────

/// Where some slot has a value, [`lowest`] finds one.
proof fn lemma_lowest_exists<T>(slots: Seq<Option<T>>, i: int)
    requires
        0 <= i < slots.len(),
        slots[i] is Some,
    ensures
        lowest(slots) is Some,
    decreases slots.len(),
{
    if !(slots[0] is Some) {
        assert(slots.drop_first()[i - 1] == slots[i]);
        lemma_lowest_exists(slots.drop_first(), i - 1);
    }
}

/// The slot of a position has a value exactly if a reply from that position
/// succeeded.
pub proof fn lemma_slot_filled<T>(size: nat, received: Seq<OrderedNodeResponse<T>>, position: int)
    requires
        positions_within(size, received),
        0 <= position < size,
    ensures
        slots_of(size, received).len() == size,
        slots_of(size, received)[position] is Some <==> exists|i: int|
            0 <= i < received.len() && (#[trigger] received[i]).position == position
                && received[i].result is Ok,
    decreases received.len(),
{
    if received.len() > 0 {
        let before = received.drop_last();
        let last = received.last();
        assert(positions_within(size, before)) by {
            assert forall|i: int|
                0 <= i < before.len() && (#[trigger] before[i]).result is Ok implies before[i].position
                < size by {
                assert(before[i] == received[i]);
            }
        }
        assert(received[received.len() - 1] == last);
        lemma_slot_filled(size, before, position);
        if slots_of(size, before)[position] is Some {
            let i = choose|i: int|
                0 <= i < before.len() && (#[trigger] before[i]).position == position
                    && before[i].result is Ok;
            assert(received[i].position == position && received[i].result is Ok);
        }
        if exists|i: int|
            0 <= i < received.len() && (#[trigger] received[i]).position == position
                && received[i].result is Ok {
            let i = choose|i: int|
                0 <= i < received.len() && (#[trigger] received[i]).position == position
                    && received[i].result is Ok;
            if i < before.len() {
                assert(before[i].position == position && before[i].result is Ok);
            }
        }
    }
}

/// Where no position replies twice, its slot has the value of its reply.
pub proof fn lemma_slot_value<T>(size: nat, received: Seq<OrderedNodeResponse<T>>, i: int)
    requires
        positions_within(size, received),
        0 <= i < received.len(),
        received[i].result is Ok,
        forall|j: int|
            0 <= j < received.len() && j != i ==> (#[trigger] received[j]).position
                != received[i].position,
    ensures
        slots_of(size, received)[received[i].position as int] == Some(received[i].result->Ok_0),
    decreases received.len(),
{
    let before = received.drop_last();
    assert(positions_within(size, before)) by {
        assert forall|j: int|
            0 <= j < before.len() && (#[trigger] before[j]).result is Ok implies before[j].position
            < size by {
            assert(before[j] == received[j]);
        }
    }
    assert(received[i].position < size);
    lemma_slot_filled(size, before, received[i].position as int);
    if i < received.len() - 1 {
        assert(received[received.len() - 1] == received.last());
        assert(before[i] == received[i]);
        assert forall|j: int| 0 <= j < before.len() && j != i implies (#[trigger] before[j]).position
            != before[i].position by {
            assert(received[j].position != received[i].position);
        }
        lemma_slot_value(size, before, i);
        assert(received[received.len() - 1].position != received[i].position);
    }
}

/// [`lowest`] is the value of the first slot that has one: every slot before
/// it is empty.
pub proof fn lemma_lowest_is_first<T>(slots: Seq<Option<T>>, i: int)
    requires
        0 <= i < slots.len(),
        slots[i] is Some,
        forall|j: int| 0 <= j < i ==> (#[trigger] slots[j]) is None,
    ensures
        lowest(slots) == slots[i],
    decreases slots.len(),
{
    if i > 0 {
        assert(slots[0] is None);
        let rest = slots.drop_first();
        assert forall|j: int| 0 <= j < i - 1 implies (#[trigger] rest[j]) is None by {
            assert(slots[j + 1] is None);
        }
        lemma_lowest_is_first(rest, i - 1);
    }
}

/// The outcome of an ordered call that waits for `k` successes, over a whole
/// run of events; `None` is a call that still waits.
pub open spec fn ordered_run<T>(
    size: nat,
    k: nat,
    received: Seq<OrderedNodeResponse<T>>,
    events: Seq<Event<OrderedNodeResponse<T>>>,
) -> Option<Result<T, ErrorView>>
    decreases events.len(),
{
    if events.len() == 0 {
        None
    } else {
        match ordered_outcome(size, k, received, events[0]) {
            Some(outcome) => Some(outcome),
            None => match events[0] {
                Event::Reply(reply) => ordered_run(
                    size,
                    k,
                    received.push(reply),
                    events.drop_first(),
                ),
                _ => None,
            },
        }
    }
}

/// What an [`OrderedThreshold`] returns is what its events call for: where it takes the
/// events one after the other, its last step is the outcome of the whole run.
pub proof fn lemma_ordered_follows_events<T>(
    states: Seq<OrderedThreshold<T>>,
    events: Seq<Event<OrderedNodeResponse<T>>>,
    last: Step<OrderedThreshold<T>, T>,
)
    requires
        events.len() > 0,
        states.len() == events.len(),
        forall|i: int|
            0 <= i < events.len() - 1 ==> ordered_stepped(
                states[i],
                events[i],
                Step::Wait(#[trigger] states[i + 1]),
            ),
        ordered_stepped(states.last(), events.last(), last),
    ensures
        ordered_run(states[0].size(), states[0].k(), states[0].received(), events) == match last {
            Step::Done(result) => Some(result_view(result)),
            Step::Wait(_) => None,
        },
    decreases events.len(),
{
    if events.len() == 1 {
        reveal_with_fuel(ordered_run, 2);
        assert(states[0] == states.last() && events[0] == events.last());
    } else {
        let (rest, later) = (states.drop_first(), events.drop_first());
        assert(ordered_stepped(states[0], events[0], Step::Wait(states[0int + 1])));
        assert forall|i: int| 0 <= i < later.len() - 1 implies ordered_stepped(
            rest[i],
            later[i],
            Step::Wait(#[trigger] rest[i + 1]),
        ) by {
            assert(rest[i + 1] == states[(i + 1) + 1]);
        }
        assert(rest.last() == states.last() && later.last() == events.last());
        lemma_ordered_follows_events(rest, later, last);
        assert(rest[0] == states[1]);
    }
}

/// An ordered call whose last reply makes the successes enough returns the
/// value of a reply whose position is lower than that of every other success,
/// where no position replies twice.
pub proof fn lemma_ordered_returns_lowest<T>(
    size: nat,
    k: nat,
    received: Seq<OrderedNodeResponse<T>>,
    reply: OrderedNodeResponse<T>,
    i: int,
)
    requires
        positions_within(size, received.push(reply)),
        forall|a: int, b: int|
            0 <= a < b < received.push(reply).len() ==> (#[trigger] received.push(reply)[a]).position
                != (#[trigger] received.push(reply)[b]).position,
        reply.result is Ok,
        enough(k, success_count(received.push(reply))),
        0 <= i < received.push(reply).len(),
        received.push(reply)[i].result is Ok,
        forall|j: int|
            0 <= j < received.push(reply).len() && (#[trigger] received.push(reply)[j]).result is Ok
                ==> received.push(reply)[i].position <= received.push(reply)[j].position,
    ensures
        ordered_outcome(size, k, received, Event::Reply(reply)) == Some(
            Ok::<T, ErrorView>(received.push(reply)[i].result->Ok_0),
        ),
{
    let now = received.push(reply);
    let p = now[i].position as int;
    let slots = slots_of(size, now);
    assert forall|j: int| 0 <= j < now.len() && j != i implies (#[trigger] now[j]).position
        != now[i].position by {
        if j < i {
            assert(now[j].position != now[i].position);
        } else {
            assert(now[i].position != now[j].position);
        }
    }
    lemma_slot_value(size, now, i);
    lemma_slot_filled(size, now, p);
    assert forall|q: int| 0 <= q < p implies (#[trigger] slots[q]) is None by {
        lemma_slot_filled(size, now, q);
        if slots[q] is Some {
            let j = choose|j: int|
                0 <= j < now.len() && (#[trigger] now[j]).position == q && now[j].result is Ok;
            assert(now[i].position <= now[j].position);
        }
    }
    lemma_lowest_is_first(slots, p);
}

/// Whether the reply `rs[n]` is the one that makes the successes enough.
pub open spec fn completes<T>(
    k: nat,
    before: Seq<OrderedNodeResponse<T>>,
    rs: Seq<OrderedNodeResponse<T>>,
    n: int,
) -> bool {
    &&& 0 <= n < rs.len()
    &&& !enough(k, success_count(before + rs.take(n)))
    &&& enough(k, success_count(before + rs.take(n + 1)))
}

/// An ordered call with too few successes is incomplete with the errors of
/// all failed replies if no further reply can arrive, and cancelled if its
/// token fires. With enough of them it succeeds, whatever comes later, with
/// the value of the lowest position among the successes up to the one that
/// made them enough.
pub proof fn lemma_ordered_run<T>(
    size: nat,
    k: nat,
    before: Seq<OrderedNodeResponse<T>>,
    rs: Seq<OrderedNodeResponse<T>>,
    end: Event<OrderedNodeResponse<T>>,
)
    requires
        !enough(k, success_count(before)),
        !(end is Reply),
    ensures
        match ordered_run(size, k, before, replies(rs).push(end)) {
            Some(Ok(value)) => {
                &&& enough(k, success_count(before + rs))
                &&& exists|n: int| #[trigger]
                    completes(k, before, rs, n) && value == lowest(
                        slots_of(size, before + rs.take(n + 1)),
                    )->0
            },
            Some(Err(e)) => {
                &&& !enough(k, success_count(before + rs))
                &&& e == if end is Cancelled {
                    ErrorView::Cancelled
                } else {
                    incomplete(ordered_failures(before + rs))
                }
            },
            None => false,
        },
    decreases rs.len(),
{
    let events = replies(rs).push(end);
    if rs.len() == 0 {
        assert(before + rs =~= before);
        assert(events[0] == end);
    } else {
        let now = before.push(rs[0]);
        let rest = rs.drop_first();
        assert(events[0] == Event::Reply(rs[0]));
        assert(now.drop_last() =~= before);
        assert(now + rest =~= before + rs);
        assert(events.drop_first() =~= replies(rest).push(end));
        if enough(k, success_count(now)) {
            lemma_success_count_grows(now, rest);
            assert(before + rs.take(0) =~= before);
            assert(before + rs.take(1) =~= now);
            assert(completes(k, before, rs, 0));
        } else {
            lemma_ordered_run(size, k, now, rest, end);
            if let Some(Ok(value)) = ordered_run(size, k, now, replies(rest).push(end)) {
                let n = choose|n: int| #[trigger]
                    completes(k, now, rest, n) && value == lowest(
                        slots_of(size, now + rest.take(n + 1)),
                    )->0;
                assert(now + rest.take(n) =~= before + rs.take(n + 1));
                assert(now + rest.take(n + 1) =~= before + rs.take(n + 2));
                assert(completes(k, before, rs, n + 1));
            }
        }
    }
}

proof fn lemma_success_count_grows<T>(
    a: Seq<OrderedNodeResponse<T>>,
    b: Seq<OrderedNodeResponse<T>>,
)
    ensures
        success_count(a) <= success_count(a + b),
    decreases b.len(),
{
    if b.len() == 0 {
        assert(a + b =~= a);
    } else {
        lemma_success_count_grows(a, b.drop_last());
        assert((a + b).drop_last() =~= a + b.drop_last());
    }
}

} // verus!
