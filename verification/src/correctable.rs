//! The updates of a correctable call: each node can send many responses
//! before it is done.

use vstd::prelude::*;

use std::collections::HashSet;
use std::marker::PhantomData;
use tokio_util::sync::CancellationToken;

use crate::error::{
    incomplete, node_errors_view, result_view, Error, ErrorView, NodeError, NodeErrorView,
};
use crate::responses::{
    incomplete_error, majority_of, push_transport_failure, replies, Event, NodeResponse, Quorum,
    Step,
};

verus! {

broadcast use vstd::std_specs::hash::group_hash_axioms;

// ── What was received ─────────────────────────────────────────────────────────

/// The nodes that have sent at least one successful response.
pub open spec fn responded<T>(received: Seq<NodeResponse<T>>) -> Set<u32>
    decreases received.len(),
{
    if received.len() == 0 {
        Set::empty()
    } else if received.last().result is Ok {
        responded(received.drop_last()).insert(received.last().node_id)
    } else {
        responded(received.drop_last())
    }
}

/// Whether a response counts as the failure of its node: a status, from a
/// node that has neither responded nor failed before.
pub open spec fn fails<T>(received: Seq<NodeResponse<T>>, reply: NodeResponse<T>) -> bool {
    &&& reply.result matches Err(Error::Transport(_))
    &&& !responded(received).contains(reply.node_id)
    &&& !failed(received).contains(reply.node_id)
}

/// The nodes that have failed.
pub open spec fn failed<T>(received: Seq<NodeResponse<T>>) -> Set<u32>
    decreases received.len(),
{
    if received.len() == 0 {
        Set::empty()
    } else {
        let before = received.drop_last();
        let last = received.last();
        if (last.result matches Err(Error::Transport(_))) && !responded(before).contains(
            last.node_id,
        ) {
            failed(before).insert(last.node_id)
        } else {
            failed(before)
        }
    }
}

/// The error of each node that has failed, in order of arrival.
pub open spec fn first_failures<T>(received: Seq<NodeResponse<T>>) -> Seq<NodeErrorView>
    decreases received.len(),
{
    if received.len() == 0 {
        seq![]
    } else {
        let before = received.drop_last();
        let last = received.last();
        if fails(before, last) {
            first_failures(before).push(
                NodeErrorView {
                    node_id: last.node_id,
                    cause: last.result->Err_0->Transport_0@,
                },
            )
        } else {
            first_failures(before)
        }
    }
}

/// Whether the nodes that have not failed are too few to reach `k`.
pub open spec fn out_of_reach(size: nat, k: nat, failed: nat) -> bool {
    failed + k > size
}

/// The outcome of a correctable call that waits for `k` distinct nodes, when
/// an event comes after the responses `received`; `None` is to wait for more.
/// The call succeeds with the response that makes the nodes enough.
pub open spec fn correctable_outcome<T>(
    size: nat,
    k: nat,
    received: Seq<NodeResponse<T>>,
    event: Event<NodeResponse<T>>,
) -> Option<Result<T, ErrorView>> {
    match event {
        Event::Cancelled => Some(Err(ErrorView::Cancelled)),
        Event::Closed => Some(Err(incomplete(first_failures(received)))),
        Event::Reply(reply) => {
            let now = received.push(reply);
            match reply.result {
                Ok(value) => if !responded(received).contains(reply.node_id) && responded(now).len()
                    >= k {
                    Some(Ok(value))
                } else {
                    None
                },
                Err(_) => if fails(received, reply) && out_of_reach(size, k, failed(now).len()) {
                    Some(Err(incomplete(first_failures(now))))
                } else {
                    None
                },
            }
        },
    }
}

// ── Correctable ───────────────────────────────────────────────────────────────

/// Handle to a correctable call.
///
/// Updates can be consumed one at a time with [`poll_next`][Self::poll_next],
/// or a terminal method waits for a quorum of distinct nodes to have
/// responded at least once.
///
/// | Terminal method | Returns when |
/// |-----------------|--------------|
/// | [`first`][Self::first] | any one node has sent a successful response |
/// | [`majority`][Self::majority] | a majority of distinct nodes have responded |
/// | [`all`][Self::all] | all n nodes have responded |
/// | [`threshold`][Self::threshold] | at least k distinct nodes have responded |
/// | [`quorum`][Self::quorum] | the predicate returns a value |
///
/// `quorum` sees every successful value in arrival order, including many from
/// the same node.
#[must_use]
pub struct Correctable<T> {
    /// Number of nodes in the configuration this call was sent to.
    pub size: usize,
    pub cancel: CancellationToken,
    pub values: PhantomData<T>,
}

/// What the queue of a correctable call holds.
pub enum Polled<R> {
    /// A response.
    Item(R),
    /// The stream of every node has closed.
    Closed,
    /// Nothing yet.
    Pending,
}

/// What a consumer of the updates is told.
pub enum Update<T> {
    /// A response arrived, or the call was cancelled.
    Item(Result<NodeResponse<T>, Error>),
    /// There are no more updates.
    End,
    /// Nothing yet: wake the consumer when a response arrives or the token
    /// fires.
    Pending,
}

impl<T> Correctable<T> {
    /// Number of nodes in the configuration this call was sent to.
    pub fn size(&self) -> (r: usize)
        ensures
            r == self.size,
    {
        self.size
    }

    /// Starts to poll for the next update. Cancellation comes before any
    /// queued response: `None` says to poll the queue and hand what it holds
    /// to [`on_poll`][Self::on_poll].
    pub fn poll_next(&self) -> (r: Option<Update<T>>)
        ensures
            exists|fired: bool|
                {
                    &&& #[trigger] call_ensures(
                        CancellationToken::is_cancelled,
                        (&self.cancel,),
                        fired,
                    )
                    &&& r == cancelled_update::<T>(fired)
                },
    {
        let fired = self.cancel.is_cancelled();
        update_if_cancelled(fired)
    }

    /// The update for what the queue holds.
    pub fn on_poll(&self, polled: Polled<NodeResponse<T>>) -> (r: Update<T>)
        ensures
            r == match polled {
                Polled::Item(reply) => Update::Item(Ok::<NodeResponse<T>, Error>(reply)),
                Polled::Closed => Update::End,
                Polled::Pending => Update::Pending,
            },
    {
        match polled {
            Polled::Item(reply) => Update::Item(Ok(reply)),
            Polled::Closed => Update::End,
            Polled::Pending => Update::Pending,
        }
    }

    /// Wait for the first successful response from any node.
    pub fn first(self) -> (r: DistinctThreshold<T>)
        ensures
            r.fresh(self.size as nat, 1, self.cancel),
    {
        self.threshold(1)
    }

    /// Wait until a simple majority of distinct nodes have each sent at least
    /// one successful response.
    pub fn majority(self) -> (r: DistinctThreshold<T>)
        ensures
            r.fresh(self.size as nat, majority_of(self.size as nat), self.cancel),
    {
        let q: usize = self.size / 2 + 1;
        self.threshold(q)
    }

    /// Wait for **all** nodes to have sent at least one successful response.
    pub fn all(self) -> (r: DistinctThreshold<T>)
        ensures
            r.fresh(self.size as nat, self.size as nat, self.cancel),
    {
        let n: usize = self.size;
        self.threshold(n)
    }

    /// Wait until at least `k` **distinct** nodes have each sent at least one
    /// successful response, then return the most recently received successful
    /// value.
    pub fn threshold(self, k: usize) -> (r: DistinctThreshold<T>)
        ensures
            r.fresh(self.size as nat, k as nat, self.cancel),
    {
        DistinctThreshold::new(self.size, k, self.cancel)
    }

    /// Drive aggregation with a quorum function of the caller. It is asked
    /// after each successful value, about all successful values so far.
    pub fn quorum(self) -> (r: Quorum<T>)
        ensures
            r.collected(seq![], self.cancel),
    {
        Quorum::new(self.cancel)
    }
}

/// The update of a call whose token has fired, or not.
pub open spec fn cancelled_update<T>(fired: bool) -> Option<Update<T>> {
    if fired {
        Some(Update::Item(Err::<NodeResponse<T>, Error>(Error::Cancelled)))
    } else {
        None
    }
}

/// The update of a call whose token has fired, or not.
pub fn update_if_cancelled<T>(fired: bool) -> (r: Option<Update<T>>)
    ensures
        r == cancelled_update::<T>(fired),
{
    if fired {
        Some(Update::Item(Err(Error::Cancelled)))
    } else {
        None
    }
}

// ── Threshold ─────────────────────────────────────────────────────────────────

/// Waits for at least `k` distinct nodes to respond successfully.
pub struct DistinctThreshold<T> {
    cancel: CancellationToken,
    size: usize,
    k: usize,
    responded: HashSet<u32>,
    failed: HashSet<u32>,
    node_errors: Vec<NodeError>,
    received: Ghost<Seq<NodeResponse<T>>>,
}

/// What a [`DistinctThreshold`] does with an event: it is done with the outcome, or waits with
/// the event recorded.
pub open spec fn correctable_stepped<T>(
    before: DistinctThreshold<T>,
    event: Event<NodeResponse<T>>,
    step: Step<DistinctThreshold<T>, T>,
) -> bool {
    match correctable_outcome(before.size(), before.k(), before.received(), event) {
        Some(outcome) => step matches Step::Done(result) && result_view(result) == outcome,
        None => {
            &&& event matches Event::Reply(reply)
            &&& step matches Step::Wait(next)
            &&& next.received() == before.received().push(reply)
            &&& next.size() == before.size()
            &&& next.k() == before.k()
            &&& next.token() == before.token()
        },
    }
}

impl<T> DistinctThreshold<T> {
    #[verifier::type_invariant]
    spec fn inv(self) -> bool {
        &&& self.responded@ == responded(self.received@)
        &&& self.failed@ == failed(self.received@)
        &&& node_errors_view(self.node_errors@) == first_failures(self.received@)
    }

    /// The responses so far, in order of arrival.
    pub closed spec fn received(&self) -> Seq<NodeResponse<T>> {
        self.received@
    }

    /// The number of nodes in the configuration.
    pub closed spec fn size(&self) -> nat {
        self.size as nat
    }

    /// The number of nodes to wait for.
    pub closed spec fn k(&self) -> nat {
        self.k as nat
    }

    /// The token of the call.
    pub closed spec fn token(&self) -> CancellationToken {
        self.cancel
    }

    /// Waits for `k` of `size` nodes and has received nothing.
    pub open spec fn fresh(&self, size: nat, k: nat, cancel: CancellationToken) -> bool {
        &&& self.size() == size
        &&& self.k() == k
        &&& self.token() == cancel
        &&& self.received() == Seq::<NodeResponse<T>>::empty()
    }

    /// Waits for `k` of `size` nodes.
    pub fn new(size: usize, k: usize, cancel: CancellationToken) -> (r: Self)
        ensures
            r.fresh(size as nat, k as nat, cancel),
    {
        let node_errors: Vec<NodeError> = Vec::new();
        assert(node_errors_view(node_errors@) =~= Seq::<NodeErrorView>::empty());
        DistinctThreshold {
            cancel,
            size,
            k,
            responded: HashSet::new(),
            failed: HashSet::new(),
            node_errors,
            received: Ghost(Seq::empty()),
        }
    }

    /// The token of the call.
    pub fn cancel(&self) -> (r: &CancellationToken)
        ensures
            *r == self.token(),
    {
        &self.cancel
    }

    /// Takes an event. The call succeeds when enough distinct nodes have
    /// responded, is incomplete once too many nodes have failed or no further
    /// response can arrive, and is cancelled with its token.
    pub fn on_event(self, event: Event<NodeResponse<T>>) -> (step: Step<Self, T>)
        ensures
            correctable_stepped(self, event, step),
    {
        proof {
            use_type_invariant(&self);
        }
        let reply = match event {
            Event::Cancelled => return Step::Done(Err(Error::Cancelled)),
            Event::Closed => return Step::Done(Err(incomplete_error(self.node_errors))),
            Event::Reply(reply) => reply,
        };
        let ghost now = self.received@.push(reply);
        assert(now.drop_last() =~= self.received@);
        let cancel = self.cancel;
        let (size, k) = (self.size, self.k);
        let mut responded = self.responded;
        let mut failed = self.failed;
        let mut node_errors = self.node_errors;
        let received: Ghost<Seq<NodeResponse<T>>> = Ghost(now);
        match reply.result {
            Ok(value) => {
                let is_new = responded.insert(reply.node_id);
                if is_new && responded.len() >= k {
                    return Step::Done(Ok(value));
                }
                assert(responded@ =~= crate::correctable::responded(now));
                Step::Wait(
                    DistinctThreshold { cancel, size, k, responded, failed, node_errors, received },
                )
            },
            Err(Error::Transport(status)) => {
                if !responded.contains(&reply.node_id) && failed.insert(reply.node_id) {
                    push_transport_failure(&mut node_errors, reply.node_id, status);
                    if k > size || failed.len() > size - k {
                        return Step::Done(Err(incomplete_error(node_errors)));
                    }
                }
                assert(failed@ =~= crate::correctable::failed(now));
                Step::Wait(
                    DistinctThreshold { cancel, size, k, responded, failed, node_errors, received },
                )
            },
            Err(_) => Step::Wait(
                DistinctThreshold { cancel, size, k, responded, failed, node_errors, received },
            ),
        }
    }
}

// ── Laws ──────────────────────────────────────────────────────────────────────

/// A correctable call succeeds with the most recently received value, and
/// only when at least `k` distinct nodes have responded.
pub proof fn lemma_success_needs_distinct_nodes<T>(
    size: nat,
    k: nat,
    received: Seq<NodeResponse<T>>,
    reply: NodeResponse<T>,
    value: T,
)
    requires
        correctable_outcome(size, k, received, Event::Reply(reply)) == Some(
            Ok::<T, ErrorView>(value),
        ),
    ensures
        reply.result == Ok::<T, Error>(value),
        responded(received.push(reply)).len() >= k,
        responded(received.push(reply)).finite(),
{
    lemma_responded_finite(received.push(reply));
}

proof fn lemma_responded_finite<T>(received: Seq<NodeResponse<T>>)
    ensures
        responded(received).finite(),
        failed(received).finite(),
    decreases received.len(),
{
    if received.len() > 0 {
        lemma_responded_finite(received.drop_last());
    }
}

/// A node counts once: a further response from a node that has responded
/// before leaves the count and the outcome as they were.
pub proof fn lemma_repeated_response_does_not_count<T>(
    size: nat,
    k: nat,
    received: Seq<NodeResponse<T>>,
    reply: NodeResponse<T>,
)
    requires
        responded(received).contains(reply.node_id),
    ensures
        responded(received.push(reply)) == responded(received),
        failed(received.push(reply)) == failed(received),
        first_failures(received.push(reply)) == first_failures(received),
        correctable_outcome(size, k, received, Event::Reply(reply)) is None,
{
    assert(received.push(reply).drop_last() =~= received);
    assert(responded(received.push(reply)) =~= responded(received));
}

/// Whether failures are final: no node responds after it has failed.
pub open spec fn failures_are_final<T>(received: Seq<NodeResponse<T>>) -> bool {
    forall|i: int|
        0 <= i < received.len() && (#[trigger] received[i]).result is Ok ==> !failed(
            received.take(i),
        ).contains(received[i].node_id)
}

/// Whether every response comes from one of the nodes `all`.
pub open spec fn nodes_within_set<T>(all: Set<u32>, received: Seq<NodeResponse<T>>) -> bool {
    forall|i: int| 0 <= i < received.len() ==> all.contains((#[trigger] received[i]).node_id)
}

/// The call gives up early only when nothing is lost: where failures are
/// final, too many failed nodes leave fewer than `k` nodes to respond, now
/// and after any further responses.
pub proof fn lemma_out_of_reach_is_hopeless<T>(
    all: Set<u32>,
    k: nat,
    received: Seq<NodeResponse<T>>,
    later: Seq<NodeResponse<T>>,
)
    requires
        all.finite(),
        nodes_within_set(all, received + later),
        failures_are_final(received + later),
        out_of_reach(all.len(), k, failed(received).len()),
    ensures
        responded(received + later).len() < k,
{
    let whole = received + later;
    lemma_disjoint(whole);
    lemma_within(all, whole);
    lemma_failed_grows(received, later);
    lemma_responded_finite(whole);
    lemma_responded_finite(received);
    let r = responded(whole);
    let f = failed(received);
    assert(r.disjoint(f)) by {
        assert forall|id: u32| !(r.contains(id) && f.contains(id)) by {
            if f.contains(id) {
                assert(failed(whole).contains(id));
            }
        }
    }
    vstd::set_lib::lemma_set_disjoint_lens(r, f);
    assert((r + f).subset_of(all)) by {
        assert forall|id: u32| (r + f).contains(id) implies all.contains(id) by {
            if f.contains(id) {
                assert(failed(whole).contains(id));
            }
        }
    }
    vstd::set_lib::lemma_len_subset(r + f, all);
}

proof fn lemma_disjoint<T>(received: Seq<NodeResponse<T>>)
    requires
        failures_are_final(received),
    ensures
        responded(received).disjoint(failed(received)),
    decreases received.len(),
{
    if received.len() > 0 {
        let before = received.drop_last();
        assert(failures_are_final(before)) by {
            assert forall|i: int|
                0 <= i < before.len() && (#[trigger] before[i]).result is Ok implies !failed(
                before.take(i),
            ).contains(before[i].node_id) by {
                assert(received[i] == before[i]);
                assert(before.take(i) =~= received.take(i));
            }
        }
        lemma_disjoint(before);
        let n = received.len() - 1;
        assert(received[n] == received.last());
        assert(received.take(n) =~= before);
    }
}

proof fn lemma_within<T>(all: Set<u32>, received: Seq<NodeResponse<T>>)
    requires
        nodes_within_set(all, received),
    ensures
        responded(received).subset_of(all),
        failed(received).subset_of(all),
    decreases received.len(),
{
    if received.len() > 0 {
        let before = received.drop_last();
        assert(nodes_within_set(all, before)) by {
            assert forall|i: int| 0 <= i < before.len() implies all.contains(
                (#[trigger] before[i]).node_id,
            ) by {
                assert(received[i] == before[i]);
            }
        }
        lemma_within(all, before);
        assert(received[received.len() - 1] == received.last());
    }
}

proof fn lemma_failed_grows<T>(received: Seq<NodeResponse<T>>, later: Seq<NodeResponse<T>>)
    ensures
        failed(received).subset_of(failed(received + later)),
    decreases later.len(),
{
    if later.len() == 0 {
        assert(received + later =~= received);
    } else {
        lemma_failed_grows(received, later.drop_last());
        assert((received + later).drop_last() =~= received + later.drop_last());
    }
}

/// Whether `reply` is the response that makes the distinct nodes enough.
pub open spec fn reaches<T>(k: nat, received: Seq<NodeResponse<T>>, reply: NodeResponse<T>) -> bool {
    &&& reply.result is Ok
    &&& !responded(received).contains(reply.node_id)
    &&& responded(received.push(reply)).len() >= k
}

/// Whether `reply` is the failure that leaves too few nodes.
pub open spec fn gives_up<T>(
    size: nat,
    k: nat,
    received: Seq<NodeResponse<T>>,
    reply: NodeResponse<T>,
) -> bool {
    &&& fails(received, reply)
    &&& out_of_reach(size, k, failed(received.push(reply)).len())
}

/// Whether none of the first `n` responses of `rs`, after those `before`,
/// decides the call.
pub open spec fn undecided<T>(
    size: nat,
    k: nat,
    before: Seq<NodeResponse<T>>,
    rs: Seq<NodeResponse<T>>,
    n: int,
) -> bool {
    forall|m: int|
        0 <= m < n ==> {
            &&& !reaches(k, before + rs.take(m), #[trigger] rs[m])
            &&& !gives_up(size, k, before + rs.take(m), rs[m])
        }
}

/// Whether the response `rs[n]` is the first to decide the call.
pub open spec fn decides<T>(
    size: nat,
    k: nat,
    before: Seq<NodeResponse<T>>,
    rs: Seq<NodeResponse<T>>,
    n: int,
) -> bool {
    &&& 0 <= n < rs.len()
    &&& undecided(size, k, before, rs, n)
    &&& reaches(k, before + rs.take(n), rs[n]) || gives_up(size, k, before + rs.take(n), rs[n])
}

/// The outcome of a correctable call that waits for `k` distinct nodes, over a
/// whole run of events; `None` is a call that still waits.
pub open spec fn correctable_run<T>(
    size: nat,
    k: nat,
    received: Seq<NodeResponse<T>>,
    events: Seq<Event<NodeResponse<T>>>,
) -> Option<Result<T, ErrorView>>
    decreases events.len(),
{
    if events.len() == 0 {
        None
    } else {
        match correctable_outcome(size, k, received, events[0]) {
            Some(outcome) => Some(outcome),
            None => match events[0] {
                Event::Reply(reply) => correctable_run(
                    size,
                    k,
                    received.push(reply),
                    events.drop_first(),
                ),
                _ => None,
            },
        }
    }
}

/// What a [`DistinctThreshold`] returns is what its events call for: where it takes the
/// events one after the other, its last step is the outcome of the whole run.
pub proof fn lemma_correctable_follows_events<T>(
    states: Seq<DistinctThreshold<T>>,
    events: Seq<Event<NodeResponse<T>>>,
    last: Step<DistinctThreshold<T>, T>,
)
    requires
        events.len() > 0,
        states.len() == events.len(),
        forall|i: int|
            0 <= i < events.len() - 1 ==> correctable_stepped(
                states[i],
                events[i],
                Step::Wait(#[trigger] states[i + 1]),
            ),
        correctable_stepped(states.last(), events.last(), last),
    ensures
        correctable_run(states[0].size(), states[0].k(), states[0].received(), events) == match last {
            Step::Done(result) => Some(result_view(result)),
            Step::Wait(_) => None,
        },
    decreases events.len(),
{
    if events.len() == 1 {
        reveal_with_fuel(correctable_run, 2);
        assert(states[0] == states.last() && events[0] == events.last());
    } else {
        let (rest, later) = (states.drop_first(), events.drop_first());
        assert(correctable_stepped(states[0], events[0], Step::Wait(states[0int + 1])));
        assert forall|i: int| 0 <= i < later.len() - 1 implies correctable_stepped(
            rest[i],
            later[i],
            Step::Wait(#[trigger] rest[i + 1]),
        ) by {
            assert(rest[i + 1] == states[(i + 1) + 1]);
        }
        assert(rest.last() == states.last() && later.last() == events.last());
        lemma_correctable_follows_events(rest, later, last);
        assert(rest[0] == states[1]);
    }
}

/// A correctable call succeeds with the value of the response that brings the
/// distinct nodes to `k`, or of the first one if `k` is 0. It is incomplete, with the first failure of each
/// failed node, once a failure leaves too few nodes or no further response can
/// arrive, and it is cancelled if its token fires before that.
pub proof fn lemma_correctable_run<T>(
    size: nat,
    k: nat,
    before: Seq<NodeResponse<T>>,
    rs: Seq<NodeResponse<T>>,
    end: Event<NodeResponse<T>>,
)
    requires
        k == 0 || responded(before).len() < k,
        !(end is Reply),
    ensures
        match correctable_run(size, k, before, replies(rs).push(end)) {
            Some(Ok(value)) => exists|n: int|
                {
                    &&& #[trigger] decides(size, k, before, rs, n)
                    &&& rs[n].result == Ok::<T, Error>(value)
                    &&& k > 0 ==> responded(before + rs.take(n + 1)).len() == k
                },
            Some(Err(e)) => {
                ||| exists|n: int|
                    {
                        &&& #[trigger] decides(size, k, before, rs, n)
                        &&& gives_up(size, k, before + rs.take(n), rs[n])
                        &&& e == incomplete(first_failures(before + rs.take(n + 1)))
                    }
                ||| {
                    &&& undecided(size, k, before, rs, rs.len() as int)
                    &&& e == if end is Cancelled {
                        ErrorView::Cancelled
                    } else {
                        incomplete(first_failures(before + rs))
                    }
                }
            },
            None => false,
        },
    decreases rs.len(),
{
    let events = replies(rs).push(end);
    if rs.len() == 0 {
        assert(before + rs =~= before);
        assert(events[0] == end);
    } else {
        let reply = rs[0];
        let now = before.push(reply);
        let rest = rs.drop_first();
        assert(events[0] == Event::Reply(reply));
        assert(now.drop_last() =~= before);
        assert(now + rest =~= before + rs);
        assert(events.drop_first() =~= replies(rest).push(end));
        assert(before + rs.take(0) =~= before);
        assert(before + rs.take(1) =~= now);
        lemma_responded_finite(before);
        if reaches(k, before, reply) || gives_up(size, k, before, reply) {
            assert(decides(size, k, before, rs, 0));
        } else {
            assert(k > 0 ==> responded(now).len() < k);
            lemma_correctable_run(size, k, now, rest, end);
            match correctable_run(size, k, now, replies(rest).push(end)) {
                Some(Ok(value)) => {
                    let n = choose|n: int|
                        {
                            &&& #[trigger] decides(size, k, now, rest, n)
                            &&& rest[n].result == Ok::<T, Error>(value)
                            &&& k > 0 ==> responded(now + rest.take(n + 1)).len() == k
                        };
                    lemma_decides_later(size, k, before, rs, n);
                },
                Some(Err(e)) => {
                    if exists|n: int|
                        {
                            &&& #[trigger] decides(size, k, now, rest, n)
                            &&& gives_up(size, k, now + rest.take(n), rest[n])
                            &&& e == incomplete(first_failures(now + rest.take(n + 1)))
                        } {
                        let n = choose|n: int|
                            {
                                &&& #[trigger] decides(size, k, now, rest, n)
                                &&& gives_up(size, k, now + rest.take(n), rest[n])
                                &&& e == incomplete(first_failures(now + rest.take(n + 1)))
                            };
                        lemma_decides_later(size, k, before, rs, n);
                    } else {
                        assert forall|m: int| 0 <= m < rs.len() implies {
                            &&& !reaches(k, before + rs.take(m), #[trigger] rs[m])
                            &&& !gives_up(size, k, before + rs.take(m), rs[m])
                        } by {
                            if m > 0 {
                                assert(rest[m - 1] == rs[m]);
                                assert(now + rest.take(m - 1) =~= before + rs.take(m));
                            }
                        }
                    }
                },
                None => {},
            }
        }
    }
}

/// Where the first response decides nothing, what decides the rest decides the
/// whole.
proof fn lemma_decides_later<T>(
    size: nat,
    k: nat,
    before: Seq<NodeResponse<T>>,
    rs: Seq<NodeResponse<T>>,
    n: int,
)
    requires
        rs.len() > 0,
        !reaches(k, before, rs[0]),
        !gives_up(size, k, before, rs[0]),
        decides(size, k, before.push(rs[0]), rs.drop_first(), n),
    ensures
        decides(size, k, before, rs, n + 1),
        rs[n + 1] == rs.drop_first()[n],
        before + rs.take(n + 1) == before.push(rs[0]) + rs.drop_first().take(n),
        before + rs.take(n + 2) == before.push(rs[0]) + rs.drop_first().take(n + 1),
{
    let now = before.push(rs[0]);
    let rest = rs.drop_first();
    assert(before + rs.take(n + 1) =~= now + rest.take(n));
    assert(before + rs.take(n + 2) =~= now + rest.take(n + 1));
    assert forall|m: int| 0 <= m < n + 1 implies {
        &&& !reaches(k, before + rs.take(m), #[trigger] rs[m])
        &&& !gives_up(size, k, before + rs.take(m), rs[m])
    } by {
        if m > 0 {
            assert(rest[m - 1] == rs[m]);
            assert(now + rest.take(m - 1) =~= before + rs.take(m));
        } else {
            assert(before + rs.take(0) =~= before);
        }
    }
}

} // verus!
