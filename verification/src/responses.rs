//! The responses of a quorum call, and the terminal methods that aggregate
//! them.
//!
//! A terminal method waits for replies until it can tell the result of the
//! call. The waiting is left to its caller: a terminal method here starts a
//! collector, which takes one event after the other and says whether to wait
//! for more or what the result is.

use vstd::prelude::*;

use std::marker::PhantomData;
use tokio_util::sync::CancellationToken;

use crate::error::{
    incomplete, node_errors_view, result_view, Error, ErrorView, NodeError, NodeErrorView,
    QuorumCallCause, QuorumCallError,
};
use crate::status::{plain_status, Status, CODE_INTERNAL};

verus! {

/// A single response from one node in a quorum call.
#[derive(Debug)]
pub struct NodeResponse<T> {
    pub node_id: u32,
    pub result: Result<T, Error>,
}

/// What a collector of replies is told.
pub enum Event<R> {
    /// The token of the call fired.
    Cancelled,
    /// No further reply can arrive.
    Closed,
    /// A reply arrived.
    Reply(R),
}

/// What a collector says: wait for the next event, or the call is over.
pub enum Step<M, T> {
    Wait(M),
    Done(Result<T, Error>),
}

// ── What was received ─────────────────────────────────────────────────────────

/// The values of the successful replies, in order of arrival.
pub open spec fn successes<T>(received: Seq<NodeResponse<T>>) -> Seq<T>
    decreases received.len(),
{
    if received.len() == 0 {
        seq![]
    } else {
        match received.last().result {
            Ok(value) => successes(received.drop_last()).push(value),
            Err(_) => successes(received.drop_last()),
        }
    }
}

/// The node error of a failed reply: its status, or an internal error where
/// it has none.
pub open spec fn node_error_of(node_id: u32, error: Error) -> NodeErrorView {
    match error {
        Error::Transport(status) => NodeErrorView { node_id, cause: status@ },
        _ => NodeErrorView {
            node_id,
            cause: plain_status(CODE_INTERNAL, "internal error"@),
        },
    }
}

/// The node errors of all failed replies, in order of arrival.
pub open spec fn failures<T>(received: Seq<NodeResponse<T>>) -> Seq<NodeErrorView>
    decreases received.len(),
{
    if received.len() == 0 {
        seq![]
    } else {
        match received.last().result {
            Ok(_) => failures(received.drop_last()),
            Err(e) => failures(received.drop_last()).push(
                node_error_of(received.last().node_id, e),
            ),
        }
    }
}

/// The node errors of the replies that failed with a status, in order of
/// arrival.
pub open spec fn transport_failures<T>(received: Seq<NodeResponse<T>>) -> Seq<NodeErrorView>
    decreases received.len(),
{
    if received.len() == 0 {
        seq![]
    } else {
        match received.last().result {
            Err(Error::Transport(status)) => transport_failures(received.drop_last()).push(
                NodeErrorView { node_id: received.last().node_id, cause: status@ },
            ),
            _ => transport_failures(received.drop_last()),
        }
    }
}

/// Whether `k` successes are enough: at least one is always needed.
pub open spec fn enough(k: nat, successes: nat) -> bool {
    successes > 0 && successes >= k
}

/// The outcome of a call that waits for `k` successes, when an event comes
/// after the replies `received`; `None` is to wait for more. The call succeeds
/// with the first success once there are enough of them.
pub open spec fn threshold_outcome<T>(
    k: nat,
    received: Seq<NodeResponse<T>>,
    event: Event<NodeResponse<T>>,
) -> Option<Result<T, ErrorView>> {
    match event {
        Event::Cancelled => Some(Err(ErrorView::Cancelled)),
        Event::Closed => Some(Err(incomplete(failures(received)))),
        Event::Reply(reply) => {
            let now = received.push(reply);
            if enough(k, successes(now).len()) {
                Some(Ok(successes(now)[0]))
            } else {
                None
            }
        },
    }
}

/// The size of a simple majority of `n` nodes.
pub open spec fn majority_of(n: nat) -> nat {
    n / 2 + 1
}

/// Appends the node error of a failed reply.
pub fn push_failure(node_errors: &mut Vec<NodeError>, node_id: u32, error: Error)
    ensures
        node_errors_view(final(node_errors)@) == node_errors_view(old(node_errors)@).push(
            node_error_of(node_id, error),
        ),
{
    let cause = match error {
        Error::Transport(status) => status,
        _ => Status::internal("internal error"),
    };
    node_errors.push(NodeError { node_id, cause });
    assert(node_errors_view(node_errors@) =~= node_errors_view(old(node_errors)@).push(
        node_error_of(node_id, error),
    ));
}

/// Appends the node error of a reply that failed with a status.
pub fn push_transport_failure(node_errors: &mut Vec<NodeError>, node_id: u32, cause: Status)
    ensures
        node_errors_view(final(node_errors)@) == node_errors_view(old(node_errors)@).push(
            NodeErrorView { node_id, cause: cause@ },
        ),
{
    node_errors.push(NodeError { node_id, cause });
    assert(node_errors_view(node_errors@) =~= node_errors_view(old(node_errors)@).push(
        NodeErrorView { node_id, cause: cause@ },
    ));
}

/// The error of a call that ended before its quorum was reached.
pub fn incomplete_error(node_errors: Vec<NodeError>) -> (r: Error)
    ensures
        r@ == incomplete(node_errors_view(node_errors@)),
{
    Error::QuorumCall(QuorumCallError { cause: QuorumCallCause::Incomplete, node_errors })
}

// ── Responses ─────────────────────────────────────────────────────────────────

/// Collects responses from a quorum call as they arrive.
///
/// | Terminal method | Returns when |
/// |-----------------|--------------|
/// | [`first`][Self::first] | any one node replies successfully |
/// | [`majority`][Self::majority] | a simple majority replies successfully |
/// | [`all`][Self::all] | all n nodes reply successfully |
/// | [`threshold`][Self::threshold] | at least k nodes reply successfully |
/// | [`quorum`][Self::quorum] | the predicate returns a value |
///
/// `first`, `majority`, `all` and `threshold` return the **first** successful
/// response received once their threshold is met. `quorum` returns whatever
/// value the predicate produces.
///
/// The fan-out `L` is dispatched by the terminal method, or before it with
/// [`send_now`][Self::send_now].
#[must_use]
pub struct Responses<T, L> {
    /// Number of nodes in the configuration this call is sent to.
    pub size: usize,
    pub cancel: CancellationToken,
    /// The fan-out, until it is handed out to be dispatched.
    pub launch: Option<L>,
    pub values: PhantomData<T>,
}

impl<T, L> Responses<T, L> {
    /// Number of nodes in the configuration this call is sent to.
    pub fn size(&self) -> (r: usize)
        ensures
            r == self.size,
    {
        self.size
    }

    /// Hands out the fan-out to be dispatched immediately. The terminal
    /// methods do so on entry; a second call hands out nothing.
    pub fn send_now(&mut self) -> (r: Option<L>)
        ensures
            r == old(self).launch,
            *final(self) == (Responses { launch: None, ..*old(self) }),
    {
        self.launch.take()
    }

    /// Wait for the first successful response from any node.
    pub fn first(self) -> (r: (Option<L>, Threshold<T>))
        ensures
            r.0 == self.launch,
            r.1.fresh(1, self.cancel),
    {
        self.threshold(1)
    }

    /// Wait until a simple majority have replied successfully.
    pub fn majority(self) -> (r: (Option<L>, Threshold<T>))
        ensures
            r.0 == self.launch,
            r.1.fresh(majority_of(self.size as nat), self.cancel),
    {
        let q: usize = self.size / 2 + 1;
        self.threshold(q)
    }

    /// Wait for **all** nodes to reply successfully.
    pub fn all(self) -> (r: (Option<L>, Threshold<T>))
        ensures
            r.0 == self.launch,
            r.1.fresh(self.size as nat, self.cancel),
    {
        let n: usize = self.size;
        self.threshold(n)
    }

    /// Wait for at least `k` successful replies, then return the first one.
    pub fn threshold(self, k: usize) -> (r: (Option<L>, Threshold<T>))
        ensures
            r.0 == self.launch,
            r.1.fresh(k as nat, self.cancel),
    {
        let mut this = self;
        let launch = this.send_now();
        (launch, Threshold::new(k, this.cancel))
    }

    /// Drive aggregation with a quorum function of the caller.
    pub fn quorum(self) -> (r: (Option<L>, Quorum<T>))
        ensures
            r.0 == self.launch,
            r.1.collected(seq![], self.cancel),
    {
        let mut this = self;
        let launch = this.send_now();
        (launch, Quorum::new(this.cancel))
    }
}

// ── Threshold ─────────────────────────────────────────────────────────────────

/// Waits for at least `k` successful replies.
pub struct Threshold<T> {
    cancel: CancellationToken,
    k: usize,
    count: usize,
    first_ok: Option<T>,
    node_errors: Vec<NodeError>,
    received: Ghost<Seq<NodeResponse<T>>>,
}

/// What a [`Threshold`] does with an event: it is done with the outcome, or waits with
/// the event recorded.
pub open spec fn threshold_stepped<T>(
    before: Threshold<T>,
    event: Event<NodeResponse<T>>,
    step: Step<Threshold<T>, T>,
) -> bool {
    match threshold_outcome(before.k(), before.received(), event) {
        Some(outcome) => step matches Step::Done(result) && result_view(result) == outcome,
        None => {
            &&& event matches Event::Reply(reply)
            &&& step matches Step::Wait(next)
            &&& next.received() == before.received().push(reply)
            &&& next.k() == before.k()
            &&& next.token() == before.token()
        },
    }
}

impl<T> Threshold<T> {
    #[verifier::type_invariant]
    spec fn inv(self) -> bool {
        &&& self.count == successes(self.received@).len()
        &&& !enough(self.k as nat, self.count as nat)
        &&& self.first_ok == if self.count > 0 {
            Some(successes(self.received@)[0])
        } else {
            None
        }
        &&& node_errors_view(self.node_errors@) == failures(self.received@)
    }

    /// The replies so far, in order of arrival.
    pub closed spec fn received(&self) -> Seq<NodeResponse<T>> {
        self.received@
    }

    /// The number of successes to wait for.
    pub closed spec fn k(&self) -> nat {
        self.k as nat
    }

    /// The token of the call.
    pub closed spec fn token(&self) -> CancellationToken {
        self.cancel
    }

    /// Waits for `k` successes and has received nothing.
    pub open spec fn fresh(&self, k: nat, cancel: CancellationToken) -> bool {
        &&& self.k() == k
        &&& self.token() == cancel
        &&& self.received() == Seq::<NodeResponse<T>>::empty()
    }

    /// Waits for `k` successes.
    pub fn new(k: usize, cancel: CancellationToken) -> (r: Self)
        ensures
            r.fresh(k as nat, cancel),
    {
        let node_errors: Vec<NodeError> = Vec::new();
        assert(node_errors_view(node_errors@) =~= Seq::<NodeErrorView>::empty());
        Threshold {
            cancel,
            k,
            count: 0,
            first_ok: None,
            node_errors,
            received: Ghost(Seq::empty()),
        }
    }

    /// The token of the call.
    pub fn cancel(&self) -> (r: &CancellationToken)
        ensures
            *r == self.token(),
    {
        &self.cancel
    }

    /// Takes an event. The call succeeds with the first success once there
    /// are enough of them, is incomplete if no further reply can arrive
    /// before that, and is cancelled with its token.
    pub fn on_event(self, event: Event<NodeResponse<T>>) -> (step: Step<Self, T>)
        ensures
            threshold_stepped(self, event, step),
    {
        proof {
            use_type_invariant(&self);
        }
        let reply = match event {
            Event::Cancelled => return Step::Done(Err(Error::Cancelled)),
            Event::Closed => return Step::Done(Err(incomplete_error(self.node_errors))),
            Event::Reply(reply) => reply,
        };
        let ghost now = self.received@.push(reply);
        assert(now.drop_last() =~= self.received@);
        let mut node_errors = self.node_errors;
        match reply.result {
            Err(e) => {
                push_failure(&mut node_errors, reply.node_id, e);
                Step::Wait(
                    Threshold {
                        cancel: self.cancel,
                        k: self.k,
                        count: self.count,
                        first_ok: self.first_ok,
                        node_errors,
                        received: Ghost(now),
                    },
                )
            },
            Ok(value) => {
                let count: usize = self.count + 1;
                let first = match self.first_ok {
                    Some(first) => first,
                    None => value,
                };
                if count >= self.k {
                    Step::Done(Ok(first))
                } else {
                    Step::Wait(
                        Threshold {
                            cancel: self.cancel,
                            k: self.k,
                            count,
                            first_ok: Some(first),
                            node_errors,
                            received: Ghost(now),
                        },
                    )
                }
            },
        }
    }
}

// ── Quorum ────────────────────────────────────────────────────────────────────

/// Waits until a quorum function of the caller is satisfied with the
/// successful replies.
pub struct Quorum<T> {
    cancel: CancellationToken,
    oks: Vec<T>,
    node_errors: Vec<NodeError>,
    received: Ghost<Seq<NodeResponse<T>>>,
}

impl<T> Quorum<T> {
    #[verifier::type_invariant]
    spec fn inv(self) -> bool {
        &&& self.oks@ == successes(self.received@)
        &&& node_errors_view(self.node_errors@) == transport_failures(self.received@)
    }

    /// The replies so far, in order of arrival.
    pub closed spec fn received(&self) -> Seq<NodeResponse<T>> {
        self.received@
    }

    /// The token of the call.
    pub closed spec fn token(&self) -> CancellationToken {
        self.cancel
    }

    /// Has received these replies.
    pub open spec fn collected(
        &self,
        received: Seq<NodeResponse<T>>,
        cancel: CancellationToken,
    ) -> bool {
        &&& self.token() == cancel
        &&& self.received() == received
    }

    /// Has received nothing.
    pub fn new(cancel: CancellationToken) -> (r: Self)
        ensures
            r.collected(seq![], cancel),
    {
        let node_errors: Vec<NodeError> = Vec::new();
        assert(node_errors_view(node_errors@) =~= Seq::<NodeErrorView>::empty());
        Quorum { cancel, oks: Vec::new(), node_errors, received: Ghost(Seq::empty()) }
    }

    /// The token of the call.
    pub fn cancel(&self) -> (r: &CancellationToken)
        ensures
            *r == self.token(),
    {
        &self.cancel
    }

    /// Takes an event. After each successful reply the quorum function `f` is
    /// asked about **all** successful replies so far, in order of arrival: a
    /// value resolves the call, and otherwise the collecting goes on.
    pub fn on_event<F: FnOnce(&[T]) -> Option<T>>(
        self,
        event: Event<NodeResponse<T>>,
        f: F,
    ) -> (step: Step<Self, T>)
        requires
            event matches Event::Reply(reply) ==> reply.result is Ok ==> forall|oks: &[T]|
                oks@ == successes(self.received().push(reply)) ==> #[trigger] call_requires(
                    f,
                    (oks,),
                ),
        ensures
            match event {
                Event::Cancelled => step == Step::<Self, T>::Done(Err(Error::Cancelled)),
                Event::Closed => step matches Step::Done(Err(e)) && e@ == incomplete(
                    transport_failures(self.received()),
                ),
                Event::Reply(reply) => {
                    let now = self.received().push(reply);
                    if reply.result is Ok {
                        exists|oks: &[T], answer: Option<T>|
                            {
                                &&& oks@ == successes(now)
                                &&& #[trigger] call_ensures(f, (oks,), answer)
                                &&& match answer {
                                    Some(value) => step == Step::<Self, T>::Done(Ok(value)),
                                    None => step matches Step::Wait(next) && next.collected(
                                        now,
                                        self.token(),
                                    ),
                                }
                            }
                    } else {
                        step matches Step::Wait(next) && next.collected(now, self.token())
                    }
                },
            },
    {
        proof {
            use_type_invariant(&self);
        }
        let reply = match event {
            Event::Cancelled => return Step::Done(Err(Error::Cancelled)),
            Event::Closed => return Step::Done(Err(incomplete_error(self.node_errors))),
            Event::Reply(reply) => reply,
        };
        let ghost now = self.received@.push(reply);
        assert(now.drop_last() =~= self.received@);
        let cancel = self.cancel;
        let mut node_errors = self.node_errors;
        let mut oks = self.oks;
        match reply.result {
            Ok(value) => {
                oks.push(value);
                let seen = oks.as_slice();
                let answer = f(seen);
                assert(call_ensures(f, (seen,), answer));
                if let Some(value) = answer {
                    return Step::Done(Ok(value));
                }
            },
            Err(Error::Transport(status)) => {
                push_transport_failure(&mut node_errors, reply.node_id, status);
            },
            Err(_) => {},
        }
        Step::Wait(Quorum { cancel, oks, node_errors, received: Ghost(now) })
    }
}

// ── Laws ──────────────────────────────────────────────────────────────────────

/// The outcome of a call that waits for `k` successes, over a whole run of
/// events; `None` is a call that still waits.
pub open spec fn threshold_run<T>(
    k: nat,
    received: Seq<NodeResponse<T>>,
    events: Seq<Event<NodeResponse<T>>>,
) -> Option<Result<T, ErrorView>>
    decreases events.len(),
{
    if events.len() == 0 {
        None
    } else {
        match threshold_outcome(k, received, events[0]) {
            Some(outcome) => Some(outcome),
            None => match events[0] {
                Event::Reply(reply) => threshold_run(k, received.push(reply), events.drop_first()),
                _ => None,
            },
        }
    }
}

/// The replies as a run of events.
pub open spec fn replies<R>(rs: Seq<R>) -> Seq<Event<R>> {
    rs.map_values(|r: R| Event::Reply(r))
}

/// What a [`Threshold`] returns is what its events call for: where it takes the
/// events one after the other, its last step is the outcome of the whole run.
pub proof fn lemma_threshold_follows_events<T>(
    states: Seq<Threshold<T>>,
    events: Seq<Event<NodeResponse<T>>>,
    last: Step<Threshold<T>, T>,
)
    requires
        events.len() > 0,
        states.len() == events.len(),
        forall|i: int|
            0 <= i < events.len() - 1 ==> threshold_stepped(
                states[i],
                events[i],
                Step::Wait(#[trigger] states[i + 1]),
            ),
        threshold_stepped(states.last(), events.last(), last),
    ensures
        threshold_run(states[0].k(), states[0].received(), events) == match last {
            Step::Done(result) => Some(result_view(result)),
            Step::Wait(_) => None,
        },
    decreases events.len(),
{
    if events.len() == 1 {
        reveal_with_fuel(threshold_run, 2);
        assert(states[0] == states.last() && events[0] == events.last());
    } else {
        let (rest, later) = (states.drop_first(), events.drop_first());
        assert(threshold_stepped(states[0], events[0], Step::Wait(states[0int + 1])));
        assert forall|i: int| 0 <= i < later.len() - 1 implies threshold_stepped(
            rest[i],
            later[i],
            Step::Wait(#[trigger] rest[i + 1]),
        ) by {
            assert(rest[i + 1] == states[(i + 1) + 1]);
        }
        assert(rest.last() == states.last() && later.last() == events.last());
        lemma_threshold_follows_events(rest, later, last);
        assert(rest[0] == states[1]);
    }
}

/// The successes of two runs of replies follow each other.
pub proof fn lemma_successes_add<T>(a: Seq<NodeResponse<T>>, b: Seq<NodeResponse<T>>)
    ensures
        successes(a + b) == successes(a) + successes(b),
    decreases b.len(),
{
    if b.len() == 0 {
        assert(a + b =~= a);
        assert(successes(a) + successes(b) =~= successes(a));
    } else {
        lemma_successes_add(a, b.drop_last());
        assert((a + b).drop_last() =~= a + b.drop_last());
        assert(successes(a + b) =~= successes(a) + successes(b));
    }
}

/// A call that waits for `k` successes returns the first success exactly if
/// enough of the replies succeed; the replies after that do not matter, nor
/// does what ends the run. With too few successes it is incomplete with the
/// errors of all failed replies if no further reply can arrive, and cancelled
/// if its token fires.
pub proof fn lemma_threshold_run<T>(
    k: nat,
    before: Seq<NodeResponse<T>>,
    rs: Seq<NodeResponse<T>>,
    end: Event<NodeResponse<T>>,
)
    requires
        !enough(k, successes(before).len()),
        !(end is Reply),
    ensures
        threshold_run(k, before, replies(rs).push(end)) == Some(
            if enough(k, successes(before + rs).len()) {
                Ok(successes(before + rs)[0])
            } else if end is Cancelled {
                Err(ErrorView::Cancelled)
            } else {
                Err(incomplete(failures(before + rs)))
            },
        ),
    decreases rs.len(),
{
    let events = replies(rs).push(end);
    if rs.len() == 0 {
        assert(before + rs =~= before);
        assert(events[0] == end);
    } else {
        let now = before.push(rs[0]);
        let rest = rs.drop_first();
        assert(events[0] == Event::Reply(rs[0]));
        assert(now + rest =~= before + rs);
        assert(events.drop_first() =~= replies(rest).push(end));
        lemma_successes_add(now, rest);
        if !enough(k, successes(now).len()) {
            lemma_threshold_run(k, now, rest, end);
        }
    }
}

/// With one reply from each of the `n` nodes, waiting for all of them
/// succeeds exactly if none of them failed.
pub proof fn lemma_all_needs_every_node<T>(rs: Seq<NodeResponse<T>>)
    requires
        rs.len() > 0,
    ensures
        enough(rs.len(), successes(rs).len()) <==> failures(rs).len() == 0,
{
    lemma_success_or_failure(rs);
}

/// Every reply is a success or a failure.
pub proof fn lemma_success_or_failure<T>(rs: Seq<NodeResponse<T>>)
    ensures
        successes(rs).len() + failures(rs).len() == rs.len(),
    decreases rs.len(),
{
    if rs.len() > 0 {
        lemma_success_or_failure(rs.drop_last());
    }
}

/// A simple majority of `n` is the half of `n + 1`, rounded up: the least
/// number of nodes that is more than the rest.
pub proof fn lemma_majority_of(n: nat)
    ensures
        majority_of(n) == (n + 1) / 2 + (n + 1) % 2,
        2 * majority_of(n) > n,
        n > 0 ==> 2 * (majority_of(n) - 1) <= n,
        n > 0 ==> 1 <= majority_of(n) <= n,
{
}

/// Any two majorities of the same nodes have a node in common.
pub proof fn lemma_majorities_intersect(all: Set<u32>, a: Set<u32>, b: Set<u32>)
    requires
        all.finite(),
        a.subset_of(all),
        b.subset_of(all),
        a.len() >= majority_of(all.len()),
        b.len() >= majority_of(all.len()),
    ensures
        exists|id: u32| #[trigger] a.contains(id) && b.contains(id),
{
    vstd::set_lib::lemma_len_subset(a, all);
    vstd::set_lib::lemma_len_subset(b, all);
    if forall|id: u32| #[trigger] a.contains(id) ==> !b.contains(id) {
        vstd::set_lib::lemma_set_disjoint_lens(a, b);
        assert((a + b).subset_of(all));
        vstd::set_lib::lemma_len_subset(a + b, all);
    }
}

/// The result of a call that asks the quorum function `f`, while the replies
/// `rs` arrive after those in `received`; `None` is a call that still waits.
pub open spec fn quorum_run<T>(
    f: spec_fn(Seq<T>) -> Option<T>,
    received: Seq<NodeResponse<T>>,
    rs: Seq<NodeResponse<T>>,
) -> Option<T>
    decreases rs.len(),
{
    if rs.len() == 0 {
        None
    } else {
        let now = received.push(rs[0]);
        if rs[0].result is Ok && f(successes(now)) is Some {
            f(successes(now))
        } else {
            quorum_run(f, now, rs.drop_first())
        }
    }
}

/// The quorum function that is satisfied with `k` successes, and returns the
/// first.
pub open spec fn k_successes<T>(k: nat) -> spec_fn(Seq<T>) -> Option<T> {
    |values: Seq<T>|
        if enough(k, values.len()) {
            Some(values[0])
        } else {
            None
        }
}

/// Waiting for `k` successes is a quorum call whose function asks for `k`
/// successes.
pub proof fn lemma_threshold_is_quorum<T>(
    k: nat,
    before: Seq<NodeResponse<T>>,
    rs: Seq<NodeResponse<T>>,
)
    requires
        !enough(k, successes(before).len()),
    ensures
        quorum_run(k_successes(k), before, rs) == if enough(k, successes(before + rs).len()) {
            Some(successes(before + rs)[0])
        } else {
            None
        },
    decreases rs.len(),
{
    if rs.len() == 0 {
        assert(before + rs =~= before);
    } else {
        let now = before.push(rs[0]);
        let rest = rs.drop_first();
        assert(now.drop_last() =~= before);
        assert(now + rest =~= before + rs);
        lemma_successes_add(now, rest);
        if !enough(k, successes(now).len()) {
            lemma_threshold_is_quorum(k, now, rest);
        }
    }
}

} // verus!
