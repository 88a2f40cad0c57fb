//! The registry of calls that wait for an answer.

use vstd::prelude::*;

use std::collections::HashMap;
use tokio::sync::{mpsc, oneshot};

use crate::error::{Error, ErrorView};
use crate::message::Message;
use crate::record::{finished, queue_made, queued, Outbox};

verus! {

broadcast use vstd::std_specs::hash::group_hash_axioms;

/// What a caller waits for: one response, or a stream of them.
pub enum PendingCall {
    Response(oneshot::Sender<Result<Message, Error>>),
    Stream(Outbox<Result<Message, Error>>),
}

/// Registry of in-flight two-way calls, keyed by sequence number.
///
/// The router outlives the stream that carries the calls: when a stream is
/// torn down, all pending callers are cancelled via [`Router::cancel_all`] and
/// the registry is ready for the next stream.
pub struct Router {
    pending: HashMap<u64, PendingCall>,
}

impl View for Router {
    type V = Map<u64, PendingCall>;

    closed spec fn view(&self) -> Map<u64, PendingCall> {
        self.pending@
    }
}

/// Whether `result` was handed to the caller that waits for one response.
pub open spec fn answered(
    tx: oneshot::Sender<Result<Message, Error>>,
    result: Result<Message, Error>,
) -> bool {
    exists|r: Result<(), Result<Message, Error>>| #[trigger]
        call_ensures(oneshot::Sender::<Result<Message, Error>>::send, (tx, result), r)
}

/// The stream of a caller before and after `result` was put into it: it got
/// that result, and nothing else.
pub open spec fn streamed(
    before: Outbox<Result<Message, Error>>,
    after: Outbox<Result<Message, Error>>,
    result: Result<Message, Error>,
) -> bool {
    &&& after.sender() == before.sender()
    &&& after.sent() == before.sent().push(result)
}

/// Whether the caller was told that its call failed with `err`: a caller that
/// waits for one response got the error in its place, and a stream got it as
/// its last item.
pub open spec fn cancelled(call: PendingCall, err: ErrorView) -> bool {
    match call {
        PendingCall::Response(tx) => exists|e: Error| e@ == err && #[trigger] answered(tx, Err(e)),
        PendingCall::Stream(out) => exists|e: Error|
            e@ == err && #[trigger] finished(out, Err(e)),
    }
}

/// The registry before and after `result` was delivered to call `seq`: the
/// caller gets it if there is one, a one-shot call is then over, and so is a
/// stream whose receiver is gone.
pub open spec fn delivery(
    before: Map<u64, PendingCall>,
    after: Map<u64, PendingCall>,
    seq: u64,
    result: Result<Message, Error>,
) -> bool {
    match before.get(seq) {
        None => after == before,
        Some(PendingCall::Response(tx)) => {
            &&& answered(tx, result)
            &&& after == before.remove(seq)
        },
        Some(PendingCall::Stream(out)) => exists|
            next: Outbox<Result<Message, Error>>,
            r: Result<(), mpsc::error::SendError<Result<Message, Error>>>,
        |
            {
                &&& #[trigger] queued(out.sender(), result, r)
                &&& #[trigger] streamed(out, next, result)
                &&& after == if r is Ok {
                    before.insert(seq, PendingCall::Stream(next))
                } else {
                    before.remove(seq)
                }
            },
    }
}

/// The registry before and after the stream with receiver `rx` was made for
/// call `seq`: nothing was put into it yet.
pub open spec fn stream_registered(
    before: Map<u64, PendingCall>,
    after: Map<u64, PendingCall>,
    seq: u64,
    rx: mpsc::UnboundedReceiver<Result<Message, Error>>,
) -> bool {
    exists|out: Outbox<Result<Message, Error>>|
        {
            &&& #[trigger] queue_made(out.sender(), rx)
            &&& out.sent() == Seq::<Result<Message, Error>>::empty()
            &&& after == before.insert(seq, PendingCall::Stream(out))
        }
}

/// The registry before and after every pending call was cancelled with `err`.
pub open spec fn all_cancelled(
    before: Map<u64, PendingCall>,
    after: Map<u64, PendingCall>,
    err: ErrorView,
) -> bool {
    &&& after == Map::<u64, PendingCall>::empty()
    &&& forall|seq: u64| #[trigger] before.contains_key(seq) ==> cancelled(before[seq], err)
}

impl Router {
    /// A router without pending calls.
    pub fn new() -> (r: Self)
        ensures
            r@ == Map::<u64, PendingCall>::empty(),
    {
        Router { pending: HashMap::new() }
    }

    /// Store the sender of a call that waits for one response.
    pub fn register_with_sender(&mut self, seq: u64, tx: oneshot::Sender<Result<Message, Error>>)
        ensures
            final(self)@ == old(self)@.insert(seq, PendingCall::Response(tx)),
    {
        self.pending.insert(seq, PendingCall::Response(tx));
    }

    /// Make the stream of a call that waits for many responses, and store its
    /// sender. Called before the request is enqueued, so that the entry exists
    /// before any response can arrive.
    pub fn register_stream(&mut self, seq: u64) -> (rx: mpsc::UnboundedReceiver<
        Result<Message, Error>,
    >)
        ensures
            stream_registered(old(self)@, final(self)@, seq, rx),
    {
        let (out, rx) = Outbox::new();
        assert(queue_made(out.sender(), rx));
        self.pending.insert(seq, PendingCall::Stream(out));
        rx
    }

    /// Deliver a response to the matching caller.
    ///
    /// For one-shot calls the entry is removed on delivery. For streaming
    /// calls the entry stays until [`Router::close_stream`] is called or the
    /// receiver is dropped.
    pub fn deliver(&mut self, seq: u64, result: Result<Message, Error>)
        ensures
            delivery(old(self)@, final(self)@, seq, result),
    {
        match self.pending.remove(&seq) {
            None => {},
            Some(PendingCall::Response(tx)) => {
                let sent = tx.send(result);
                assert(answered(tx, result));
            },
            Some(PendingCall::Stream(out)) => {
                let mut next = out;
                let sent = next.send(result);
                assert(queued(out.sender(), result, sent) && streamed(out, next, result));
                if sent.is_ok() {
                    self.pending.insert(seq, PendingCall::Stream(next));
                    assert(self@ =~= old(self)@.insert(seq, PendingCall::Stream(next)));
                }
            },
        }
        assert(old(self)@.get(seq) is None ==> self@ =~= old(self)@);
    }

    /// Signal the end of the stream of a call. Dropping the sender closes the
    /// receiver of the caller.
    pub fn close_stream(&mut self, seq: u64)
        ensures
            final(self)@ == old(self)@.remove(seq),
    {
        self.pending.remove(&seq);
    }

    /// Cancel every pending call with the given error. Each caller gets the
    /// error once, and a stream ends with it.
    pub fn cancel_all(&mut self, err: Error)
        ensures
            all_cancelled(old(self)@, final(self)@, err@),
    {
        let mut seqs: Vec<u64> = Vec::new();
        for seq in it: self.pending.keys()
            invariant
                it.seq().unref().to_set() == self@.dom(),
                seqs@ == it.seq().unref().take(it.index() as int),
                it.index() == it.seq().len() ==> seqs@ == it.seq().unref(),
        {
            seqs.push(*seq);
            assert(seqs@ =~= it.seq().unref().take(it.index() as int + 1));
        }
        let ghost all = self@;
        for i in 0..seqs.len()
            invariant
                all == old(self)@,
                seqs@.to_set() == all.dom(),
                forall|seq: u64| #[trigger]
                    self@.contains_key(seq) ==> all.contains_key(seq) && self@[seq] == all[seq],
                forall|j: int| 0 <= j < i ==> !self@.contains_key(#[trigger] seqs@[j]),
                forall|seq: u64| #[trigger]
                    all.contains_key(seq) && !self@.contains_key(seq) ==> cancelled(all[seq], err@),
        {
            let ghost before = self@;
            match self.pending.remove(&seqs[i]) {
                Some(PendingCall::Response(tx)) => {
                    let e = err.clone();
                    let sent = tx.send(Err(e));
                    assert(answered(tx, Err(e)));
                },
                Some(PendingCall::Stream(out)) => {
                    let e = err.clone();
                    let sent = out.finish(Err(e));
                    assert(finished(out, Err(e)));
                },
                None => {},
            }
        }
        assert forall|seq: u64| !self@.contains_key(seq) by {
            if self@.contains_key(seq) {
                assert(seqs@.to_set().contains(seq));
                let j = choose|j: int| 0 <= j < seqs@.len() && seqs@[j] == seq;
                assert(!self@.contains_key(seqs@[j]));
            }
        }
        assert(self@ =~= Map::<u64, PendingCall>::empty());
    }
}

/// A delivery concerns one call: every other pending call stays as it is.
pub proof fn lemma_delivery_concerns_one_call(
    before: Map<u64, PendingCall>,
    after: Map<u64, PendingCall>,
    seq: u64,
    result: Result<Message, Error>,
    other: u64,
)
    requires
        delivery(before, after, seq, result),
        other != seq,
    ensures
        after.get(other) == before.get(other),
{
}

/// A one-shot call is answered at most once: after its response, a second one
/// with the same sequence number finds nobody and changes nothing.
pub proof fn lemma_answered_once(
    before: Map<u64, PendingCall>,
    after: Map<u64, PendingCall>,
    later: Map<u64, PendingCall>,
    seq: u64,
    result: Result<Message, Error>,
    again: Result<Message, Error>,
)
    requires
        before.get(seq) matches Some(PendingCall::Response(_)),
        delivery(before, after, seq, result),
        delivery(after, later, seq, again),
    ensures
        after.get(seq) is None,
        later == after,
{
}

/// A stream whose receiver takes what is sent stays open for the next
/// response: it has got this one, once, after those before it.
pub proof fn lemma_stream_stays_open(
    before: Map<u64, PendingCall>,
    after: Map<u64, PendingCall>,
    seq: u64,
    result: Result<Message, Error>,
    out: Outbox<Result<Message, Error>>,
)
    requires
        before.get(seq) == Some(PendingCall::Stream(out)),
        delivery(before, after, seq, result),
        forall|r: Result<(), mpsc::error::SendError<Result<Message, Error>>>| #[trigger]
            queued(out.sender(), result, r) ==> r is Ok,
    ensures
        after.get(seq) matches Some(PendingCall::Stream(next)) && streamed(out, next, result),
        forall|other: u64| other != seq ==> #[trigger] after.get(other) == before.get(other),
{
}

/// Cancelled calls are over: a later response to any of them finds nobody, a
/// second cancellation concerns no call, and the calls that are registered
/// from then on are the only ones.
pub proof fn lemma_cancelled_calls_are_over(
    before: Map<u64, PendingCall>,
    after: Map<u64, PendingCall>,
    err: ErrorView,
    seq: u64,
    result: Result<Message, Error>,
    later: Map<u64, PendingCall>,
    again: Map<u64, PendingCall>,
    call: PendingCall,
)
    requires
        all_cancelled(before, after, err),
        delivery(after, later, seq, result),
        all_cancelled(later, again, err),
    ensures
        later == after,
        again == after,
        forall|old_seq: u64| !(#[trigger] later.contains_key(old_seq)),
        again.insert(seq, call) == Map::<u64, PendingCall>::empty().insert(seq, call),
{
}

} // verus!
