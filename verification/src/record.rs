//! Ends of channels that keep a record of what was put into them.
//!
//! The record exists in proofs only. It grows with each call on the channel
//! and in no other way, so a contract that fixes the record fixes what was
//! sent, how often, and in which order.

use vstd::prelude::*;

use std::ops::Deref;
use std::sync::Arc;
use tokio::sync::{mpsc, watch};

verus! {

// ── Queues ────────────────────────────────────────────────────────────────────

/// Whether a queue with the ends `tx` and `rx` was made.
pub open spec fn queue_made<T>(
    tx: mpsc::UnboundedSender<T>,
    rx: mpsc::UnboundedReceiver<T>,
) -> bool {
    call_ensures(mpsc::unbounded_channel::<T>, (), (tx, rx))
}

/// Whether `item` was put into the queue `tx`, with outcome `r`.
pub open spec fn queued<T>(
    tx: mpsc::UnboundedSender<T>,
    item: T,
    r: Result<(), mpsc::error::SendError<T>>,
) -> bool {
    call_ensures(mpsc::UnboundedSender::<T>::send, (&tx, item), r)
}

/// Whether `item` was put into the queue `tx`.
pub open spec fn was_queued<T>(tx: mpsc::UnboundedSender<T>, item: T) -> bool {
    exists|r: Result<(), mpsc::error::SendError<T>>| #[trigger] queued(tx, item, r)
}

/// The sending end of a queue.
#[verifier::reject_recursive_types(T)]
pub struct Outbox<T> {
    tx: mpsc::UnboundedSender<T>,
    sent: Ghost<Seq<T>>,
}

impl<T> Outbox<T> {
    #[verifier::type_invariant]
    spec fn inv(self) -> bool {
        forall|i: int| 0 <= i < self.sent@.len() ==> was_queued(self.tx, #[trigger] self.sent@[i])
    }

    /// The queue.
    pub closed spec fn sender(&self) -> mpsc::UnboundedSender<T> {
        self.tx
    }

    /// What was put into the queue through this end, in order.
    pub closed spec fn sent(&self) -> Seq<T> {
        self.sent@
    }

    /// Makes a queue, and has put nothing into it.
    pub fn new() -> (r: (Self, mpsc::UnboundedReceiver<T>))
        ensures
            queue_made(r.0.sender(), r.1),
            r.0.sent() == Seq::<T>::empty(),
    {
        let (tx, rx) = mpsc::unbounded_channel();
        (Outbox { tx, sent: Ghost(Seq::empty()) }, rx)
    }

    /// One more end of a queue. It has put nothing into the queue; its record
    /// is of what goes through this end.
    pub fn over(tx: mpsc::UnboundedSender<T>) -> (r: Self)
        ensures
            r.sender() == tx,
            r.sent() == Seq::<T>::empty(),
    {
        Outbox { tx, sent: Ghost(Seq::empty()) }
    }

    /// Puts an item into the queue. Fails if the receiving end is gone.
    pub fn send(&mut self, item: T) -> (r: Result<(), mpsc::error::SendError<T>>)
        ensures
            final(self).sender() == old(self).sender(),
            final(self).sent() == old(self).sent().push(item),
            queued(old(self).sender(), item, r),
    {
        proof {
            use_type_invariant(&*self);
        }
        let ghost now = self.sent@.push(item);
        let r = self.tx.send(item);
        assert(was_queued(self.tx, item)) by {
            assert(queued(self.tx, item, r));
        }
        self.sent = Ghost(now);
        r
    }

    /// Puts a last item into the queue and closes it.
    pub fn finish(self, item: T) -> (r: Result<(), mpsc::error::SendError<T>>)
        ensures
            queued(self.sender(), item, r),
    {
        self.tx.send(item)
    }
}

/// Whether the queue was closed with `item`: after what it had been sent, it
/// got this item, and nothing more.
pub open spec fn finished<T>(outbox: Outbox<T>, item: T) -> bool {
    exists|r: Result<(), mpsc::error::SendError<T>>| #[trigger]
        call_ensures(Outbox::<T>::finish, (outbox, item), r)
}

/// The sending end of a queue that is shared. To put an item into the queue
/// takes the ledger of the queue, of which there is one.
#[verifier::reject_recursive_types(T)]
pub struct Mailbox<T> {
    tx: mpsc::UnboundedSender<T>,
}

/// The record of a queue.
#[verifier::reject_recursive_types(T)]
pub struct Ledger<T> {
    queue: Ghost<mpsc::UnboundedSender<T>>,
    put: Ghost<Seq<T>>,
}

impl<T> Ledger<T> {
    #[verifier::type_invariant]
    spec fn inv(self) -> bool {
        forall|i: int| 0 <= i < self.put@.len() ==> was_queued(self.queue@, #[trigger] self.put@[i])
    }

    /// The queue whose record this is.
    pub closed spec fn queue(&self) -> mpsc::UnboundedSender<T> {
        self.queue@
    }

    /// What was put into the queue, in order.
    pub closed spec fn put(&self) -> Seq<T> {
        self.put@
    }
}

impl<T> Mailbox<T> {
    /// The queue.
    pub closed spec fn queue(&self) -> mpsc::UnboundedSender<T> {
        self.tx
    }

    /// Makes a queue and its ledger. Nothing was put into it.
    pub fn new() -> (r: (Self, Ledger<T>, mpsc::UnboundedReceiver<T>))
        ensures
            queue_made(r.0.queue(), r.2),
            r.1.queue() == r.0.queue(),
            r.1.put() == Seq::<T>::empty(),
    {
        let (tx, rx) = mpsc::unbounded_channel();
        let ledger = Ledger { queue: Ghost(tx), put: Ghost(Seq::empty()) };
        (Mailbox { tx }, ledger, rx)
    }

    /// Puts an item into the queue. Fails if the receiving end is gone.
    pub fn send(&self, ledger: &mut Ledger<T>, item: T) -> (r: Result<
        (),
        mpsc::error::SendError<T>,
    >)
        requires
            old(ledger).queue() == self.queue(),
        ensures
            final(ledger).queue() == old(ledger).queue(),
            final(ledger).put() == old(ledger).put().push(item),
            queued(self.queue(), item, r),
    {
        proof {
            use_type_invariant(&*ledger);
        }
        let ghost now = ledger.put@.push(item);
        let r = self.tx.send(item);
        assert(was_queued(self.tx, item)) by {
            assert(queued(self.tx, item, r));
        }
        ledger.put = Ghost(now);
        r
    }
}

// ── Watched values ────────────────────────────────────────────────────────────

/// Whether a watched value with the ends `tx` and `rx` was made, with the value
/// `init`.
pub open spec fn value_made<T>(tx: watch::Sender<T>, rx: watch::Receiver<T>, init: T) -> bool {
    call_ensures(watch::channel::<T>, (init,), (tx, rx))
}

/// Whether the value that `tx` shows was set to `value`.
pub open spec fn value_set<T>(tx: watch::Sender<T>, value: T) -> bool {
    exists|before: T| #[trigger] call_ensures(watch::Sender::<T>::send_replace, (&tx, value), before)
}

/// Whether `value` was read off what `tx` shows.
pub open spec fn value_read<T>(tx: watch::Sender<T>, value: T) -> bool {
    exists|guard: watch::Ref<T>|
        {
            &&& #[trigger] call_ensures(watch::Sender::<T>::borrow, (&tx,), guard)
            &&& call_ensures(<watch::Ref<T> as Deref>::deref, (&guard,), &value)
        }
}

/// Whether `rx` is a subscription to what `tx` shows.
pub open spec fn subscribed<T>(tx: watch::Sender<T>, rx: watch::Receiver<T>) -> bool {
    call_ensures(watch::Sender::<T>::subscribe, (&tx,), rx)
}

/// The end of a watched value that sets it.
#[verifier::reject_recursive_types(T)]
pub struct Board<T> {
    tx: Arc<watch::Sender<T>>,
    shown: Ghost<Seq<T>>,
}

/// The end of a watched value that reads it.
#[verifier::reject_recursive_types(T)]
pub struct Viewer<T> {
    tx: Arc<watch::Sender<T>>,
}

impl<T> Board<T> {
    #[verifier::type_invariant]
    spec fn inv(self) -> bool {
        forall|i: int| 0 <= i < self.shown@.len() ==> value_set(*self.tx, #[trigger] self.shown@[i])
    }

    /// The watched value.
    pub closed spec fn sender(&self) -> watch::Sender<T> {
        *self.tx
    }

    /// The values that were set, in order: the last one stays.
    pub closed spec fn shown(&self) -> Seq<T> {
        self.shown@
    }

    /// Makes a watched value that shows `init`. No one but the board sets it.
    pub fn new(init: T) -> (r: (Self, Viewer<T>, watch::Receiver<T>))
        ensures
            value_made(r.0.sender(), r.2, init),
            r.0.shown() == Seq::<T>::empty(),
            r.1.sender() == r.0.sender(),
    {
        let (sender, rx) = watch::channel(init);
        assert(value_made(sender, rx, init));
        let tx = Arc::new(sender);
        let viewer = Viewer { tx: tx.clone() };
        (Board { tx, shown: Ghost(Seq::empty()) }, viewer, rx)
    }

    /// Shows a value and wakes those who watch.
    pub fn set(&mut self, value: T)
        ensures
            final(self).sender() == old(self).sender(),
            final(self).shown() == old(self).shown().push(value),
            value_set(old(self).sender(), value),
    {
        proof {
            use_type_invariant(&*self);
        }
        let ghost now = self.shown@.push(value);
        let before = self.tx.send_replace(value);
        assert(value_set(*self.tx, value));
        self.shown = Ghost(now);
    }
}

impl<T> Viewer<T> {
    /// The watched value.
    pub closed spec fn sender(&self) -> watch::Sender<T> {
        *self.tx
    }

    /// The value that is shown now, without blocking.
    pub fn current(&self) -> (r: T) where T: Copy
        ensures
            value_read(self.sender(), r),
    {
        let guard = self.tx.borrow();
        let r = *Deref::deref(&guard);
        r
    }

    /// A new receiver of the value.
    pub fn subscribe(&self) -> (r: watch::Receiver<T>)
        ensures
            subscribed(self.sender(), r),
    {
        self.tx.subscribe()
    }
}

} // verus!
