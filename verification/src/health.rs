//! Active health probing of nodes.

use vstd::prelude::*;

use std::ops::Deref;
use std::time::Duration;
use tokio::sync::watch;
use tokio_util::sync::CancellationToken;

use crate::error::Error;
use crate::node::Node;
use crate::record::{value_made, Board};

verus! {

/// The method path of the built-in health check. Every server answers it.
pub const HEALTH_METHOD: &'static str = "/_gorums/health";

/// The duration of that many seconds.
pub uninterp spec fn seconds(secs: u64) -> Duration;

/// `Duration::from_secs` makes the duration of that many whole seconds.
pub assume_specification[ Duration::from_secs ](secs: u64) -> (r: Duration)
    ensures
        r == seconds(secs),
;

/// The answer of a server to a health check.
#[derive(Debug, Clone, Copy, PartialEq, Eq, Structural)]
pub struct HealthCheckResponse {
    pub ok: bool,
}

/// Health state of a node as observed by the active prober.
#[derive(Debug, Clone, Copy, PartialEq, Eq, Structural)]
pub enum HealthStatus {
    /// No probe has completed yet since the checker was started.
    Unknown,
    /// The most recent probe succeeded within the configured timeout.
    Healthy,
    /// The most recent probe timed out or returned an error.
    Unhealthy,
}

/// Configuration for an active health prober.
#[derive(Debug)]
pub struct HealthConfig {
    /// Time between consecutive probes.
    pub interval: Duration,
    /// Maximum time to wait for a probe response before declaring the node
    /// unhealthy.
    pub timeout: Duration,
}

impl Clone for HealthConfig {
    fn clone(&self) -> (r: Self)
        ensures
            r == *self,
    {
        HealthConfig { interval: self.interval, timeout: self.timeout }
    }
}

impl Default for HealthConfig {
    /// A probe every five seconds, with a timeout of two seconds.
    fn default() -> (r: Self)
        ensures
            r.interval == seconds(5),
            r.timeout == seconds(2),
    {
        HealthConfig { interval: Duration::from_secs(5), timeout: Duration::from_secs(2) }
    }
}

/// Active health prober for a single node. It probes until it is stopped.
pub struct NodeHealthChecker {
    pub status_rx: watch::Receiver<HealthStatus>,
    pub cancel: CancellationToken,
}

/// Whether `r` was read off the health `rx`.
pub open spec fn health_read(rx: watch::Receiver<HealthStatus>, r: HealthStatus) -> bool {
    exists|guard: watch::Ref<HealthStatus>|
        {
            &&& #[trigger] call_ensures(watch::Receiver::<HealthStatus>::borrow, (&rx,), guard)
            &&& call_ensures(<watch::Ref<HealthStatus> as Deref>::deref, (&guard,), &r)
        }
}

/// `CancellationToken::cancel` fires the token. Nothing else in the library
/// does.
#[verifier::external_body]
fn fire(token: &CancellationToken) {
    token.cancel();
}

/// Whether the token was fired.
pub closed spec fn token_fired(token: CancellationToken) -> bool {
    call_ensures(fire, (&token,), ())
}

impl NodeHealthChecker {
    /// The most recently observed health status, without blocking.
    pub fn status(&self) -> (r: HealthStatus)
        ensures
            health_read(self.status_rx, r),
    {
        let guard = self.status_rx.borrow();
        let r = *Deref::deref(&guard);
        r
    }

    /// A receiver that is notified whenever the health status changes.
    pub fn subscribe(&self) -> (r: watch::Receiver<HealthStatus>)
        ensures
            call_ensures(
                <watch::Receiver<HealthStatus> as Clone>::clone,
                (&self.status_rx,),
                r,
            ),
    {
        self.status_rx.clone()
    }

    /// Ends the probing.
    pub fn stop(&self)
        ensures
            token_fired(self.cancel),
    {
        fire(&self.cancel);
    }
}

/// The background side of a [`NodeHealthChecker`].
pub struct Prober<S> {
    pub node: Node<S>,
    pub config: HealthConfig,
    /// The status that was published last.
    pub current: HealthStatus,
    /// The task is to end: no further probes.
    pub stopped: bool,
    /// Where the status is published.
    pub board: Board<HealthStatus>,
    pub cancel: CancellationToken,
}

/// What happens to a prober.
pub enum ProberEvent<T> {
    /// The prober was started.
    Started,
    /// The probe was answered.
    Completed(Result<T, Error>),
    /// The probe was not answered in time.
    TimedOut,
    /// The interval between two probes is over.
    Elapsed,
    /// The checker was stopped.
    Cancelled,
}

/// What a prober does next.
#[derive(Debug, Clone, Copy, PartialEq, Eq, Structural)]
pub enum ProberAction {
    /// Probe the node, with the configured timeout.
    Probe,
    /// Wait for the configured interval, or until the checker is stopped.
    Wait,
    /// End the task.
    Stop,
}

/// The status that an event brings about: a probe that was answered without
/// error shows a healthy node, and any other probe an unhealthy one.
pub open spec fn health_after<T>(current: HealthStatus, event: ProberEvent<T>) -> HealthStatus {
    match event {
        ProberEvent::Completed(Ok(_)) => HealthStatus::Healthy,
        ProberEvent::Completed(Err(_)) => HealthStatus::Unhealthy,
        ProberEvent::TimedOut => HealthStatus::Unhealthy,
        _ => current,
    }
}

/// Whether an event is the end of a probe.
pub open spec fn ends_probe<T>(event: ProberEvent<T>) -> bool {
    event is Completed || event is TimedOut
}

/// What is done after an event; `fired` is whether the checker was stopped by
/// then. A checker that was stopped starts no probe.
pub open spec fn prober_action<T>(event: ProberEvent<T>, fired: bool) -> ProberAction {
    if ends_probe(event) {
        ProberAction::Wait
    } else if fired || event is Cancelled {
        ProberAction::Stop
    } else {
        ProberAction::Probe
    }
}

/// The state of a prober: the status that was published last, whether it is
/// to end, and all that was published.
#[verifier::ext_equal]
pub struct Probing {
    pub current: HealthStatus,
    pub stopped: bool,
    pub published: Seq<HealthStatus>,
}

/// Nothing has happened.
pub open spec fn fresh_probing() -> Probing {
    Probing { current: HealthStatus::Unknown, stopped: false, published: seq![] }
}

/// The state after an event. A status is published only when it differs from
/// the one before; once the prober is to end nothing happens any more.
pub open spec fn probing_after<T>(
    before: Probing,
    event: ProberEvent<T>,
    fired: bool,
) -> Probing {
    if before.stopped {
        before
    } else {
        let status = health_after(before.current, event);
        Probing {
            current: status,
            stopped: prober_action(event, fired) is Stop,
            published: if status != before.current {
                before.published.push(status)
            } else {
                before.published
            },
        }
    }
}

impl<S> Prober<S> {
    /// The state of the prober.
    pub open spec fn probing(&self) -> Probing {
        Probing {
            current: self.current,
            stopped: self.stopped,
            published: self.board.shown(),
        }
    }

    /// Reacts to an event. Subscribers are woken only when the status
    /// actually changes: the result says whether it did.
    pub fn on_event<T>(&mut self, event: ProberEvent<T>) -> (r: (ProberAction, bool))
        ensures
            exists|fired: bool|
                {
                    &&& #[trigger] call_ensures(
                        CancellationToken::is_cancelled,
                        (&old(self).cancel,),
                        fired,
                    )
                    &&& final(self).probing() == probing_after(old(self).probing(), event, fired)
                    &&& r.0 == if old(self).stopped {
                        ProberAction::Stop
                    } else {
                        prober_action(event, fired)
                    }
                },
            r.1 == (final(self).current != old(self).current),
            final(self).node == old(self).node,
            final(self).config == old(self).config,
            final(self).board.sender() == old(self).board.sender(),
            final(self).cancel == old(self).cancel,
    {
        let fired = self.cancel.is_cancelled();
        assert(call_ensures(CancellationToken::is_cancelled, (&self.cancel,), fired));
        self.step(event, fired)
    }

    /// Reacts to an event; `fired` is whether the checker was stopped by then.
    pub fn step<T>(&mut self, event: ProberEvent<T>, fired: bool) -> (r: (ProberAction, bool))
        ensures
            final(self).probing() == probing_after(old(self).probing(), event, fired),
            r.0 == if old(self).stopped {
                ProberAction::Stop
            } else {
                prober_action(event, fired)
            },
            r.1 == (final(self).current != old(self).current),
            final(self).node == old(self).node,
            final(self).config == old(self).config,
            final(self).board.sender() == old(self).board.sender(),
            final(self).cancel == old(self).cancel,
    {
        if self.stopped {
            return (ProberAction::Stop, false);
        }
        match event {
            ProberEvent::Completed(Ok(_)) => (
                ProberAction::Wait,
                self.publish(HealthStatus::Healthy),
            ),
            ProberEvent::Completed(Err(_)) => (
                ProberAction::Wait,
                self.publish(HealthStatus::Unhealthy),
            ),
            ProberEvent::TimedOut => (ProberAction::Wait, self.publish(HealthStatus::Unhealthy)),
            ProberEvent::Cancelled => {
                self.stopped = true;
                (ProberAction::Stop, false)
            },
            _ => {
                if fired {
                    self.stopped = true;
                    (ProberAction::Stop, false)
                } else {
                    (ProberAction::Probe, false)
                }
            },
        }
    }

    fn publish(&mut self, status: HealthStatus) -> (changed: bool)
        ensures
            final(self).current == status,
            changed == (status != old(self).current),
            final(self).board.shown() == if changed {
                old(self).board.shown().push(status)
            } else {
                old(self).board.shown()
            },
            final(self).board.sender() == old(self).board.sender(),
            final(self).stopped == old(self).stopped,
            final(self).node == old(self).node,
            final(self).config == old(self).config,
            final(self).cancel == old(self).cancel,
    {
        if self.current != status {
            self.board.set(status);
            self.current = status;
            true
        } else {
            false
        }
    }
}

/// Start actively probing `node`. The status is `Unknown` until the first
/// probe is over; the prober stops when the checker is stopped.
pub fn check_node<S>(node: Node<S>, config: HealthConfig) -> (r: (NodeHealthChecker, Prober<S>))
    ensures
        value_made(r.1.board.sender(), r.0.status_rx, HealthStatus::Unknown),
        r.1.probing() == fresh_probing(),
        r.1.node == node,
        r.1.config == config,
        call_ensures(CancellationToken::new, (), r.0.cancel),
        r.1.cancel == r.0.cancel,
{
    let (board, _viewer, status_rx) = Board::new(HealthStatus::Unknown);
    let cancel = CancellationToken::new();
    let prober = Prober {
        node,
        config,
        current: HealthStatus::Unknown,
        stopped: false,
        board,
        cancel: cancel.clone(),
    };
    (NodeHealthChecker { status_rx, cancel }, prober)
}

/// The state after a whole run of events, each with whether the checker was
/// stopped by then.
pub open spec fn probing_of<T>(events: Seq<(ProberEvent<T>, bool)>) -> Probing
    decreases events.len(),
{
    if events.len() == 0 {
        fresh_probing()
    } else {
        let (event, fired) = events.last();
        probing_after(probing_of(events.drop_last()), event, fired)
    }
}

/// What a prober publishes is what its events call for: after each event the
/// prober is in the state of the events so far.
pub proof fn lemma_prober_follows_events<S, T>(
    states: Seq<Prober<S>>,
    events: Seq<(ProberEvent<T>, bool)>,
)
    requires
        states.len() == events.len() + 1,
        states[0].probing() == fresh_probing(),
        forall|i: int|
            0 <= i < events.len() ==> (#[trigger] states[i + 1]).probing() == probing_after(
                states[i].probing(),
                events[i].0,
                events[i].1,
            ),
    ensures
        states.last().probing() == probing_of(events),
    decreases events.len(),
{
    if events.len() > 0 {
        let n = events.len() - 1;
        let before = states.drop_last();
        assert forall|i: int| 0 <= i < n implies (#[trigger] before[i + 1]).probing()
            == probing_after(
            before[i].probing(),
            events.drop_last()[i].0,
            events.drop_last()[i].1,
        ) by {
            assert(before[i + 1] == states[i + 1]);
        }
        lemma_prober_follows_events(before, events.drop_last());
        assert(states[n + 1].probing() == probing_after(
            states[n].probing(),
            events[n].0,
            events[n].1,
        ));
    }
}

/// The current status is the one that was published last, and `Unknown` while
/// none was.
pub proof fn lemma_current_is_published<T>(events: Seq<(ProberEvent<T>, bool)>)
    ensures
        probing_of(events).current == if probing_of(events).published.len() == 0 {
            HealthStatus::Unknown
        } else {
            probing_of(events).published.last()
        },
    decreases events.len(),
{
    if events.len() > 0 {
        lemma_current_is_published(events.drop_last());
    }
}

/// Subscribers see changes only: no status is published twice in a row, nor is
/// the one that they saw already.
pub proof fn lemma_published_changes<T>(events: Seq<(ProberEvent<T>, bool)>, i: int)
    requires
        0 <= i < probing_of(events).published.len(),
    ensures
        probing_of(events).published[i] != if i == 0 {
            HealthStatus::Unknown
        } else {
            probing_of(events).published[i - 1]
        },
    decreases events.len(),
{
    let before = events.drop_last();
    if i < probing_of(before).published.len() {
        lemma_published_changes(before, i);
    } else {
        lemma_current_is_published(before);
    }
}

/// `Unknown` is never published: it is the status before the first probe has
/// ended.
pub proof fn lemma_unknown_is_initial<T>(events: Seq<(ProberEvent<T>, bool)>, i: int)
    requires
        0 <= i < probing_of(events).published.len(),
    ensures
        !(probing_of(events).published[i] is Unknown),
    decreases events.len(),
{
    let before = events.drop_last();
    if i < probing_of(before).published.len() {
        lemma_unknown_is_initial(before, i);
    }
}

/// The status is that of the last probe: `Healthy` exactly if it was answered
/// without error in time. Events between two probes leave it alone, and before
/// the end of the first probe it is `Unknown`.
pub proof fn lemma_status_of_last_probe<T>(events: Seq<(ProberEvent<T>, bool)>, last: int)
    requires
        -1 <= last < events.len(),
        last >= 0 ==> ends_probe(events[last].0) && !probing_of(events.take(last)).stopped,
        forall|i: int| last < i < events.len() ==> !ends_probe((#[trigger] events[i]).0),
    ensures
        probing_of(events).current == if last < 0 {
            HealthStatus::Unknown
        } else if events[last].0 matches ProberEvent::Completed(Ok(_)) {
            HealthStatus::Healthy
        } else {
            HealthStatus::Unhealthy
        },
    decreases events.len(),
{
    if events.len() > 0 {
        let before = events.drop_last();
        let n = events.len() - 1;
        assert(events[n] == events.last());
        if last == n {
            assert(events.take(n) =~= before);
        } else {
            assert forall|i: int| last < i < before.len() implies !ends_probe(
                (#[trigger] before[i]).0,
            ) by {
                assert(before[i] == events[i]);
            }
            if last >= 0 {
                assert(before.take(last) =~= events.take(last));
                assert(before[last] == events[last]);
            }
            lemma_status_of_last_probe(before, last);
        }
    }
}

/// A checker that was stopped starts no new probe, and once the prober is to
/// end, every event ends it.
pub proof fn lemma_stopped_checker_does_not_probe<T>(before: Probing, event: ProberEvent<T>)
    ensures
        !(prober_action(event, true) is Probe),
        prober_action(event, true) is Stop ==> probing_after(before, event, true).stopped,
        before.stopped ==> probing_after(before, event, true) == before,
{
}

} // verus!
