//! Laws of active health probing.

use vstd::prelude::*;

use std::ops::Deref;
use tokio::sync::watch;
use tokio_util::sync::CancellationToken;

use crate::error::Error;
use crate::health::{
    check_node, seconds, token_fired, HealthConfig, HealthStatus, NodeHealthChecker, Prober,
    ProberAction, ProberEvent,
};
use crate::node::Node;
use crate::record::value_made;

verus! {

/// Whether an event is the end of a probe.
pub open spec fn probe_is_over<T>(event: ProberEvent<T>) -> bool {
    event is Completed || event is TimedOut
}

/// A prober that was not stopped goes on probing: it probes exactly when it
/// starts and when an interval is over, and waits for the next interval
/// exactly when a probe is over. It stops exactly when it is told to, or finds
/// its token fired before a probe.
pub proof fn law_prober_keeps_probing<S, T>(
    p: &mut Prober<S>,
    event: ProberEvent<T>,
    fired: bool,
    r: (ProberAction, bool),
)
    requires
        call_ensures(Prober::<S>::step::<T>, (p, event, fired), r),
        !old(p).stopped,
    ensures
        !fired && (event is Started || event is Elapsed) <==> r.0 is Probe,
        event is Completed || event is TimedOut <==> r.0 is Wait,
        r.0 is Stop <==> event is Cancelled || (fired && (event is Started || event is Elapsed)),
        final(p).stopped <==> r.0 is Stop,
{
}

/// A prober whose token has not fired keeps probing as long as it is not
/// stopped.
pub proof fn law_prober_keeps_probing_until_fired<S, T>(
    p: &mut Prober<S>,
    event: ProberEvent<T>,
    r: (ProberAction, bool),
)
    requires
        call_ensures(Prober::<S>::on_event::<T>, (p, event), r),
        !old(p).stopped,
    ensures
        probe_is_over(event) ==> r.0 is Wait && !final(p).stopped,
        event is Cancelled ==> r.0 is Stop && final(p).stopped,
        (event is Started || event is Elapsed) && (forall|fired: bool| #[trigger]
            call_ensures(CancellationToken::is_cancelled, (&old(p).cancel,), fired) ==> !fired)
            ==> r.0 is Probe && !final(p).stopped,
        (event is Started || event is Elapsed) && (forall|fired: bool| #[trigger]
            call_ensures(CancellationToken::is_cancelled, (&old(p).cancel,), fired) ==> fired)
            ==> r.0 is Stop && final(p).stopped,
{
}

/// One probe follows the other: once a probe is over the prober waits, and
/// when the interval is over it probes again, whatever the first probe showed.
pub proof fn law_probe_follows_probe<S, T>(
    p: &mut Prober<S>,
    first: ProberEvent<T>,
    fired: bool,
    r: (ProberAction, bool),
    q: &mut Prober<S>,
    r_next: (ProberAction, bool),
)
    requires
        call_ensures(Prober::<S>::step::<T>, (p, first, fired), r),
        call_ensures(Prober::<S>::step::<T>, (q, ProberEvent::Elapsed, false), r_next),
        !old(p).stopped,
        probe_is_over(first),
    ensures
        *old(q) == *final(p) ==> r.0 is Wait && r_next.0 is Probe && !final(q).stopped,
{
}

/// A prober that has stopped has stopped for good: whatever happens next, it
/// does not probe and publishes nothing.
pub proof fn law_stopped_prober_stays_stopped<S, T>(
    p: &mut Prober<S>,
    event: ProberEvent<T>,
    fired: bool,
    r: (ProberAction, bool),
    q: &mut Prober<S>,
    next: ProberEvent<T>,
    fired_next: bool,
    r_next: (ProberAction, bool),
)
    requires
        call_ensures(Prober::<S>::step::<T>, (p, event, fired), r),
        call_ensures(Prober::<S>::step::<T>, (q, next, fired_next), r_next),
        r.0 is Stop,
    ensures
        *old(q) == *final(p) ==> r_next.0 is Stop && !r_next.1 && final(q).stopped
            && final(q).board.shown() == old(q).board.shown() && final(q).current
            == old(q).current,
{
}

/// The status shows how the last probe went: healthy if it was answered
/// without error, unhealthy if it failed or was not answered in time. No other
/// event changes it.
pub proof fn law_status_of_last_probe<S, T>(
    p: &mut Prober<S>,
    event: ProberEvent<T>,
    fired: bool,
    r: (ProberAction, bool),
)
    requires
        call_ensures(Prober::<S>::step::<T>, (p, event, fired), r),
        !old(p).stopped,
    ensures
        forall|v: T|
            event == ProberEvent::Completed(Ok::<T, Error>(v)) ==> final(p).current
                == HealthStatus::Healthy,
        forall|e: Error|
            event == ProberEvent::Completed(Err::<T, Error>(e)) ==> final(p).current
                == HealthStatus::Unhealthy,
        event is TimedOut ==> final(p).current == HealthStatus::Unhealthy,
        !probe_is_over(event) ==> final(p).current == old(p).current,
{
}

/// Subscribers are told of every change of the status, once, and of nothing
/// else; the node, the settings, the token and the board stay the same.
pub proof fn law_subscribers_see_changes<S, T>(
    p: &mut Prober<S>,
    event: ProberEvent<T>,
    fired: bool,
    r: (ProberAction, bool),
)
    requires
        call_ensures(Prober::<S>::step::<T>, (p, event, fired), r),
    ensures
        r.1 <==> final(p).current != old(p).current,
        r.1 ==> final(p).board.shown() == old(p).board.shown().push(final(p).current),
        !r.1 ==> final(p).board.shown() == old(p).board.shown(),
        final(p).node == old(p).node,
        final(p).config == old(p).config,
        final(p).cancel == old(p).cancel,
        final(p).board.sender() == old(p).board.sender(),
{
}

/// The same, for a prober that looks at its token itself.
pub proof fn law_subscribers_see_changes_until_fired<S, T>(
    p: &mut Prober<S>,
    event: ProberEvent<T>,
    r: (ProberAction, bool),
)
    requires
        call_ensures(Prober::<S>::on_event::<T>, (p, event), r),
    ensures
        r.1 <==> final(p).current != old(p).current,
        r.1 ==> final(p).board.shown() == old(p).board.shown().push(final(p).current),
        !r.1 ==> final(p).board.shown() == old(p).board.shown(),
        old(p).stopped ==> r.0 is Stop && !r.1 && final(p).stopped,
        !old(p).stopped ==> (forall|v: T|
            event == ProberEvent::Completed(Ok::<T, Error>(v)) ==> final(p).current
                == HealthStatus::Healthy),
        !old(p).stopped ==> (forall|e: Error|
            event == ProberEvent::Completed(Err::<T, Error>(e)) ==> final(p).current
                == HealthStatus::Unhealthy),
        !old(p).stopped && event is TimedOut ==> final(p).current == HealthStatus::Unhealthy,
        !probe_is_over(event) ==> final(p).current == old(p).current,
        final(p).node == old(p).node,
        final(p).config == old(p).config,
        final(p).cancel == old(p).cancel,
        final(p).board.sender() == old(p).board.sender(),
{
}

/// A prober of a node knows nothing at first, has not stopped, and shares its
/// board and its token with its checker. Its first action is a probe.
pub proof fn law_check_node<S, T>(
    node: Node<S>,
    config: HealthConfig,
    made: (NodeHealthChecker, Prober<S>),
    p: &mut Prober<S>,
    r: (ProberAction, bool),
)
    requires
        call_ensures(check_node::<S>, (node, config), made),
        call_ensures(Prober::<S>::step::<T>, (p, ProberEvent::Started, false), r),
    ensures
        made.1.node == node,
        made.1.config == config,
        made.1.current is Unknown,
        !made.1.stopped,
        made.1.board.shown().len() == 0,
        made.1.cancel == made.0.cancel,
        call_ensures(CancellationToken::new, (), made.0.cancel),
        value_made(made.1.board.sender(), made.0.status_rx, HealthStatus::Unknown),
        *old(p) == made.1 ==> r == (ProberAction::Probe, false),
{
}

/// Stopping a checker fires the token of its prober; its status and its
/// subscriptions are those of the board.
pub proof fn law_checker<S>(
    node: Node<S>,
    config: HealthConfig,
    made: (NodeHealthChecker, Prober<S>),
    status: HealthStatus,
    rx: watch::Receiver<HealthStatus>,
)
    requires
        call_ensures(check_node::<S>, (node, config), made),
        call_ensures(NodeHealthChecker::stop, (&made.0,), ()),
        call_ensures(NodeHealthChecker::status, (&made.0,), status),
        call_ensures(NodeHealthChecker::subscribe, (&made.0,), rx),
    ensures
        token_fired(made.1.cancel),
        exists|guard: watch::Ref<HealthStatus>|
            {
                &&& #[trigger] call_ensures(
                    watch::Receiver::<HealthStatus>::borrow,
                    (&made.0.status_rx,),
                    guard,
                )
                &&& call_ensures(<watch::Ref<HealthStatus> as Deref>::deref, (&guard,), &status)
            },
        call_ensures(
            <watch::Receiver<HealthStatus> as Clone>::clone,
            (&made.0.status_rx,),
            rx,
        ),
{
}

/// By default a node is probed every five seconds, and a probe may take two.
pub proof fn law_default_health_config(config: HealthConfig, copy: HealthConfig)
    requires
        call_ensures(<HealthConfig as Default>::default, (), config),
        call_ensures(<HealthConfig as Clone>::clone, (&config,), copy),
    ensures
        config.interval == seconds(5) && config.timeout == seconds(2),
        copy == config,
{
}

} // verus!
