//! Laws of quorum calls, ordered quorum calls, correctable calls and
//! multicasts: what a caller gets for the replies that arrive.

use vstd::prelude::*;

use tokio_util::sync::CancellationToken;

use crate::call_types::{ack_failures, multicast, FanOut, MulticastAcks};
use crate::config::ConfigContext;
use crate::correctable::{
    failed, fails, first_failures, responded, Correctable, DistinctThreshold,
};
use crate::error::{Error, NodeError};
use crate::laws::{lemma_filter_agrees, lemma_filter_push};
use crate::method::MulticastMethod;
use crate::ordered_responses::{
    lowest, ordered_failures, ordered_transport_failures, positions_within, slots_of,
    success_count, OrderedNodeResponse, OrderedQuorum, OrderedResponses, OrderedThreshold,
};
use crate::responses::{failures, successes, transport_failures};
use crate::responses::{Event, NodeResponse, Quorum, Responses, Step, Threshold};
use crate::status::status_display;

verus! {

// ── Vocabulary ────────────────────────────────────────────────────────────────

/// The replies that succeeded, in order of arrival.
pub open spec fn ok_replies<T>(rs: Seq<NodeResponse<T>>) -> Seq<NodeResponse<T>> {
    rs.filter(|r: NodeResponse<T>| r.result is Ok)
}

/// The replies that failed, in order of arrival.
pub open spec fn failed_replies<T>(rs: Seq<NodeResponse<T>>) -> Seq<NodeResponse<T>> {
    rs.filter(|r: NodeResponse<T>| r.result is Err)
}

/// The replies that failed with a status, in order of arrival.
pub open spec fn status_replies<T>(rs: Seq<NodeResponse<T>>) -> Seq<NodeResponse<T>> {
    rs.filter(|r: NodeResponse<T>| r.result matches Err(Error::Transport(_)))
}

/// Whether a node error names the failure `e` of the node `id`: its status,
/// or an internal error where it has none.
pub open spec fn names(error: NodeError, id: u32, e: Error) -> bool {
    &&& error.node_id == id
    &&& match e {
        Error::Transport(status) => error.cause@ == status@,
        _ => error.cause@.code == 13 && error.cause@.message == "internal error"@
            && error.cause@.text == status_display(13, "internal error"@),
    }
}

/// Whether `e` is the error of a call that got too few replies, and its node
/// errors name the failures `failed`, in order.
pub open spec fn incomplete_with<T>(e: Error, failed: Seq<NodeResponse<T>>) -> bool {
    &&& e matches Error::QuorumCall(q)
    &&& q.cause is Incomplete
    &&& q.node_errors@.len() == failed.len()
    &&& forall|i: int|
        0 <= i < failed.len() ==> names(
            #[trigger] q.node_errors@[i],
            failed[i].node_id,
            failed[i].result->Err_0,
        )
}

// ── Quorum calls ──────────────────────────────────────────────────────────────

proof fn lemma_successes<T>(rs: Seq<NodeResponse<T>>)
    ensures
        successes(rs) == ok_replies(rs).map_values(|r: NodeResponse<T>| r.result->Ok_0),
    decreases rs.len(),
{
    reveal(Seq::filter);
    if rs.len() > 0 {
        lemma_successes(rs.drop_last());
    }
    assert(successes(rs) =~= ok_replies(rs).map_values(|r: NodeResponse<T>| r.result->Ok_0));
}

proof fn lemma_failures<T>(rs: Seq<NodeResponse<T>>)
    ensures
        failures(rs).len() == failed_replies(rs).len(),
        forall|i: int|
            0 <= i < failures(rs).len() ==> {
                let r = failed_replies(rs)[i];
                let e = #[trigger] failures(rs)[i];
                &&& e.node_id == r.node_id
                &&& match r.result {
                    Err(Error::Transport(status)) => e.cause == status@,
                    Err(_) => e.cause.code == 13 && e.cause.message == "internal error"@
                        && e.cause.text == status_display(13, "internal error"@),
                    Ok(_) => false,
                }
            },
    decreases rs.len(),
{
    reveal(Seq::filter);
    if rs.len() > 0 {
        lemma_failures(rs.drop_last());
    }
}

proof fn lemma_transport_failures<T>(rs: Seq<NodeResponse<T>>)
    ensures
        transport_failures(rs).len() == status_replies(rs).len(),
        forall|i: int|
            0 <= i < transport_failures(rs).len() ==> {
                let r = status_replies(rs)[i];
                let e = #[trigger] transport_failures(rs)[i];
                &&& e.node_id == r.node_id
                &&& r.result matches Err(Error::Transport(status)) && e.cause == status@
            },
    decreases rs.len(),
{
    reveal(Seq::filter);
    if rs.len() > 0 {
        lemma_transport_failures(rs.drop_last());
    }
}

/// Whether `th` is what a caller gets who waits for `k` successes, with one of
/// the methods of `call` that do.
pub open spec fn waits_for<T, L>(
    call: Responses<T, L>,
    k: usize,
    launch: Option<L>,
    th: Threshold<T>,
) -> bool {
    ||| call_ensures(Responses::<T, L>::threshold, (call, k), (launch, th))
    ||| k == 1 && call_ensures(Responses::<T, L>::first, (call,), (launch, th))
    ||| k == call.size / 2 + 1 && call_ensures(
        Responses::<T, L>::majority,
        (call,),
        (launch, th),
    )
    ||| k == call.size && call_ensures(Responses::<T, L>::all, (call,), (launch, th))
}

/// A quorum call that waits for `k` successes goes on waiting exactly while
/// fewer than `k` replies (and none at all) have succeeded, and then returns
/// the first success. If the replies end before that, it is incomplete and
/// names every failed reply in order; if its token fires, it is cancelled.
/// `first` waits for one success, `majority` for more than half of the nodes,
/// `all` for as many as there are nodes. The fan-out is handed out unchanged.
pub proof fn law_quorum_call_counts_successes<T, L>(
    call: Responses<T, L>,
    k: usize,
    launch: Option<L>,
    states: Seq<Threshold<T>>,
    rs: Seq<NodeResponse<T>>,
    event: Event<NodeResponse<T>>,
    step: Step<Threshold<T>, T>,
)
    requires
        states.len() == rs.len() + 1,
        waits_for(call, k, launch, states[0]),
        forall|i: int|
            0 <= i < rs.len() ==> call_ensures(
                Threshold::<T>::on_event,
                (states[i], Event::Reply(rs[i])),
                Step::Wait(#[trigger] states[i + 1]),
            ),
        call_ensures(Threshold::<T>::on_event, (states.last(), event), step),
    ensures
        launch == call.launch,
        forall|token: &CancellationToken|
            call_ensures(Threshold::<T>::cancel, (&states.last(),), token) ==> *token
                == call.cancel,
        ok_replies(rs).len() == 0 || ok_replies(rs).len() < k,
        match event {
            Event::Reply(r) => {
                let ok = ok_replies(rs.push(r));
                if ok.len() > 0 && ok.len() >= k {
                    step == Step::<Threshold<T>, T>::Done(Ok(ok[0].result->Ok_0))
                } else {
                    step is Wait
                }
            },
            Event::Cancelled => step == Step::<Threshold<T>, T>::Done(Err(Error::Cancelled)),
            Event::Closed => step matches Step::Done(Err(e)) && incomplete_with(
                e,
                failed_replies(rs),
            ),
        },
{
    lemma_threshold_state(call, k, launch, states, rs, rs.len() as int);
    assert(rs.take(rs.len() as int) =~= rs);
    lemma_successes(rs);
    lemma_failures(rs);
    if let Event::Reply(r) = event {
        lemma_successes(rs.push(r));
    }
    if event is Closed {
        let e = step->Done_0->Err_0;
        let q = e->QuorumCall_0;
        assert(q@.node_errors == failures(rs));
        assert forall|i: int| 0 <= i < failed_replies(rs).len() implies names(
            #[trigger] q.node_errors@[i],
            failed_replies(rs)[i].node_id,
            failed_replies(rs)[i].result->Err_0,
        ) by {
            assert(q@.node_errors[i] == failures(rs)[i]);
        }
    }
}

proof fn lemma_threshold_state<T, L>(
    call: Responses<T, L>,
    k: usize,
    launch: Option<L>,
    states: Seq<Threshold<T>>,
    rs: Seq<NodeResponse<T>>,
    n: int,
)
    requires
        0 <= n <= rs.len(),
        states.len() == rs.len() + 1,
        waits_for(call, k, launch, states[0]),
        forall|i: int|
            0 <= i < rs.len() ==> call_ensures(
                Threshold::<T>::on_event,
                (states[i], Event::Reply(rs[i])),
                Step::Wait(#[trigger] states[i + 1]),
            ),
    ensures
        launch == call.launch,
        states[n].token() == call.cancel,
        states[n].k() == k,
        states[n].received() == rs.take(n),
        successes(rs.take(n)).len() == 0 || successes(rs.take(n)).len() < k,
    decreases n,
{
    if n > 0 {
        lemma_threshold_state(call, k, launch, states, rs, n - 1);
        assert(call_ensures(
            Threshold::<T>::on_event,
            (states[n - 1], Event::Reply(rs[n - 1])),
            Step::Wait(states[(n - 1) + 1]),
        ));
        assert(rs.take(n) =~= rs.take(n - 1).push(rs[n - 1]));
    }
}

/// A call that is driven by a quorum function asks it after each successful
/// reply, about the values of **all** successful replies in order of arrival:
/// a value of the function is the result, and otherwise the call goes on. A
/// failed reply is not asked about. If the replies end, the call is incomplete
/// and names every reply that failed with a status.
pub proof fn law_quorum_function_sees_all_successes<T, L, F: FnOnce(&[T]) -> Option<T>>(
    call: Responses<T, L>,
    updates: Correctable<T>,
    launch: Option<L>,
    states: Seq<Quorum<T>>,
    rs: Seq<NodeResponse<T>>,
    fs: Seq<F>,
    event: Event<NodeResponse<T>>,
    f: F,
    step: Step<Quorum<T>, T>,
)
    requires
        states.len() == rs.len() + 1,
        call_ensures(Responses::<T, L>::quorum, (call,), (launch, states[0])) || call_ensures(
            Correctable::<T>::quorum,
            (updates,),
            states[0],
        ),
        forall|i: int|
            0 <= i < rs.len() ==> call_ensures(
                Quorum::<T>::on_event::<F>,
                (states[i], Event::Reply(rs[i]), fs[i]),
                Step::Wait(#[trigger] states[i + 1]),
            ),
        call_ensures(Quorum::<T>::on_event::<F>, (states.last(), event, f), step),
    ensures
        match event {
            Event::Reply(r) => if r.result is Ok {
                exists|seen: &[T], answer: Option<T>|
                    {
                        &&& seen@ == ok_replies(rs.push(r)).map_values(
                            |r: NodeResponse<T>| r.result->Ok_0,
                        )
                        &&& #[trigger] call_ensures(f, (seen,), answer)
                        &&& match answer {
                            Some(value) => step == Step::<Quorum<T>, T>::Done(Ok(value)),
                            None => step is Wait,
                        }
                    }
            } else {
                step is Wait
            },
            Event::Cancelled => step == Step::<Quorum<T>, T>::Done(Err(Error::Cancelled)),
            Event::Closed => step matches Step::Done(Err(e)) && incomplete_with(
                e,
                status_replies(rs),
            ),
        },
{
    lemma_quorum_state(call, updates, launch, states, rs, fs, rs.len() as int);
    assert(rs.take(rs.len() as int) =~= rs);
    lemma_transport_failures(rs);
    if let Event::Reply(r) = event {
        lemma_successes(rs.push(r));
    }
    if event is Closed {
        let q = step->Done_0->Err_0->QuorumCall_0;
        assert(q@.node_errors == transport_failures(rs));
        assert forall|i: int| 0 <= i < status_replies(rs).len() implies names(
            #[trigger] q.node_errors@[i],
            status_replies(rs)[i].node_id,
            status_replies(rs)[i].result->Err_0,
        ) by {
            assert(q@.node_errors[i] == transport_failures(rs)[i]);
        }
    }
}

proof fn lemma_quorum_state<T, L, F: FnOnce(&[T]) -> Option<T>>(
    call: Responses<T, L>,
    updates: Correctable<T>,
    launch: Option<L>,
    states: Seq<Quorum<T>>,
    rs: Seq<NodeResponse<T>>,
    fs: Seq<F>,
    n: int,
)
    requires
        0 <= n <= rs.len(),
        states.len() == rs.len() + 1,
        call_ensures(Responses::<T, L>::quorum, (call,), (launch, states[0])) || call_ensures(
            Correctable::<T>::quorum,
            (updates,),
            states[0],
        ),
        forall|i: int|
            0 <= i < rs.len() ==> call_ensures(
                Quorum::<T>::on_event::<F>,
                (states[i], Event::Reply(rs[i]), fs[i]),
                Step::Wait(#[trigger] states[i + 1]),
            ),
    ensures
        states[n].received() == rs.take(n),
    decreases n,
{
    if n > 0 {
        lemma_quorum_state(call, updates, launch, states, rs, fs, n - 1);
        assert(call_ensures(
            Quorum::<T>::on_event::<F>,
            (states[n - 1], Event::Reply(rs[n - 1]), fs[n - 1]),
            Step::Wait(states[(n - 1) + 1]),
        ));
        assert(rs.take(n) =~= rs.take(n - 1).push(rs[n - 1]));
    }
}

/// A fan-out is handed out once, and nothing else changes: `send_now` takes it
/// away from the method that waits.
pub proof fn law_fan_out_is_handed_out_once<T, L>(call: &mut Responses<T, L>, launch: Option<L>)
    requires
        call_ensures(Responses::<T, L>::send_now, (call,), launch),
    ensures
        launch == old(call).launch,
        final(call).launch is None,
        final(call).size == old(call).size,
        final(call).cancel == old(call).cancel,
{
}

/// The fan-out of an ordered call is handed out once, and nothing else
/// changes.
pub proof fn law_ordered_fan_out_is_handed_out_once<T, L>(
    call: &mut OrderedResponses<T, L>,
    launch: Option<L>,
)
    requires
        call_ensures(OrderedResponses::<T, L>::send_now, (call,), launch),
    ensures
        launch == old(call).launch,
        final(call).launch is None,
        final(call).size == old(call).size,
        final(call).cancel == old(call).cancel,
{
}

// ── Ordered quorum calls ──────────────────────────────────────────────────────

/// The replies that succeeded, in order of arrival.
pub open spec fn ordered_ok<T>(rs: Seq<OrderedNodeResponse<T>>) -> Seq<OrderedNodeResponse<T>> {
    rs.filter(|r: OrderedNodeResponse<T>| r.result is Ok)
}

/// The failed replies without their positions, in order of arrival.
pub open spec fn ordered_failed<T>(rs: Seq<OrderedNodeResponse<T>>) -> Seq<NodeResponse<T>> {
    rs.filter(|r: OrderedNodeResponse<T>| r.result is Err).map_values(
        |r: OrderedNodeResponse<T>| NodeResponse { node_id: r.node_id, result: r.result },
    )
}

/// The replies that failed with a status, without their positions, in order of
/// arrival.
pub open spec fn ordered_status<T>(rs: Seq<OrderedNodeResponse<T>>) -> Seq<NodeResponse<T>> {
    rs.filter(
        |r: OrderedNodeResponse<T>| r.result matches Err(Error::Transport(_)),
    ).map_values(
        |r: OrderedNodeResponse<T>| NodeResponse { node_id: r.node_id, result: r.result },
    )
}

/// Whether `rs[i]` is the last success of its position.
pub open spec fn last_of_position<T>(rs: Seq<OrderedNodeResponse<T>>, i: int) -> bool {
    &&& 0 <= i < rs.len()
    &&& rs[i].result is Ok
    &&& forall|j: int|
        i < j < rs.len() && (#[trigger] rs[j]).result is Ok ==> rs[j].position != rs[i].position
}

proof fn lemma_ordered_counts<T>(rs: Seq<OrderedNodeResponse<T>>)
    ensures
        success_count(rs) == ordered_ok(rs).len(),
        ordered_failures(rs).len() == ordered_failed(rs).len(),
        forall|i: int|
            0 <= i < ordered_failures(rs).len() ==> {
                let r = ordered_failed(rs)[i];
                let e = #[trigger] ordered_failures(rs)[i];
                &&& e.node_id == r.node_id
                &&& match r.result {
                    Err(Error::Transport(status)) => e.cause == status@,
                    Err(_) => e.cause.code == 13 && e.cause.message == "internal error"@
                        && e.cause.text == status_display(13, "internal error"@),
                    Ok(_) => false,
                }
            },
        ordered_transport_failures(rs).len() == ordered_status(rs).len(),
        forall|i: int|
            0 <= i < ordered_transport_failures(rs).len() ==> {
                let r = ordered_status(rs)[i];
                let e = #[trigger] ordered_transport_failures(rs)[i];
                &&& e.node_id == r.node_id
                &&& r.result matches Err(Error::Transport(status)) && e.cause == status@
            },
    decreases rs.len(),
{
    reveal(Seq::filter);
    if rs.len() > 0 {
        lemma_ordered_counts(rs.drop_last());
    }
}

/// What a slot holds: the last success of its position, if there is one.
proof fn lemma_slot<T>(size: nat, rs: Seq<OrderedNodeResponse<T>>, p: int)
    requires
        positions_within(size, rs),
        0 <= p < size,
    ensures
        slots_of(size, rs).len() == size,
        match slots_of(size, rs)[p] {
            Some(value) => exists|i: int| #[trigger]
                last_of_position(rs, i) && rs[i].position == p && rs[i].result == Ok::<T, Error>(
                    value,
                ),
            None => forall|i: int|
                0 <= i < rs.len() && (#[trigger] rs[i]).result is Ok ==> rs[i].position != p,
        },
    decreases rs.len(),
{
    if rs.len() > 0 {
        let before = rs.drop_last();
        let n = rs.len() - 1;
        assert(rs[n] == rs.last());
        assert(positions_within(size, before)) by {
            assert forall|i: int|
                0 <= i < before.len() && (#[trigger] before[i]).result is Ok implies before[i].position
                < size by {
                assert(before[i] == rs[i]);
            }
        }
        lemma_slot(size, before, p);
        if rs[n].result is Ok && rs[n].position == p {
            assert(last_of_position(rs, n));
        } else {
            match slots_of(size, before)[p] {
                Some(value) => {
                    let i = choose|i: int| #[trigger]
                        last_of_position(before, i) && before[i].position == p && before[i].result
                            == Ok::<T, Error>(value);
                    assert(rs[i] == before[i]);
                    assert forall|j: int|
                        i < j < rs.len() && (#[trigger] rs[j]).result is Ok implies rs[j].position
                        != rs[i].position by {
                        if j < n {
                            assert(before[j] == rs[j]);
                        }
                    }
                    assert(last_of_position(rs, i));
                },
                None => {
                    assert forall|i: int|
                        0 <= i < rs.len() && (#[trigger] rs[i]).result is Ok implies rs[i].position
                        != p by {
                        if i < n {
                            assert(before[i] == rs[i]);
                        }
                    }
                },
            }
        }
    }
}

/// The lowest slot that has a value.
proof fn lemma_lowest<T>(slots: Seq<Option<T>>)
    ensures
        match lowest(slots) {
            Some(value) => exists|p: int|
                0 <= p < slots.len() && #[trigger] slots[p] == Some(value) && forall|q: int|
                    0 <= q < p ==> (#[trigger] slots[q]) is None,
            None => forall|q: int| 0 <= q < slots.len() ==> (#[trigger] slots[q]) is None,
        },
    decreases slots.len(),
{
    if slots.len() > 0 {
        let rest = slots.drop_first();
        lemma_lowest(rest);
        if slots[0] is Some {
            assert(slots[0] == lowest(slots));
        } else {
            match lowest(slots) {
                Some(value) => {
                    let p = choose|p: int|
                        0 <= p < rest.len() && #[trigger] rest[p] == Some(value) && forall|q: int|
                            0 <= q < p ==> (#[trigger] rest[q]) is None;
                    assert(slots[p + 1] == rest[p]);
                    assert forall|q: int| 0 <= q < p + 1 implies (#[trigger] slots[q]) is None by {
                        if q > 0 {
                            assert(rest[q - 1] == slots[q]);
                        }
                    }
                },
                None => {
                    assert forall|q: int| 0 <= q < slots.len() implies (#[trigger] slots[q]) is None by {
                        if q > 0 {
                            assert(rest[q - 1] == slots[q]);
                        }
                    }
                },
            }
        }
    }
}

/// Whether `th` is what a caller gets who waits for `k` successes, with one of
/// the methods of `call` that do.
pub open spec fn ordered_waits_for<T, L>(
    call: OrderedResponses<T, L>,
    k: usize,
    launch: Option<L>,
    th: OrderedThreshold<T>,
) -> bool {
    ||| call_ensures(OrderedResponses::<T, L>::threshold, (call, k), (launch, th))
    ||| k == 1 && call_ensures(OrderedResponses::<T, L>::first, (call,), (launch, th))
    ||| k == call.size / 2 + 1 && call_ensures(
        OrderedResponses::<T, L>::majority,
        (call,),
        (launch, th),
    )
    ||| k == call.size && call_ensures(OrderedResponses::<T, L>::all, (call,), (launch, th))
}

/// An ordered quorum call that waits for `k` successes goes on waiting exactly
/// while fewer than `k` replies (and none at all) have succeeded. It then
/// returns the value of the success with the lowest position, and of several
/// from that position the last. If the replies end before that, it is
/// incomplete and names every failed reply in order; if its token fires, it is
/// cancelled.
pub proof fn law_ordered_call_counts_successes<T, L>(
    call: OrderedResponses<T, L>,
    k: usize,
    launch: Option<L>,
    states: Seq<OrderedThreshold<T>>,
    rs: Seq<OrderedNodeResponse<T>>,
    event: Event<OrderedNodeResponse<T>>,
    step: Step<OrderedThreshold<T>, T>,
)
    requires
        states.len() == rs.len() + 1,
        ordered_waits_for(call, k, launch, states[0]),
        forall|i: int| 0 <= i < rs.len() && (#[trigger] rs[i]).result is Ok ==> rs[i].position < call.size,
        event matches Event::Reply(r) ==> r.result is Ok ==> r.position < call.size,
        forall|i: int|
            0 <= i < rs.len() ==> call_ensures(
                OrderedThreshold::<T>::on_event,
                (states[i], Event::Reply(rs[i])),
                Step::Wait(#[trigger] states[i + 1]),
            ),
        call_ensures(OrderedThreshold::<T>::on_event, (states.last(), event), step),
    ensures
        launch == call.launch,
        forall|token: &CancellationToken|
            call_ensures(OrderedThreshold::<T>::cancel, (&states.last(),), token) ==> *token
                == call.cancel,
        ordered_ok(rs).len() == 0 || ordered_ok(rs).len() < k,
        match event {
            Event::Reply(r) => {
                let all = rs.push(r);
                if r.result is Ok && ordered_ok(all).len() >= k {
                    step matches Step::Done(Ok(value)) && exists|i: int|
                        {
                            &&& #[trigger] last_of_position(all, i)
                            &&& all[i].result == Ok::<T, Error>(value)
                            &&& forall|j: int|
                                0 <= j < all.len() && (#[trigger] all[j]).result is Ok
                                    ==> all[i].position <= all[j].position
                        }
                } else {
                    step is Wait
                }
            },
            Event::Cancelled => step == Step::<OrderedThreshold<T>, T>::Done(Err(Error::Cancelled)),
            Event::Closed => step matches Step::Done(Err(e)) && incomplete_with(
                e,
                ordered_failed(rs),
            ),
        },
{
    lemma_ordered_state(call, k, launch, states, rs, rs.len() as int);
    assert(rs.take(rs.len() as int) =~= rs);
    lemma_ordered_counts(rs);
    if let Event::Reply(r) = event {
        let all = rs.push(r);
        lemma_ordered_counts(all);
        lemma_filter_push(rs, r, |r: OrderedNodeResponse<T>| r.result is Ok);
        assert(positions_within(call.size as nat, all));
        let slots = slots_of(call.size as nat, all);
        lemma_lowest(slots);
        if r.result is Ok {
            lemma_slot(call.size as nat, all, r.position as int);
            assert(all[rs.len() as int] == r);
            assert(slots[r.position as int] is Some);
            let value = lowest(slots)->0;
            let p = choose|p: int|
                0 <= p < slots.len() && #[trigger] slots[p] == Some(value) && forall|q: int|
                    0 <= q < p ==> (#[trigger] slots[q]) is None;
            lemma_slot(call.size as nat, all, p);
            let i = choose|i: int| #[trigger]
                last_of_position(all, i) && all[i].position == p && all[i].result == Ok::<T, Error>(
                    value,
                );
            assert forall|j: int|
                0 <= j < all.len() && (#[trigger] all[j]).result is Ok implies all[i].position
                <= all[j].position by {
                if all[j].position < p {
                    lemma_slot(call.size as nat, all, all[j].position as int);
                    assert(slots[all[j].position as int] is None);
                }
            }
        }
    }
    if event is Closed {
        let q = step->Done_0->Err_0->QuorumCall_0;
        assert(q@.node_errors == ordered_failures(rs));
        assert forall|i: int| 0 <= i < ordered_failed(rs).len() implies names(
            #[trigger] q.node_errors@[i],
            ordered_failed(rs)[i].node_id,
            ordered_failed(rs)[i].result->Err_0,
        ) by {
            assert(q@.node_errors[i] == ordered_failures(rs)[i]);
        }
    }
}

proof fn lemma_ordered_state<T, L>(
    call: OrderedResponses<T, L>,
    k: usize,
    launch: Option<L>,
    states: Seq<OrderedThreshold<T>>,
    rs: Seq<OrderedNodeResponse<T>>,
    n: int,
)
    requires
        0 <= n <= rs.len(),
        states.len() == rs.len() + 1,
        ordered_waits_for(call, k, launch, states[0]),
        forall|i: int|
            0 <= i < rs.len() ==> call_ensures(
                OrderedThreshold::<T>::on_event,
                (states[i], Event::Reply(rs[i])),
                Step::Wait(#[trigger] states[i + 1]),
            ),
    ensures
        launch == call.launch,
        states[n].token() == call.cancel,
        states[n].k() == k,
        states[n].size() == call.size,
        states[n].received() == rs.take(n),
        success_count(rs.take(n)) == 0 || success_count(rs.take(n)) < k,
    decreases n,
{
    if n > 0 {
        lemma_ordered_state(call, k, launch, states, rs, n - 1);
        assert(call_ensures(
            OrderedThreshold::<T>::on_event,
            (states[n - 1], Event::Reply(rs[n - 1])),
            Step::Wait(states[(n - 1) + 1]),
        ));
        assert(rs.take(n) =~= rs.take(n - 1).push(rs[n - 1]));
        assert(rs.take(n).drop_last() =~= rs.take(n - 1));
    }
}

/// A call that is driven by an ordered quorum function asks it after each
/// successful reply, about one slot per node: a slot has the last success of
/// its position, and none while there is none.
pub proof fn law_ordered_quorum_function_sees_positions<T, L, F: FnOnce(&[Option<T>]) -> Option<T>>(
    call: OrderedResponses<T, L>,
    launch: Option<L>,
    states: Seq<OrderedQuorum<T>>,
    rs: Seq<OrderedNodeResponse<T>>,
    fs: Seq<F>,
    event: Event<OrderedNodeResponse<T>>,
    f: F,
    step: Step<OrderedQuorum<T>, T>,
)
    requires
        states.len() == rs.len() + 1,
        call_ensures(OrderedResponses::<T, L>::quorum, (call,), (launch, states[0])),
        forall|i: int| 0 <= i < rs.len() && (#[trigger] rs[i]).result is Ok ==> rs[i].position < call.size,
        event matches Event::Reply(r) ==> r.result is Ok ==> r.position < call.size,
        forall|i: int|
            0 <= i < rs.len() ==> call_ensures(
                OrderedQuorum::<T>::on_event::<F>,
                (states[i], Event::Reply(rs[i]), fs[i]),
                Step::Wait(#[trigger] states[i + 1]),
            ),
        call_ensures(OrderedQuorum::<T>::on_event::<F>, (states.last(), event, f), step),
    ensures
        launch == call.launch,
        match event {
            Event::Reply(r) => if r.result is Ok {
                exists|slots: &[Option<T>], answer: Option<T>|
                    {
                        &&& slots@.len() == call.size
                        &&& forall|p: int|
                            0 <= p < call.size ==> match #[trigger] slots@[p] {
                                Some(value) => exists|i: int| #[trigger]
                                    last_of_position(rs.push(r), i) && rs.push(r)[i].position == p
                                        && rs.push(r)[i].result == Ok::<T, Error>(value),
                                None => forall|i: int|
                                    0 <= i <= rs.len() && (#[trigger] rs.push(r)[i]).result is Ok
                                        ==> rs.push(r)[i].position != p,
                            }
                        &&& #[trigger] call_ensures(f, (slots,), answer)
                        &&& match answer {
                            Some(value) => step == Step::<OrderedQuorum<T>, T>::Done(Ok(value)),
                            None => step is Wait,
                        }
                    }
            } else {
                step is Wait
            },
            Event::Cancelled => step == Step::<OrderedQuorum<T>, T>::Done(Err(Error::Cancelled)),
            Event::Closed => step matches Step::Done(Err(e)) && incomplete_with(
                e,
                ordered_status(rs),
            ),
        },
{
    lemma_ordered_quorum_state(call, launch, states, rs, fs, rs.len() as int);
    assert(rs.take(rs.len() as int) =~= rs);
    lemma_ordered_counts(rs);
    if let Event::Reply(r) = event {
        let all = rs.push(r);
        assert(positions_within(call.size as nat, all));
        assert forall|p: int| 0 <= p < call.size implies match #[trigger] slots_of(
            call.size as nat,
            all,
        )[p] {
            Some(value) => exists|i: int| #[trigger]
                last_of_position(all, i) && all[i].position == p && all[i].result == Ok::<T, Error>(
                    value,
                ),
            None => forall|i: int|
                0 <= i <= rs.len() && (#[trigger] all[i]).result is Ok ==> all[i].position != p,
        } by {
            lemma_slot(call.size as nat, all, p);
        }
        if r.result is Ok {
            lemma_slot(call.size as nat, all, r.position as int);
        }
    }
    if event is Closed {
        let q = step->Done_0->Err_0->QuorumCall_0;
        assert(q@.node_errors == ordered_transport_failures(rs));
        assert forall|i: int| 0 <= i < ordered_status(rs).len() implies names(
            #[trigger] q.node_errors@[i],
            ordered_status(rs)[i].node_id,
            ordered_status(rs)[i].result->Err_0,
        ) by {
            assert(q@.node_errors[i] == ordered_transport_failures(rs)[i]);
        }
    }
}

proof fn lemma_ordered_quorum_state<T, L, F: FnOnce(&[Option<T>]) -> Option<T>>(
    call: OrderedResponses<T, L>,
    launch: Option<L>,
    states: Seq<OrderedQuorum<T>>,
    rs: Seq<OrderedNodeResponse<T>>,
    fs: Seq<F>,
    n: int,
)
    requires
        0 <= n <= rs.len(),
        states.len() == rs.len() + 1,
        call_ensures(OrderedResponses::<T, L>::quorum, (call,), (launch, states[0])),
        forall|i: int|
            0 <= i < rs.len() ==> call_ensures(
                OrderedQuorum::<T>::on_event::<F>,
                (states[i], Event::Reply(rs[i]), fs[i]),
                Step::Wait(#[trigger] states[i + 1]),
            ),
    ensures
        launch == call.launch,
        states[n].size() == call.size,
        states[n].received() == rs.take(n),
    decreases n,
{
    if n > 0 {
        lemma_ordered_quorum_state(call, launch, states, rs, fs, n - 1);
        assert(call_ensures(
            OrderedQuorum::<T>::on_event::<F>,
            (states[n - 1], Event::Reply(rs[n - 1]), fs[n - 1]),
            Step::Wait(states[(n - 1) + 1]),
        ));
        assert(rs.take(n) =~= rs.take(n - 1).push(rs[n - 1]));
    }
}

// ── Correctable calls ─────────────────────────────────────────────────────────

/// The nodes that have sent a successful response.
pub open spec fn ok_nodes<T>(rs: Seq<NodeResponse<T>>) -> Set<u32> {
    ok_replies(rs).map_values(|r: NodeResponse<T>| r.node_id).to_set()
}

/// Whether `rs[i]` is the failure of its node: a status, and nothing but
/// errors without a status from that node before it.
pub open spec fn first_failure<T>(rs: Seq<NodeResponse<T>>, i: int) -> bool {
    &&& 0 <= i < rs.len()
    &&& rs[i].result matches Err(Error::Transport(_))
    &&& forall|j: int|
        0 <= j < i && (#[trigger] rs[j]).node_id == rs[i].node_id ==> !(rs[j].result is Ok) && !(
        rs[j].result matches Err(Error::Transport(_)))
}

/// The failures of the nodes that failed, in order of arrival.
pub open spec fn first_failed<T>(rs: Seq<NodeResponse<T>>) -> Seq<NodeResponse<T>> {
    Seq::new(rs.len(), |i: int| i).filter(|i: int| first_failure(rs, i)).map_values(
        |i: int| rs[i],
    )
}

proof fn lemma_first_failed_push<T>(rs: Seq<NodeResponse<T>>, r: NodeResponse<T>)
    ensures
        first_failed(rs.push(r)) == if first_failure(rs.push(r), rs.len() as int) {
            first_failed(rs).push(r)
        } else {
            first_failed(rs)
        },
{
    let all = rs.push(r);
    let n = rs.len() as int;
    let old_keep = |i: int| first_failure(rs, i);
    let keep = |i: int| first_failure(all, i);
    let indices = Seq::new(rs.len(), |i: int| i);
    assert(Seq::new(all.len(), |i: int| i) =~= indices.push(n));
    lemma_filter_push(indices, n, keep);
    assert forall|i: int| 0 <= i < indices.len() implies keep(#[trigger] indices[i]) == old_keep(
        indices[i],
    ) by {
        assert(all[i] == rs[i]);
        if first_failure(rs, i) {
            assert forall|j: int| 0 <= j < i && (#[trigger] all[j]).node_id == all[i].node_id implies !(
            all[j].result is Ok) && !(all[j].result matches Err(Error::Transport(_))) by {
                assert(all[j] == rs[j]);
            }
        }
        if first_failure(all, i) {
            assert forall|j: int| 0 <= j < i && (#[trigger] rs[j]).node_id == rs[i].node_id implies !(
            rs[j].result is Ok) && !(rs[j].result matches Err(Error::Transport(_))) by {
                assert(all[j] == rs[j]);
            }
        }
    }
    lemma_filter_agrees(indices, keep, old_keep);
    let kept = indices.filter(old_keep);
    indices.lemma_filter_len(old_keep);
    assert forall|i: int| 0 <= i < kept.len() implies 0 <= #[trigger] kept[i] < n by {
        indices.lemma_filter_pred(old_keep, i);
    }
    assert(kept.map_values(|i: int| all[i]) =~= first_failed(rs));
    if keep(n) {
        assert(kept.push(n).map_values(|i: int| all[i]) =~= first_failed(rs).push(r));
    }
}

proof fn lemma_correctable_sets<T>(rs: Seq<NodeResponse<T>>)
    ensures
        responded(rs) == ok_nodes(rs),
        failed(rs) == first_failed(rs).map_values(|r: NodeResponse<T>| r.node_id).to_set(),
        failed(rs).finite(),
        failed(rs).len() == first_failed(rs).len(),
        forall|id: u32| #[trigger]
            failed(rs).contains(id) <==> exists|i: int| #[trigger]
                first_failure(rs, i) && rs[i].node_id == id,
        forall|id: u32| #[trigger]
            responded(rs).contains(id) <==> exists|i: int|
                0 <= i < rs.len() && (#[trigger] rs[i]).node_id == id && rs[i].result is Ok,
        first_failures(rs).len() == first_failed(rs).len(),
        forall|i: int|
            0 <= i < first_failures(rs).len() ==> {
                let r = first_failed(rs)[i];
                let e = #[trigger] first_failures(rs)[i];
                &&& e.node_id == r.node_id
                &&& r.result matches Err(Error::Transport(status)) && e.cause == status@
            },
    decreases rs.len(),
{
    let id_of = |r: NodeResponse<T>| r.node_id;
    if rs.len() == 0 {
        reveal(Seq::filter);
        assert(ok_nodes(rs) =~= Set::<u32>::empty());
        assert(Seq::new(rs.len(), |i: int| i).filter(|i: int| first_failure(rs, i)).len() == 0);
        assert(first_failed(rs).map_values(id_of).to_set() =~= Set::<u32>::empty());
    } else {
        let before = rs.drop_last();
        let r = rs.last();
        let n = before.len() as int;
        lemma_correctable_sets(before);
        assert(rs =~= before.push(r));
        lemma_filter_push(before, r, |r: NodeResponse<T>| r.result is Ok);
        lemma_first_failed_push(before, r);
        let kept = ok_replies(before);
        assert(responded(rs) =~= ok_nodes(rs)) by {
            if r.result is Ok {
                lemma_push_to_set(kept.map_values(id_of), r.node_id);
                assert(kept.push(r).map_values(id_of) =~= kept.map_values(id_of).push(r.node_id));
            }
        }
        assert forall|id: u32| #[trigger] responded(rs).contains(id) <==> exists|i: int|
            0 <= i < rs.len() && (#[trigger] rs[i]).node_id == id && rs[i].result is Ok by {
            if responded(before).contains(id) {
                let i = choose|i: int|
                    0 <= i < before.len() && (#[trigger] before[i]).node_id == id
                        && before[i].result is Ok;
                assert(rs[i] == before[i]);
            }
            if exists|i: int|
                0 <= i < rs.len() && (#[trigger] rs[i]).node_id == id && rs[i].result is Ok {
                let i = choose|i: int|
                    0 <= i < rs.len() && (#[trigger] rs[i]).node_id == id && rs[i].result is Ok;
                if i < n {
                    assert(before[i] == rs[i]);
                }
            }
            assert(rs[n] == r);
        }
        // The last response is the failure of its node exactly if it counts as one.
        let is_status = r.result matches Err(Error::Transport(_));
        assert(first_failure(rs, n) <==> is_status && !responded(before).contains(r.node_id)
            && !failed(before).contains(r.node_id)) by {
            assert(rs[n] == r);
            if is_status && !responded(before).contains(r.node_id) && !failed(before).contains(
                r.node_id,
            ) {
                assert forall|j: int| 0 <= j < n && (#[trigger] rs[j]).node_id
                    == rs[n].node_id implies !(rs[j].result is Ok) && !(rs[j].result matches Err(
                    Error::Transport(_),
                )) by {
                    assert(before[j] == rs[j]);
                    if rs[j].result matches Err(Error::Transport(_)) {
                        lemma_some_first_failure(before, j);
                    }
                }
            }
            if first_failure(rs, n) {
                if responded(before).contains(r.node_id) {
                    let j = choose|j: int|
                        0 <= j < before.len() && (#[trigger] before[j]).node_id == r.node_id
                            && before[j].result is Ok;
                    assert(rs[j] == before[j]);
                }
                if failed(before).contains(r.node_id) {
                    let j = choose|j: int| #[trigger]
                        first_failure(before, j) && before[j].node_id == r.node_id;
                    assert(rs[j] == before[j]);
                }
            }
        }
        assert forall|i: int| 0 <= i < n implies #[trigger] first_failure(rs, i) == first_failure(
            before,
            i,
        ) by {
            assert(rs[i] == before[i]);
            if first_failure(before, i) {
                assert forall|j: int| 0 <= j < i && (#[trigger] rs[j]).node_id
                    == rs[i].node_id implies !(rs[j].result is Ok) && !(rs[j].result matches Err(
                    Error::Transport(_),
                )) by {
                    assert(before[j] == rs[j]);
                }
            }
            if first_failure(rs, i) {
                assert forall|j: int| 0 <= j < i && (#[trigger] before[j]).node_id
                    == before[i].node_id implies !(before[j].result is Ok) && !(
                before[j].result matches Err(Error::Transport(_))) by {
                    assert(before[j] == rs[j]);
                }
            }
        }
        let firsts = first_failed(before);
        assert(failed(rs) =~= if first_failure(rs, n) {
            failed(before).insert(r.node_id)
        } else {
            failed(before)
        });
        if first_failure(rs, n) {
            lemma_push_to_set(firsts.map_values(id_of), r.node_id);
            assert(firsts.push(r).map_values(id_of) =~= firsts.map_values(id_of).push(r.node_id));
        }
        assert forall|id: u32| #[trigger] failed(rs).contains(id) <==> exists|i: int| #[trigger]
            first_failure(rs, i) && rs[i].node_id == id by {
            if failed(before).contains(id) {
                let i = choose|i: int| #[trigger]
                    first_failure(before, i) && before[i].node_id == id;
                assert(first_failure(rs, i) && rs[i] == before[i]);
            }
            if first_failure(rs, n) && r.node_id == id {
                assert(rs[n].node_id == id);
            }
            if exists|i: int| #[trigger] first_failure(rs, i) && rs[i].node_id == id {
                let i = choose|i: int| #[trigger] first_failure(rs, i) && rs[i].node_id == id;
                if i < n {
                    assert(first_failure(before, i) && rs[i] == before[i]);
                }
            }
        }
    }
}

/// A node that failed with a status and had not responded has a first failure.
proof fn lemma_some_first_failure<T>(rs: Seq<NodeResponse<T>>, j: int)
    requires
        0 <= j < rs.len(),
        rs[j].result matches Err(Error::Transport(_)),
        forall|i: int|
            0 <= i < j && (#[trigger] rs[i]).node_id == rs[j].node_id ==> !(rs[i].result is Ok),
    ensures
        exists|i: int| #[trigger] first_failure(rs, i) && rs[i].node_id == rs[j].node_id,
    decreases j,
{
    if exists|i: int|
        0 <= i < j && (#[trigger] rs[i]).node_id == rs[j].node_id && rs[i].result matches Err(
            Error::Transport(_),
        ) {
        let i = choose|i: int|
            0 <= i < j && (#[trigger] rs[i]).node_id == rs[j].node_id && rs[i].result matches Err(
                Error::Transport(_),
            );
        lemma_some_first_failure(rs, i);
    } else {
        assert(first_failure(rs, j));
    }
}

proof fn lemma_push_to_set(s: Seq<u32>, x: u32)
    ensures
        s.push(x).to_set() == s.to_set().insert(x),
{
    assert forall|y: u32| s.push(x).to_set().contains(y) == s.to_set().insert(x).contains(y) by {
        if s.contains(y) {
            let i = choose|i: int| 0 <= i < s.len() && s[i] == y;
            assert(s.push(x)[i] == y);
        }
        assert(s.push(x)[s.len() as int] == x);
    }
    assert(s.push(x).to_set() =~= s.to_set().insert(x));
}

/// Whether `th` is what a caller gets who waits for `k` distinct nodes, with
/// one of the methods of `call` that do.
pub open spec fn waits_for_nodes<T>(
    call: Correctable<T>,
    k: usize,
    th: DistinctThreshold<T>,
) -> bool {
    ||| call_ensures(Correctable::<T>::threshold, (call, k), th)
    ||| k == 1 && call_ensures(Correctable::<T>::first, (call,), th)
    ||| k == call.size / 2 + 1 && call_ensures(Correctable::<T>::majority, (call,), th)
    ||| k == call.size && call_ensures(Correctable::<T>::all, (call,), th)
}

/// A correctable call that waits for `k` nodes succeeds with the response of
/// a node that had not responded yet and makes the nodes that have responded
/// `k`. Every node with a successful response counts, once, whatever failed
/// before. The call is incomplete once a node fails and the nodes that did not
/// fail are fewer than `k`, or when no further response can arrive; it then
/// names each failed node once, with its first status, in order. If its token
/// fires, it is cancelled.
pub proof fn law_correctable_call_counts_nodes<T>(
    call: Correctable<T>,
    k: usize,
    states: Seq<DistinctThreshold<T>>,
    rs: Seq<NodeResponse<T>>,
    event: Event<NodeResponse<T>>,
    step: Step<DistinctThreshold<T>, T>,
)
    requires
        states.len() == rs.len() + 1,
        waits_for_nodes(call, k, states[0]),
        forall|i: int|
            0 <= i < rs.len() ==> call_ensures(
                DistinctThreshold::<T>::on_event,
                (states[i], Event::Reply(rs[i])),
                Step::Wait(#[trigger] states[i + 1]),
            ),
        call_ensures(DistinctThreshold::<T>::on_event, (states.last(), event), step),
    ensures
        forall|token: &CancellationToken|
            call_ensures(DistinctThreshold::<T>::cancel, (&states.last(),), token) ==> *token
                == call.cancel,
        ok_nodes(rs).len() == 0 || ok_nodes(rs).len() < k,
        match event {
            Event::Reply(r) => {
                let all = rs.push(r);
                if r.result is Ok && !ok_nodes(rs).contains(r.node_id) && ok_nodes(all).len()
                    >= k {
                    step == Step::<DistinctThreshold<T>, T>::Done(Ok(r.result->Ok_0))
                } else if first_failure(all, rs.len() as int) && first_failed(all).len() + k
                    > call.size {
                    step matches Step::Done(Err(e)) && incomplete_with(e, first_failed(all))
                } else {
                    step is Wait
                }
            },
            Event::Cancelled => step == Step::<DistinctThreshold<T>, T>::Done(
                Err(Error::Cancelled),
            ),
            Event::Closed => step matches Step::Done(Err(e)) && incomplete_with(
                e,
                first_failed(rs),
            ),
        },
{
    lemma_correctable_state(call, k, states, rs, rs.len() as int);
    assert(rs.take(rs.len() as int) =~= rs);
    lemma_correctable_sets(rs);
    let whole = if let Event::Reply(r) = event {
        rs.push(r)
    } else {
        rs
    };
    if let Event::Reply(r) = event {
        lemma_correctable_sets(whole);
        lemma_failure_is_first(rs, r);
    }
    if let Step::Done(Err(Error::QuorumCall(q))) = step {
        assert(q@.node_errors == first_failures(whole));
        assert forall|i: int| 0 <= i < first_failed(whole).len() implies names(
            #[trigger] q.node_errors@[i],
            first_failed(whole)[i].node_id,
            first_failed(whole)[i].result->Err_0,
        ) by {
            assert(q@.node_errors[i] == first_failures(whole)[i]);
        }
    }
}

proof fn lemma_failure_is_first<T>(rs: Seq<NodeResponse<T>>, r: NodeResponse<T>)
    ensures
        first_failure(rs.push(r), rs.len() as int) <==> fails(rs, r),
{
    let all = rs.push(r);
    let n = rs.len() as int;
    lemma_correctable_sets(rs);
    lemma_correctable_sets(all);
    assert(all.drop_last() =~= rs);
    assert(all[n] == r);
    if fails(rs, r) {
        assert forall|j: int| 0 <= j < n && (#[trigger] all[j]).node_id == r.node_id implies !(
        all[j].result is Ok) && !(all[j].result matches Err(Error::Transport(_))) by {
            assert(all[j] == rs[j]);
            if all[j].result matches Err(Error::Transport(_)) {
                lemma_some_first_failure(rs, j);
            }
        }
    }
    if first_failure(all, n) {
        if responded(rs).contains(r.node_id) {
            let j = choose|j: int|
                0 <= j < rs.len() && (#[trigger] rs[j]).node_id == r.node_id && rs[j].result is Ok;
            assert(all[j] == rs[j]);
        }
        if failed(rs).contains(r.node_id) {
            let j = choose|j: int| #[trigger] first_failure(rs, j) && rs[j].node_id == r.node_id;
            assert(all[j] == rs[j]);
        }
    }
}

proof fn lemma_correctable_state<T>(
    call: Correctable<T>,
    k: usize,
    states: Seq<DistinctThreshold<T>>,
    rs: Seq<NodeResponse<T>>,
    n: int,
)
    requires
        0 <= n <= rs.len(),
        states.len() == rs.len() + 1,
        waits_for_nodes(call, k, states[0]),
        forall|i: int|
            0 <= i < rs.len() ==> call_ensures(
                DistinctThreshold::<T>::on_event,
                (states[i], Event::Reply(rs[i])),
                Step::Wait(#[trigger] states[i + 1]),
            ),
    ensures
        states[n].token() == call.cancel,
        states[n].k() == k,
        states[n].size() == call.size,
        states[n].received() == rs.take(n),
        responded(rs.take(n)).finite(),
        responded(rs.take(n)).len() == 0 || responded(rs.take(n)).len() < k,
    decreases n,
{
    if n > 0 {
        lemma_correctable_state(call, k, states, rs, n - 1);
        assert(call_ensures(
            DistinctThreshold::<T>::on_event,
            (states[n - 1], Event::Reply(rs[n - 1])),
            Step::Wait(states[(n - 1) + 1]),
        ));
        assert(rs.take(n) =~= rs.take(n - 1).push(rs[n - 1]));
        assert(rs.take(n).drop_last() =~= rs.take(n - 1));
        assert(responded(rs.take(n)) =~= if rs[n - 1].result is Ok {
            responded(rs.take(n - 1)).insert(rs[n - 1].node_id)
        } else {
            responded(rs.take(n - 1))
        });
    } else {
        assert(responded(rs.take(0)) =~= Set::<u32>::empty());
    }
}

// ── Multicast ─────────────────────────────────────────────────────────────────

/// The acknowledgements that failed with a status, in order of arrival.
pub open spec fn status_acks(
    acks: Seq<(u32, Result<(), Error>)>,
) -> Seq<(u32, Result<(), Error>)> {
    acks.filter(|a: (u32, Result<(), Error>)| a.1 matches Err(Error::Transport(_)))
}

proof fn lemma_ack_failures(acks: Seq<(u32, Result<(), Error>)>)
    ensures
        ack_failures(acks).len() == status_acks(acks).len(),
        forall|i: int|
            0 <= i < ack_failures(acks).len() ==> {
                let a = status_acks(acks)[i];
                let e = #[trigger] ack_failures(acks)[i];
                &&& e.node_id == a.0
                &&& a.1 matches Err(Error::Transport(status)) && e.cause == status@
            },
    decreases acks.len(),
{
    reveal(Seq::filter);
    if acks.len() > 0 {
        lemma_ack_failures(acks.drop_last());
    }
}

/// A multicast waits for every acknowledgement. It succeeds exactly if none of
/// them failed with a status, and otherwise fails as a send failure that names
/// those that did, in order. If its token fires, it is cancelled.
pub proof fn law_multicast_reports_failures<M: MulticastMethod, S, I>(
    ctx: ConfigContext<S, I>,
    payload: Vec<u8>,
    m: M,
    fan_out: FanOut<S>,
    states: Seq<MulticastAcks>,
    acks: Seq<(u32, Result<(), Error>)>,
    event: Event<(u32, Result<(), Error>)>,
    step: Step<MulticastAcks, ()>,
)
    requires
        states.len() == acks.len() + 1,
        call_ensures(
            multicast::<M, S, I>,
            (&ctx, Ok(()), payload, m),
            Ok((fan_out, states[0])),
        ),
        forall|i: int|
            0 <= i < acks.len() ==> call_ensures(
                MulticastAcks::on_event,
                (states[i], Event::Reply(acks[i])),
                Step::Wait(#[trigger] states[i + 1]),
            ),
        call_ensures(MulticastAcks::on_event, (states.last(), event), step),
    ensures
        forall|token: &CancellationToken|
            call_ensures(MulticastAcks::cancel, (&states.last(),), token) ==> *token == ctx.cancel,
        match event {
            Event::Reply(_) => step is Wait,
            Event::Cancelled => step == Step::<MulticastAcks, ()>::Done(Err(Error::Cancelled)),
            Event::Closed => if status_acks(acks).len() == 0 {
                step matches Step::Done(Ok(_))
            } else {
                &&& step matches Step::Done(Err(Error::QuorumCall(q)))
                &&& q.cause is SendFailure
                &&& q.node_errors@.len() == status_acks(acks).len()
                &&& forall|i: int|
                    0 <= i < status_acks(acks).len() ==> names(
                        #[trigger] q.node_errors@[i],
                        status_acks(acks)[i].0,
                        status_acks(acks)[i].1->Err_0,
                    )
            },
        },
{
    lemma_acks_state::<M, S, I>(ctx, payload, m, fan_out, states, acks, acks.len() as int);
    assert(acks.take(acks.len() as int) =~= acks);
    lemma_ack_failures(acks);
    if let Step::Done(Err(Error::QuorumCall(q))) = step {
        assert(q@.node_errors == ack_failures(acks));
        assert forall|i: int| 0 <= i < status_acks(acks).len() implies names(
            #[trigger] q.node_errors@[i],
            status_acks(acks)[i].0,
            status_acks(acks)[i].1->Err_0,
        ) by {
            assert(q@.node_errors[i] == ack_failures(acks)[i]);
        }
    }
}

proof fn lemma_acks_state<M: MulticastMethod, S, I>(
    ctx: ConfigContext<S, I>,
    payload: Vec<u8>,
    m: M,
    fan_out: FanOut<S>,
    states: Seq<MulticastAcks>,
    acks: Seq<(u32, Result<(), Error>)>,
    n: int,
)
    requires
        0 <= n <= acks.len(),
        states.len() == acks.len() + 1,
        call_ensures(
            multicast::<M, S, I>,
            (&ctx, Ok(()), payload, m),
            Ok((fan_out, states[0])),
        ),
        forall|i: int|
            0 <= i < acks.len() ==> call_ensures(
                MulticastAcks::on_event,
                (states[i], Event::Reply(acks[i])),
                Step::Wait(#[trigger] states[i + 1]),
            ),
    ensures
        states[n].token() == ctx.cancel,
        states[n].received() == acks.take(n),
    decreases n,
{
    if n > 0 {
        lemma_acks_state::<M, S, I>(ctx, payload, m, fan_out, states, acks, n - 1);
        assert(call_ensures(
            MulticastAcks::on_event,
            (states[n - 1], Event::Reply(acks[n - 1])),
            Step::Wait(states[(n - 1) + 1]),
        ));
        assert(acks.take(n) =~= acks.take(n - 1).push(acks[n - 1]));
    }
}

} // verus!
