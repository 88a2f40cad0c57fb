//! Laws of calls: which requests go to which nodes, and what they carry.

use vstd::prelude::*;
use vstd::string::to_string_from_display_ensures;

use tokio::sync::{mpsc, oneshot, OwnedMutexGuard};

use crate::call_types::{
    answer, correctable_call, multicast, node_response, ordered_node_response,
    ordered_quorum_call, quorum_call, rpc_call, rpc_result, unicast, FanOut, MulticastAcks, Reply,
};
use crate::channel::{Calls, OutboundRequest};
use crate::config::ConfigContext;
use crate::correctable::Correctable;
use crate::error::Error;
use crate::message::{build_wire_message, last_value, last_wins, lemma_last_wins, metadata_map};
use crate::message::{Message, MetadataMap};
use crate::method::{
    CorrectableMethod, MulticastMethod, OrderedQuorumCallMethod, QuorumCallMethod, RpcCallMethod,
    UnicastMethod,
};
use crate::node::NodeContext;
use crate::ordered_responses::{OrderedNodeResponse, OrderedResponses};
use crate::responses::{NodeResponse, Responses};
use crate::router::PendingCall;
use crate::server::{Locked, Released, Responder, ServerCtx};
use crate::table::{
    distinct_keys, entries_view, has_key, lemma_lookup_first, lemma_lookup_none, lemma_with_entry,
    lookup, Table,
};

verus! {

// ── Metadata ──────────────────────────────────────────────────────────────────

/// Whether the entry `i` is the last one that was attached under its key.
pub open spec fn last_under_key(attached: Seq<(String, String)>, key: Seq<char>, i: int) -> bool {
    &&& 0 <= i < attached.len()
    &&& attached[i].0@ == key
    &&& forall|j: int| i < j < attached.len() ==> (#[trigger] attached[j]).0@ != key
}

/// Whether `value` was attached last under `key`.
pub open spec fn attached_last(attached: Seq<(String, String)>, key: Seq<char>, value: String) -> bool {
    exists|i: int| #[trigger] last_under_key(attached, key, i) && attached[i].1 == value
}

/// Whether some entry has the key.
pub open spec fn some_entry(metadata: Seq<(Seq<char>, String)>, key: Seq<char>) -> bool {
    exists|a: int| 0 <= a < metadata.len() && (#[trigger] metadata[a]).0 == key
}

/// Whether the key `a` was attached before `b` was for the first time.
pub open spec fn attached_before(
    attached: Seq<(String, String)>,
    a: Seq<char>,
    b: Seq<char>,
) -> bool {
    exists|i: int|
        0 <= i < attached.len() && (#[trigger] attached[i]).0@ == a && forall|j: int|
            0 <= j <= i ==> (#[trigger] attached[j]).0@ != b
}

/// Whether `metadata` is what the wire carries of the entries that were
/// attached: each key once, with the value that was attached last, and no key
/// that was not attached. The keys are in the order in which they were first
/// attached.
pub open spec fn carries(metadata: Seq<(Seq<char>, String)>, attached: Seq<(String, String)>) -> bool {
    &&& forall|a: int, b: int|
        0 <= a < b < metadata.len() ==> (#[trigger] metadata[a]).0 != (#[trigger] metadata[b]).0
    &&& forall|a: int|
        0 <= a < metadata.len() ==> attached_last(
            attached,
            (#[trigger] metadata[a]).0,
            metadata[a].1,
        )
    &&& forall|i: int| 0 <= i < attached.len() ==> some_entry(metadata, (#[trigger] attached[i]).0@)
    &&& forall|a: int, b: int|
        0 <= a < b < metadata.len() ==> attached_before(
            attached,
            (#[trigger] metadata[a]).0,
            (#[trigger] metadata[b]).0,
        )
}

proof fn lemma_last_value(attached: Seq<(String, String)>, key: Seq<char>)
    ensures
        match last_value(entries_view(attached), key) {
            Some(value) => exists|i: int| #[trigger]
                last_under_key(attached, key, i) && attached[i].1 == value,
            None => forall|i: int| 0 <= i < attached.len() ==> (#[trigger] attached[i]).0@ != key,
        },
    decreases attached.len(),
{
    let entries = entries_view(attached);
    if attached.len() > 0 {
        let n = attached.len() - 1;
        let before = attached.drop_last();
        assert(entries.drop_last() =~= entries_view(before));
        lemma_last_value(before, key);
        if entries.last().0 == key {
            assert(last_under_key(attached, key, n));
        } else {
            match last_value(entries, key) {
                Some(value) => {
                    let i = choose|i: int| #[trigger]
                        last_under_key(before, key, i) && before[i].1 == value;
                    assert(attached[i] == before[i]);
                    assert forall|j: int| i < j < attached.len() implies (#[trigger] attached[j]).0@
                        != key by {
                        if j < n {
                            assert(before[j] == attached[j]);
                        }
                    }
                    assert(last_under_key(attached, key, i));
                },
                None => {
                    assert forall|i: int| 0 <= i < attached.len() implies (#[trigger] attached[i]).0@
                        != key by {
                        if i < n {
                            assert(before[i] == attached[i]);
                        }
                    }
                },
            }
        }
    }
}

proof fn lemma_order_kept(attached: Seq<(String, String)>, a: int, b: int)
    requires
        0 <= a < b < last_wins(entries_view(attached)).len(),
    ensures
        attached_before(
            attached,
            last_wins(entries_view(attached))[a].0,
            last_wins(entries_view(attached))[b].0,
        ),
    decreases attached.len(),
{
    let entries = entries_view(attached);
    let before = attached.drop_last();
    let n = attached.len() - 1;
    assert(entries.drop_last() =~= entries_view(before));
    let (now, old_map) = (last_wins(entries), last_wins(entries_view(before)));
    let key = entries.last().0;
    assert(now[a].0 == old_map[a].0);
    if b < old_map.len() {
        assert(now[b].0 == old_map[b].0);
        lemma_order_kept(before, a, b);
        let i = choose|i: int|
            0 <= i < before.len() && (#[trigger] before[i]).0@ == now[a].0 && forall|j: int|
                0 <= j <= i ==> (#[trigger] before[j]).0@ != now[b].0;
        assert(attached[i] == before[i]);
        assert forall|j: int| 0 <= j <= i implies (#[trigger] attached[j]).0@ != now[b].0 by {
            assert(attached[j] == before[j]);
        }
    } else {
        assert(!has_key(old_map, key) && now[b].0 == key);
        lemma_last_wins(entries_view(before));
        lemma_lookup_none(old_map, key);
        assert(lookup(old_map, key) == last_value(entries_view(before), key));
        lemma_last_value(before, key);
        lemma_lookup_none(old_map, now[a].0);
        assert(old_map[a].0 == now[a].0);
        assert(has_key(old_map, now[a].0));
        assert(lookup(old_map, now[a].0) == last_value(entries_view(before), now[a].0));
        lemma_last_value(before, now[a].0);
        let i = choose|i: int| last_under_key(before, now[a].0, i);
        assert(attached[i] == before[i]);
        assert forall|j: int| 0 <= j <= i implies (#[trigger] attached[j]).0@ != now[b].0 by {
            assert(attached[j] == before[j]);
        }
    }
}

proof fn lemma_carries(attached: Seq<(String, String)>)
    ensures
        carries(last_wins(entries_view(attached)), attached),
{
    let metadata = last_wins(entries_view(attached));
    lemma_last_wins(entries_view(attached));
    assert forall|a: int| 0 <= a < metadata.len() implies attached_last(
        attached,
        (#[trigger] metadata[a]).0,
        metadata[a].1,
    ) by {
        let key = metadata[a].0;
        assert forall|b: int| 0 <= b < a implies (#[trigger] metadata[b]).0 != key by {
            assert(metadata[b].0 != metadata[a].0);
        }
        lemma_lookup_first(metadata, key, a);
        assert(lookup(metadata, key) == last_value(entries_view(attached), key));
        lemma_last_value(attached, key);
    }
    assert forall|i: int| 0 <= i < attached.len() implies some_entry(
        metadata,
        (#[trigger] attached[i]).0@,
    ) by {
        let key = attached[i].0@;
        lemma_last_value(attached, key);
        assert(lookup(metadata, key) == last_value(entries_view(attached), key));
        lemma_lookup_none(metadata, key);
        assert(has_key(metadata, key));
    }
    assert forall|a: int, b: int| 0 <= a < b < metadata.len() implies attached_before(
        attached,
        (#[trigger] metadata[a]).0,
        (#[trigger] metadata[b]).0,
    ) by {
        lemma_order_kept(attached, a, b);
    }
}

/// The metadata of a message has each key that was attached, with the value
/// that was attached last.
pub proof fn law_last_metadata_wins(attached: Vec<(String, String)>, r: MetadataMap)
    requires
        call_ensures(metadata_map, (&attached,), r),
    ensures
        carries(r@, attached@),
{
    lemma_carries(attached@);
}

/// What a client attaches to a call, the handler finds: the value that was
/// attached last under the key, and nothing under a key that was not attached,
/// before and after the context was released.
pub proof fn law_handler_finds_metadata(
    attached: Seq<(String, String)>,
    msg: Message,
    guard: OwnedMutexGuard<()>,
    out: Responder,
    ctx: ServerCtx<Locked>,
    released: ServerCtx<Released>,
    key: &str,
    got: Option<&str>,
)
    requires
        carries(msg.metadata@, attached),
        call_ensures(ServerCtx::<Locked>::new, (guard, out, &msg), ctx),
        call_ensures(ServerCtx::<Locked>::metadata_get, (&ctx, key), got) || (call_ensures(
            ServerCtx::<Locked>::release,
            (ctx,),
            released,
        ) && call_ensures(ServerCtx::<Released>::metadata_get, (&released, key), got)),
    ensures
        match got {
            Some(text) => exists|i: int| #[trigger]
                last_under_key(attached, key@, i) && attached[i].1@ == text@,
            None => forall|i: int| 0 <= i < attached.len() ==> (#[trigger] attached[i]).0@ != key@,
        },
{
    let metadata = msg.metadata@;
    lemma_lookup_none(metadata, key@);
    if has_key(metadata, key@) {
        let a = choose|a: int| 0 <= a < metadata.len() && #[trigger] metadata[a].0 == key@;
        assert forall|b: int| 0 <= b < a implies (#[trigger] metadata[b]).0 != key@ by {
            assert(metadata[b].0 != metadata[a].0);
        }
        lemma_lookup_first(metadata, key@, a);
        assert(attached_last(attached, metadata[a].0, metadata[a].1));
    } else {
        assert forall|i: int| 0 <= i < attached.len() implies (#[trigger] attached[i]).0@ != key@ by {
            assert(some_entry(metadata, attached[i].0@));
        }
    }
}

/// A handler sees the metadata of its message, all of it and in its order,
/// before and after the context was released.
pub proof fn law_handler_sees_all_metadata(
    msg: Message,
    guard: OwnedMutexGuard<()>,
    out: Responder,
    ctx: ServerCtx<Locked>,
    released: ServerCtx<Released>,
    got: &[(String, String)],
)
    requires
        call_ensures(ServerCtx::<Locked>::new, (guard, out, &msg), ctx),
        call_ensures(ServerCtx::<Locked>::metadata, (&ctx,), got) || (call_ensures(
            ServerCtx::<Locked>::release,
            (ctx,),
            released,
        ) && call_ensures(ServerCtx::<Released>::metadata, (&released,), got)),
    ensures
        got@.len() == msg.metadata@.len(),
        forall|i: int|
            0 <= i < got@.len() ==> (#[trigger] got@[i]).0@ == msg.metadata@[i].0 && got@[i].1
                == msg.metadata@[i].1,
{
    assert(entries_view(got@) == msg.metadata@);
    assert forall|i: int| 0 <= i < got@.len() implies (#[trigger] got@[i]).0@ == msg.metadata@[i].0
        && got@[i].1 == msg.metadata@[i].1 by {
        assert(entries_view(got@)[i] == (got@[i].0@, got@[i].1));
    }
}

// ── Tables ────────────────────────────────────────────────────────────────────

/// A table gives back what was set last under a key, and setting a key leaves
/// every other key alone.
pub proof fn law_table_gives_back<T>(
    table: &mut Table<T>,
    key: String,
    value: T,
    other: &str,
    before: Option<&T>,
    after: Option<&T>,
)
    requires
        distinct_keys(old(table)@),
        call_ensures(Table::<T>::get, (&*old(table), other), before),
        call_ensures(Table::<T>::insert, (table, key, value), ()),
        call_ensures(Table::<T>::get, (&*final(table), other), after),
    ensures
        after == if other@ == key@ {
            Some(&value)
        } else {
            before
        },
{
    lemma_with_entry(old(table)@, key@, value);
}

/// A new table has nothing under any key.
pub proof fn law_new_table_is_empty<T>(table: Table<T>, key: &str, got: Option<&T>)
    requires
        call_ensures(Table::<T>::new, (), table),
        call_ensures(Table::<T>::get, (&table, key), got),
    ensures
        got is None,
        table@.len() == 0,
{
}

// ── Requests ──────────────────────────────────────────────────────────────────

/// Whether `req` is a request: it has this sequence number, method and
/// payload, the status of success, and the metadata that was attached.
pub open spec fn is_request(
    req: OutboundRequest,
    seq: int,
    method: Seq<char>,
    payload: Seq<u8>,
    attached: Seq<(String, String)>,
) -> bool {
    &&& req.msg.message_seq_no == seq
    &&& req.msg.method@ == method
    &&& req.msg.payload@ == payload
    &&& req.msg.status_code == 0
    &&& req.msg.status_message@.len() == 0
    &&& carries(req.msg.metadata@, attached)
}

/// Whether one request went into the queue, after what was there before.
pub open spec fn one_more(before: Seq<OutboundRequest>, after: Seq<OutboundRequest>) -> bool {
    &&& after.len() == before.len() + 1
    &&& forall|i: int| 0 <= i < before.len() ==> after[i] == #[trigger] before[i]
}

/// Whether a call succeeded exactly if the queue took its request, and
/// otherwise failed because the node is closed.
pub open spec fn as_queue_says<R>(
    queue: mpsc::UnboundedSender<OutboundRequest>,
    req: OutboundRequest,
    r: Result<R, Error>,
) -> bool {
    exists|sent: Result<(), mpsc::error::SendError<OutboundRequest>>|
        {
            &&& #[trigger] call_ensures(
                mpsc::UnboundedSender::<OutboundRequest>::send,
                (&queue, req),
                sent,
            )
            &&& match r {
                Ok(_) => sent is Ok,
                Err(e) => sent is Err && e is NodeClosed,
            }
        }
}

/// The message of a request has the given fields and the status of success.
pub proof fn law_wire_message(
    seq: u64,
    method: &str,
    payload: Vec<u8>,
    metadata: MetadataMap,
    r: Message,
)
    requires
        call_ensures(build_wire_message, (seq, method, payload, metadata), r),
    ensures
        r.message_seq_no == seq,
        r.method@ == method@,
        r.payload@ == payload@,
        r.metadata@ == metadata@,
        r.status_code == 0,
        r.status_message@.len() == 0,
{
}

/// An RPC that the interceptors let pass puts one request into the queue of
/// its node, under the next sequence number, and asks for a response; one that
/// they reject returns their error and sends nothing.
pub proof fn law_rpc_sends_one_request<M: RpcCallMethod, S, I>(
    ctx: NodeContext<S, I>,
    verdict: Result<(), Error>,
    calls: &mut Calls,
    payload: Vec<u8>,
    m: M,
    r: Result<oneshot::Receiver<Result<Message, Error>>, Error>,
)
    requires
        call_ensures(rpc_call::<M, S, I>, (&ctx, verdict, calls, payload, m), r),
    ensures
        final(calls).router@ == old(calls).router@,
        match verdict {
            Err(e) => {
                &&& r matches Err(got) && got == e
                &&& final(calls).seq == old(calls).seq
                &&& final(calls).ledger.put() == old(calls).ledger.put()
            },
            Ok(_) => {
                let req = final(calls).ledger.put().last();
                &&& one_more(old(calls).ledger.put(), final(calls).ledger.put())
                &&& is_request(req, old(calls).seq + 1, M::PATH@, payload@, ctx.metadata@)
                &&& final(calls).seq == old(calls).seq + 1
                &&& req.send_ack is None
                &&& req.response_tx matches Some(tx) && (r matches Ok(rx) ==> call_ensures(
                    oneshot::channel::<Result<Message, Error>>,
                    (),
                    (tx, rx),
                ))
                &&& as_queue_says(ctx.node.inner.channel.mailbox.queue(), req, r)
            },
        },
{
    lemma_carries(ctx.metadata@);
}

/// A unicast that the interceptors let pass puts one request into the queue of
/// its node, under the next sequence number, and asks for an acknowledgement;
/// one that they reject returns their error and sends nothing.
pub proof fn law_unicast_sends_one_request<M: UnicastMethod, S, I>(
    ctx: NodeContext<S, I>,
    verdict: Result<(), Error>,
    calls: &mut Calls,
    payload: Vec<u8>,
    m: M,
    r: Result<oneshot::Receiver<Result<(), Error>>, Error>,
)
    requires
        call_ensures(unicast::<M, S, I>, (&ctx, verdict, calls, payload, m), r),
    ensures
        final(calls).router@ == old(calls).router@,
        match verdict {
            Err(e) => {
                &&& r matches Err(got) && got == e
                &&& final(calls).seq == old(calls).seq
                &&& final(calls).ledger.put() == old(calls).ledger.put()
            },
            Ok(_) => {
                let req = final(calls).ledger.put().last();
                &&& one_more(old(calls).ledger.put(), final(calls).ledger.put())
                &&& is_request(req, old(calls).seq + 1, M::PATH@, payload@, ctx.metadata@)
                &&& final(calls).seq == old(calls).seq + 1
                &&& req.response_tx is None
                &&& req.send_ack matches Some(tx) && (r matches Ok(rx) ==> call_ensures(
                    oneshot::channel::<Result<(), Error>>,
                    (),
                    (tx, rx),
                ))
                &&& as_queue_says(ctx.node.inner.channel.mailbox.queue(), req, r)
            },
        },
{
    lemma_carries(ctx.metadata@);
}

// ── Fan-out ───────────────────────────────────────────────────────────────────

/// Whether a fan-out is for all nodes of the configuration of `ctx`, in order,
/// with this method and payload and the metadata that was attached to `ctx`.
pub open spec fn fans_out_call<S, I>(
    fan_out: FanOut<S>,
    ctx: ConfigContext<S, I>,
    method: Seq<char>,
    payload: Seq<u8>,
) -> bool {
    &&& fan_out.nodes@ == ctx.config@
    &&& fan_out.method@ == method
    &&& fan_out.payload@ == payload
    &&& carries(fan_out.metadata@, ctx.metadata@)
}

/// A quorum call that the interceptors let pass fans out the request, with
/// the metadata of its context, to all nodes of the configuration, whatever
/// their number; one that they reject returns their error.
pub proof fn law_quorum_call_fans_out<M: QuorumCallMethod, S, I>(
    ctx: ConfigContext<S, I>,
    verdict: Result<(), Error>,
    payload: Vec<u8>,
    m: M,
    r: Result<Responses<M::Resp, FanOut<S>>, Error>,
)
    requires
        call_ensures(quorum_call::<M, S, I>, (&ctx, verdict, payload, m), r),
    ensures
        match verdict {
            Err(e) => r matches Err(got) && got == e,
            Ok(_) => {
                &&& r matches Ok(call)
                &&& call.size == ctx.config@.len()
                &&& call.cancel == ctx.cancel
                &&& call.launch matches Some(fan_out) && fans_out_call(
                    fan_out,
                    ctx,
                    M::PATH@,
                    payload@,
                )
            },
        },
{
    lemma_carries(ctx.metadata@);
}

/// An ordered quorum call that the interceptors let pass fans out the request
/// to all nodes of the configuration; one that they reject returns their
/// error.
pub proof fn law_ordered_quorum_call_fans_out<M: OrderedQuorumCallMethod, S, I>(
    ctx: ConfigContext<S, I>,
    verdict: Result<(), Error>,
    payload: Vec<u8>,
    m: M,
    r: Result<OrderedResponses<M::Resp, FanOut<S>>, Error>,
)
    requires
        call_ensures(ordered_quorum_call::<M, S, I>, (&ctx, verdict, payload, m), r),
    ensures
        match verdict {
            Err(e) => r matches Err(got) && got == e,
            Ok(_) => {
                &&& r matches Ok(call)
                &&& call.size == ctx.config@.len()
                &&& call.cancel == ctx.cancel
                &&& call.launch matches Some(fan_out) && fans_out_call(
                    fan_out,
                    ctx,
                    M::PATH@,
                    payload@,
                )
            },
        },
{
    lemma_carries(ctx.metadata@);
}

/// A correctable call that the interceptors let pass fans out the request to
/// all nodes of the configuration; one that they reject returns their error.
pub proof fn law_correctable_call_fans_out<M: CorrectableMethod, S, I>(
    ctx: ConfigContext<S, I>,
    verdict: Result<(), Error>,
    payload: Vec<u8>,
    m: M,
    r: Result<(FanOut<S>, Correctable<M::Resp>), Error>,
)
    requires
        call_ensures(correctable_call::<M, S, I>, (&ctx, verdict, payload, m), r),
    ensures
        match verdict {
            Err(e) => r matches Err(got) && got == e,
            Ok(_) => {
                &&& r matches Ok((fan_out, call))
                &&& call.size == ctx.config@.len()
                &&& call.cancel == ctx.cancel
                &&& fans_out_call(fan_out, ctx, M::PATH@, payload@)
            },
        },
{
    lemma_carries(ctx.metadata@);
}

/// A multicast that the interceptors let pass fans out the request to all
/// nodes of the configuration; one that they reject returns their error.
pub proof fn law_multicast_fans_out<M: MulticastMethod, S, I>(
    ctx: ConfigContext<S, I>,
    verdict: Result<(), Error>,
    payload: Vec<u8>,
    m: M,
    r: Result<(FanOut<S>, MulticastAcks), Error>,
)
    requires
        call_ensures(multicast::<M, S, I>, (&ctx, verdict, payload, m), r),
    ensures
        match verdict {
            Err(e) => r matches Err(got) && got == e,
            Ok(_) => r matches Ok((fan_out, _)) && fans_out_call(fan_out, ctx, M::PATH@, payload@),
        },
{
    lemma_carries(ctx.metadata@);
}

/// A fan-out puts one request into the queue of the node at a position, under
/// the next sequence number of that node, with the metadata that was attached,
/// and asks for a response.
pub proof fn law_fan_out_sends_twoway<S>(
    fan_out: FanOut<S>,
    attached: Seq<(String, String)>,
    position: usize,
    calls: &mut Calls,
    r: Result<oneshot::Receiver<Result<Message, Error>>, Error>,
)
    requires
        carries(fan_out.metadata@, attached),
        call_ensures(FanOut::<S>::send_twoway, (&fan_out, position, calls), r),
    ensures
        ({
            let req = final(calls).ledger.put().last();
            &&& one_more(old(calls).ledger.put(), final(calls).ledger.put())
            &&& is_request(
                req,
                old(calls).seq + 1,
                fan_out.method@,
                fan_out.payload@,
                attached,
            )
            &&& final(calls).seq == old(calls).seq + 1
            &&& final(calls).router@ == old(calls).router@
            &&& req.send_ack is None
            &&& req.response_tx matches Some(tx) && (r matches Ok(rx) ==> call_ensures(
                oneshot::channel::<Result<Message, Error>>,
                (),
                (tx, rx),
            ))
            &&& as_queue_says(
                fan_out.nodes@[position as int].inner.channel.mailbox.queue(),
                req,
                r,
            )
        }),
{
}

/// A fan-out puts one request into the queue of the node at a position, under
/// the next sequence number of that node, with the metadata that was attached,
/// and asks for an acknowledgement.
pub proof fn law_fan_out_sends_oneway<S>(
    fan_out: FanOut<S>,
    attached: Seq<(String, String)>,
    position: usize,
    calls: &mut Calls,
    r: Result<oneshot::Receiver<Result<(), Error>>, Error>,
)
    requires
        carries(fan_out.metadata@, attached),
        call_ensures(FanOut::<S>::send_oneway, (&fan_out, position, calls), r),
    ensures
        ({
            let req = final(calls).ledger.put().last();
            &&& one_more(old(calls).ledger.put(), final(calls).ledger.put())
            &&& is_request(
                req,
                old(calls).seq + 1,
                fan_out.method@,
                fan_out.payload@,
                attached,
            )
            &&& final(calls).seq == old(calls).seq + 1
            &&& final(calls).router@ == old(calls).router@
            &&& req.response_tx is None
            &&& req.send_ack matches Some(tx) && (r matches Ok(rx) ==> call_ensures(
                oneshot::channel::<Result<(), Error>>,
                (),
                (tx, rx),
            ))
            &&& as_queue_says(
                fan_out.nodes@[position as int].inner.channel.mailbox.queue(),
                req,
                r,
            )
        }),
{
}

/// A fan-out puts one streaming request into the queue of the node at a
/// position, under the next sequence number of that node, and registers under
/// that number the stream whose other end the caller gets; every other pending
/// call stays.
pub proof fn law_fan_out_sends_streaming<S>(
    fan_out: FanOut<S>,
    attached: Seq<(String, String)>,
    position: usize,
    calls: &mut Calls,
    r: Result<mpsc::UnboundedReceiver<Result<Message, Error>>, Error>,
)
    requires
        carries(fan_out.metadata@, attached),
        call_ensures(FanOut::<S>::send_streaming, (&fan_out, position, calls), r),
    ensures
        ({
            let req = final(calls).ledger.put().last();
            let seq = (old(calls).seq + 1) as u64;
            &&& one_more(old(calls).ledger.put(), final(calls).ledger.put())
            &&& is_request(
                req,
                old(calls).seq + 1,
                fan_out.method@,
                fan_out.payload@,
                attached,
            )
            &&& final(calls).seq == old(calls).seq + 1
            &&& req.response_tx is None
            &&& req.send_ack is None
            &&& forall|other: u64|
                other != seq ==> #[trigger] final(calls).router@.get(other) == old(
                    calls,
                ).router@.get(other)
            &&& final(calls).router@.get(seq) matches Some(PendingCall::Stream(out))
            &&& out.sent().len() == 0
            &&& r matches Ok(rx) ==> call_ensures(
                mpsc::unbounded_channel::<Result<Message, Error>>,
                (),
                (out.sender(), rx),
            )
            &&& as_queue_says(
                fan_out.nodes@[position as int].inner.channel.mailbox.queue(),
                req,
                r,
            )
        }),
{
}

// ── Replies ───────────────────────────────────────────────────────────────────

/// Whether `r` is what `decode` makes of a message that arrived: the value, or
/// a codec error with the text of the decoder's error.
pub open spec fn is_decoded<T, F: FnOnce(&Vec<u8>) -> Result<T, prost::DecodeError>>(
    decode: F,
    msg: Message,
    r: Result<T, Error>,
) -> bool {
    exists|d: Result<T, prost::DecodeError>|
        {
            &&& #[trigger] call_ensures(decode, (&msg.payload,), d)
            &&& match (d, r) {
                (Ok(value), Ok(got)) => got == value,
                (Err(cause), Err(Error::Codec(text))) => to_string_from_display_ensures::<
                    prost::DecodeError,
                >(&cause, text),
                _ => false,
            }
        }
}

/// An RPC returns the decoded response, the error that came instead of it,
/// `Cancelled` if its token fired, and `NodeClosed` if the node dropped it.
pub proof fn law_rpc_result<T, F: FnOnce(&Vec<u8>) -> Result<T, prost::DecodeError>>(
    reply: Reply<Result<Message, Error>>,
    decode: F,
    r: Result<T, Error>,
)
    requires
        call_ensures(rpc_result::<T, F>, (reply, decode), r),
    ensures
        match reply {
            Reply::Cancelled => r matches Err(Error::Cancelled),
            Reply::Dropped => r matches Err(Error::NodeClosed),
            Reply::Arrived(Err(e)) => r matches Err(got) && got == e,
            Reply::Arrived(Ok(msg)) => is_decoded(decode, msg, r),
        },
{
}

/// Waiting for an answer gives the answer, `Cancelled` if the token fired, and
/// `NodeClosed` if the node dropped the request.
pub proof fn law_answer<R>(reply: Reply<Result<R, Error>>, r: Result<R, Error>)
    requires
        call_ensures(answer::<R>, (reply,), r),
    ensures
        match reply {
            Reply::Cancelled => r matches Err(Error::Cancelled),
            Reply::Dropped => r matches Err(Error::NodeClosed),
            Reply::Arrived(a) => r == a,
        },
{
}

/// The response of a node has the ID of the node, and the decoded message or
/// the error that came instead of it.
pub proof fn law_node_response<T, F: FnOnce(&Vec<u8>) -> Result<T, prost::DecodeError>>(
    node_id: u32,
    reply: Result<Message, Error>,
    decode: F,
    r: NodeResponse<T>,
)
    requires
        call_ensures(node_response::<T, F>, (node_id, reply, decode), r),
    ensures
        r.node_id == node_id,
        match reply {
            Err(e) => r.result matches Err(got) && got == e,
            Ok(msg) => is_decoded(decode, msg, r.result),
        },
{
}

/// The response of a node in an ordered call has also the position of the
/// node.
pub proof fn law_ordered_node_response<T, F: FnOnce(&Vec<u8>) -> Result<T, prost::DecodeError>>(
    position: usize,
    node_id: u32,
    reply: Result<Message, Error>,
    decode: F,
    r: OrderedNodeResponse<T>,
)
    requires
        call_ensures(ordered_node_response::<T, F>, (position, node_id, reply, decode), r),
    ensures
        r.position == position,
        r.node_id == node_id,
        match reply {
            Err(e) => r.result matches Err(got) && got == e,
            Ok(msg) => is_decoded(decode, msg, r.result),
        },
{
}

} // verus!
