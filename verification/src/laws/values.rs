//! Laws of the values that go into a call and come out of it: collectors,
//! updates, failures, copies and tables.

use vstd::prelude::*;

use tokio_util::sync::CancellationToken;

use crate::call_types::{decode_payload, MulticastAcks};
use crate::config::ConfigContext;
use crate::correctable::{update_if_cancelled, Correctable, DistinctThreshold, Polled, Update};
use crate::error::{
    node_errors_view, Error, NodeError, NodeErrorView, QuorumCallError,
};
use crate::laws::aggregation::names;
use crate::laws::calls::is_decoded;
use crate::message::{clone_entries, metadata_entries, Message, MetadataMap};
use crate::node::NodeContext;
use crate::ordered_responses::{OrderedQuorum, OrderedResponses, OrderedThreshold};
use crate::responses::{
    incomplete_error, push_failure, push_transport_failure, NodeResponse, Quorum, Responses,
    Threshold,
};
use crate::status::Status;
use crate::table::{distinct_keys, entries_view, has_key, Table};

verus! {

// ── Collectors ────────────────────────────────────────────────────────────────

/// A call that is driven by a quorum function hands out its fan-out, has
/// collected nothing, and is cancelled by its own token.
pub proof fn law_quorum_starts<T, L>(
    call: Responses<T, L>,
    started: (Option<L>, Quorum<T>),
    token: &CancellationToken,
    ordered: OrderedResponses<T, L>,
    ordered_started: (Option<L>, OrderedQuorum<T>),
    ordered_token: &CancellationToken,
    updates: Correctable<T>,
    of_updates: Quorum<T>,
    updates_token: &CancellationToken,
)
    requires
        call_ensures(Responses::<T, L>::quorum, (call,), started),
        call_ensures(Quorum::<T>::cancel, (&started.1,), token),
        call_ensures(OrderedResponses::<T, L>::quorum, (ordered,), ordered_started),
        call_ensures(OrderedQuorum::<T>::cancel, (&ordered_started.1,), ordered_token),
        call_ensures(Correctable::<T>::quorum, (updates,), of_updates),
        call_ensures(Quorum::<T>::cancel, (&of_updates,), updates_token),
    ensures
        started.0 == call.launch && started.1.received().len() == 0,
        *token == call.cancel,
        ordered_started.0 == ordered.launch && ordered_started.1.received().len() == 0,
        *ordered_token == ordered.cancel,
        of_updates.received().len() == 0,
        *updates_token == updates.cancel,
{
}

/// A collector waits for what it was made for, has received nothing, and is
/// cancelled by the token that it was given.
pub proof fn law_collectors_are_made<T>(
    size: usize,
    k: usize,
    cancel: CancellationToken,
    threshold: Threshold<T>,
    ordered: OrderedThreshold<T>,
    distinct: DistinctThreshold<T>,
    quorum: Quorum<T>,
    ordered_quorum: OrderedQuorum<T>,
    acks: MulticastAcks,
)
    requires
        call_ensures(Threshold::<T>::new, (k, cancel), threshold),
        call_ensures(OrderedThreshold::<T>::new, (size, k, cancel), ordered),
        call_ensures(DistinctThreshold::<T>::new, (size, k, cancel), distinct),
        call_ensures(Quorum::<T>::new, (cancel,), quorum),
        call_ensures(OrderedQuorum::<T>::new, (size, cancel), ordered_quorum),
        call_ensures(MulticastAcks::new, (cancel,), acks),
    ensures
        threshold.k() == k && threshold.received().len() == 0 && threshold.token() == cancel,
        ordered.size() == size && ordered.k() == k && ordered.received().len() == 0
            && ordered.token() == cancel,
        distinct.size() == size && distinct.k() == k && distinct.received().len() == 0
            && distinct.token() == cancel,
        quorum.received().len() == 0 && quorum.token() == cancel,
        ordered_quorum.size() == size && ordered_quorum.received().len() == 0
            && ordered_quorum.token() == cancel,
        acks.received().len() == 0 && acks.token() == cancel,
{
}

/// Each collector hands out the token that cancels it.
pub proof fn law_collectors_hand_out_tokens<T>(
    threshold: Threshold<T>,
    of_threshold: &CancellationToken,
    ordered: OrderedThreshold<T>,
    of_ordered: &CancellationToken,
    distinct: DistinctThreshold<T>,
    of_distinct: &CancellationToken,
    quorum: Quorum<T>,
    of_quorum: &CancellationToken,
    ordered_quorum: OrderedQuorum<T>,
    of_ordered_quorum: &CancellationToken,
    acks: MulticastAcks,
    of_acks: &CancellationToken,
)
    requires
        call_ensures(Threshold::<T>::cancel, (&threshold,), of_threshold),
        call_ensures(OrderedThreshold::<T>::cancel, (&ordered,), of_ordered),
        call_ensures(DistinctThreshold::<T>::cancel, (&distinct,), of_distinct),
        call_ensures(Quorum::<T>::cancel, (&quorum,), of_quorum),
        call_ensures(OrderedQuorum::<T>::cancel, (&ordered_quorum,), of_ordered_quorum),
        call_ensures(MulticastAcks::cancel, (&acks,), of_acks),
    ensures
        *of_threshold == threshold.token(),
        *of_ordered == ordered.token(),
        *of_distinct == distinct.token(),
        *of_quorum == quorum.token(),
        *of_ordered_quorum == ordered_quorum.token(),
        *of_acks == acks.token(),
{
}

/// A call says how many nodes it is sent to.
pub proof fn law_sizes<T, L>(
    call: Responses<T, L>,
    size: usize,
    ordered: OrderedResponses<T, L>,
    ordered_size: usize,
    updates: Correctable<T>,
    updates_size: usize,
)
    requires
        call_ensures(Responses::<T, L>::size, (&call,), size),
        call_ensures(OrderedResponses::<T, L>::size, (&ordered,), ordered_size),
        call_ensures(Correctable::<T>::size, (&updates,), updates_size),
    ensures
        size == call.size,
        ordered_size == ordered.size,
        updates_size == updates.size,
{
}

// ── Updates ───────────────────────────────────────────────────────────────────

/// Whoever polls for updates is told of a cancellation before anything else,
/// and otherwise what the queue holds, as it is.
pub proof fn law_updates<T>(
    call: Correctable<T>,
    first: Option<Update<T>>,
    fired: bool,
    if_fired: Option<Update<T>>,
    polled: Polled<NodeResponse<T>>,
    update: Update<T>,
)
    requires
        call_ensures(Correctable::<T>::poll_next, (&call,), first),
        call_ensures(update_if_cancelled::<T>, (fired,), if_fired),
        call_ensures(Correctable::<T>::on_poll, (&call, polled), update),
    ensures
        fired <==> if_fired is Some,
        if_fired matches Some(told) ==> (told matches Update::Item(Err(e)) && e is Cancelled),
        first matches Some(told) ==> (told matches Update::Item(Err(e)) && e is Cancelled),
        (forall|fired: bool| #[trigger]
            call_ensures(CancellationToken::is_cancelled, (&call.cancel,), fired) ==> fired)
            ==> first is Some,
        (forall|fired: bool| #[trigger]
            call_ensures(CancellationToken::is_cancelled, (&call.cancel,), fired) ==> !fired)
            ==> first is None,
        polled matches Polled::Item(reply) ==> (update matches Update::Item(Ok(item)) && item
            == reply),
        polled is Closed <==> update is End,
        polled is Pending <==> update is Pending,
{
}

// ── Failures ──────────────────────────────────────────────────────────────────

/// A failure is appended with its node: with its status, or as an internal
/// error where it has none. Those before it stay.
pub proof fn law_failures_are_kept(
    errors: &mut Vec<NodeError>,
    status_errors: &mut Vec<NodeError>,
    id: u32,
    error: Error,
    status: Status,
    i: int,
)
    requires
        call_ensures(push_failure, (errors, id, error), ()),
        call_ensures(push_transport_failure, (status_errors, id, status), ()),
    ensures
        final(errors)@.len() == old(errors)@.len() + 1,
        names(final(errors)@.last(), id, error),
        0 <= i < old(errors)@.len() ==> final(errors)@[i]@ == old(errors)@[i]@,
        final(status_errors)@.len() == old(status_errors)@.len() + 1,
        names(final(status_errors)@.last(), id, Error::Transport(status)),
        0 <= i < old(status_errors)@.len() ==> final(status_errors)@[i]@ == old(status_errors)@[i]@,
{
    lemma_one_more_error(old(errors)@, final(errors)@, i);
    lemma_one_more_error(old(status_errors)@, final(status_errors)@, i);
}

proof fn lemma_one_more_error(before: Seq<NodeError>, after: Seq<NodeError>, i: int)
    requires
        exists|e: NodeErrorView| #[trigger]
            node_errors_view(before).push(e) == node_errors_view(after),
    ensures
        after.len() == before.len() + 1,
        after.last()@ == node_errors_view(after).last(),
        0 <= i < before.len() ==> after[i]@ == before[i]@,
{
    let old_views = node_errors_view(before);
    let views = node_errors_view(after);
    assert(views.len() == after.len() && old_views.len() == before.len());
    if 0 <= i < before.len() {
        assert(views[i] == old_views[i]);
        assert(views[i] == after[i]@ && old_views[i] == before[i]@);
    }
}

/// A call that got too few replies fails as incomplete, with all its node
/// errors.
pub proof fn law_incomplete_error(errors: Vec<NodeError>, r: Error, i: int)
    requires
        call_ensures(incomplete_error, (errors,), r),
    ensures
        r matches Error::QuorumCall(q) && q.cause is Incomplete && q.node_errors@.len()
            == errors@.len() && (0 <= i < errors@.len() ==> q.node_errors@[i]@ == errors@[i]@),
{
    if let Error::QuorumCall(q) = r {
        let a = node_errors_view(errors@);
        let b = node_errors_view(q.node_errors@);
        assert(a.len() == errors@.len() && b.len() == q.node_errors@.len());
        if 0 <= i < errors@.len() {
            assert(a[i] == errors@[i]@ && b[i] == q.node_errors@[i]@);
        }
    }
}

/// A copy of a failed quorum call has its cause and its node errors.
pub proof fn law_quorum_call_error_clone(e: QuorumCallError, copy: QuorumCallError, i: int)
    requires
        call_ensures(<QuorumCallError as Clone>::clone, (&e,), copy),
    ensures
        copy.cause == e.cause,
        copy.node_errors@.len() == e.node_errors@.len(),
        0 <= i < e.node_errors@.len() ==> copy.node_errors@[i]@ == e.node_errors@[i]@,
{
    let a = node_errors_view(e.node_errors@);
    let b = node_errors_view(copy.node_errors@);
    assert(a.len() == e.node_errors@.len() && b.len() == copy.node_errors@.len());
    if 0 <= i < e.node_errors@.len() {
        assert(a[i] == e.node_errors@[i]@ && b[i] == copy.node_errors@[i]@);
    }
}

// ── Payloads and copies ───────────────────────────────────────────────────────

/// A payload that decodes gives its value, and one that does not a codec error
/// with the text of the cause.
pub proof fn law_decode_payload<T, F: FnOnce(&Vec<u8>) -> Result<T, prost::DecodeError>>(
    wire: Message,
    decode: F,
    r: Result<T, Error>,
)
    requires
        call_ensures(decode_payload::<T, F>, (&wire, decode), r),
    ensures
        is_decoded(decode, wire, r),
{
}

/// Copies of messages, of lists of entries and of metadata say the same, in
/// the same order.
pub proof fn law_copies(
    msg: Message,
    msg_copy: Message,
    entries: Vec<(String, String)>,
    entries_copy: Vec<(String, String)>,
    map: MetadataMap,
    map_copy: MetadataMap,
    listed: Vec<(String, String)>,
)
    requires
        call_ensures(<Message as Clone>::clone, (&msg,), msg_copy),
        call_ensures(clone_entries, (&entries,), entries_copy),
        call_ensures(<Table<String> as Clone>::clone, (&map,), map_copy),
        call_ensures(metadata_entries, (&map,), listed),
    ensures
        msg_copy.message_seq_no == msg.message_seq_no && msg_copy.method@ == msg.method@,
        msg_copy.status_code == msg.status_code && msg_copy.status_message@ == msg.status_message@,
        msg_copy.payload@ == msg.payload@ && msg_copy.metadata@ == msg.metadata@,
        entries_copy@ == entries@,
        map_copy@ == map@,
        listed@.len() == map@.len(),
        forall|i: int|
            0 <= i < listed@.len() ==> (#[trigger] listed@[i]).0@ == map@[i].0 && listed@[i].1
                == map@[i].1,
{
    assert(msg_copy@ == msg@);
    assert(entries_view(listed@).len() == listed@.len());
    assert forall|i: int| 0 <= i < listed@.len() implies (#[trigger] listed@[i]).0@ == map@[i].0
        && listed@[i].1 == map@[i].1 by {
        assert(entries_view(listed@)[i] == (listed@[i].0@, listed@[i].1));
    }
}

/// Copies of contexts are for the same nodes, with the same token, the same
/// metadata, and copies of the same interceptors in order.
pub proof fn law_context_copies<S, I: Clone>(
    config: ConfigContext<S, I>,
    config_copy: ConfigContext<S, I>,
    node: NodeContext<S, I>,
    node_copy: NodeContext<S, I>,
    i: int,
)
    requires
        call_ensures(<ConfigContext<S, I> as Clone>::clone, (&config,), config_copy),
        call_ensures(<NodeContext<S, I> as Clone>::clone, (&node,), node_copy),
    ensures
        config_copy.config@ == config.config@ && config_copy.cancel == config.cancel,
        config_copy.metadata@ == config.metadata@,
        config_copy.interceptors@.len() == config.interceptors@.len(),
        0 <= i < config.interceptors@.len() ==> cloned::<I>(
            config.interceptors@[i],
            config_copy.interceptors@[i],
        ),
        node_copy.node == node.node && node_copy.cancel == node.cancel,
        node_copy.metadata@ == node.metadata@,
        node_copy.interceptors@.len() == node.interceptors@.len(),
        0 <= i < node.interceptors@.len() ==> cloned::<I>(
            node.interceptors@[i],
            node_copy.interceptors@[i],
        ),
{
}

// ── Tables ────────────────────────────────────────────────────────────────────

/// A table keeps its entries in order of insertion: a new key goes to the end,
/// and a known key keeps its place. No key is there twice.
pub proof fn law_table_keeps_order<T>(
    table: &mut Table<T>,
    key: String,
    value: T,
    len: usize,
    entries: &Vec<(String, T)>,
    i: int,
)
    requires
        call_ensures(Table::<T>::insert, (table, key, value), ()),
        call_ensures(Table::<T>::len, (&*final(table),), len),
        call_ensures(Table::<T>::entries, (&*final(table),), entries),
    ensures
        len == final(table)@.len() && entries@.len() == len,
        0 <= i < len ==> entries@[i].0@ == final(table)@[i].0 && entries@[i].1
            == final(table)@[i].1,
        (forall|j: int| 0 <= j < old(table)@.len() ==> (#[trigger] old(table)@[j]).0 != key@)
            ==> final(table)@ == old(table)@.push((key@, value)),
        (exists|j: int| 0 <= j < old(table)@.len() && (#[trigger] old(table)@[j]).0 == key@)
            ==> final(table)@.len() == old(table)@.len() && (0 <= i < old(table)@.len()
            ==> final(table)@[i].0 == old(table)@[i].0 && final(table)@[i].1 == if old(table)@[i].0
            == key@ {
            value
        } else {
            old(table)@[i].1
        }),
        forall|a: int, b: int|
            0 <= a < b < final(table)@.len() ==> (#[trigger] final(table)@[a]).0 != (
            #[trigger] final(table)@[b]).0,
{
    assert(entries_view(entries@).len() == entries@.len());
    if 0 <= i < len {
        assert(entries_view(entries@)[i] == (entries@[i].0@, entries@[i].1));
    }
    if forall|j: int| 0 <= j < old(table)@.len() ==> (#[trigger] old(table)@[j]).0 != key@ {
        assert(!has_key(old(table)@, key@));
    }
    if exists|j: int| 0 <= j < old(table)@.len() && (#[trigger] old(table)@[j]).0 == key@ {
        assert(has_key(old(table)@, key@));
    }
    assert(distinct_keys(final(table)@));
}

} // verus!
