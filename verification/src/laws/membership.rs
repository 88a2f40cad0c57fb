//! Laws of configurations, of the connection pool, and of the contexts of
//! calls.

use vstd::prelude::*;

use std::time::Duration;
use tokio_util::sync::CancellationToken;

use crate::channel::{no_calls, Calls, NodeTask};
use crate::config::{
    ids_of, node_with_id, nodes_by_id, nodes_extended, ConfigContext, Configuration,
};
use crate::interceptor::CallInfo;
use crate::laws::{lemma_filter_agrees, lemma_filter_push};
use crate::node::{Deadline, Node, NodeContext};
use crate::table::entries_view;

verus! {

// ── Configurations ────────────────────────────────────────────────────────────

/// Whether some node has this ID.
pub open spec fn has_node<S>(nodes: Seq<Node<S>>, id: u32) -> bool {
    exists|j: int| 0 <= j < nodes.len() && (#[trigger] nodes[j]).inner.id == id
}

proof fn lemma_ids_of<S>(nodes: Seq<Node<S>>, id: u32)
    ensures
        ids_of(nodes).contains(id) <==> has_node(nodes, id),
{
    if ids_of(nodes).contains(id) {
        let j = choose|j: int| 0 <= j < ids_of(nodes).len() && ids_of(nodes)[j] == id;
        assert(nodes[j].inner.id == id);
    }
    if has_node(nodes, id) {
        let j = choose|j: int| 0 <= j < nodes.len() && (#[trigger] nodes[j]).inner.id == id;
        assert(ids_of(nodes)[j] == id);
    }
}

/// A configuration has the nodes it was made of, in order; so do its size and
/// its IDs.
pub proof fn law_configuration_has_its_nodes<S>(
    nodes: Vec<Node<S>>,
    config: Configuration<S>,
    got: &[Node<S>],
    size: usize,
    ids: Vec<u32>,
    copy: Configuration<S>,
    copied: &[Node<S>],
)
    requires
        call_ensures(Configuration::<S>::new, (nodes,), config),
        call_ensures(Configuration::<S>::nodes, (&config,), got),
        call_ensures(Configuration::<S>::size, (&config,), size),
        call_ensures(Configuration::<S>::node_ids, (&config,), ids),
        call_ensures(<Configuration<S> as Clone>::clone, (&config,), copy),
        call_ensures(Configuration::<S>::nodes, (&copy,), copied),
    ensures
        got@ == nodes@,
        copied@ == nodes@,
        size == nodes@.len(),
        ids@.len() == nodes@.len(),
        forall|i: int| 0 <= i < nodes@.len() ==> #[trigger] ids@[i] == nodes@[i].inner.id,
{
}

/// `without_nodes` keeps, in order, the nodes whose ID is not listed.
pub proof fn law_without_nodes<S>(config: Configuration<S>, ids: &[u32], r: Configuration<S>)
    requires
        call_ensures(Configuration::<S>::without_nodes, (&config, ids), r),
    ensures
        r@ == config@.filter(|n: Node<S>| !ids@.contains(n.inner.id)),
{
    lemma_filter_agrees(
        config@,
        |n: Node<S>| !ids@.contains(n.id()),
        |n: Node<S>| !ids@.contains(n.inner.id),
    );
}

/// `intersect` keeps, in order, the nodes whose ID the other configuration has
/// too; `except` keeps the rest.
pub proof fn law_intersect_and_except<S>(
    config: Configuration<S>,
    other: Configuration<S>,
    both: Configuration<S>,
    rest: Configuration<S>,
)
    requires
        call_ensures(Configuration::<S>::intersect, (&config, &other), both),
        call_ensures(Configuration::<S>::except, (&config, &other), rest),
    ensures
        both@ == config@.filter(|n: Node<S>| has_node(other@, n.inner.id)),
        rest@ == config@.filter(|n: Node<S>| !has_node(other@, n.inner.id)),
{
    assert forall|i: int| 0 <= i < config@.len() implies ids_of(other@).contains(
        (#[trigger] config@[i]).id(),
    ) == has_node(other@, config@[i].inner.id) by {
        lemma_ids_of(other@, config@[i].inner.id);
    }
    lemma_filter_agrees(
        config@,
        |n: Node<S>| ids_of(other@).contains(n.id()),
        |n: Node<S>| has_node(other@, n.inner.id),
    );
    lemma_filter_agrees(
        config@,
        |n: Node<S>| !ids_of(other@).contains(n.id()),
        |n: Node<S>| !has_node(other@, n.inner.id),
    );
}

/// Whether `node` is the last node of the list with this ID.
pub open spec fn last_with_id<S>(nodes: Seq<Node<S>>, id: u32, node: Node<S>) -> bool {
    exists|j: int|
        0 <= j < nodes.len() && #[trigger] nodes[j] == node && node.inner.id == id && forall|l: int|
            j < l < nodes.len() ==> (#[trigger] nodes[l]).inner.id != id
}

proof fn lemma_last_with_id<S>(nodes: Seq<Node<S>>, id: u32)
    ensures
        match node_with_id(nodes, id) {
            Some(node) => last_with_id(nodes, id, node),
            None => !has_node(nodes, id),
        },
    decreases nodes.len(),
{
    if nodes.len() > 0 {
        let before = nodes.drop_last();
        let n = nodes.len() - 1;
        lemma_last_with_id(before, id);
        assert(nodes[n] == nodes.last());
        if nodes.last().id() != id {
            match node_with_id(nodes, id) {
                Some(node) => {
                    let j = choose|j: int|
                        0 <= j < before.len() && #[trigger] before[j] == node && node.inner.id == id
                            && forall|l: int|
                            j < l < before.len() ==> (#[trigger] before[l]).inner.id != id;
                    assert(nodes[j] == node);
                    assert forall|l: int| j < l < nodes.len() implies (#[trigger] nodes[l]).inner.id
                        != id by {
                        if l < n {
                            assert(before[l] == nodes[l]);
                        }
                    }
                },
                None => {
                    if has_node(nodes, id) {
                        let j = choose|j: int|
                            0 <= j < nodes.len() && (#[trigger] nodes[j]).inner.id == id;
                        assert(before[j] == nodes[j]);
                    }
                },
            }
        }
    }
}

proof fn lemma_nodes_by_id<S>(nodes: Seq<Node<S>>, ids: Seq<u32>)
    ensures
        nodes_by_id(nodes, ids).len() == ids.filter(|id: u32| has_node(nodes, id)).len(),
        forall|i: int|
            0 <= i < nodes_by_id(nodes, ids).len() ==> last_with_id(
                nodes,
                ids.filter(|id: u32| has_node(nodes, id))[i],
                #[trigger] nodes_by_id(nodes, ids)[i],
            ),
    decreases ids.len(),
{
    reveal(Seq::filter);
    if ids.len() > 0 {
        lemma_nodes_by_id(nodes, ids.drop_last());
        lemma_last_with_id(nodes, ids.last());
        if let Some(node) = node_with_id(nodes, ids.last()) {
            assert(has_node(nodes, ids.last()));
        }
    }
}

/// `sub_config` has a node for each listed ID that the configuration has, in
/// the order of the list.
pub proof fn law_sub_config<S>(config: Configuration<S>, ids: &[u32], r: Configuration<S>)
    requires
        call_ensures(Configuration::<S>::sub_config, (&config, ids), r),
    ensures
        r@.len() == ids@.filter(|id: u32| has_node(config@, id)).len(),
        forall|i: int|
            0 <= i < r@.len() ==> last_with_id(
                config@,
                ids@.filter(|id: u32| has_node(config@, id))[i],
                #[trigger] r@[i],
            ),
{
    lemma_nodes_by_id(config@, ids@);
}

/// Whether `extra[i]` is the first node with its ID, in `nodes` and `extra`.
pub open spec fn first_with_id<S>(nodes: Seq<Node<S>>, extra: Seq<Node<S>>, i: int) -> bool {
    &&& 0 <= i < extra.len()
    &&& !has_node(nodes, extra[i].inner.id)
    &&& forall|j: int| 0 <= j < i ==> (#[trigger] extra[j]).inner.id != extra[i].inner.id
}

/// The nodes of `extra` whose ID has not occurred before, in order.
pub open spec fn new_nodes<S>(nodes: Seq<Node<S>>, extra: Seq<Node<S>>) -> Seq<Node<S>> {
    Seq::new(extra.len(), |i: int| i).filter(|i: int| first_with_id(nodes, extra, i)).map_values(
        |i: int| extra[i],
    )
}

proof fn lemma_new_nodes_push<S>(nodes: Seq<Node<S>>, extra: Seq<Node<S>>, x: Node<S>)
    ensures
        new_nodes(nodes, extra.push(x)) == if first_with_id(
            nodes,
            extra.push(x),
            extra.len() as int,
        ) {
            new_nodes(nodes, extra).push(x)
        } else {
            new_nodes(nodes, extra)
        },
{
    let all = extra.push(x);
    let n = extra.len() as int;
    let old_keep = |i: int| first_with_id(nodes, extra, i);
    let keep = |i: int| first_with_id(nodes, all, i);
    let indices = Seq::new(extra.len(), |i: int| i);
    assert(Seq::new(all.len(), |i: int| i) =~= indices.push(n));
    lemma_filter_push(indices, n, keep);
    assert forall|i: int| 0 <= i < indices.len() implies keep(#[trigger] indices[i]) == old_keep(
        indices[i],
    ) by {
        assert(all[i] == extra[i]);
        if first_with_id(nodes, extra, i) {
            assert forall|j: int| 0 <= j < i implies (#[trigger] all[j]).inner.id != all[i].inner.id by {
                assert(all[j] == extra[j]);
            }
        }
        if first_with_id(nodes, all, i) {
            assert forall|j: int| 0 <= j < i implies (#[trigger] extra[j]).inner.id
                != extra[i].inner.id by {
                assert(all[j] == extra[j]);
            }
        }
    }
    lemma_filter_agrees(indices, keep, old_keep);
    let kept = indices.filter(old_keep);
    assert forall|i: int| 0 <= i < kept.len() implies 0 <= #[trigger] kept[i] < n by {
        indices.lemma_filter_pred(old_keep, i);
    }
    assert(kept.map_values(|i: int| all[i]) =~= new_nodes(nodes, extra));
    if keep(n) {
        assert(kept.push(n).map_values(|i: int| all[i]) =~= new_nodes(nodes, extra).push(x));
    }
}

proof fn lemma_has_node_push<S>(nodes: Seq<Node<S>>, x: Node<S>, id: u32)
    ensures
        has_node(nodes.push(x), id) <==> has_node(nodes, id) || x.inner.id == id,
{
    let all = nodes.push(x);
    if has_node(nodes, id) {
        let j = choose|j: int| 0 <= j < nodes.len() && (#[trigger] nodes[j]).inner.id == id;
        assert(all[j].inner.id == id);
    }
    if x.inner.id == id {
        assert(all[nodes.len() as int].inner.id == id);
    }
    if has_node(all, id) {
        let j = choose|j: int| 0 <= j < all.len() && (#[trigger] all[j]).inner.id == id;
        if j < nodes.len() {
            assert(nodes[j].inner.id == id);
        }
    }
}

proof fn lemma_extended_ids<S>(nodes: Seq<Node<S>>, extra: Seq<Node<S>>, id: u32)
    ensures
        has_node(nodes_extended(nodes, extra), id) <==> has_node(nodes, id) || has_node(extra, id),
    decreases extra.len(),
{
    if extra.len() > 0 {
        let before = extra.drop_last();
        let x = extra.last();
        lemma_extended_ids(nodes, before, id);
        assert(extra =~= before.push(x));
        lemma_has_node_push(before, x, id);
        lemma_has_node_push(nodes_extended(nodes, before), x, id);
        lemma_ids_of(nodes_extended(nodes, before), x.inner.id);
    }
}

proof fn lemma_extended<S>(nodes: Seq<Node<S>>, extra: Seq<Node<S>>)
    ensures
        nodes_extended(nodes, extra) == nodes + new_nodes(nodes, extra),
    decreases extra.len(),
{
    if extra.len() == 0 {
        reveal(Seq::filter);
        assert(nodes + new_nodes(nodes, extra) =~= nodes);
    } else {
        let before = extra.drop_last();
        let x = extra.last();
        let n = before.len() as int;
        lemma_extended(nodes, before);
        lemma_extended_ids(nodes, before, x.inner.id);
        assert(extra =~= before.push(x));
        lemma_new_nodes_push(nodes, before, x);
        let old_nodes = nodes_extended(nodes, before);
        lemma_ids_of(old_nodes, x.inner.id);
        if first_with_id(nodes, extra, n) && has_node(before, x.inner.id) {
            let j = choose|j: int|
                0 <= j < before.len() && (#[trigger] before[j]).inner.id == x.inner.id;
            assert(extra[j] == before[j]);
        }
        if !has_node(old_nodes, x.inner.id) {
            assert forall|j: int| 0 <= j < n implies (#[trigger] extra[j]).inner.id
                != extra[n].inner.id by {
                assert(before[j] == extra[j]);
            }
        }
        assert(nodes_extended(nodes, extra) =~= nodes + new_nodes(nodes, extra));
    }
}

/// `with_additional_nodes` and `merge` have the nodes of the configuration,
/// followed by those of the others whose ID has not occurred before, in order.
pub proof fn law_merge_keeps_first<S>(
    config: Configuration<S>,
    extra: Vec<Node<S>>,
    other: Configuration<S>,
    extended: Configuration<S>,
    merged: Configuration<S>,
)
    requires
        call_ensures(Configuration::<S>::with_additional_nodes, (&config, extra), extended),
        call_ensures(Configuration::<S>::merge, (&config, &other), merged),
    ensures
        extended@ == config@ + new_nodes(config@, extra@),
        merged@ == config@ + new_nodes(config@, other@),
{
    lemma_extended(config@, extra@);
    lemma_extended(config@, other@);
}

// ── Contexts ──────────────────────────────────────────────────────────────────

/// The context of a configuration is for that configuration, with nothing
/// attached; what is attached to it later is added at the end and changes
/// nothing else.
pub proof fn law_config_context<S, I>(
    config: Configuration<S>,
    fresh: ConfigContext<S, I>,
    ctx: ConfigContext<S, I>,
    token: CancellationToken,
    with_token: ConfigContext<S, I>,
    i: I,
    with_i: ConfigContext<S, I>,
    key: String,
    value: String,
    with_entry: ConfigContext<S, I>,
)
    requires
        call_ensures(Configuration::<S>::context::<I>, (&config,), fresh),
        call_ensures(ConfigContext::<S, I>::with_cancel, (ctx, token), with_token),
        call_ensures(ConfigContext::<S, I>::with_interceptor, (ctx, i), with_i),
        call_ensures(ConfigContext::<S, I>::with_metadata, (ctx, key, value), with_entry),
    ensures
        fresh.config@ == config@,
        fresh.interceptors@.len() == 0,
        fresh.metadata@.len() == 0,
        call_ensures(CancellationToken::new, (), fresh.cancel),
        with_token.config@ == ctx.config@ && with_token.cancel == token,
        with_token.interceptors@ == ctx.interceptors@ && with_token.metadata@ == ctx.metadata@,
        with_i.config@ == ctx.config@ && with_i.cancel == ctx.cancel,
        with_i.interceptors@ == ctx.interceptors@.push(i) && with_i.metadata@ == ctx.metadata@,
        with_entry.config@ == ctx.config@ && with_entry.cancel == ctx.cancel,
        with_entry.interceptors@ == ctx.interceptors@ && with_entry.metadata@ == ctx.metadata@.push(
            (key, value),
        ),
{
}

/// The context of a node is for that node, with nothing attached; what is
/// attached to it later is added at the end and changes nothing else.
pub proof fn law_node_context<S, I>(
    node: Node<S>,
    fresh: NodeContext<S, I>,
    ctx: NodeContext<S, I>,
    token: CancellationToken,
    with_token: NodeContext<S, I>,
    i: I,
    with_i: NodeContext<S, I>,
    key: String,
    value: String,
    with_entry: NodeContext<S, I>,
)
    requires
        call_ensures(Node::<S>::context::<I>, (&node,), fresh),
        call_ensures(NodeContext::<S, I>::with_cancel, (ctx, token), with_token),
        call_ensures(NodeContext::<S, I>::with_interceptor, (ctx, i), with_i),
        call_ensures(NodeContext::<S, I>::with_metadata, (ctx, key, value), with_entry),
    ensures
        fresh.node == node,
        fresh.interceptors@.len() == 0,
        fresh.metadata@.len() == 0,
        call_ensures(CancellationToken::new, (), fresh.cancel),
        with_token.node == ctx.node && with_token.cancel == token,
        with_token.interceptors@ == ctx.interceptors@ && with_token.metadata@ == ctx.metadata@,
        with_i.node == ctx.node && with_i.cancel == ctx.cancel,
        with_i.interceptors@ == ctx.interceptors@.push(i) && with_i.metadata@ == ctx.metadata@,
        with_entry.node == ctx.node && with_entry.cancel == ctx.cancel,
        with_entry.interceptors@ == ctx.interceptors@ && with_entry.metadata@ == ctx.metadata@.push(
            (key, value),
        ),
{
}

/// A deadline gives the context a child of its token, which is to be cancelled
/// after the given time; nothing else changes.
pub proof fn law_deadlines<S, I>(
    config: ConfigContext<S, I>,
    node: NodeContext<S, I>,
    duration: Duration,
    c: (ConfigContext<S, I>, Deadline),
    n: (NodeContext<S, I>, Deadline),
)
    requires
        call_ensures(ConfigContext::<S, I>::with_timeout, (config, duration), c),
        call_ensures(NodeContext::<S, I>::with_timeout, (node, duration), n),
    ensures
        call_ensures(CancellationToken::child_token, (&config.cancel,), c.0.cancel),
        c.1.token == c.0.cancel && c.1.after == duration,
        c.0.config@ == config.config@,
        c.0.interceptors@ == config.interceptors@ && c.0.metadata@ == config.metadata@,
        call_ensures(CancellationToken::child_token, (&node.cancel,), n.0.cancel),
        n.1.token == n.0.cancel && n.1.after == duration,
        n.0.node == node.node,
        n.0.interceptors@ == node.interceptors@ && n.0.metadata@ == node.metadata@,
{
}

/// The interceptors of a call are told its method, the IDs of the nodes it
/// goes to, one for each and in order, and all that was attached.
pub proof fn law_call_info<S, I>(
    config: ConfigContext<S, I>,
    node: NodeContext<S, I>,
    method: &str,
    c: CallInfo,
    n: CallInfo,
)
    requires
        call_ensures(ConfigContext::<S, I>::call_info, (&config, method), c),
        call_ensures(NodeContext::<S, I>::call_info, (&node, method), n),
    ensures
        c.method@ == method@,
        c.node_ids@.len() == config.config@.len(),
        forall|i: int|
            0 <= i < config.config@.len() ==> #[trigger] c.node_ids@[i] == config.config@[i].inner.id,
        same_entries(c.metadata@, config.metadata@),
        n.method@ == method@,
        n.node_ids@.len() == 1 && n.node_ids@[0] == node.node.inner.id,
        same_entries(n.metadata@, node.metadata@),
{
    lemma_same_entries(c.metadata@, config.metadata@);
    lemma_same_entries(n.metadata@, node.metadata@);
}

/// Whether two lists have the same keys and values, in order.
pub open spec fn same_entries(a: Seq<(String, String)>, b: Seq<(String, String)>) -> bool {
    &&& a.len() == b.len()
    &&& forall|i: int|
        0 <= i < a.len() ==> (#[trigger] a[i]).0@ == b[i].0@ && a[i].1 == b[i].1
}

proof fn lemma_same_entries(a: Seq<(String, String)>, b: Seq<(String, String)>)
    requires
        entries_view(a) == entries_view(b),
    ensures
        same_entries(a, b),
{
    assert(entries_view(a).len() == a.len() && entries_view(b).len() == b.len());
    assert forall|i: int| 0 <= i < a.len() implies (#[trigger] a[i]).0@ == b[i].0@ && a[i].1
        == b[i].1 by {
        assert(entries_view(a)[i] == (a[i].0@, a[i].1));
        assert(entries_view(b)[i] == (b[i].0@, b[i].1));
    }
}

/// A node has the ID and the address that it was made with, and its calls are
/// made with `share`, under number 0 and with nothing sent.
pub proof fn law_node_is_made<S, F: FnOnce(Calls) -> S>(
    id: u32,
    addr: String,
    share: F,
    r: (Node<S>, NodeTask),
    got_id: u32,
    got_addr: &str,
    copy: Node<S>,
)
    requires
        call_ensures(Node::<S>::new::<F>, (id, addr, share), r),
        call_ensures(Node::<S>::id, (&r.0,), got_id),
        call_ensures(Node::<S>::address, (&r.0,), got_addr),
        call_ensures(<Node<S> as Clone>::clone, (&r.0,), copy),
    ensures
        got_id == id,
        r.0.inner.id == id,
        got_addr@ == addr@,
        copy == r.0,
        exists|calls: Calls|
            {
                &&& #[trigger] call_ensures(share, (calls,), r.0.inner.channel.calls)
                &&& calls.seq == 0
                &&& calls.ledger.put().len() == 0
                &&& calls.ledger.queue() == r.0.inner.channel.mailbox.queue()
                &&& calls.router@.dom() == Set::<u64>::empty()
            },
{
    let calls = choose|calls: Calls| #[trigger]
        call_ensures(share, (calls,), r.0.inner.channel.calls) && no_calls(
            calls,
            r.0.inner.channel.mailbox.queue(),
        );
    assert(calls.router@.dom() =~= Set::<u64>::empty());
}

} // verus!
