//! Configurations: the sets of nodes that calls are made on, and the context
//! of a call on one.

use vstd::prelude::*;

use std::collections::{HashMap, HashSet};
use std::time::Duration;
use tokio_util::sync::CancellationToken;

use crate::interceptor::{CallInfo, CallInfoView};
use crate::message::clone_entries;
use crate::node::{Deadline, Node};
use crate::table::entries_view;

verus! {

broadcast use vstd::std_specs::hash::group_hash_axioms;

/// The IDs of nodes, in order.
pub open spec fn ids_of<S>(nodes: Seq<Node<S>>) -> Seq<u32> {
    nodes.map_values(|n: Node<S>| n.id())
}

/// The nodes whose ID is among `ids`, in order.
pub open spec fn nodes_within<S>(nodes: Seq<Node<S>>, ids: Seq<u32>) -> Seq<Node<S>> {
    nodes.filter(|n: Node<S>| ids.contains(n.id()))
}

/// The nodes whose ID is not among `ids`, in order.
pub open spec fn nodes_without<S>(nodes: Seq<Node<S>>, ids: Seq<u32>) -> Seq<Node<S>> {
    nodes.filter(|n: Node<S>| !ids.contains(n.id()))
}

/// The last node with this ID.
pub open spec fn node_with_id<S>(nodes: Seq<Node<S>>, id: u32) -> Option<Node<S>>
    decreases nodes.len(),
{
    if nodes.len() == 0 {
        None
    } else if nodes.last().id() == id {
        Some(nodes.last())
    } else {
        node_with_id(nodes.drop_last(), id)
    }
}

/// The nodes with these IDs, in the order of the IDs. An ID that no node has
/// is passed over.
pub open spec fn nodes_by_id<S>(nodes: Seq<Node<S>>, ids: Seq<u32>) -> Seq<Node<S>>
    decreases ids.len(),
{
    if ids.len() == 0 {
        seq![]
    } else {
        let before = nodes_by_id(nodes, ids.drop_last());
        match node_with_id(nodes, ids.last()) {
            Some(node) => before.push(node),
            None => before,
        }
    }
}

/// The nodes and then those of `extra` whose ID has not occurred before.
pub open spec fn nodes_extended<S>(nodes: Seq<Node<S>>, extra: Seq<Node<S>>) -> Seq<Node<S>>
    decreases extra.len(),
{
    if extra.len() == 0 {
        nodes
    } else {
        let before = nodes_extended(nodes, extra.drop_last());
        if ids_of(before).contains(extra.last().id()) {
            before
        } else {
            before.push(extra.last())
        }
    }
}

/// An immutable set of nodes on which multicast or quorum calls may be
/// invoked. Cheap to clone: the nodes are shared.
///
/// New configurations can be derived from existing ones without creating new
/// connections.
pub struct Configuration<S> {
    nodes: Vec<Node<S>>,
}

impl<S> View for Configuration<S> {
    type V = Seq<Node<S>>;

    closed spec fn view(&self) -> Seq<Node<S>> {
        self.nodes@
    }
}

impl<S> Clone for Configuration<S> {
    fn clone(&self) -> (r: Self)
        ensures
            r@ == self@,
    {
        Configuration { nodes: clone_nodes(&self.nodes) }
    }
}

fn clone_nodes<S>(nodes: &Vec<Node<S>>) -> (r: Vec<Node<S>>)
    ensures
        r@ == nodes@,
{
    let mut r: Vec<Node<S>> = Vec::new();
    for i in 0..nodes.len()
        invariant
            r@ == nodes@.take(i as int),
    {
        r.push(nodes[i].clone());
        assert(r@ =~= nodes@.take(i + 1));
    }
    assert(r@ =~= nodes@);
    r
}

/// The nodes whose ID is, or is not, in the set.
fn select<S>(nodes: &Vec<Node<S>>, ids: &HashSet<u32>, inside: bool) -> (r: Vec<Node<S>>)
    ensures
        r@ == nodes@.filter(|n: Node<S>| ids@.contains(n.id()) == inside),
{
    let ghost p = |n: Node<S>| ids@.contains(n.id()) == inside;
    let mut r: Vec<Node<S>> = Vec::new();
    for i in 0..nodes.len()
        invariant
            p == (|n: Node<S>| ids@.contains(n.id()) == inside),
            r@ == nodes@.take(i as int).filter(p),
    {
        proof {
            reveal(Seq::filter);
            assert(nodes@.take(i + 1).drop_last() =~= nodes@.take(i as int));
        }
        if ids.contains(&nodes[i].id()) == inside {
            r.push(nodes[i].clone());
        }
    }
    assert(nodes@.take(nodes@.len() as int) =~= nodes@);
    r
}

fn id_set(ids: &[u32]) -> (r: HashSet<u32>)
    ensures
        forall|id: u32| #[trigger] r@.contains(id) == ids@.contains(id),
{
    let mut r: HashSet<u32> = HashSet::new();
    for i in 0..ids.len()
        invariant
            forall|id: u32| #[trigger] r@.contains(id) == ids@.take(i as int).contains(id),
    {
        let ghost before = ids@.take(i as int);
        let ghost after = ids@.take(i + 1);
        r.insert(ids[i]);
        assert forall|id: u32| #[trigger] r@.contains(id) == after.contains(id) by {
            assert(after =~= before.push(ids@[i as int]));
            if before.contains(id) {
                let j = choose|j: int| 0 <= j < before.len() && before[j] == id;
                assert(after[j] == id);
            }
            assert(after[i as int] == ids@[i as int]);
        }
    }
    assert(ids@.take(ids@.len() as int) =~= ids@);
    r
}

impl<S> Configuration<S> {
    /// The configuration of these nodes.
    pub fn new(nodes: Vec<Node<S>>) -> (r: Self)
        ensures
            r@ == nodes@,
    {
        Configuration { nodes }
    }

    /// The nodes, in order.
    pub fn nodes(&self) -> (r: &[Node<S>])
        ensures
            r@ == self@,
    {
        self.nodes.as_slice()
    }

    /// The number of nodes.
    pub fn size(&self) -> (r: usize)
        ensures
            r == self@.len(),
    {
        self.nodes.len()
    }

    /// The IDs of the nodes, in order.
    pub fn node_ids(&self) -> (r: Vec<u32>)
        ensures
            r@ == ids_of(self@),
    {
        let mut r: Vec<u32> = Vec::new();
        for i in 0..self.nodes.len()
            invariant
                r@ == ids_of(self@).take(i as int),
        {
            r.push(self.nodes[i].id());
            assert(r@ =~= ids_of(self@).take(i + 1));
        }
        assert(r@ =~= ids_of(self@));
        r
    }

    /// New configuration containing all nodes in `self` whose ID is **not** in
    /// `ids`.
    pub fn without_nodes(&self, ids: &[u32]) -> (r: Self)
        ensures
            r@ == nodes_without(self@, ids@),
    {
        let excluded = id_set(ids);
        let nodes = select(&self.nodes, &excluded, false);
        assert((|n: Node<S>| excluded@.contains(n.id()) == false) =~= (|n: Node<S>|
            !ids@.contains(n.id())));
        Configuration { nodes }
    }

    /// New configuration containing only the nodes in `self` whose ID appears
    /// in `ids`. IDs not present in `self` are silently ignored. The order of
    /// the resulting nodes follows `ids`.
    pub fn sub_config(&self, ids: &[u32]) -> (r: Self)
        ensures
            r@ == nodes_by_id(self@, ids@),
    {
        let mut by_id: HashMap<u32, usize> = HashMap::new();
        for i in 0..self.nodes.len()
            invariant
                forall|id: u32| #[trigger]
                    by_id@.contains_key(id) == (node_with_id(self@.take(i as int), id) is Some),
                forall|id: u32| #[trigger]
                    by_id@.contains_key(id) ==> {
                        &&& by_id@[id] < i
                        &&& node_with_id(self@.take(i as int), id) == Some(self@[by_id@[id] as int])
                    },
        {
            assert(self@.take(i + 1).drop_last() =~= self@.take(i as int));
            assert(self@.take(i + 1).last() == self@[i as int]);
            by_id.insert(self.nodes[i].id(), i);
        }
        assert(self@.take(self@.len() as int) =~= self@);
        let mut nodes: Vec<Node<S>> = Vec::new();
        for k in 0..ids.len()
            invariant
                nodes@ == nodes_by_id(self@, ids@.take(k as int)),
                forall|id: u32| #[trigger]
                    by_id@.contains_key(id) == (node_with_id(self@, id) is Some),
                forall|id: u32| #[trigger]
                    by_id@.contains_key(id) ==> {
                        &&& by_id@[id] < self@.len()
                        &&& node_with_id(self@, id) == Some(self@[by_id@[id] as int])
                    },
        {
            assert(ids@.take(k + 1).drop_last() =~= ids@.take(k as int));
            assert(ids@.take(k + 1).last() == ids@[k as int]);
            assert(by_id@.contains_key(ids@[k as int]) == (node_with_id(
                self@,
                ids@[k as int],
            ) is Some));
            if let Some(i) = by_id.get(&ids[k]) {
                nodes.push(self.nodes[*i].clone());
            }
        }
        assert(ids@.take(ids@.len() as int) =~= ids@);
        Configuration { nodes }
    }

    /// New configuration = nodes in `self` **plus** `extra`, deduplicated by
    /// node ID. Where both contain the same ID, the node of `self` stays and
    /// that of `extra` is dropped.
    pub fn with_additional_nodes(&self, extra: Vec<Node<S>>) -> (r: Self)
        ensures
            r@ == nodes_extended(self@, extra@),
    {
        let ids = self.node_ids();
        let mut seen = id_set(ids.as_slice());
        let mut nodes = clone_nodes(&self.nodes);
        for i in 0..extra.len()
            invariant
                nodes@ == nodes_extended(self@, extra@.take(i as int)),
                forall|id: u32| #[trigger] seen@.contains(id) == ids_of(nodes@).contains(id),
        {
            assert(extra@.take(i + 1).drop_last() =~= extra@.take(i as int));
            let ghost before = nodes@;
            let ghost added = extra@[i as int];
            assert(seen@.contains(added.id()) == ids_of(before).contains(added.id()));
            if seen.insert(extra[i].id()) {
                nodes.push(extra[i].clone());
                assert(ids_of(nodes@) =~= ids_of(before).push(added.id()));
                assert forall|id: u32| #[trigger] seen@.contains(id) == ids_of(nodes@).contains(
                    id,
                ) by {
                    if ids_of(before).contains(id) {
                        let j = choose|j: int|
                            0 <= j < ids_of(before).len() && ids_of(before)[j] == id;
                        assert(ids_of(nodes@)[j] == id);
                    }
                    assert(ids_of(nodes@)[before.len() as int] == added.id());
                }
            } else {
                assert forall|id: u32| #[trigger] seen@.contains(id) == ids_of(nodes@).contains(
                    id,
                ) by {}
            }
        }
        assert(extra@.take(extra@.len() as int) =~= extra@);
        Configuration { nodes }
    }

    /// Union: new configuration containing all nodes from `self` and `other`,
    /// deduplicated by node ID. The node of `self` stays on conflicts.
    pub fn merge(&self, other: &Configuration<S>) -> (r: Self)
        ensures
            r@ == nodes_extended(self@, other@),
    {
        self.with_additional_nodes(clone_nodes(&other.nodes))
    }

    /// Intersection: new configuration containing only nodes whose ID appears
    /// in **both** `self` and `other`. Order follows `self`.
    pub fn intersect(&self, other: &Configuration<S>) -> (r: Self)
        ensures
            r@ == nodes_within(self@, ids_of(other@)),
    {
        let ids = other.node_ids();
        let other_ids = id_set(ids.as_slice());
        let nodes = select(&self.nodes, &other_ids, true);
        assert((|n: Node<S>| other_ids@.contains(n.id()) == true) =~= (|n: Node<S>|
            ids@.contains(n.id())));
        Configuration { nodes }
    }

    /// Difference: new configuration containing nodes in `self` whose ID does
    /// **not** appear in `other`.
    pub fn except(&self, other: &Configuration<S>) -> (r: Self)
        ensures
            r@ == nodes_without(self@, ids_of(other@)),
    {
        let ids = other.node_ids();
        self.without_nodes(ids.as_slice())
    }

    /// Wrap this configuration in a context for a single call.
    pub fn context<I>(&self) -> (r: ConfigContext<S, I>)
        ensures
            r.config@ == self@,
            call_ensures(CancellationToken::new, (), r.cancel),
            r.interceptors@ == Seq::<I>::empty(),
            r.metadata@ == Seq::<(String, String)>::empty(),
    {
        ConfigContext {
            config: self.clone(),
            cancel: CancellationToken::new(),
            interceptors: Vec::new(),
            metadata: Vec::new(),
        }
    }
}

// ── Context ───────────────────────────────────────────────────────────────────

/// Bundles a [`Configuration`] with per-call context: cancellation token,
/// interceptors and metadata. `I` is the type of the interceptors.
pub struct ConfigContext<S, I> {
    pub config: Configuration<S>,
    pub cancel: CancellationToken,
    pub interceptors: Vec<I>,
    pub metadata: Vec<(String, String)>,
}

impl<S, I: Clone> Clone for ConfigContext<S, I> {
    fn clone(&self) -> (r: Self)
        ensures
            r.config@ == self.config@,
            r.cancel == self.cancel,
            r.interceptors@.len() == self.interceptors@.len(),
            forall|i: int|
                0 <= i < self.interceptors@.len() ==> cloned::<I>(
                    self.interceptors@[i],
                    #[trigger] r.interceptors@[i],
                ),
            r.metadata@ == self.metadata@,
    {
        ConfigContext {
            config: self.config.clone(),
            cancel: self.cancel.clone(),
            interceptors: self.interceptors.clone(),
            metadata: clone_entries(&self.metadata),
        }
    }
}

impl<S, I> ConfigContext<S, I> {
    /// Override the cancellation token. The call fails with
    /// `Error::Cancelled` if `token` is cancelled before the terminal method
    /// completes.
    pub fn with_cancel(self, token: CancellationToken) -> (r: Self)
        ensures
            r == (ConfigContext { cancel: token, ..self }),
    {
        ConfigContext { cancel: token, ..self }
    }

    /// Set a deadline relative to now: the context gets a child of its token,
    /// and the deadline says when that child is to be cancelled.
    pub fn with_timeout(self, duration: Duration) -> (r: (Self, Deadline))
        ensures
            call_ensures(CancellationToken::child_token, (&self.cancel,), r.0.cancel),
            r.0 == (ConfigContext { cancel: r.0.cancel, ..self }),
            r.1 == (Deadline { token: r.0.cancel, after: duration }),
    {
        let child = self.cancel.child_token();
        let deadline = Deadline { token: child.clone(), after: duration };
        (ConfigContext { cancel: child, ..self }, deadline)
    }

    /// Append an interceptor to the chain for this call.
    pub fn with_interceptor(self, i: I) -> (r: Self)
        ensures
            r.interceptors@ == self.interceptors@.push(i),
            r.config == self.config,
            r.cancel == self.cancel,
            r.metadata == self.metadata,
    {
        let mut interceptors = self.interceptors;
        interceptors.push(i);
        ConfigContext {
            config: self.config,
            cancel: self.cancel,
            interceptors,
            metadata: self.metadata,
        }
    }

    /// Attach a metadata key/value pair to this call. Entries accumulate and
    /// are forwarded to every node; of entries with the same key the last one
    /// wins on the wire.
    pub fn with_metadata(self, key: String, value: String) -> (r: Self)
        ensures
            r.metadata@ == self.metadata@.push((key, value)),
            r.config == self.config,
            r.cancel == self.cancel,
            r.interceptors == self.interceptors,
    {
        let mut metadata = self.metadata;
        metadata.push((key, value));
        ConfigContext {
            config: self.config,
            cancel: self.cancel,
            interceptors: self.interceptors,
            metadata,
        }
    }

    /// What the interceptors of a call to `method` are told.
    pub fn call_info(&self, method: &str) -> (r: CallInfo)
        ensures
            r@ == (CallInfoView {
                method: method@,
                node_ids: ids_of(self.config@),
                metadata: entries_view(self.metadata@),
            }),
    {
        CallInfo {
            method: method.to_string(),
            node_ids: self.config.node_ids(),
            metadata: clone_entries(&self.metadata),
        }
    }
}

// ── Laws ──────────────────────────────────────────────────────────────────────

/// An ID occurs among the IDs of nodes exactly if some node has it.
proof fn lemma_ids_contain<S>(nodes: Seq<Node<S>>, id: u32)
    ensures
        ids_of(nodes).contains(id) <==> exists|i: int|
            0 <= i < nodes.len() && (#[trigger] nodes[i]).id() == id,
{
    if ids_of(nodes).contains(id) {
        let i = choose|i: int| 0 <= i < ids_of(nodes).len() && ids_of(nodes)[i] == id;
        assert(nodes[i].id() == id);
    }
    if exists|i: int| 0 <= i < nodes.len() && (#[trigger] nodes[i]).id() == id {
        let i = choose|i: int| 0 <= i < nodes.len() && (#[trigger] nodes[i]).id() == id;
        assert(ids_of(nodes)[i] == id);
    }
}

/// A node is in the configuration without the nodes `ids` exactly if it is in
/// the configuration and its ID is not excluded.
pub proof fn lemma_without_nodes<S>(nodes: Seq<Node<S>>, ids: Seq<u32>, node: Node<S>)
    ensures
        nodes_without(nodes, ids).contains(node) <==> nodes.contains(node) && !ids.contains(
            node.id(),
        ),
{
    lemma_filter_members(nodes, |n: Node<S>| !ids.contains(n.id()), node);
}

/// A node is in an intersection exactly if it is in the first configuration
/// and the second one has its ID.
pub proof fn lemma_intersect<S>(nodes: Seq<Node<S>>, ids: Seq<u32>, node: Node<S>)
    ensures
        nodes_within(nodes, ids).contains(node) <==> nodes.contains(node) && ids.contains(
            node.id(),
        ),
{
    lemma_filter_members(nodes, |n: Node<S>| ids.contains(n.id()), node);
}

proof fn lemma_filter_members<S>(
    nodes: Seq<Node<S>>,
    p: spec_fn(Node<S>) -> bool,
    node: Node<S>,
)
    ensures
        nodes.filter(p).contains(node) <==> nodes.contains(node) && p(node),
{
    if nodes.filter(p).contains(node) {
        nodes.lemma_filter_contains_rev(p, node);
        let i = choose|i: int| 0 <= i < nodes.filter(p).len() && nodes.filter(p)[i] == node;
        nodes.lemma_filter_pred(p, i);
    }
    if nodes.contains(node) && p(node) {
        let i = choose|i: int| 0 <= i < nodes.len() && nodes[i] == node;
        nodes.lemma_filter_contains(p, i);
    }
}

/// Intersection and difference split a configuration: together they have as
/// many nodes as it, and no node is in both.
pub proof fn lemma_intersect_except_split<S>(nodes: Seq<Node<S>>, ids: Seq<u32>)
    ensures
        nodes_within(nodes, ids).len() + nodes_without(nodes, ids).len() == nodes.len(),
        forall|node: Node<S>|
            !(nodes_within(nodes, ids).contains(node) && nodes_without(nodes, ids).contains(node)),
    decreases nodes.len(),
{
    reveal(Seq::filter);
    if nodes.len() > 0 {
        lemma_intersect_except_split(nodes.drop_last(), ids);
    }
    assert forall|node: Node<S>|
        !(nodes_within(nodes, ids).contains(node) && nodes_without(nodes, ids).contains(node)) by {
        lemma_intersect(nodes, ids, node);
        lemma_without_nodes(nodes, ids, node);
    }
}

/// Where no two nodes of a configuration have the same ID, the same holds of
/// an intersection.
pub proof fn lemma_intersect_keeps_distinct<S>(nodes: Seq<Node<S>>, ids: Seq<u32>)
    requires
        ids_of(nodes).no_duplicates(),
    ensures
        ids_of(nodes_within(nodes, ids)).no_duplicates(),
{
    lemma_filter_keeps_distinct(nodes, |n: Node<S>| ids.contains(n.id()));
}

/// Where no two nodes of a configuration have the same ID, the same holds of
/// a configuration without some of the nodes.
pub proof fn lemma_without_nodes_keeps_distinct<S>(nodes: Seq<Node<S>>, ids: Seq<u32>)
    requires
        ids_of(nodes).no_duplicates(),
    ensures
        ids_of(nodes_without(nodes, ids)).no_duplicates(),
{
    lemma_filter_keeps_distinct(nodes, |n: Node<S>| !ids.contains(n.id()));
}

proof fn lemma_filter_keeps_distinct<S>(nodes: Seq<Node<S>>, p: spec_fn(Node<S>) -> bool)
    requires
        ids_of(nodes).no_duplicates(),
    ensures
        ids_of(nodes.filter(p)).no_duplicates(),
    decreases nodes.len(),
{
    reveal(Seq::filter);
    if nodes.len() > 0 {
        let before = nodes.drop_last();
        assert(ids_of(before).no_duplicates()) by {
            assert forall|i: int, j: int|
                0 <= i < j < ids_of(before).len() implies ids_of(before)[i] != ids_of(
                before,
            )[j] by {
                assert(ids_of(nodes)[i] != ids_of(nodes)[j]);
            }
        }
        lemma_filter_keeps_distinct(before, p);
        let kept = before.filter(p);
        if p(nodes.last()) {
            let after = kept.push(nodes.last());
            assert(nodes.filter(p) == after);
            assert forall|i: int, j: int|
                0 <= i < j < ids_of(after).len() implies ids_of(after)[i] != ids_of(after)[j] by {
                if j == kept.len() {
                    before.lemma_filter_contains_rev(p, kept[i]);
                    let k = choose|k: int| 0 <= k < before.len() && before[k] == kept[i];
                    assert(ids_of(nodes)[k] != ids_of(nodes)[nodes.len() - 1]);
                } else {
                    assert(ids_of(kept)[i] != ids_of(kept)[j]);
                }
            }
        }
    }
}

/// A merged configuration begins with the nodes of the first: on conflicts
/// they stay.
pub proof fn lemma_merge_keeps_first<S>(nodes: Seq<Node<S>>, extra: Seq<Node<S>>)
    ensures
        nodes.len() <= nodes_extended(nodes, extra).len(),
        nodes_extended(nodes, extra).take(nodes.len() as int) == nodes,
    decreases extra.len(),
{
    if extra.len() > 0 {
        lemma_merge_keeps_first(nodes, extra.drop_last());
    }
    assert(nodes_extended(nodes, extra).take(nodes.len() as int) =~= nodes);
}

/// The IDs of a merged configuration are those of the two configurations.
pub proof fn lemma_merge_ids<S>(nodes: Seq<Node<S>>, extra: Seq<Node<S>>, id: u32)
    ensures
        ids_of(nodes_extended(nodes, extra)).contains(id) <==> ids_of(nodes).contains(id) || ids_of(
            extra,
        ).contains(id),
    decreases extra.len(),
{
    if extra.len() > 0 {
        let before = nodes_extended(nodes, extra.drop_last());
        let after = nodes_extended(nodes, extra);
        lemma_merge_ids(nodes, extra.drop_last(), id);
        lemma_ids_contain(extra.drop_last(), id);
        lemma_ids_contain(extra, id);
        lemma_ids_contain(before, id);
        lemma_ids_contain(after, id);
        let last = extra.last();
        assert(extra[extra.len() - 1] == last);
        if ids_of(extra).contains(id) && last.id() != id {
            let i = choose|i: int| 0 <= i < extra.len() && (#[trigger] extra[i]).id() == id;
            assert(extra.drop_last()[i].id() == id);
        }
        if ids_of(extra.drop_last()).contains(id) {
            let i = choose|i: int|
                0 <= i < extra.drop_last().len() && (#[trigger] extra.drop_last()[i]).id() == id;
            assert(extra[i].id() == id);
        }
        if !ids_of(before).contains(last.id()) {
            assert(after == before.push(last));
            assert(after[before.len() as int] == last);
            if ids_of(before).contains(id) {
                let i = choose|i: int| 0 <= i < before.len() && (#[trigger] before[i]).id() == id;
                assert(after[i].id() == id);
            }
            if ids_of(after).contains(id) && last.id() != id {
                let i = choose|i: int| 0 <= i < after.len() && (#[trigger] after[i]).id() == id;
                assert(before[i].id() == id);
            }
        }
    } else {
        assert(ids_of(extra).len() == 0);
    }
}

/// A merged configuration has nodes of the two configurations only.
pub proof fn lemma_merge_nodes<S>(nodes: Seq<Node<S>>, extra: Seq<Node<S>>, node: Node<S>)
    requires
        nodes_extended(nodes, extra).contains(node),
    ensures
        nodes.contains(node) || extra.contains(node),
    decreases extra.len(),
{
    if extra.len() > 0 {
        let before = nodes_extended(nodes, extra.drop_last());
        let after = nodes_extended(nodes, extra);
        let i = choose|i: int| 0 <= i < after.len() && after[i] == node;
        if i < before.len() {
            assert(before[i] == node);
            lemma_merge_nodes(nodes, extra.drop_last(), node);
            if extra.drop_last().contains(node) {
                let k = choose|k: int|
                    0 <= k < extra.drop_last().len() && extra.drop_last()[k] == node;
                assert(extra[k] == node);
            }
        } else {
            assert(extra[extra.len() - 1] == node);
        }
    }
}

/// Merging adds no ID twice: where no two nodes of a configuration have the
/// same ID, the same holds after a merge.
pub proof fn lemma_merge_keeps_distinct<S>(nodes: Seq<Node<S>>, extra: Seq<Node<S>>)
    requires
        ids_of(nodes).no_duplicates(),
    ensures
        ids_of(nodes_extended(nodes, extra)).no_duplicates(),
    decreases extra.len(),
{
    if extra.len() > 0 {
        let before = nodes_extended(nodes, extra.drop_last());
        let after = nodes_extended(nodes, extra);
        lemma_merge_keeps_distinct(nodes, extra.drop_last());
        if !ids_of(before).contains(extra.last().id()) {
            assert(ids_of(after) =~= ids_of(before).push(extra.last().id()));
        }
    }
}

/// Merging a configuration with one that has no new ID changes nothing; so a
/// configuration merged with itself is itself.
pub proof fn lemma_merge_nothing_new<S>(nodes: Seq<Node<S>>, extra: Seq<Node<S>>)
    requires
        forall|i: int| 0 <= i < extra.len() ==> ids_of(nodes).contains((#[trigger] extra[i]).id()),
    ensures
        nodes_extended(nodes, extra) == nodes,
    decreases extra.len(),
{
    if extra.len() > 0 {
        let shorter = extra.drop_last();
        assert forall|i: int| 0 <= i < shorter.len() implies ids_of(nodes).contains(
            (#[trigger] shorter[i]).id(),
        ) by {
            assert(extra[i] == shorter[i]);
        }
        lemma_merge_nothing_new(nodes, shorter);
        assert(extra[extra.len() - 1] == extra.last());
    }
}

/// A configuration merged with itself is itself.
pub proof fn lemma_merge_self<S>(nodes: Seq<Node<S>>)
    ensures
        nodes_extended(nodes, nodes) == nodes,
{
    assert forall|i: int| 0 <= i < nodes.len() implies ids_of(nodes).contains(
        (#[trigger] nodes[i]).id(),
    ) by {
        assert(ids_of(nodes)[i] == nodes[i].id());
    }
    lemma_merge_nothing_new(nodes, nodes);
}

/// [`node_with_id`] finds a node of the configuration with that ID, if there
/// is one.
pub proof fn lemma_node_with_id<S>(nodes: Seq<Node<S>>, id: u32)
    ensures
        node_with_id(nodes, id) is Some <==> ids_of(nodes).contains(id),
        node_with_id(nodes, id) matches Some(node) ==> node.id() == id && nodes.contains(node),
    decreases nodes.len(),
{
    lemma_ids_contain(nodes, id);
    if nodes.len() > 0 {
        let before = nodes.drop_last();
        lemma_node_with_id(before, id);
        lemma_ids_contain(before, id);
        assert(nodes[nodes.len() - 1] == nodes.last());
        if nodes.last().id() != id {
            if ids_of(nodes).contains(id) {
                let i = choose|i: int| 0 <= i < nodes.len() && (#[trigger] nodes[i]).id() == id;
                assert(before[i].id() == id);
            }
            if ids_of(before).contains(id) {
                let i = choose|i: int| 0 <= i < before.len() && (#[trigger] before[i]).id() == id;
                assert(nodes[i].id() == id);
                let node = node_with_id(before, id)->0;
                let k = choose|k: int| 0 <= k < before.len() && before[k] == node;
                assert(nodes[k] == node);
            }
        }
    }
}

/// The IDs of a sub-configuration are the requested ones that the
/// configuration has, in the requested order.
pub proof fn lemma_sub_config_ids<S>(nodes: Seq<Node<S>>, ids: Seq<u32>)
    ensures
        ids_of(nodes_by_id(nodes, ids)) == ids.filter(|id: u32| ids_of(nodes).contains(id)),
    decreases ids.len(),
{
    reveal(Seq::filter);
    if ids.len() > 0 {
        lemma_sub_config_ids(nodes, ids.drop_last());
        lemma_node_with_id(nodes, ids.last());
    }
    assert(ids_of(nodes_by_id(nodes, ids)) =~= ids.filter(|id: u32| ids_of(nodes).contains(id)));
}

/// A sub-configuration has nodes of the configuration only.
pub proof fn lemma_sub_config_nodes<S>(nodes: Seq<Node<S>>, ids: Seq<u32>, node: Node<S>)
    requires
        nodes_by_id(nodes, ids).contains(node),
    ensures
        nodes.contains(node),
        ids.contains(node.id()),
    decreases ids.len(),
{
    if ids.len() > 0 {
        let before = nodes_by_id(nodes, ids.drop_last());
        let i = choose|i: int|
            0 <= i < nodes_by_id(nodes, ids).len() && nodes_by_id(nodes, ids)[i] == node;
        lemma_node_with_id(nodes, ids.last());
        if i < before.len() {
            assert(before[i] == node);
            lemma_sub_config_nodes(nodes, ids.drop_last(), node);
            let k = choose|k: int|
                0 <= k < ids.drop_last().len() && ids.drop_last()[k] == node.id();
            assert(ids[k] == node.id());
        } else {
            assert(ids[ids.len() - 1] == node.id());
        }
    }
}

} // verus!
