//! The connection pool: it owns the nodes and hands out configurations.

use vstd::prelude::*;

use std::collections::HashMap;
use tokio::sync::watch;

use crate::channel::{no_calls, serves, Calls, NodeTask};
use crate::config::Configuration;
use crate::node::{status_subscribed, Node, NodeStatus};
use crate::text::{decimal, push_decimal, same_text};

verus! {

broadcast use vstd::std_specs::hash::group_hash_axioms;

/// An address as it was given, and its canonical form if it is a socket
/// address.
#[derive(Debug)]
pub struct Address {
    pub given: String,
    pub canonical: Option<String>,
}

/// What has to be started for a node that was added.
pub struct Launch<S> {
    pub node: Node<S>,
    /// The background task of the node.
    pub task: NodeTask,
    /// One watcher for each registered callback.
    pub watchers: Vec<Watcher>,
}

/// A subscription to the status of a node, for the callback with this index.
pub struct Watcher {
    pub node_id: u32,
    pub rx: watch::Receiver<NodeStatus>,
    pub callback: usize,
}

/// Connection pool. Manages a set of nodes and vends configurations.
///
/// The manager owns all nodes and is the single place where they are created.
/// Configurations hold clones of the nodes, so a configuration continues to
/// work after the corresponding pool entry is removed. `W` is the type of the
/// status callbacks.
pub struct Manager<S, W> {
    nodes: HashMap<u32, Node<S>>,
    next_id: u32,
    status_callbacks: Vec<W>,
}

/// The pool: the nodes by their IDs.
pub type Pool<S> = Map<u32, Node<S>>;

impl<S, W> View for Manager<S, W> {
    type V = Pool<S>;

    closed spec fn view(&self) -> Pool<S> {
        self.nodes@
    }
}

/// Whether some node of the pool has this address.
pub open spec fn address_in_use<S>(pool: Pool<S>, addr: Seq<char>) -> bool {
    exists|id: u32| #[trigger] pool.contains_key(id) && pool[id].inner.addr@ == addr
}

/// Why a node is not added, if it is not.
pub open spec fn rejection<S>(pool: Pool<S>, id: u32, addr: Address) -> Option<Seq<char>> {
    if id == 0 {
        Some("node ID 0 is reserved"@)
    } else {
        match addr.canonical {
            None => Some("invalid address: "@ + addr.given@),
            Some(norm) => if pool.contains_key(id) {
                Some("node ID "@ + decimal(id as nat) + " already in use"@)
            } else if address_in_use(pool, norm@) {
                Some("address "@ + norm@ + " already in use"@)
            } else {
                None
            },
        }
    }
}

/// Whether a node was made with this ID and address, and with calls of its own
/// that `share` made the handle to.
pub open spec fn node_made<S, F: Fn(Calls) -> S>(
    node: Node<S>,
    id: u32,
    addr: Seq<char>,
    share: F,
) -> bool {
    &&& node.id() == id
    &&& node.inner.addr@ == addr
    &&& exists|calls: Calls| #[trigger]
        call_ensures(share, (calls,), node.inner.channel.calls) && no_calls(
            calls,
            node.inner.channel.mailbox.queue(),
        )
}

/// Whether the watchers are subscriptions to the status of `node`, one for
/// each of `n` callbacks, in order.
pub open spec fn watched_by<S>(watchers: Seq<Watcher>, node: Node<S>, n: nat) -> bool {
    &&& watchers.len() == n
    &&& forall|i: int|
        0 <= i < n ==> {
            &&& (#[trigger] watchers[i]).node_id == node.id()
            &&& watchers[i].callback == i
            &&& status_subscribed(node, watchers[i].rx)
        }
}

/// Whether `launch` starts a node that was just made: its task serves its
/// channel, and there is a watcher for each of `n` callbacks.
pub open spec fn is_launch<S, F: Fn(Calls) -> S>(
    launch: Launch<S>,
    id: u32,
    addr: Seq<char>,
    share: F,
    n: nat,
) -> bool {
    &&& node_made(launch.node, id, addr, share)
    &&& serves(launch.task, launch.node.inner.channel)
    &&& watched_by(launch.watchers@, launch.node, n)
}

/// The addresses in use.
pub open spec fn addresses_of<S>(pool: Pool<S>) -> Set<Seq<char>> {
    Set::new(|addr: Seq<char>| address_in_use(pool, addr))
}

/// Whether an address is accepted for a node with a new ID.
pub open spec fn accepts(used: Set<Seq<char>>, addr: Address) -> bool {
    addr.canonical matches Some(norm) && !used.contains(norm@)
}

/// How many addresses of a list are accepted, one after the other, before the
/// first that is not.
pub open spec fn accepted(used: Set<Seq<char>>, addrs: Seq<Address>) -> nat
    decreases addrs.len(),
{
    if addrs.len() == 0 || !accepts(used, addrs[0]) {
        0
    } else {
        1 + accepted(used.insert(addrs[0].canonical->0@), addrs.drop_first())
    }
}

/// Whether `addr` is the canonical form of an address.
pub open spec fn stands_for(given: Address, addr: Seq<char>) -> bool {
    given.canonical matches Some(norm) && norm@ == addr
}

/// Whether an address is among the first `n` of a list.
pub open spec fn listed_before(addrs: Seq<Address>, n: int, addr: Seq<char>) -> bool {
    exists|j: int| 0 <= j < n && #[trigger] stands_for(addrs[j], addr)
}

/// Why an address of a list is not accepted.
pub open spec fn list_rejection(addr: Address) -> Seq<char> {
    match addr.canonical {
        None => "invalid address: "@ + addr.given@,
        Some(norm) => "address "@ + norm@ + " already in use"@,
    }
}

/// The nodes that are started.
pub open spec fn launched_nodes<S>(launches: Seq<Launch<S>>) -> Seq<Node<S>> {
    launches.map_values(|l: Launch<S>| l.node)
}

/// The pool before and after a list of addresses was added: the accepted ones
/// got the next IDs in order, and nothing else changed.
pub open spec fn nodes_listed<S, F: Fn(Calls) -> S>(
    before: Pool<S>,
    after: Pool<S>,
    next_before: u32,
    next_after: u32,
    addrs: Seq<Address>,
    share: F,
    callbacks: nat,
    launches: Seq<Launch<S>>,
) -> bool {
    &&& launches.len() == accepted(addresses_of(before), addrs)
    &&& next_after == next_before + launches.len()
    &&& forall|i: int|
        0 <= i < launches.len() ==> is_launch(
            #[trigger] launches[i],
            (next_before + i) as u32,
            addrs[i].canonical->0@,
            share,
            callbacks,
        )
    &&& forall|id: u32| #[trigger]
        after.get(id) == if next_before <= id < next_after {
            Some(launches[id - next_before].node)
        } else {
            before.get(id)
        }
}

/// Whether `ids` are the keys of the pool, in ascending order.
pub open spec fn sorted_ids<S>(pool: Pool<S>, ids: Seq<u32>) -> bool {
    &&& forall|i: int, j: int| 0 <= i < j < ids.len() ==> #[trigger] ids[i] < #[trigger] ids[j]
    &&& forall|id: u32| #[trigger] ids.contains(id) <==> pool.contains_key(id)
}

impl<S, W> Manager<S, W> {
    /// What every operation keeps: nodes are found under their own ID, no ID
    /// is 0, no two nodes have the same address, and the next ID that is
    /// assigned is larger than every ID in the pool.
    pub open spec fn inv(&self) -> bool {
        &&& self.next() >= 1
        &&& forall|id: u32| #[trigger]
            self@.contains_key(id) ==> self@[id].id() == id && 0 < id < self.next()
        &&& forall|a: u32, b: u32|
            a != b && #[trigger] self@.contains_key(a) && #[trigger] self@.contains_key(b)
                ==> self@[a].inner.addr@ != self@[b].inner.addr@
    }

    /// The next ID that is assigned.
    pub closed spec fn next(&self) -> u32 {
        self.next_id
    }

    /// The registered callbacks, in order of registration.
    pub closed spec fn callbacks(&self) -> Seq<W> {
        self.status_callbacks@
    }

    /// A manager without nodes.
    pub fn new() -> (r: Self)
        ensures
            r.inv(),
            r@ == Pool::<S>::empty(),
            r.next() == 1,
            r.callbacks() == Seq::<W>::empty(),
    {
        Manager { nodes: HashMap::new(), next_id: 1, status_callbacks: Vec::new() }
    }

    /// The next ID that is assigned.
    pub fn next_id(&self) -> (r: u32)
        ensures
            r == self.next(),
    {
        self.next_id
    }

    fn sorted_node_ids(&self) -> (r: Vec<u32>)
        ensures
            sorted_ids(self@, r@),
    {
        let mut keys: Vec<u32> = Vec::new();
        for id in it: self.nodes.keys()
            invariant
                it.seq().unref().to_set() == self@.dom(),
                keys@ == it.seq().unref().take(it.index() as int),
                it.index() == it.seq().len() ==> keys@ == it.seq().unref(),
        {
            keys.push(*id);
            assert(keys@ =~= it.seq().unref().take(it.index() as int + 1));
        }
        let r = sort_ids(&keys);
        assert forall|id: u32| #[trigger] r@.contains(id) <==> self@.contains_key(id) by {
            assert(keys@.to_set().contains(id) == keys@.contains(id));
        }
        r
    }

    fn has_address(&self, addr: &str) -> (r: bool)
        ensures
            r == address_in_use(self@, addr@),
    {
        let ids = self.sorted_node_ids();
        for i in 0..ids.len()
            invariant
                sorted_ids(self@, ids@),
                forall|j: int| 0 <= j < i ==> self@[#[trigger] ids@[j]].inner.addr@ != addr@,
        {
            assert(ids@.contains(ids@[i as int]));
            if let Some(node) = self.nodes.get(&ids[i]) {
                if same_text(node.address(), addr) {
                    assert(self@.contains_key(ids@[i as int]));
                    return true;
                }
            }
        }
        assert forall|id: u32| #[trigger] self@.contains_key(id) implies self@[id].inner.addr@
            != addr@ by {
            assert(ids@.contains(id));
            let j = choose|j: int| 0 <= j < ids@.len() && ids@[j] == id;
            assert(self@[ids@[j]].inner.addr@ != addr@);
        }
        false
    }

    /// Whether a node with this ID and address would be added: its canonical
    /// address, or the reason why not.
    pub fn vet(&self, id: u32, addr: &Address) -> (r: Result<String, String>)
        ensures
            match rejection(self@, id, *addr) {
                Some(reason) => r matches Err(text) && text@ == reason,
                None => r matches Ok(norm) && Some(norm) == addr.canonical,
            },
    {
        if id == 0 {
            return Err("node ID 0 is reserved".to_string());
        }
        let norm = match &addr.canonical {
            Some(norm) => norm.clone(),
            None => return Err("invalid address: ".to_string().concat(addr.given.as_str())),
        };
        if self.nodes.contains_key(&id) {
            let mut text = "node ID ".to_string();
            push_decimal(&mut text, id as u64);
            text.append(" already in use");
            return Err(text);
        }
        if self.has_address(norm.as_str()) {
            let mut text = "address ".to_string();
            text.append(norm.as_str());
            text.append(" already in use");
            return Err(text);
        }
        Ok(norm)
    }

    /// Add a node with an explicit ID. Fails if the ID or the address is
    /// already in use, if the ID is 0, or if the address is no socket address.
    pub fn add_node<F: Fn(Calls) -> S>(&mut self, id: u32, addr: &Address, share: &F) -> (r: Result<
        Launch<S>,
        String,
    >)
        requires
            old(self).inv(),
            rejection(old(self)@, id, *addr) is None ==> id < u32::MAX,
            forall|calls: Calls| call_requires(share, (calls,)),
        ensures
            final(self).inv(),
            final(self).callbacks() == old(self).callbacks(),
            match rejection(old(self)@, id, *addr) {
                Some(reason) => {
                    &&& r matches Err(text) && text@ == reason
                    &&& final(self)@ == old(self)@
                    &&& final(self).next() == old(self).next()
                },
                None => {
                    &&& r matches Ok(launch)
                    &&& is_launch(
                        launch,
                        id,
                        addr.canonical->0@,
                        *share,
                        old(self).callbacks().len(),
                    )
                    &&& final(self)@ == old(self)@.insert(id, launch.node)
                    &&& final(self).next() == if id >= old(self).next() {
                        (id + 1) as u32
                    } else {
                        old(self).next()
                    }
                },
            },
    {
        let norm = match self.vet(id, addr) {
            Ok(norm) => norm,
            Err(text) => return Err(text),
        };
        let ghost before = self@;
        let (node, task) = Node::new(id, norm, share);
        let mut watchers: Vec<Watcher> = Vec::new();
        for i in 0..self.status_callbacks.len()
            invariant
                node.id() == id,
                watched_by(watchers@, node, i as nat),
        {
            watchers.push(Watcher { node_id: id, rx: node.subscribe_status(), callback: i });
        }
        self.nodes.insert(id, node.clone());
        if id >= self.next_id {
            self.next_id = id + 1;
        }
        let launch = Launch { node, task, watchers };
        assert(node_made(launch.node, id, addr.canonical->0@, *share));
        assert(forall|a: u32| #[trigger] self@.contains_key(a) && a != id ==> before.contains_key(a));
        Ok(launch)
    }

    /// Adds nodes with the next IDs, in order, until one is rejected.
    fn add_nodes<F: Fn(Calls) -> S>(&mut self, addrs: &Vec<Address>, share: &F) -> (r: (
        Vec<Launch<S>>,
        Result<Vec<Node<S>>, String>,
    ))
        requires
            old(self).inv(),
            old(self).next() + accepted(addresses_of(old(self)@), addrs@) <= u32::MAX,
            forall|calls: Calls| call_requires(share, (calls,)),
        ensures
            final(self).inv(),
            final(self).callbacks() == old(self).callbacks(),
            nodes_listed(
                old(self)@,
                final(self)@,
                old(self).next(),
                final(self).next(),
                addrs@,
                *share,
                old(self).callbacks().len(),
                r.0@,
            ),
            match r.1 {
                Ok(nodes) => {
                    &&& accepted(addresses_of(old(self)@), addrs@) == addrs@.len()
                    &&& nodes@ == launched_nodes(r.0@)
                },
                Err(text) => {
                    &&& accepted(addresses_of(old(self)@), addrs@) < addrs@.len()
                    &&& text@ == list_rejection(addrs@[r.0@.len() as int])
                },
            },
    {
        let mut launches: Vec<Launch<S>> = Vec::new();
        let mut nodes: Vec<Node<S>> = Vec::new();
        let ghost first = self.next();
        let ghost all = accepted(addresses_of(self@), addrs@);
        assert(addrs@.skip(0) =~= addrs@);
        assert(nodes@ =~= launched_nodes(launches@));
        for i in 0..addrs.len()
            invariant
                self.inv(),
                self.callbacks() == old(self).callbacks(),
                first == old(self).next(),
                all == accepted(addresses_of(old(self)@), addrs@),
                first + all <= u32::MAX,
                self.next() == first + i,
                all == i + accepted(addresses_of(self@), addrs@.skip(i as int)),
                launches@.len() == i,
                nodes@ == launched_nodes(launches@),
                forall|j: int|
                    0 <= j < i ==> is_launch(
                        #[trigger] launches@[j],
                        (first + j) as u32,
                        addrs@[j].canonical->0@,
                        *share,
                        old(self).callbacks().len(),
                    ),
                forall|id: u32| #[trigger]
                    self@.get(id) == if first <= id < first + i {
                        Some(launches@[id - first].node)
                    } else {
                        old(self)@.get(id)
                    },
                forall|calls: Calls| call_requires(share, (calls,)),
        {
            let ghost before = self@;
            let ghost rest = addrs@.skip(i as int);
            let ghost used = addresses_of(before);
            let id: u32 = self.next_id;
            assert(rest[0] == addrs@[i as int]);
            assert(rest.drop_first() =~= addrs@.skip(i + 1));
            assert(!before.contains_key(id));
            assert(rejection(before, id, rest[0]) is None <==> accepts(used, rest[0]));
            match self.add_node(id, &addrs[i], share) {
                Err(text) => {
                    assert(text@ == list_rejection(addrs@[i as int]));
                    assert(accepted(used, rest) == 0);
                    return (launches, Err(text));
                },
                Ok(launch) => {
                    let ghost norm = addrs@[i as int].canonical->0@;
                    assert(addresses_of(self@) =~= used.insert(norm)) by {
                        assert forall|a: Seq<char>| addresses_of(self@).contains(a)
                            == used.insert(norm).contains(a) by {
                            lemma_address_added(before, id, launch.node, a);
                        }
                    }
                    nodes.push(launch.node.clone());
                    launches.push(launch);
                    assert(nodes@ =~= launched_nodes(launches@));
                    assert forall|x: u32| #[trigger] self@.get(x) == if first <= x < first + i + 1 {
                        Some(launches@[x - first].node)
                    } else {
                        old(self)@.get(x)
                    } by {
                        if x != id {
                            assert(self@.get(x) == before.get(x));
                        }
                    }
                },
            }
        }
        assert(addrs@.skip(addrs@.len() as int).len() == 0);
        (launches, Ok(nodes))
    }

    /// How many addresses of a list would be accepted, one after the other,
    /// before the first that is not.
    pub fn accepted_count(&self, addrs: &Vec<Address>) -> (n: usize)
        ensures
            n == accepted(addresses_of(self@), addrs@),
    {
        let ghost mut used = addresses_of(self@);
        assert(addrs@.skip(0) =~= addrs@);
        for i in 0..addrs.len()
            invariant
                accepted(addresses_of(self@), addrs@) == i + accepted(used, addrs@.skip(i as int)),
                forall|a: Seq<char>| #[trigger]
                    used.contains(a) <==> address_in_use(self@, a) || listed_before(
                        addrs@,
                        i as int,
                        a,
                    ),
        {
            let ghost rest = addrs@.skip(i as int);
            assert(rest[0] == addrs@[i as int]);
            assert(rest.drop_first() =~= addrs@.skip(i + 1));
            let norm = match &addrs[i].canonical {
                Some(norm) => norm,
                None => return i,
            };
            if self.has_address(norm.as_str()) {
                return i;
            }
            for j in 0..i
                invariant
                    i < addrs@.len(),
                    rest == addrs@.skip(i as int),
                    rest[0] == addrs@[i as int],
                    addrs@[i as int].canonical == Some(*norm),
                    accepted(addresses_of(self@), addrs@) == i + accepted(used, rest),
                    forall|a: Seq<char>| #[trigger]
                        used.contains(a) <==> address_in_use(self@, a) || listed_before(
                            addrs@,
                            i as int,
                            a,
                        ),
                    !listed_before(addrs@, j as int, norm@),
            {
                if let Some(other) = &addrs[j].canonical {
                    if same_text(other.as_str(), norm.as_str()) {
                        assert(stands_for(addrs@[j as int], norm@));
                        assert(used.contains(norm@));
                        return i;
                    }
                }
            }
            proof {
                let before = used;
                assert(!before.contains(norm@));
                used = used.insert(norm@);
                assert forall|a: Seq<char>| #[trigger] used.contains(a) <==> address_in_use(
                    self@,
                    a,
                ) || listed_before(addrs@, i + 1, a) by {
                    assert(before.contains(a) == (address_in_use(self@, a) || listed_before(
                        addrs@,
                        i as int,
                        a,
                    )));
                    if listed_before(addrs@, i as int, a) {
                        let j = choose|j: int| 0 <= j < i && #[trigger] stands_for(addrs@[j], a);
                        assert(stands_for(addrs@[j], a));
                    }
                    assert(stands_for(addrs@[i as int], a) == (a == norm@));
                }
            }
        }
        addrs.len()
    }

    /// Add a list of addresses, assigning the next IDs in order. The nodes
    /// that come before an address that is rejected stay in the pool.
    pub fn add_node_list<F: Fn(Calls) -> S>(&mut self, addrs: &Vec<Address>, share: &F) -> (r: (
        Vec<Launch<S>>,
        Result<Configuration<S>, String>,
    ))
        requires
            old(self).inv(),
            old(self).next() + accepted(addresses_of(old(self)@), addrs@) <= u32::MAX,
            forall|calls: Calls| call_requires(share, (calls,)),
        ensures
            final(self).inv(),
            final(self).callbacks() == old(self).callbacks(),
            nodes_listed(
                old(self)@,
                final(self)@,
                old(self).next(),
                final(self).next(),
                addrs@,
                *share,
                old(self).callbacks().len(),
                r.0@,
            ),
            match r.1 {
                Ok(config) => {
                    &&& accepted(addresses_of(old(self)@), addrs@) == addrs@.len()
                    &&& config@ == launched_nodes(r.0@)
                },
                Err(text) => {
                    &&& accepted(addresses_of(old(self)@), addrs@) < addrs@.len()
                    &&& text@ == list_rejection(addrs@[r.0@.len() as int])
                },
            },
    {
        let (launches, added) = self.add_nodes(addrs, share);
        match added {
            Ok(nodes) => (launches, Ok(Configuration::new(nodes))),
            Err(text) => (launches, Err(text)),
        }
    }

    /// Create a new configuration by extending `base` with new addresses,
    /// each added to the pool with the next ID: all nodes of `base`, followed
    /// by the new ones.
    pub fn with_new_nodes<F: Fn(Calls) -> S>(
        &mut self,
        base: &Configuration<S>,
        addrs: &Vec<Address>,
        share: &F,
    ) -> (r: (Vec<Launch<S>>, Result<Configuration<S>, String>))
        requires
            old(self).inv(),
            old(self).next() + accepted(addresses_of(old(self)@), addrs@) <= u32::MAX,
            forall|calls: Calls| call_requires(share, (calls,)),
        ensures
            final(self).inv(),
            final(self).callbacks() == old(self).callbacks(),
            nodes_listed(
                old(self)@,
                final(self)@,
                old(self).next(),
                final(self).next(),
                addrs@,
                *share,
                old(self).callbacks().len(),
                r.0@,
            ),
            match r.1 {
                Ok(config) => {
                    &&& accepted(addresses_of(old(self)@), addrs@) == addrs@.len()
                    &&& config@ == base@ + launched_nodes(r.0@)
                },
                Err(text) => {
                    &&& accepted(addresses_of(old(self)@), addrs@) < addrs@.len()
                    &&& text@ == list_rejection(addrs@[r.0@.len() as int])
                },
            },
    {
        let (launches, added) = self.add_nodes(addrs, share);
        match added {
            Ok(nodes) => {
                let old_nodes = base.nodes();
                let mut extended: Vec<Node<S>> = Vec::new();
                for i in 0..old_nodes.len()
                    invariant
                        extended@ == old_nodes@.take(i as int),
                {
                    extended.push(old_nodes[i].clone());
                    assert(extended@ =~= old_nodes@.take(i + 1));
                }
                assert(extended@ =~= base@);
                let mut nodes = nodes;
                extended.append(&mut nodes);
                (launches, Ok(Configuration::new(extended)))
            },
            Err(text) => (launches, Err(text)),
        }
    }

    /// Build a configuration from node IDs already in the pool. Fails with
    /// the first ID that is not.
    pub fn configuration(&self, ids: &[u32]) -> (r: Result<Configuration<S>, String>)
        ensures
            match r {
                Ok(config) => {
                    &&& forall|i: int|
                        0 <= i < ids@.len() ==> self@.contains_key(#[trigger] ids@[i])
                    &&& config@ == ids@.map_values(|id: u32| self@[id])
                },
                Err(text) => exists|i: int|
                    {
                        &&& 0 <= i < ids@.len()
                        &&& !self@.contains_key(#[trigger] ids@[i])
                        &&& forall|j: int|
                            0 <= j < i ==> self@.contains_key(#[trigger] ids@[j])
                        &&& text@ == "node ID "@ + decimal(ids@[i] as nat) + " not found"@
                    },
            },
    {
        let mut nodes: Vec<Node<S>> = Vec::new();
        for i in 0..ids.len()
            invariant
                forall|j: int| 0 <= j < i ==> self@.contains_key(#[trigger] ids@[j]),
                nodes@ == ids@.take(i as int).map_values(|id: u32| self@[id]),
        {
            match self.nodes.get(&ids[i]) {
                Some(node) => nodes.push(node.clone()),
                None => {
                    let mut text = "node ID ".to_string();
                    push_decimal(&mut text, ids[i] as u64);
                    text.append(" not found");
                    assert(!self@.contains_key(ids@[i as int]));
                    return Err(text);
                },
            }
            assert(nodes@ =~= ids@.take(i + 1).map_values(|id: u32| self@[id]));
        }
        assert(nodes@ =~= ids@.map_values(|id: u32| self@[id]));
        Ok(Configuration::new(nodes))
    }

    /// Build a configuration from all nodes in the pool, in the order of their
    /// IDs.
    pub fn all_nodes(&self) -> (r: Configuration<S>)
        ensures
            exists|ids: Seq<u32>|
                {
                    &&& #[trigger] sorted_ids(self@, ids)
                    &&& r@ == ids.map_values(|id: u32| self@[id])
                },
    {
        let ids = self.sorted_node_ids();
        let mut nodes: Vec<Node<S>> = Vec::new();
        for i in 0..ids.len()
            invariant
                sorted_ids(self@, ids@),
                nodes@ == ids@.take(i as int).map_values(|id: u32| self@[id]),
        {
            assert(ids@.contains(ids@[i as int]));
            if let Some(node) = self.nodes.get(&ids[i]) {
                nodes.push(node.clone());
            }
            assert(nodes@ =~= ids@.take(i + 1).map_values(|id: u32| self@[id]));
        }
        assert(nodes@ =~= ids@.map_values(|id: u32| self@[id]));
        Configuration::new(nodes)
    }

    /// Remove a node from the pool by ID. Returns whether it was present.
    /// Configurations and nodes that were handed out before are unaffected.
    pub fn remove_node(&mut self, id: u32) -> (r: bool)
        requires
            old(self).inv(),
        ensures
            final(self).inv(),
            r == old(self)@.contains_key(id),
            final(self)@ == old(self)@.remove(id),
            final(self).next() == old(self).next(),
            final(self).callbacks() == old(self).callbacks(),
    {
        let removed = self.nodes.remove(&id);
        assert(self@ =~= old(self)@.remove(id));
        removed.is_some()
    }

    /// Register a callback that is invoked whenever **any** managed node
    /// changes connectivity status. The result watches the nodes already in
    /// the pool, in the order of their IDs; nodes that are added later are
    /// watched from the start.
    pub fn on_status_change(&mut self, callback: W) -> (r: Vec<Watcher>)
        requires
            old(self).inv(),
        ensures
            final(self).inv(),
            final(self)@ == old(self)@,
            final(self).next() == old(self).next(),
            final(self).callbacks() == old(self).callbacks().push(callback),
            exists|ids: Seq<u32>|
                {
                    &&& #[trigger] sorted_ids(old(self)@, ids)
                    &&& r@.len() == ids.len()
                    &&& forall|i: int|
                        0 <= i < ids.len() ==> {
                            &&& (#[trigger] r@[i]).node_id == ids[i]
                            &&& r@[i].callback == old(self).callbacks().len()
                            &&& status_subscribed(old(self)@[ids[i]], r@[i].rx)
                        }
                },
    {
        let ids = self.sorted_node_ids();
        let index: usize = self.status_callbacks.len();
        let mut watchers: Vec<Watcher> = Vec::new();
        for i in 0..ids.len()
            invariant
                sorted_ids(self@, ids@),
                watchers@.len() == i,
                forall|j: int|
                    0 <= j < i ==> {
                        &&& (#[trigger] watchers@[j]).node_id == ids@[j]
                        &&& watchers@[j].callback == index
                        &&& status_subscribed(self@[ids@[j]], watchers@[j].rx)
                    },
        {
            assert(ids@.contains(ids@[i as int]));
            if let Some(node) = self.nodes.get(&ids[i]) {
                watchers.push(
                    Watcher { node_id: ids[i], rx: node.subscribe_status(), callback: index },
                );
            }
        }
        self.status_callbacks.push(callback);
        watchers
    }

    /// The callback with this index.
    pub fn callback(&self, index: usize) -> (r: Option<&W>)
        ensures
            r == if index < self.callbacks().len() {
                Some(&self.callbacks()[index as int])
            } else {
                None
            },
    {
        if index < self.status_callbacks.len() {
            Some(&self.status_callbacks[index])
        } else {
            None
        }
    }

    /// The node with this ID.
    pub fn node(&self, id: u32) -> (r: Option<&Node<S>>)
        ensures
            r == if self@.contains_key(id) {
                Some(&self@[id])
            } else {
                None
            },
    {
        self.nodes.get(&id)
    }
}

impl<S, W> Default for Manager<S, W> {
    fn default() -> (r: Self)
        ensures
            r.inv(),
            r@ == Pool::<S>::empty(),
            r.next() == 1,
            r.callbacks() == Seq::<W>::empty(),
    {
        Manager::new()
    }
}

/// Adding a node adds its address to those in use, and no other.
proof fn lemma_address_added<S>(pool: Pool<S>, id: u32, node: Node<S>, addr: Seq<char>)
    requires
        !pool.contains_key(id),
    ensures
        address_in_use(pool.insert(id, node), addr) <==> address_in_use(pool, addr)
            || node.inner.addr@ == addr,
{
    let after = pool.insert(id, node);
    if address_in_use(pool, addr) {
        let a = choose|a: u32| #[trigger] pool.contains_key(a) && pool[a].inner.addr@ == addr;
        assert(after.contains_key(a) && after[a] == pool[a]);
    }
    assert(after.contains_key(id));
    if address_in_use(after, addr) {
        let a = choose|a: u32| #[trigger] after.contains_key(a) && after[a].inner.addr@ == addr;
        if a != id {
            assert(pool.contains_key(a) && pool[a] == after[a]);
        }
    }
}

/// The same numbers in strictly ascending order, each once.
fn sort_ids(ids: &Vec<u32>) -> (r: Vec<u32>)
    ensures
        forall|i: int, j: int| 0 <= i < j < r@.len() ==> #[trigger] r@[i] < #[trigger] r@[j],
        forall|id: u32| #[trigger] r@.contains(id) <==> ids@.contains(id),
{
    let mut r: Vec<u32> = Vec::new();
    for k in 0..ids.len()
        invariant
            forall|i: int, j: int| 0 <= i < j < r@.len() ==> #[trigger] r@[i] < #[trigger] r@[j],
            forall|id: u32| #[trigger] r@.contains(id) <==> ids@.take(k as int).contains(id),
    {
        let ghost before = r@;
        let id: u32 = ids[k];
        let mut place: usize = 0;
        while place < r.len() && r[place] < id
            invariant
                place <= r@.len(),
                r@ == before,
                forall|i: int| 0 <= i < place ==> #[trigger] r@[i] < id,
            decreases r@.len() - place,
        {
            place = place + 1;
        }
        assert(ids@.take(k + 1) =~= ids@.take(k as int).push(id));
        if place < r.len() && r[place] == id {
            assert forall|x: u32| #[trigger] r@.contains(x) <==> ids@.take(k + 1).contains(x) by {
                assert(before[place as int] == id);
                lemma_contains_push(ids@.take(k as int), id, x);
            }
        } else {
            r.insert(place, id);
            assert forall|x: u32| #[trigger] r@.contains(x) <==> ids@.take(k + 1).contains(x) by {
                lemma_contains_push(ids@.take(k as int), id, x);
                lemma_contains_insert(before, place as int, id, x);
            }
        }
    }
    assert(ids@.take(ids@.len() as int) =~= ids@);
    r
}

proof fn lemma_contains_push(s: Seq<u32>, id: u32, x: u32)
    ensures
        s.push(id).contains(x) <==> s.contains(x) || x == id,
{
    if s.contains(x) {
        let i = choose|i: int| 0 <= i < s.len() && s[i] == x;
        assert(s.push(id)[i] == x);
    }
    assert(s.push(id)[s.len() as int] == id);
}

proof fn lemma_contains_insert(s: Seq<u32>, place: int, id: u32, x: u32)
    requires
        0 <= place <= s.len(),
    ensures
        s.insert(place, id).contains(x) <==> s.contains(x) || x == id,
{
    let t = s.insert(place, id);
    if s.contains(x) {
        let i = choose|i: int| 0 <= i < s.len() && s[i] == x;
        if i < place {
            assert(t[i] == x);
        } else {
            assert(t[i + 1] == x);
        }
    }
    assert(t[place] == id);
    if t.contains(x) {
        let i = choose|i: int| 0 <= i < t.len() && t[i] == x;
        if i < place {
            assert(s[i] == x);
        } else if i > place {
            assert(s[i - 1] == x);
        }
    }
}

// ── Laws ──────────────────────────────────────────────────────────────────────

/// The order of the IDs is unique: there is one ascending list of the IDs of a
/// pool.
pub proof fn lemma_sorted_ids_unique<S>(pool: Pool<S>, a: Seq<u32>, b: Seq<u32>)
    requires
        sorted_ids(pool, a),
        sorted_ids(pool, b),
    ensures
        a == b,
{
    lemma_ascending_unique(a, b);
}

proof fn lemma_ascending_unique(a: Seq<u32>, b: Seq<u32>)
    requires
        forall|i: int, j: int| 0 <= i < j < a.len() ==> #[trigger] a[i] < #[trigger] a[j],
        forall|i: int, j: int| 0 <= i < j < b.len() ==> #[trigger] b[i] < #[trigger] b[j],
        forall|id: u32| #[trigger] a.contains(id) <==> b.contains(id),
    ensures
        a == b,
    decreases a.len(),
{
    if a.len() == 0 {
        if b.len() > 0 {
            assert(b.contains(b[0]));
            assert(a.contains(b[0]));
        }
        assert(a =~= b);
    } else {
        assert(a.contains(a.last()));
        assert(b.contains(a.last()));
        let i = choose|i: int| 0 <= i < b.len() && b[i] == a.last();
        assert(b.contains(b.last()));
        assert(a.contains(b.last()));
        let j = choose|j: int| 0 <= j < a.len() && a[j] == b.last();
        assert(a.last() == b.last());
        let (c, d) = (a.drop_last(), b.drop_last());
        assert forall|id: u32| #[trigger] c.contains(id) <==> d.contains(id) by {
            if c.contains(id) {
                let k = choose|k: int| 0 <= k < c.len() && c[k] == id;
                assert(a[k] == id);
                assert(a.contains(id));
                assert(b.contains(id));
                let l = choose|l: int| 0 <= l < b.len() && b[l] == id;
                assert(d[l] == id);
            }
            if d.contains(id) {
                let k = choose|k: int| 0 <= k < d.len() && d[k] == id;
                assert(b[k] == id);
                assert(b.contains(id));
                assert(a.contains(id));
                let l = choose|l: int| 0 <= l < a.len() && a[l] == id;
                assert(c[l] == id);
            }
        }
        lemma_ascending_unique(c, d);
        assert(a =~= c.push(a.last()));
        assert(b =~= d.push(b.last()));
    }
}

/// An assigned ID is new: no node of the pool has it, and it is not reserved.
pub proof fn lemma_assigned_id_is_new<S, W>(manager: Manager<S, W>)
    requires
        manager.inv(),
    ensures
        !manager@.contains_key(manager.next()),
        manager.next() != 0,
{
}

/// In a pool an ID stands for one address and an address for one ID: adding a
/// node with an ID or an address that is in use is rejected.
pub proof fn lemma_duplicates_are_rejected<S, W>(
    manager: Manager<S, W>,
    used: u32,
    id: u32,
    addr: Address,
)
    requires
        manager.inv(),
        manager@.contains_key(used),
        id == used || (addr.canonical matches Some(norm) && norm@ == manager@[used].inner.addr@),
    ensures
        rejection(manager@, id, addr) is Some,
{
}

} // verus!
