//! Laws of the connection pool.

use vstd::prelude::*;

use tokio::sync::watch;

use crate::channel::{no_calls, Calls, NodeTask};
use crate::config::Configuration;
use crate::manager::{
    accepted, accepts, address_in_use, addresses_of, is_launch, sorted_ids, Address, Launch,
    Manager, Pool, Watcher,
};
use crate::node::{status_subscribed, Node, NodeStatus};
use crate::record::{queue_made, subscribed, value_made};
use crate::text::decimal;

verus! {

/// Whether a node of the pool has this address.
pub open spec fn uses_address<S>(pool: Pool<S>, addr: Seq<char>) -> bool {
    exists|id: u32| #[trigger] pool.contains_key(id) && pool[id].inner.addr@ == addr
}

/// Whether a task is to serve a node: it takes the requests off the send queue
/// of the node, shows its status, and has shown nothing yet.
pub open spec fn serves_node<S>(task: NodeTask, node: Node<S>) -> bool {
    &&& queue_made(node.inner.channel.mailbox.queue(), task.send_rx)
    &&& task.connection.board.sender() == node.inner.channel.status.sender()
    &&& task.connection.board.shown().len() == 0
    &&& task.connection.first_attempt
    &&& !task.connection.closed
    &&& exists|rx: watch::Receiver<NodeStatus>| #[trigger]
        value_made(node.inner.channel.status.sender(), rx, NodeStatus::Connecting)
}

/// Whether a node has calls of its own, that `share` made the handle to: under
/// number 0, none pending, and nothing sent.
pub open spec fn has_own_calls<S, F: Fn(Calls) -> S>(node: Node<S>, share: F) -> bool {
    exists|calls: Calls|
        {
            &&& #[trigger] call_ensures(share, (calls,), node.inner.channel.calls)
            &&& calls.seq == 0
            &&& calls.router@.dom() == Set::<u64>::empty()
            &&& calls.ledger.queue() == node.inner.channel.mailbox.queue()
            &&& calls.ledger.put().len() == 0
        }
}

/// Whether `launch` starts a new node with this ID and address, and has a
/// watcher of its status for each of `n` callbacks, in order.
pub open spec fn starts_node<S, F: Fn(Calls) -> S>(
    launch: Launch<S>,
    id: int,
    addr: Seq<char>,
    share: F,
    n: nat,
) -> bool {
    &&& launch.node.inner.id == id
    &&& launch.node.inner.addr@ == addr
    &&& has_own_calls(launch.node, share)
    &&& serves_node(launch.task, launch.node)
    &&& launch.watchers@.len() == n
    &&& forall|i: int|
        0 <= i < n ==> {
            &&& (#[trigger] launch.watchers@[i]).node_id == id
            &&& launch.watchers@[i].callback == i
            &&& subscribed(launch.node.inner.channel.status.sender(), launch.watchers@[i].rx)
        }
}

proof fn lemma_own_calls<S, F: Fn(Calls) -> S>(node: Node<S>, share: F)
    requires
        exists|calls: Calls| #[trigger]
            call_ensures(share, (calls,), node.inner.channel.calls) && no_calls(
                calls,
                node.inner.channel.mailbox.queue(),
            ),
    ensures
        has_own_calls(node, share),
{
    let calls = choose|calls: Calls| #[trigger]
        call_ensures(share, (calls,), node.inner.channel.calls) && no_calls(
            calls,
            node.inner.channel.mailbox.queue(),
        );
    assert(calls.router@.dom() =~= Set::<u64>::empty());
}

// ── Adding one node ───────────────────────────────────────────────────────────

/// A node is added exactly if its ID is not 0 and not in use, and its address
/// is a socket address and not in use; the error names the first of these that
/// fails, in the order: ID 0, no socket address, ID in use, address in use.
pub proof fn law_vet<S, W>(
    manager: Manager<S, W>,
    id: u32,
    addr: Address,
    r: Result<String, String>,
)
    requires
        call_ensures(Manager::<S, W>::vet, (&manager, id, &addr), r),
    ensures
        r is Ok <==> id != 0 && !manager@.contains_key(id) && (addr.canonical matches Some(norm)
            && !uses_address(manager@, norm@)),
        r matches Ok(norm) ==> addr.canonical == Some(norm),
        id == 0 ==> (r matches Err(text) && text@ == "node ID 0 is reserved"@),
        id != 0 && addr.canonical is None ==> (r matches Err(text) && text@ == "invalid address: "@
            + addr.given@),
        id != 0 && addr.canonical is Some && manager@.contains_key(id) ==> (r matches Err(text)
            && text@ == "node ID "@ + decimal(id as nat) + " already in use"@),
        id != 0 && !manager@.contains_key(id) && addr.canonical is Some && uses_address(
            manager@,
            addr.canonical->0@,
        ) ==> (r matches Err(text) && text@ == "address "@ + addr.canonical->0@
            + " already in use"@),
{
    if let Some(norm) = addr.canonical {
        assert(address_in_use(manager@, norm@) == uses_address(manager@, norm@));
    }
}

/// Adding a node that is accepted puts it into the pool under its ID, and
/// starts it; a node that is not accepted changes nothing. No other node is
/// touched, and the next ID is past that of the node.
pub proof fn law_add_node<S, W, F: Fn(Calls) -> S>(
    m: &mut Manager<S, W>,
    id: u32,
    addr: Address,
    share: F,
    vetted: Result<String, String>,
    r: Result<Launch<S>, String>,
)
    requires
        old(m).inv(),
        call_ensures(Manager::<S, W>::vet, (&*old(m), id, &addr), vetted),
        call_ensures(Manager::<S, W>::add_node::<F>, (m, id, &addr, &share), r),
        vetted is Ok ==> id < u32::MAX,
    ensures
        vetted is Ok <==> r is Ok,
        vetted matches Err(reason) ==> (r matches Err(text) && text@ == reason@),
        r is Err ==> final(m)@ == old(m)@ && final(m).next() == old(m).next(),
        final(m).callbacks() == old(m).callbacks(),
        r matches Ok(launch) ==> {
            &&& vetted matches Ok(norm)
            &&& starts_node(launch, id as int, norm@, share, old(m).callbacks().len())
            &&& final(m)@ == old(m)@.insert(id, launch.node)
            &&& final(m).next() > id
            &&& final(m).next() >= old(m).next()
            &&& final(m).next() == old(m).next() || final(m).next() == id + 1
        },
{
    if let Ok(launch) = r {
        lemma_own_calls(launch.node, share);
    }
}

// ── Adding lists ──────────────────────────────────────────────────────────────

/// Whether the address at a position of a list can be added after those before
/// it: it is a socket address, no node of the pool has it, and none of those
/// before it is the same.
pub open spec fn fits<S>(pool: Pool<S>, addrs: Seq<Address>, i: int) -> bool {
    &&& addrs[i].canonical is Some
    &&& !uses_address(pool, addrs[i].canonical->0@)
    &&& forall|j: int|
        0 <= j < i ==> ((#[trigger] addrs[j]).canonical matches Some(other) ==> other@
            != addrs[i].canonical->0@)
}

/// Whether exactly the first `n` addresses of a list can be added one after
/// the other.
pub open spec fn fit_first<S>(pool: Pool<S>, addrs: Seq<Address>, n: int) -> bool {
    &&& 0 <= n <= addrs.len()
    &&& forall|i: int| 0 <= i < n ==> #[trigger] fits(pool, addrs, i)
    &&& n < addrs.len() ==> !fits(pool, addrs, n)
}

spec fn fits_used(used: Set<Seq<char>>, addrs: Seq<Address>, i: int) -> bool {
    &&& addrs[i].canonical is Some
    &&& !used.contains(addrs[i].canonical->0@)
    &&& forall|j: int|
        0 <= j < i ==> ((#[trigger] addrs[j]).canonical matches Some(other) ==> other@
            != addrs[i].canonical->0@)
}

proof fn lemma_accepted_used(used: Set<Seq<char>>, addrs: Seq<Address>)
    ensures
        accepted(used, addrs) <= addrs.len(),
        forall|i: int| 0 <= i < accepted(used, addrs) ==> #[trigger] fits_used(used, addrs, i),
        accepted(used, addrs) < addrs.len() ==> !fits_used(
            used,
            addrs,
            accepted(used, addrs) as int,
        ),
    decreases addrs.len(),
{
    if addrs.len() > 0 && accepts(used, addrs[0]) {
        let norm = addrs[0].canonical->0@;
        let rest = addrs.drop_first();
        let now = used.insert(norm);
        lemma_accepted_used(now, rest);
        assert forall|i: int| 0 < i < addrs.len() implies #[trigger] fits_used(used, addrs, i)
            == fits_used(now, rest, i - 1) by {
            assert(addrs[i] == rest[i - 1]);
            if fits_used(used, addrs, i) {
                assert(addrs[0].canonical is Some);
                assert forall|j: int| 0 <= j < i - 1 implies ((
                #[trigger] rest[j]).canonical matches Some(other) ==> other@
                    != rest[i - 1].canonical->0@) by {
                    assert(rest[j] == addrs[j + 1]);
                }
            }
            if fits_used(now, rest, i - 1) {
                assert forall|j: int| 0 <= j < i implies ((
                #[trigger] addrs[j]).canonical matches Some(other) ==> other@
                    != addrs[i].canonical->0@) by {
                    if j > 0 {
                        assert(rest[j - 1] == addrs[j]);
                    }
                }
            }
        }
        assert forall|i: int| 0 <= i < accepted(used, addrs) implies #[trigger] fits_used(
            used,
            addrs,
            i,
        ) by {
            if i > 0 {
                assert(fits_used(now, rest, i - 1));
            }
        }
        let n = accepted(used, addrs) as int;
        if n < addrs.len() {
            assert(fits_used(used, addrs, n) == fits_used(now, rest, n - 1));
        }
    }
}

proof fn lemma_accepted<S>(pool: Pool<S>, addrs: Seq<Address>)
    ensures
        fit_first(pool, addrs, accepted(addresses_of(pool), addrs) as int),
{
    let used = addresses_of(pool);
    lemma_accepted_used(used, addrs);
    assert forall|i: int| #[trigger] fits(pool, addrs, i) == fits_used(used, addrs, i) by {
        let norm = addrs[i].canonical->0@;
        assert(used.contains(norm) == address_in_use(pool, norm));
        assert(address_in_use(pool, norm) == uses_address(pool, norm));
    }
    assert forall|i: int| 0 <= i < accepted(used, addrs) implies #[trigger] fits(
        pool,
        addrs,
        i,
    ) by {
        assert(fits_used(used, addrs, i));
    }
}

/// The number of addresses that can be added is that of the longest start of
/// the list in which each one can be.
pub proof fn law_accepted_count<S, W>(manager: Manager<S, W>, addrs: Vec<Address>, n: usize)
    requires
        call_ensures(Manager::<S, W>::accepted_count, (&manager, &addrs), n),
    ensures
        fit_first(manager@, addrs@, n as int),
{
    lemma_accepted(manager@, addrs@);
}

/// Whether a list was added: the addresses that can be got the next IDs in
/// order, nothing else in the pool changed, and the error, if not all could,
/// is that of the first that could not.
pub open spec fn list_added<S, W, F: Fn(Calls) -> S>(
    before: Manager<S, W>,
    after: Manager<S, W>,
    addrs: Seq<Address>,
    share: F,
    launches: Seq<Launch<S>>,
    failed: Option<Seq<char>>,
) -> bool {
    let n = launches.len() as int;
    &&& fit_first(before@, addrs, n)
    &&& after.next() == before.next() + n
    &&& after.callbacks() == before.callbacks()
    &&& forall|i: int|
        0 <= i < n ==> starts_node(
            #[trigger] launches[i],
            before.next() + i,
            addrs[i].canonical->0@,
            share,
            before.callbacks().len(),
        )
    &&& forall|id: u32|
        !(before.next() <= id < before.next() + n) ==> #[trigger] after@.get(id) == before@.get(id)
    &&& forall|i: int|
        0 <= i < n ==> after@.get((before.next() + i) as u32) == Some(
            (#[trigger] launches[i]).node,
        )
    &&& failed is None <==> n == addrs.len()
    &&& failed matches Some(text) ==> text == match addrs[n].canonical {
        None => "invalid address: "@ + addrs[n].given@,
        Some(norm) => "address "@ + norm@ + " already in use"@,
    }
}

proof fn lemma_launches<S, F: Fn(Calls) -> S>(
    launches: Seq<Launch<S>>,
    first: u32,
    addrs: Seq<Address>,
    share: F,
    n: nat,
)
    requires
        first + launches.len() <= u32::MAX,
        forall|i: int|
            0 <= i < launches.len() ==> is_launch(
                #[trigger] launches[i],
                (first + i) as u32,
                addrs[i].canonical->0@,
                share,
                n,
            ),
    ensures
        forall|i: int|
            0 <= i < launches.len() ==> starts_node(
                #[trigger] launches[i],
                first + i,
                addrs[i].canonical->0@,
                share,
                n,
            ),
{
    assert forall|i: int| 0 <= i < launches.len() implies starts_node(
        #[trigger] launches[i],
        first + i,
        addrs[i].canonical->0@,
        share,
        n,
    ) by {
        lemma_own_calls(launches[i].node, share);
    }
}

/// Adding a list gives the addresses the next IDs, in order, and the
/// configuration has exactly the new nodes, in order. At the first address
/// that cannot be added it stops: the nodes before it stay.
pub proof fn law_add_node_list<S, W, F: Fn(Calls) -> S>(
    m: &mut Manager<S, W>,
    addrs: Vec<Address>,
    share: F,
    r: (Vec<Launch<S>>, Result<Configuration<S>, String>),
)
    requires
        old(m).inv(),
        forall|n: int|
            fit_first(old(m)@, addrs@, n) ==> old(m).next() + n <= u32::MAX,
        call_ensures(Manager::<S, W>::add_node_list::<F>, (m, &addrs, &share), r),
    ensures
        list_added(
            *old(m),
            *final(m),
            addrs@,
            share,
            r.0@,
            match r.1 {
                Ok(_) => None,
                Err(text) => Some(text@),
            },
        ),
        r.1 matches Ok(config) ==> config@ == r.0@.map_values(|l: Launch<S>| l.node),
{
    lemma_accepted(old(m)@, addrs@);
    lemma_launches(r.0@, old(m).next(), addrs@, share, old(m).callbacks().len());
}

/// Extending a configuration adds the list in the same way, and gives all
/// nodes of the configuration followed by the new ones.
pub proof fn law_with_new_nodes<S, W, F: Fn(Calls) -> S>(
    m: &mut Manager<S, W>,
    base: Configuration<S>,
    addrs: Vec<Address>,
    share: F,
    r: (Vec<Launch<S>>, Result<Configuration<S>, String>),
)
    requires
        old(m).inv(),
        forall|n: int|
            fit_first(old(m)@, addrs@, n) ==> old(m).next() + n <= u32::MAX,
        call_ensures(Manager::<S, W>::with_new_nodes::<F>, (m, &base, &addrs, &share), r),
    ensures
        list_added(
            *old(m),
            *final(m),
            addrs@,
            share,
            r.0@,
            match r.1 {
                Ok(_) => None,
                Err(text) => Some(text@),
            },
        ),
        r.1 matches Ok(config) ==> config@ == base@ + r.0@.map_values(|l: Launch<S>| l.node),
{
    lemma_accepted(old(m)@, addrs@);
    lemma_launches(r.0@, old(m).next(), addrs@, share, old(m).callbacks().len());
}

// ── Reading the pool ──────────────────────────────────────────────────────────

/// A configuration of IDs has the nodes of the pool with these IDs, in order;
/// where the pool lacks one, the error names the first that it lacks.
pub proof fn law_configuration<S, W>(
    manager: Manager<S, W>,
    ids: &[u32],
    r: Result<Configuration<S>, String>,
)
    requires
        call_ensures(Manager::<S, W>::configuration, (&manager, ids), r),
    ensures
        r is Ok <==> forall|i: int|
            0 <= i < ids@.len() ==> manager@.contains_key(#[trigger] ids@[i]),
        r matches Ok(config) ==> {
            &&& config@.len() == ids@.len()
            &&& forall|i: int|
                0 <= i < ids@.len() ==> manager@.get(ids@[i]) == Some(#[trigger] config@[i])
        },
        r matches Err(text) ==> exists|i: int|
            {
                &&& 0 <= i < ids@.len()
                &&& !manager@.contains_key(#[trigger] ids@[i])
                &&& forall|j: int| 0 <= j < i ==> manager@.contains_key(#[trigger] ids@[j])
                &&& text@ == "node ID "@ + decimal(ids@[i] as nat) + " not found"@
            },
{
    assert forall|id: u32| #[trigger] decimal(id as nat) == decimal(id as nat) by {
        }
}

/// The configuration of all nodes has each node of the pool once, in the
/// order of their IDs.
pub proof fn law_all_nodes<S, W>(manager: Manager<S, W>, r: Configuration<S>)
    requires
        manager.inv(),
        call_ensures(Manager::<S, W>::all_nodes, (&manager,), r),
    ensures
        forall|i: int, j: int|
            0 <= i < j < r@.len() ==> (#[trigger] r@[i]).inner.id < (#[trigger] r@[j]).inner.id,
        forall|i: int|
            0 <= i < r@.len() ==> manager@.get(r@[i].inner.id) == Some(#[trigger] r@[i]),
        forall|id: u32| #[trigger] manager@.contains_key(id) ==> r@.contains(manager@[id]),
{
    let ids = choose|ids: Seq<u32>| #[trigger]
        sorted_ids(manager@, ids) && r@ == ids.map_values(|id: u32| manager@[id]);
    assert forall|i: int| 0 <= i < r@.len() implies manager@.get(r@[i].inner.id) == Some(
        #[trigger] r@[i],
    ) && r@[i].inner.id == ids[i] by {
        assert(ids.contains(ids[i]));
        assert(manager@.contains_key(ids[i]));
    }
    assert forall|id: u32| #[trigger] manager@.contains_key(id) implies r@.contains(
        manager@[id],
    ) by {
        assert(ids.contains(id));
        let i = choose|i: int| 0 <= i < ids.len() && ids[i] == id;
        assert(r@[i] == manager@[id]);
    }
}

/// Removing a node takes it out of the pool and touches no other; its ID is
/// not assigned again. The result says whether it was there.
pub proof fn law_remove_node<S, W>(m: &mut Manager<S, W>, id: u32, other: u32, r: bool)
    requires
        old(m).inv(),
        call_ensures(Manager::<S, W>::remove_node, (m, id), r),
    ensures
        r <==> old(m)@.contains_key(id),
        !final(m)@.contains_key(id),
        other != id ==> final(m)@.get(other) == old(m)@.get(other),
        final(m).next() == old(m).next(),
        final(m).callbacks() == old(m).callbacks(),
{
}

/// A callback gets the next index and watches each node of the pool once, in
/// the order of their IDs; the pool and the other callbacks stay.
pub proof fn law_on_status_change<S, W>(m: &mut Manager<S, W>, callback: W, r: Vec<Watcher>)
    requires
        old(m).inv(),
        call_ensures(Manager::<S, W>::on_status_change, (m, callback), r),
    ensures
        final(m)@ == old(m)@,
        final(m).next() == old(m).next(),
        final(m).callbacks() == old(m).callbacks().push(callback),
        forall|i: int, j: int|
            0 <= i < j < r@.len() ==> (#[trigger] r@[i]).node_id < (#[trigger] r@[j]).node_id,
        forall|i: int|
            0 <= i < r@.len() ==> {
                &&& old(m)@.contains_key((#[trigger] r@[i]).node_id)
                &&& r@[i].callback == old(m).callbacks().len()
                &&& subscribed(
                    old(m)@[r@[i].node_id].inner.channel.status.sender(),
                    r@[i].rx,
                )
            },
        forall|id: u32| #[trigger]
            old(m)@.contains_key(id) ==> exists|i: int|
                0 <= i < r@.len() && (#[trigger] r@[i]).node_id == id,
{
    let ids = choose|ids: Seq<u32>|
        {
            &&& #[trigger] sorted_ids(old(m)@, ids)
            &&& r@.len() == ids.len()
            &&& forall|i: int|
                0 <= i < ids.len() ==> {
                    &&& (#[trigger] r@[i]).node_id == ids[i]
                    &&& r@[i].callback == old(m).callbacks().len()
                    &&& status_subscribed(old(m)@[ids[i]], r@[i].rx)
                }
        };
    assert forall|i: int| 0 <= i < r@.len() implies old(m)@.contains_key(
        (#[trigger] r@[i]).node_id,
    ) by {
        assert(ids.contains(ids[i]));
    }
    assert forall|id: u32| #[trigger] old(m)@.contains_key(id) implies exists|i: int|
        0 <= i < r@.len() && (#[trigger] r@[i]).node_id == id by {
        assert(ids.contains(id));
        let i = choose|i: int| 0 <= i < ids.len() && ids[i] == id;
        assert(r@[i].node_id == id);
    }
}

/// The pool gives back a node under its ID and a callback under its index, and
/// says which ID is next. A new pool is empty, and its first ID is 1.
pub proof fn law_pool_is_read<S, W>(
    manager: Manager<S, W>,
    id: u32,
    node: Option<&Node<S>>,
    index: usize,
    callback: Option<&W>,
    next: u32,
    fresh: Manager<S, W>,
    default: Manager<S, W>,
)
    requires
        call_ensures(Manager::<S, W>::node, (&manager, id), node),
        call_ensures(Manager::<S, W>::callback, (&manager, index), callback),
        call_ensures(Manager::<S, W>::next_id, (&manager,), next),
        call_ensures(Manager::<S, W>::new, (), fresh),
        call_ensures(<Manager<S, W> as Default>::default, (), default),
    ensures
        node is Some <==> manager@.contains_key(id),
        node matches Some(n) ==> *n == manager@[id],
        callback is Some <==> index < manager.callbacks().len(),
        callback matches Some(c) ==> *c == manager.callbacks()[index as int],
        next == manager.next(),
        fresh@.dom() == Set::<u32>::empty() && fresh.next() == 1 && fresh.callbacks().len() == 0,
        default@.dom() == Set::<u32>::empty() && default.next() == 1 && default.callbacks().len()
            == 0,
{
}

} // verus!
