//! Nodes: the remote peers of a system, and the context of a call to one.

use vstd::prelude::*;

use std::sync::Arc;
use std::time::Duration;
use tokio::sync::watch;
use tokio_util::sync::CancellationToken;

use crate::channel::{no_calls, serves, Calls, NodeChannel, NodeTask};
use crate::interceptor::{CallInfo, CallInfoView};
use crate::message::clone_entries;
use crate::record::{subscribed, value_read};
use crate::table::entries_view;
use crate::text::{decimal, push_decimal};

verus! {

/// Connectivity state of a remote node.
///
/// ```text
/// (start) → Connecting → Connected
///                ↑           |
///                |   stream  ↓
///                +── Reconnecting ─→ Unreachable (retry)
///
/// Any state → Closed  (clean shutdown)
/// ```
#[derive(Debug, Clone, Copy, PartialEq, Eq, Structural)]
pub enum NodeStatus {
    /// Initial connection attempt in progress.
    Connecting,
    /// The stream is established and healthy.
    Connected,
    /// The stream dropped; attempting to reconnect.
    Reconnecting,
    /// A connection attempt failed; will retry after a backoff.
    Unreachable,
    /// The node's send queue was closed: no further reconnects.
    Closed,
}

/// A remote peer on which RPCs, unicasts and quorum calls can be invoked.
///
/// `Node` is cheaply cloneable: all clones are one node. `S` is the handle
/// through which the node and its background task share their calls.
pub struct Node<S> {
    pub inner: Arc<NodeInner<S>>,
}

/// The one node behind all clones of a [`Node`].
pub struct NodeInner<S> {
    pub id: u32,
    pub addr: String,
    pub channel: NodeChannel<S>,
}

impl<S> Clone for Node<S> {
    fn clone(&self) -> (r: Self)
        ensures
            r == *self,
    {
        Node { inner: self.inner.clone() }
    }
}

impl<S> Node<S> {
    pub open spec fn spec_id(&self) -> u32 {
        self.inner.id
    }

    /// Create a node and the background task that is to serve it. `share`
    /// makes the handle to the calls of the node, of which there are none yet.
    pub fn new<F: FnOnce(Calls) -> S>(id: u32, addr: String, share: F) -> (r: (Self, NodeTask))
        requires
            forall|calls: Calls| call_requires(share, (calls,)),
        ensures
            r.0.id() == id,
            r.0.inner.addr == addr,
            exists|calls: Calls| #[trigger]
                call_ensures(share, (calls,), r.0.inner.channel.calls) && no_calls(
                    calls,
                    r.0.inner.channel.mailbox.queue(),
                ),
            serves(r.1, r.0.inner.channel),
    {
        let (channel, task) = NodeChannel::connect(share);
        let node = Node { inner: Arc::new(NodeInner { id, addr, channel }) };
        assert(node.inner.channel == channel);
        (node, task)
    }

    /// The ID of the node.
    #[verifier::when_used_as_spec(spec_id)]
    pub fn id(&self) -> (r: u32)
        ensures
            r == self.id(),
    {
        self.inner.id
    }

    /// The address of the node.
    pub fn address(&self) -> (r: &str)
        ensures
            r@ == self.inner.addr@,
    {
        self.inner.addr.as_str()
    }

    /// The channel to the node.
    pub fn channel(&self) -> (r: &NodeChannel<S>)
        ensures
            *r == self.inner.channel,
    {
        &self.inner.channel
    }

    /// The node's current connectivity status.
    pub fn status(&self) -> (r: NodeStatus)
        ensures
            value_read(self.inner.channel.status.sender(), r),
    {
        self.inner.channel.current_status()
    }

    /// Subscribe to status changes. The receiver always holds the latest
    /// status and wakes its holder when it changes.
    pub fn subscribe_status(&self) -> (r: watch::Receiver<NodeStatus>)
        ensures
            status_subscribed(*self, r),
    {
        self.inner.channel.subscribe_status()
    }

    /// The node as text, e.g. `Node(id=1, addr=127.0.0.1:8080)`.
    pub fn debug_text(&self) -> (r: String)
        ensures
            r@ == "Node(id="@ + decimal(self.id() as nat) + ", addr="@ + self.inner.addr@ + ")"@,
    {
        let mut r = "Node(id=".to_string();
        push_decimal(&mut r, self.inner.id as u64);
        r.append(", addr=");
        r.append(self.inner.addr.as_str());
        r.append(")");
        r
    }

    /// Wrap this node in a context for a single call.
    pub fn context<I>(&self) -> (r: NodeContext<S, I>)
        ensures
            r.node == *self,
            call_ensures(CancellationToken::new, (), r.cancel),
            r.interceptors@ == Seq::<I>::empty(),
            r.metadata@ == Seq::<(String, String)>::empty(),
    {
        NodeContext {
            node: self.clone(),
            cancel: CancellationToken::new(),
            interceptors: Vec::new(),
            metadata: Vec::new(),
        }
    }
}

/// Whether `calls` are the calls of `node`: they have the ledger of its send
/// queue.
pub open spec fn calls_of<S>(calls: Calls, node: Node<S>) -> bool {
    calls.ledger.queue() == node.inner.channel.mailbox.queue()
}

/// Whether `rx` is a subscription to the status of `node`.
pub open spec fn status_subscribed<S>(node: Node<S>, rx: watch::Receiver<NodeStatus>) -> bool {
    subscribed(node.inner.channel.status.sender(), rx)
}

/// A token that is to be cancelled once the time is up.
pub struct Deadline {
    pub token: CancellationToken,
    pub after: Duration,
}

/// A per-request handle that bundles a [`Node`] with cancellation, deadline,
/// interceptors and metadata. `I` is the type of the interceptors.
pub struct NodeContext<S, I> {
    pub node: Node<S>,
    pub cancel: CancellationToken,
    pub interceptors: Vec<I>,
    pub metadata: Vec<(String, String)>,
}

impl<S, I: Clone> Clone for NodeContext<S, I> {
    fn clone(&self) -> (r: Self)
        ensures
            r.node == self.node,
            r.cancel == self.cancel,
            r.interceptors@.len() == self.interceptors@.len(),
            forall|i: int|
                0 <= i < self.interceptors@.len() ==> cloned::<I>(
                    self.interceptors@[i],
                    #[trigger] r.interceptors@[i],
                ),
            r.metadata@ == self.metadata@,
    {
        NodeContext {
            node: self.node.clone(),
            cancel: self.cancel.clone(),
            interceptors: self.interceptors.clone(),
            metadata: clone_entries(&self.metadata),
        }
    }
}

impl<S, I> NodeContext<S, I> {
    /// Override the cancellation token.
    pub fn with_cancel(self, token: CancellationToken) -> (r: Self)
        ensures
            r == (NodeContext { cancel: token, ..self }),
    {
        NodeContext { cancel: token, ..self }
    }

    /// Set a deadline relative to now: the context gets a child of its token,
    /// and the deadline says when that child is to be cancelled.
    pub fn with_timeout(self, duration: Duration) -> (r: (Self, Deadline))
        ensures
            call_ensures(CancellationToken::child_token, (&self.cancel,), r.0.cancel),
            r.0 == (NodeContext { cancel: r.0.cancel, ..self }),
            r.1 == (Deadline { token: r.0.cancel, after: duration }),
    {
        let child = self.cancel.child_token();
        let deadline = Deadline { token: child.clone(), after: duration };
        (NodeContext { cancel: child, ..self }, deadline)
    }

    /// Append an interceptor to the chain for this call.
    pub fn with_interceptor(self, i: I) -> (r: Self)
        ensures
            r.interceptors@ == self.interceptors@.push(i),
            r.node == self.node,
            r.cancel == self.cancel,
            r.metadata == self.metadata,
    {
        let mut interceptors = self.interceptors;
        interceptors.push(i);
        NodeContext {
            node: self.node,
            cancel: self.cancel,
            interceptors,
            metadata: self.metadata,
        }
    }

    /// Attach a metadata key/value pair to this call. Entries accumulate; of
    /// entries with the same key the last one wins on the wire.
    pub fn with_metadata(self, key: String, value: String) -> (r: Self)
        ensures
            r.metadata@ == self.metadata@.push((key, value)),
            r.node == self.node,
            r.cancel == self.cancel,
            r.interceptors == self.interceptors,
    {
        let mut metadata = self.metadata;
        metadata.push((key, value));
        NodeContext {
            node: self.node,
            cancel: self.cancel,
            interceptors: self.interceptors,
            metadata,
        }
    }

    /// What the interceptors of a call to `method` are told.
    pub fn call_info(&self, method: &str) -> (r: CallInfo)
        ensures
            r@ == (CallInfoView {
                method: method@,
                node_ids: seq![self.node.id()],
                metadata: entries_view(self.metadata@),
            }),
    {
        let mut node_ids: Vec<u32> = Vec::new();
        node_ids.push(self.node.id());
        assert(node_ids@ =~= seq![self.node.id()]);
        CallInfo {
            method: method.to_string(),
            node_ids,
            metadata: clone_entries(&self.metadata),
        }
    }
}

} // verus!
