//! Quorum calls: a framework for fault-tolerant distributed systems.
//!
//! A **quorum call** is one logical call that fans out to all nodes in a
//! configuration, collects responses, and lets the caller decide how many must
//! agree before the call succeeds. All call types share a single stream per
//! pair of nodes.
//!
//! The library holds what the framework decides and computes: which messages
//! are sent to whom, how responses are matched to callers and aggregated, how
//! a node's connection and health are tracked, how a server dispatches its
//! messages, and the code that is generated for a service. Waiting, connecting
//! and spawning tasks is left to the program around it.

use vstd::prelude::*;

pub mod call_types;
pub mod channel;
pub mod codegen;
pub mod config;
pub mod correctable;
pub mod error;
pub mod health;
pub mod interceptor;
pub mod laws;
pub mod manager;
pub mod message;
pub mod method;
pub mod node;
pub mod ordered_responses;
pub mod ordering;
pub mod record;
pub mod responses;
pub mod router;
pub mod server;
pub mod status;
pub mod sync;
pub mod table;
pub mod text;

pub use call_types::{
    correctable_call, multicast, ordered_quorum_call, quorum_call, rpc_call, unicast,
};
pub use config::{ConfigContext, Configuration};
pub use correctable::Correctable;
pub use error::{Error, NodeError, QuorumCallCause, QuorumCallError};
pub use health::{check_node, HealthConfig, HealthStatus, NodeHealthChecker};
pub use interceptor::{CallInfo, ServerCallInfo};
pub use manager::Manager;
pub use method::{
    CorrectableMethod, MulticastMethod, OrderedQuorumCallMethod, QuorumCallMethod, RpcCallMethod,
    UnicastMethod,
};
pub use node::{Node, NodeContext, NodeStatus};
pub use ordered_responses::{OrderedNodeResponse, OrderedResponses};
pub use responses::{NodeResponse, Responses};
pub use server::{Locked, Released, Server, ServerCtx};
pub use status::Status;
pub use tokio_util::sync::CancellationToken;

verus! {

} // verus!
