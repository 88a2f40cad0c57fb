//! Typed method handles.
//!
//! Each trait is implemented by a zero-sized struct that carries the gRPC
//! path and the request and response types. Passing a handle to a call makes
//! a type mismatch a compile error.
//!
//! The code generator emits handle structs and trait impls from service
//! descriptions; see [`codegen`][crate::codegen].

use vstd::prelude::*;

verus! {

/// Typed handle for [`rpc_call`][crate::call_types::rpc_call]: a single-node
/// two-way call.
pub trait RpcCallMethod {
    type Req;

    type Resp;

    const PATH: &'static str;
}

/// Typed handle for [`unicast`][crate::call_types::unicast]: a single-node
/// one-way message.
pub trait UnicastMethod {
    type Req;

    const PATH: &'static str;
}

/// Typed handle for [`multicast`][crate::call_types::multicast]: a one-way
/// message to every node in a configuration.
pub trait MulticastMethod {
    type Req;

    const PATH: &'static str;
}

/// Typed handle for [`quorum_call`][crate::call_types::quorum_call]: a two-way
/// call to every node in a configuration.
pub trait QuorumCallMethod {
    type Req;

    type Resp;

    const PATH: &'static str;
}

/// Typed handle for
/// [`ordered_quorum_call`][crate::call_types::ordered_quorum_call]: a two-way
/// call to every node in a configuration, with position-tagged results.
pub trait OrderedQuorumCallMethod {
    type Req;

    type Resp;

    const PATH: &'static str;
}

/// Typed handle for [`correctable_call`][crate::call_types::correctable_call]:
/// a streaming call to every node in a configuration.
pub trait CorrectableMethod {
    type Req;

    type Resp;

    const PATH: &'static str;
}

} // verus!
