//! The errors of the quorum runtime.

use vstd::prelude::*;
use vstd::string::to_string_from_display_ensures;

use crate::status::{Status, StatusView};
use crate::text::{decimal, push_decimal};

verus! {

/// `prost::DecodeError`, the error of a payload that is no message.
#[verifier::external_type_specification]
#[verifier::external_body]
pub struct ExDecodeError(prost::DecodeError);

/// Per-node error accumulated inside a [`QuorumCallError`].
#[derive(Debug)]
pub struct NodeError {
    pub node_id: u32,
    pub cause: Status,
}

/// What a [`NodeError`] says.
pub struct NodeErrorView {
    pub node_id: u32,
    pub cause: StatusView,
}

impl View for NodeError {
    type V = NodeErrorView;

    open spec fn view(&self) -> NodeErrorView {
        NodeErrorView { node_id: self.node_id, cause: self.cause@ }
    }
}

impl Clone for NodeError {
    fn clone(&self) -> (r: Self)
        ensures
            r == *self,
    {
        NodeError { node_id: self.node_id, cause: self.cause.clone() }
    }
}

/// What a list of node errors says.
pub open spec fn node_errors_view(errors: Seq<NodeError>) -> Seq<NodeErrorView> {
    errors.map_values(|e: NodeError| e@)
}

/// Why a quorum call failed.
#[derive(Debug, Clone, Copy, PartialEq, Eq, Structural)]
pub enum QuorumCallCause {
    Incomplete,
    SendFailure,
}

/// Returned by the terminal methods of a quorum call when the call fails.
#[derive(Debug)]
pub struct QuorumCallError {
    pub cause: QuorumCallCause,
    pub node_errors: Vec<NodeError>,
}

/// What a [`QuorumCallError`] says.
pub struct QuorumCallErrorView {
    pub cause: QuorumCallCause,
    pub node_errors: Seq<NodeErrorView>,
}

impl View for QuorumCallError {
    type V = QuorumCallErrorView;

    open spec fn view(&self) -> QuorumCallErrorView {
        QuorumCallErrorView {
            cause: self.cause,
            node_errors: node_errors_view(self.node_errors@),
        }
    }
}

impl Clone for QuorumCallError {
    fn clone(&self) -> (r: Self)
        ensures
            r@ == self@,
    {
        let node_errors = self.node_errors.clone();
        let r = QuorumCallError { cause: self.cause, node_errors };
        assert(r@.node_errors =~= self@.node_errors);
        r
    }
}

/// All errors that the runtime can produce.
#[derive(Debug)]
pub enum Error {
    QuorumCall(QuorumCallError),
    /// The node's channel was closed before the call completed.
    NodeClosed,
    /// The gRPC stream broke.
    StreamDown,
    /// A message could not be decoded.
    Codec(String),
    /// The operation was cancelled, by its token or its deadline.
    Cancelled,
    /// The peer or the transport answered with a status.
    Transport(Status),
}

/// What an [`Error`] says.
pub enum ErrorView {
    QuorumCall(QuorumCallErrorView),
    NodeClosed,
    StreamDown,
    Codec(Seq<char>),
    Cancelled,
    Transport(StatusView),
}

impl View for Error {
    type V = ErrorView;

    open spec fn view(&self) -> ErrorView {
        match self {
            Error::QuorumCall(e) => ErrorView::QuorumCall(e@),
            Error::NodeClosed => ErrorView::NodeClosed,
            Error::StreamDown => ErrorView::StreamDown,
            Error::Codec(text) => ErrorView::Codec(text@),
            Error::Cancelled => ErrorView::Cancelled,
            Error::Transport(status) => ErrorView::Transport(status@),
        }
    }
}

/// A result, with what its error says in place of the error.
pub open spec fn result_view<T>(r: Result<T, Error>) -> Result<T, ErrorView> {
    match r {
        Ok(v) => Ok(v),
        Err(e) => Err(e@),
    }
}

impl Clone for Error {
    fn clone(&self) -> (r: Self)
        ensures
            r@ == self@,
            !(self is QuorumCall) ==> r == *self,
    {
        match self {
            Error::QuorumCall(e) => Error::QuorumCall(e.clone()),
            Error::NodeClosed => Error::NodeClosed,
            Error::StreamDown => Error::StreamDown,
            Error::Codec(text) => Error::Codec(text.clone()),
            Error::Cancelled => Error::Cancelled,
            Error::Transport(status) => Error::Transport(status.clone()),
        }
    }
}

/// The error of a call that ended before its quorum was reached.
pub open spec fn incomplete(node_errors: Seq<NodeErrorView>) -> ErrorView {
    ErrorView::QuorumCall(
        QuorumCallErrorView { cause: QuorumCallCause::Incomplete, node_errors },
    )
}

/// The error of a fan-out that some node did not take.
pub open spec fn send_failure(node_errors: Seq<NodeErrorView>) -> ErrorView {
    ErrorView::QuorumCall(
        QuorumCallErrorView { cause: QuorumCallCause::SendFailure, node_errors },
    )
}

/// The text form of a [`NodeError`].
pub open spec fn node_error_text(e: NodeErrorView) -> Seq<char> {
    "node "@ + decimal(e.node_id as nat) + ": "@ + e.cause.text
}

/// The word for the cause of a failed quorum call.
pub open spec fn cause_text(cause: QuorumCallCause) -> Seq<char> {
    match cause {
        QuorumCallCause::Incomplete => "incomplete"@,
        QuorumCallCause::SendFailure => "send failure"@,
    }
}

/// The text form of a [`QuorumCallError`].
pub open spec fn quorum_call_error_text(e: QuorumCallErrorView) -> Seq<char> {
    "quorum call error: "@ + cause_text(e.cause) + " ("@ + decimal(e.node_errors.len())
        + " node errors)"@
}

/// The text form of an [`Error`].
pub open spec fn error_text(e: ErrorView) -> Seq<char> {
    match e {
        ErrorView::QuorumCall(e) => quorum_call_error_text(e),
        ErrorView::NodeClosed => "node closed"@,
        ErrorView::StreamDown => "stream down"@,
        ErrorView::Codec(text) => "codec error: "@ + text,
        ErrorView::Cancelled => "cancelled"@,
        ErrorView::Transport(s) => "transport error: "@ + s.text,
    }
}

impl NodeError {
    /// The error as text.
    pub fn to_string(&self) -> (r: String)
        ensures
            r@ == node_error_text(self@),
    {
        let mut r = "node ".to_string();
        push_decimal(&mut r, self.node_id as u64);
        r.append(": ");
        r.append(self.cause.to_string().as_str());
        r
    }
}

impl QuorumCallError {
    /// The error as text.
    pub fn to_string(&self) -> (r: String)
        ensures
            r@ == quorum_call_error_text(self@),
    {
        let mut r = "quorum call error: ".to_string();
        match self.cause {
            QuorumCallCause::Incomplete => r.append("incomplete"),
            QuorumCallCause::SendFailure => r.append("send failure"),
        }
        r.append(" (");
        push_decimal(&mut r, self.node_errors.len() as u64);
        r.append(" node errors)");
        r
    }
}

impl Error {
    /// The error as text.
    pub fn to_string(&self) -> (r: String)
        ensures
            r@ == error_text(self@),
    {
        match self {
            Error::QuorumCall(e) => e.to_string(),
            Error::NodeClosed => "node closed".to_string(),
            Error::StreamDown => "stream down".to_string(),
            Error::Codec(text) => "codec error: ".to_string().concat(text.as_str()),
            Error::Cancelled => "cancelled".to_string(),
            Error::Transport(status) => "transport error: ".to_string().concat(
                status.to_string().as_str(),
            ),
        }
    }
}

/// What [`Error`] says of a message that `prost` could not decode: a codec
/// error with the text that the `prost` error prints.
pub open spec fn is_codec_error_of(e: Error, cause: prost::DecodeError) -> bool {
    e matches Error::Codec(text) && to_string_from_display_ensures::<prost::DecodeError>(
        &cause,
        text,
    )
}

impl From<prost::DecodeError> for Error {
    fn from(e: prost::DecodeError) -> (r: Error)
        ensures
            is_codec_error_of(r, e),
    {
        Error::Codec(e.to_string())
    }
}

impl vstd::std_specs::convert::FromSpecImpl<prost::DecodeError> for Error {
    open spec fn obeys_from_spec() -> bool {
        false
    }

    open spec fn from_spec(e: prost::DecodeError) -> Error {
        arbitrary()
    }
}

impl From<Status> for Error {
    fn from(s: Status) -> (r: Error) {
        Error::Transport(s)
    }
}

impl vstd::std_specs::convert::FromSpecImpl<Status> for Error {
    open spec fn obeys_from_spec() -> bool {
        true
    }

    open spec fn from_spec(s: Status) -> Error {
        Error::Transport(s)
    }
}

impl From<QuorumCallError> for Error {
    fn from(e: QuorumCallError) -> (r: Error) {
        Error::QuorumCall(e)
    }
}

impl vstd::std_specs::convert::FromSpecImpl<QuorumCallError> for Error {
    open spec fn obeys_from_spec() -> bool {
        true
    }

    open spec fn from_spec(e: QuorumCallError) -> Error {
        Error::QuorumCall(e)
    }
}

} // verus!
