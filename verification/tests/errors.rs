//! Statuses, errors and their text forms.

use quorums::responses::{incomplete_error, push_failure};
use quorums::text::{push_decimal, same_text, starts_with};
use quorums::{Error, NodeError, QuorumCallCause, QuorumCallError, Status};

fn status(code: i32, message: &str) -> Status {
    Status::new(code, message.to_string())
}

#[test]
fn codes_outside_the_grpc_range_are_unknown() {
    for code in 0..=16 {
        assert_eq!(status(code, "m").code(), code);
    }
    for code in [-1, -2, 17, i32::MIN, i32::MAX] {
        assert_eq!(status(code, "m").code(), 2);
    }
    assert_eq!(status(5, "gone").message(), "gone");
}

#[test]
fn internal_and_unavailable_statuses() {
    let internal = Status::internal("internal error");
    assert_eq!((internal.code(), internal.message()), (13, "internal error"));
    let unavailable = Status::unavailable("stream closed");
    assert_eq!((unavailable.code(), unavailable.message()), (14, "stream closed"));
}

#[test]
fn status_text_is_that_of_tonic() {
    let text = status(7, "no").to_string();
    assert_eq!(text, tonic::Status::permission_denied("no").to_string());
    assert_ne!(text, status(7, "yes").to_string());
    assert_ne!(text, status(5, "no").to_string());
}

#[test]
fn error_texts() {
    let node = NodeError { node_id: 12, cause: status(5, "x") };
    assert_eq!(node.to_string(), format!("node 12: {}", tonic::Status::not_found("x")));
    let call = QuorumCallError { cause: QuorumCallCause::Incomplete, node_errors: vec![node] };
    assert_eq!(call.to_string(), "quorum call error: incomplete (1 node errors)");
    let sends = QuorumCallError { cause: QuorumCallCause::SendFailure, node_errors: vec![] };
    assert_eq!(
        Error::QuorumCall(sends).to_string(),
        "quorum call error: send failure (0 node errors)"
    );
    assert_eq!(Error::NodeClosed.to_string(), "node closed");
    assert_eq!(Error::StreamDown.to_string(), "stream down");
    assert_eq!(Error::Codec("bad".to_string()).to_string(), "codec error: bad");
    assert_eq!(Error::Cancelled.to_string(), "cancelled");
    assert_eq!(
        Error::Transport(status(5, "x")).to_string(),
        format!("transport error: {}", tonic::Status::not_found("x"))
    );
}

#[test]
fn errors_from_their_causes() {
    let cause = <String as prost::Message>::decode(&[0xffu8, 0xff][..]).unwrap_err();
    let text = cause.to_string();
    match Error::from(cause) {
        Error::Codec(t) => assert_eq!(t, text),
        e => panic!("{e:?}"),
    }
    assert!(matches!(Error::from(status(3, "m")), Error::Transport(s) if s.code() == 3));
    let call = QuorumCallError { cause: QuorumCallCause::SendFailure, node_errors: vec![] };
    assert!(matches!(Error::from(call), Error::QuorumCall(_)));
}

#[test]
fn clones_say_the_same() {
    let call = QuorumCallError {
        cause: QuorumCallCause::Incomplete,
        node_errors: vec![NodeError { node_id: 3, cause: status(9, "c") }],
    };
    match Error::QuorumCall(call).clone() {
        Error::QuorumCall(e) => {
            assert_eq!(e.cause, QuorumCallCause::Incomplete);
            assert_eq!(e.node_errors.len(), 1);
            assert_eq!(e.node_errors[0].node_id, 3);
            assert_eq!(e.node_errors[0].cause.code(), 9);
            assert_eq!(e.node_errors[0].cause.message(), "c");
        }
        e => panic!("{e:?}"),
    }
    assert!(matches!(Error::StreamDown.clone(), Error::StreamDown));
    assert!(matches!(Error::NodeClosed.clone(), Error::NodeClosed));
    assert!(matches!(Error::Cancelled.clone(), Error::Cancelled));
    assert!(matches!(Error::Codec("t".into()).clone(), Error::Codec(t) if t == "t"));
    assert!(matches!(Error::Transport(status(1, "x")).clone(), Error::Transport(s) if s.code() == 1));
}

#[test]
fn failed_replies_become_node_errors() {
    let mut errors = Vec::new();
    push_failure(&mut errors, 4, Error::Transport(status(7, "denied")));
    push_failure(&mut errors, 5, Error::StreamDown);
    match incomplete_error(errors) {
        Error::QuorumCall(e) => {
            assert_eq!(e.cause, QuorumCallCause::Incomplete);
            let got: Vec<_> = e
                .node_errors
                .iter()
                .map(|n| (n.node_id, n.cause.code(), n.cause.message().to_string()))
                .collect();
            assert_eq!(
                got,
                vec![(4, 7, "denied".to_string()), (5, 13, "internal error".to_string())]
            );
        }
        e => panic!("{e:?}"),
    }
}

#[test]
fn decimal_numbers() {
    for n in [0u64, 7, 9, 10, 99, 100, 4_294_967_295, u64::MAX] {
        let mut text = "n=".to_string();
        push_decimal(&mut text, n);
        assert_eq!(text, format!("n={n}"));
    }
}

#[test]
fn prefixes_and_equal_texts() {
    assert!(starts_with("http://x", "http://"));
    assert!(starts_with("http://", "http://"));
    assert!(!starts_with("http:/", "http://"));
    assert!(!starts_with("https://x", "http://"));
    assert!(starts_with("x", ""));
    assert!(same_text("a—b", "a—b"));
    assert!(!same_text("ab", "abc"));
    assert!(!same_text("ab", "ac"));
}

#[test]
fn a_received_status_prints_what_came_with_it() {
    let mut metadata = tonic::metadata::MetadataMap::new();
    metadata.insert("retry", "later".parse().unwrap());
    let details = vec![1u8, 2, 3].into();
    let outside =
        tonic::Status::with_details_and_metadata(tonic::Code::Aborted, "busy", details, metadata);
    let s = Status::received(10, "busy".to_string(), outside.to_string());
    assert_eq!((s.code(), s.message()), (10, "busy"));
    assert_eq!(s.to_string(), outside.to_string());
    assert_eq!(s.clone().to_string(), outside.to_string());
    assert_ne!(s.to_string(), Status::new(10, "busy".to_string()).to_string());
    let e = Error::Transport(s);
    assert_eq!(e.to_string(), format!("transport error: {outside}"));
}
