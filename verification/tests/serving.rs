//! The server side.

use std::sync::Arc;

use tokio::sync::mpsc;

use quorums::health::HEALTH_METHOD;
use quorums::message::{build_wire_message, metadata_map, Message};
use quorums::ordering::{stream_loop, LoopAction, LoopEvent};
use quorums::record::Outbox;
use quorums::server::{
    end_stream, handler_reply, health_check, request_of, Dispatch, Handler, ResponseSender,
};
use quorums::{Server, ServerCtx, Status};

fn wire(method: &str) -> Message {
    let entry = |k: &str, v: &str| (k.to_string(), v.to_string());
    let metadata = metadata_map(&vec![entry("k", "1"), entry("l", "2"), entry("k", "3")]);
    build_wire_message(42, method, vec![1, 2, 3], metadata)
}

fn context(
    wire: &Message,
) -> (ServerCtx, mpsc::UnboundedReceiver<Result<Message, Status>>, Arc<tokio::sync::Mutex<()>>) {
    let lock = Arc::new(tokio::sync::Mutex::new(()));
    let guard = Arc::clone(&lock).try_lock_owned().unwrap();
    let (tx, rx): (ResponseSender, _) = mpsc::unbounded_channel();
    (ServerCtx::new(guard, Outbox::over(tx), wire), rx, lock)
}

#[test]
fn a_server_answers_health_checks_from_the_start() {
    let mut srv: Server<&str, ()> = Server::default();
    assert!(matches!(
        srv.dispatch(&wire(HEALTH_METHOD), Ok(())),
        Dispatch::Invoke(Handler::Health)
    ));
    assert!(health_check().ok);
    srv.register_handler("/a".to_string(), "first");
    srv.register_streaming_handler("/b".to_string(), "stream");
    srv.register_handler("/a".to_string(), "second");
    assert!(matches!(srv.dispatch(&wire("/a"), Ok(())), Dispatch::Invoke(Handler::Unary("second"))));
    assert!(matches!(
        srv.dispatch(&wire("/b"), Ok(())),
        Dispatch::Invoke(Handler::Streaming("stream"))
    ));
    assert!(matches!(srv.dispatch(&wire("/c"), Ok(())), Dispatch::Ignore));
    assert_eq!(srv.handlers.len(), 3);
}

#[test]
fn a_rejected_call_is_answered_with_the_status() {
    let srv: Server<&str, ()> = Server::new();
    let denied = Status::new(7, "blocked".to_string());
    match srv.dispatch(&wire("/a"), Err(denied)) {
        Dispatch::Reply(msg) => {
            assert_eq!((msg.message_seq_no, msg.method.as_str()), (42, "/a"));
            assert_eq!((msg.status_code, msg.status_message.as_str()), (7, "blocked"));
            assert!(msg.payload.is_empty());
            assert_eq!(msg.metadata.len(), 0);
        }
        _ => panic!("rejected"),
    }
    let info = srv.call_info(&wire("/a"), Some("peer".to_string())).clone();
    assert_eq!(info.method, "/a");
    assert_eq!(info.peer_addr, Some("peer".to_string()));
}

#[test]
fn a_handler_answers_with_a_response_a_status_or_nothing() {
    let w = wire("/a");
    assert!(handler_reply(&w, Ok(None)).is_none());
    let msg = handler_reply(&w, Ok(Some(vec![5]))).unwrap();
    assert_eq!((msg.message_seq_no, msg.method.as_str()), (42, "/a"));
    assert_eq!((msg.status_code, msg.status_message.as_str()), (0, ""));
    assert_eq!(msg.payload, vec![5]);
    let msg = handler_reply(&w, Err(Status::new(5, "none".to_string()))).unwrap();
    assert_eq!((msg.status_code, msg.status_message.as_str()), (5, "none"));
    assert!(msg.payload.is_empty());
}

#[test]
fn a_stream_ends_with_the_sentinel() {
    let codes = |outcome| -> Vec<(u64, u32, String)> {
        let (mut end, mut rx) = Outbox::new();
        end_stream(&mut end, 42, "/b", outcome);
        let mut sent = Vec::new();
        while let Ok(Ok(m)) = rx.try_recv() {
            assert_eq!(m.method, "/b");
            sent.push((m.message_seq_no, m.status_code, m.status_message));
        }
        sent
    };
    let done = (42, 0xFFFF_FFFE, String::new());
    assert_eq!(codes(Ok(())), vec![done.clone()]);
    assert_eq!(
        codes(Err(Status::new(10, "aborted".to_string()))),
        vec![(42, 10, "aborted".to_string()), done]
    );
}

#[test]
fn an_undecodable_request_has_no_handler_call() {
    let decode = |bytes: &Vec<u8>| <String as prost::Message>::decode(bytes.as_slice());
    assert_eq!(request_of(&wire("/a"), decode), None);
    let payload = prost::Message::encode_to_vec(&"x".to_string());
    let good = build_wire_message(1, "/a", payload, metadata_map(&vec![]));
    assert_eq!(request_of(&good, decode), Some("x".to_string()));
}

#[test]
fn a_context_sends_under_the_number_of_its_request() {
    let w = wire("/b");
    let (mut ctx, mut rx, lock) = context(&w);
    assert!(lock.try_lock().is_err());
    assert_eq!(ctx.metadata_get("k"), Some("3"));
    assert_eq!(ctx.metadata_get("m"), None);
    assert_eq!(ctx.metadata()[1], ("l".to_string(), "2".to_string()));
    ctx.send(vec![1]).unwrap();
    let mut ctx = ctx.release();
    assert!(lock.try_lock().is_ok());
    assert_eq!(ctx.metadata_get("l"), Some("2"));
    ctx.send(vec![2]).unwrap();
    for payload in [vec![1u8], vec![2]] {
        let msg = rx.try_recv().unwrap().unwrap();
        assert_eq!((msg.message_seq_no, msg.method.as_str()), (42, "/b"));
        assert_eq!(msg.status_code, 0);
        assert_eq!(msg.payload, payload);
    }
    assert!(rx.try_recv().is_err());
    drop(rx);
    let status = ctx.send(vec![3]).unwrap_err();
    assert_eq!((status.code(), status.message()), (14, "stream closed"));
}

#[test]
fn dropping_a_context_releases_its_lock() {
    let (ctx, _rx, lock) = context(&wire("/b"));
    drop(ctx);
    assert!(lock.try_lock().is_ok());
}

#[test]
fn the_lock_comes_before_the_message() {
    let run = [
        (LoopEvent::Started, LoopAction::Lock),
        (LoopEvent::Locked, LoopAction::Receive),
        (LoopEvent::Received, LoopAction::Dispatch),
        (LoopEvent::Dispatched, LoopAction::Lock),
        (LoopEvent::Locked, LoopAction::Receive),
        (LoopEvent::Ended, LoopAction::Stop),
    ];
    for (event, action) in run {
        assert_eq!(stream_loop(event), action);
    }
}
