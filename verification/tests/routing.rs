//! The channel to a node: pending calls, sequence numbers, sending and
//! receiving.

use std::sync::Mutex;

use tokio::sync::{mpsc, oneshot};

use quorums::channel::{
    endpoint_uri, receive_step, sender_step, Calls, ConnectionAction, ConnectionEvent, Inbound,
    NodeChannel, OutboundRequest, SenderStep,
};
use quorums::message::{build_wire_message, metadata_map, Message, STATUS_STREAM_DONE};
use quorums::record::Outbox;
use quorums::router::Router;
use quorums::server::{failure_message, reply_message, stream_done_message};
use quorums::{Error, NodeStatus, Status};

type Answer = Result<Message, Error>;

fn request(seq: u64) -> Message {
    build_wire_message(seq, "/m", vec![1, 2], metadata_map(&vec![]))
}

fn pending(router: &mut Router, seq: u64) -> oneshot::Receiver<Answer> {
    let (tx, rx) = oneshot::channel();
    router.register_with_sender(seq, tx);
    rx
}

#[test]
fn a_response_goes_to_its_caller_and_to_no_other() {
    let mut router = Router::new();
    let mut one = pending(&mut router, 1);
    let mut two = pending(&mut router, 2);
    router.deliver(2, Ok(request(2)));
    assert_eq!(two.try_recv().unwrap().unwrap().message_seq_no, 2);
    assert!(one.try_recv().is_err());
    router.deliver(1, Err(Error::NodeClosed));
    assert!(matches!(one.try_recv(), Ok(Err(Error::NodeClosed))));
}

#[test]
fn a_one_shot_call_is_answered_once() {
    let mut router = Router::new();
    let mut rx = pending(&mut router, 1);
    router.deliver(1, Ok(reply_message(1, "/m", vec![7])));
    router.deliver(1, Ok(reply_message(1, "/m", vec![8])));
    assert_eq!(rx.try_recv().unwrap().unwrap().payload, vec![7]);
    assert!(rx.try_recv().is_err());
}

#[test]
fn a_stream_stays_open_until_it_is_closed() {
    let mut router = Router::new();
    let mut rx = router.register_stream(5);
    for i in 0..3u8 {
        router.deliver(5, Ok(reply_message(5, "/m", vec![i])));
    }
    for i in 0..3u8 {
        assert_eq!(rx.try_recv().unwrap().unwrap().payload, vec![i]);
    }
    assert_eq!(rx.try_recv().unwrap_err(), mpsc::error::TryRecvError::Empty);
    router.close_stream(5);
    assert_eq!(rx.try_recv().unwrap_err(), mpsc::error::TryRecvError::Disconnected);
    router.deliver(5, Ok(reply_message(5, "/m", vec![9])));
}

#[test]
fn cancelling_tells_every_caller() {
    let mut router = Router::new();
    let mut one = pending(&mut router, 1);
    let mut two = router.register_stream(2);
    router.cancel_all(Error::StreamDown);
    assert!(matches!(one.try_recv(), Ok(Err(Error::StreamDown))));
    assert!(matches!(two.try_recv(), Ok(Err(Error::StreamDown))));
    assert_eq!(two.try_recv().unwrap_err(), mpsc::error::TryRecvError::Disconnected);
}

#[test]
fn sequence_numbers_start_at_one_and_increase() {
    let mut calls = NodeChannel::connect(|calls: Calls| calls).0.calls;
    assert_eq!(calls.next_seq(), 1);
    assert_eq!(calls.next_seq(), 2);
    let mut rx = calls.register_stream(2);
    calls.router.deliver(2, Err(Error::Cancelled));
    assert!(matches!(rx.try_recv(), Ok(Err(Error::Cancelled))));
    assert_eq!(calls.next_seq(), 3);
}

#[test]
fn requests_are_enqueued_until_the_task_is_gone() {
    let (channel, task) = NodeChannel::connect(Mutex::new);
    let mut calls = channel.calls.lock().unwrap();
    assert_eq!(channel.current_status(), NodeStatus::Connecting);
    let req = |seq| OutboundRequest { msg: request(seq), response_tx: None, send_ack: None };
    let mut queue = task.send_rx;
    assert!(channel.enqueue(&mut calls, req(1)).is_ok());
    assert!(channel.enqueue(&mut calls, req(2)).is_ok());
    assert_eq!(queue.try_recv().unwrap().msg.message_seq_no, 1);
    assert_eq!(queue.try_recv().unwrap().msg.message_seq_no, 2);
    drop(queue);
    assert!(matches!(channel.enqueue(&mut calls, req(3)), Err(Error::NodeClosed)));
}

#[test]
fn the_sender_registers_sends_and_acknowledges() {
    let (mut wire, mut wire_rx) = Outbox::new();
    let mut router = Router::new();
    let (tx, mut response) = oneshot::channel();
    let (ack_tx, mut ack) = oneshot::channel();
    let req = OutboundRequest { msg: request(4), response_tx: Some(tx), send_ack: Some(ack_tx) };
    assert_eq!(sender_step(Some(req), &mut wire, &mut router), SenderStep::Sent);
    assert_eq!(wire_rx.try_recv().unwrap().message_seq_no, 4);
    assert!(matches!(ack.try_recv(), Ok(Ok(()))));
    router.deliver(4, Ok(reply_message(4, "/m", vec![])));
    assert!(matches!(response.try_recv(), Ok(Ok(_))));
    assert_eq!(sender_step(None, &mut wire, &mut router), SenderStep::Shutdown);
}

#[test]
fn a_dead_stream_fails_the_request_and_its_caller() {
    let (mut wire, wire_rx) = Outbox::new();
    drop(wire_rx);
    let mut router = Router::new();
    let (tx, mut response) = oneshot::channel();
    let (ack_tx, mut ack) = oneshot::channel();
    let req = OutboundRequest { msg: request(4), response_tx: Some(tx), send_ack: Some(ack_tx) };
    assert_eq!(sender_step(Some(req), &mut wire, &mut router), SenderStep::StreamDied);
    assert!(matches!(ack.try_recv(), Ok(Err(Error::StreamDown))));
    router.cancel_all(Error::StreamDown);
    assert!(matches!(response.try_recv(), Ok(Err(Error::StreamDown))));
}

#[test]
fn messages_are_read_by_their_status() {
    let mut router = Router::new();
    let mut ok = pending(&mut router, 1);
    let mut bad = pending(&mut router, 2);
    let mut odd = pending(&mut router, 3);
    let mut stream = router.register_stream(4);
    let reply = reply_message(1, "/m", vec![6]);
    assert!(receive_step(Inbound::Message(reply), &mut router));
    assert_eq!(ok.try_recv().unwrap().unwrap().payload, vec![6]);
    let failure = failure_message(2, "/m", &Status::new(7, "no".to_string()));
    assert!(receive_step(Inbound::Message(failure), &mut router));
    match bad.try_recv() {
        Ok(Err(Error::Transport(s))) => assert_eq!((s.code(), s.message()), (7, "no")),
        r => panic!("{r:?}"),
    }
    let mut strange = reply_message(3, "/m", vec![]);
    strange.status_code = 0xFFFF_FFFF;
    assert!(receive_step(Inbound::Message(strange), &mut router));
    match odd.try_recv() {
        Ok(Err(Error::Transport(s))) => assert_eq!(s.code(), 2),
        r => panic!("{r:?}"),
    }
    assert_eq!(STATUS_STREAM_DONE, 0xFFFF_FFFE);
    assert!(receive_step(Inbound::Message(stream_done_message(4, "/m")), &mut router));
    assert_eq!(stream.try_recv().unwrap_err(), mpsc::error::TryRecvError::Disconnected);
}

#[test]
fn a_broken_stream_cancels_and_a_closed_one_does_not() {
    let mut router = Router::new();
    let mut rx = pending(&mut router, 1);
    assert!(!receive_step(Inbound::End, &mut router));
    assert!(rx.try_recv().is_err());
    assert!(!receive_step(Inbound::Failed(Status::unavailable("gone")), &mut router));
    match rx.try_recv() {
        Ok(Err(Error::Transport(s))) => assert_eq!((s.code(), s.message()), (14, "gone")),
        r => panic!("{r:?}"),
    }
}

#[test]
fn addresses_get_a_scheme() {
    assert_eq!(endpoint_uri("127.0.0.1:80"), "http://127.0.0.1:80");
    assert_eq!(endpoint_uri("http://a"), "http://a");
    assert_eq!(endpoint_uri("https://a"), "https://a");
    assert_eq!(endpoint_uri("httpx://a"), "http://httpx://a");
}

#[test]
fn a_cancelled_stream_gets_one_error_and_ends() {
    let mut router = Router::new();
    let mut rx = router.register_stream(1);
    router.deliver(1, Ok(reply_message(1, "/m", vec![3])));
    router.cancel_all(Error::StreamDown);
    router.cancel_all(Error::NodeClosed);
    router.deliver(1, Ok(reply_message(1, "/m", vec![4])));
    assert_eq!(rx.try_recv().unwrap().unwrap().payload, vec![3]);
    assert!(matches!(rx.try_recv(), Ok(Err(Error::StreamDown))));
    assert_eq!(rx.try_recv().unwrap_err(), mpsc::error::TryRecvError::Disconnected);
    let mut again = router.register_stream(1);
    router.deliver(1, Ok(reply_message(1, "/m", vec![5])));
    assert_eq!(again.try_recv().unwrap().unwrap().payload, vec![5]);
}

#[test]
fn a_node_shows_what_happened_last() {
    let (channel, task) = NodeChannel::connect(|_: Calls| ());
    let mut connection = task.connection;
    let mut router = Router::new();
    let mut rx = channel.subscribe_status();
    let expected = [
        (ConnectionEvent::Due, NodeStatus::Connecting, ConnectionAction::Connect),
        (ConnectionEvent::ConnectFailed, NodeStatus::Unreachable, ConnectionAction::Backoff(500)),
        (ConnectionEvent::Due, NodeStatus::Reconnecting, ConnectionAction::Connect),
        (
            ConnectionEvent::ConnectSucceeded,
            NodeStatus::Reconnecting,
            ConnectionAction::OpenStream,
        ),
        (ConnectionEvent::OpenFailed, NodeStatus::Unreachable, ConnectionAction::Backoff(200)),
        (ConnectionEvent::Due, NodeStatus::Reconnecting, ConnectionAction::Connect),
        (
            ConnectionEvent::ConnectSucceeded,
            NodeStatus::Reconnecting,
            ConnectionAction::OpenStream,
        ),
        (ConnectionEvent::Opened, NodeStatus::Connected, ConnectionAction::Serve),
        (ConnectionEvent::StreamDied, NodeStatus::Reconnecting, ConnectionAction::Backoff(200)),
        (ConnectionEvent::Shutdown, NodeStatus::Closed, ConnectionAction::Stop),
    ];
    for (event, status, action) in expected {
        assert_eq!(connection.on_event(event, &mut router), action);
        assert_eq!(channel.current_status(), status);
        assert_eq!(rx.has_changed().unwrap(), event != ConnectionEvent::ConnectSucceeded);
        assert_eq!(*rx.borrow_and_update(), status);
    }
    let mut pending = pending(&mut router, 1);
    assert_eq!(connection.on_event(ConnectionEvent::StreamDied, &mut router), ConnectionAction::Stop);
    assert_eq!(channel.current_status(), NodeStatus::Closed);
    assert!(!rx.has_changed().unwrap());
    assert!(pending.try_recv().is_err());
}
