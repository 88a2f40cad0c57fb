//! Collectors of replies.

use std::marker::PhantomData;

use quorums::call_types::MulticastAcks;
use quorums::correctable::DistinctThreshold;
use quorums::ordered_responses::OrderedThreshold;
use quorums::responses::{Event, Step, Threshold};
use quorums::{
    CancellationToken, Correctable, Error, NodeResponse, OrderedNodeResponse, OrderedResponses,
    QuorumCallCause, Responses, Status,
};

fn ok(node_id: u32, value: u32) -> Event<NodeResponse<u32>> {
    Event::Reply(NodeResponse { node_id, result: Ok(value) })
}

fn failed(node_id: u32) -> Event<NodeResponse<u32>> {
    let status = Status::new(14, format!("down{node_id}"));
    Event::Reply(NodeResponse { node_id, result: Err(Error::Transport(status)) })
}

fn dropped(node_id: u32) -> Event<NodeResponse<u32>> {
    Event::Reply(NodeResponse { node_id, result: Err(Error::NodeClosed) })
}

fn at(position: usize, value: u32) -> Event<OrderedNodeResponse<u32>> {
    Event::Reply(OrderedNodeResponse { position, node_id: position as u32 + 1, result: Ok(value) })
}

fn responses(size: usize, launch: Option<&'static str>) -> Responses<u32, &'static str> {
    Responses { size, cancel: CancellationToken::new(), launch, values: PhantomData }
}

/// The result after these events, and the number of events that were needed.
fn run_threshold(
    mut waiting: Threshold<u32>,
    events: Vec<Event<NodeResponse<u32>>>,
) -> (Option<Result<u32, Error>>, usize) {
    let mut taken = 0;
    for event in events {
        taken += 1;
        match waiting.on_event(event) {
            Step::Wait(next) => waiting = next,
            Step::Done(r) => return (Some(r), taken),
        }
    }
    (None, taken)
}

fn run_distinct(
    mut waiting: DistinctThreshold<u32>,
    events: Vec<Event<NodeResponse<u32>>>,
) -> (Option<Result<u32, Error>>, usize) {
    let mut taken = 0;
    for event in events {
        taken += 1;
        match waiting.on_event(event) {
            Step::Wait(next) => waiting = next,
            Step::Done(r) => return (Some(r), taken),
        }
    }
    (None, taken)
}

fn run_ordered(
    mut waiting: OrderedThreshold<u32>,
    events: Vec<Event<OrderedNodeResponse<u32>>>,
) -> Option<Result<u32, Error>> {
    for event in events {
        match waiting.on_event(event) {
            Step::Wait(next) => waiting = next,
            Step::Done(r) => return Some(r),
        }
    }
    None
}

fn node_errors(r: Option<Result<u32, Error>>) -> Vec<(u32, i32, String)> {
    match r {
        Some(Err(Error::QuorumCall(e))) => {
            assert_eq!(e.cause, QuorumCallCause::Incomplete);
            e.node_errors
                .iter()
                .map(|n| (n.node_id, n.cause.code(), n.cause.message().to_string()))
                .collect()
        }
        r => panic!("{r:?}"),
    }
}

#[test]
fn a_threshold_returns_the_first_success() {
    let events = || vec![failed(1), ok(2, 20), ok(3, 30), ok(4, 40), Event::Closed];
    let (r, taken) = run_threshold(responses(4, None).threshold(2).1, events());
    assert_eq!((r.unwrap().unwrap(), taken), (20, 3));
    let (r, taken) = run_threshold(responses(4, None).first().1, events());
    assert_eq!((r.unwrap().unwrap(), taken), (20, 2));
    let (r, taken) = run_threshold(responses(4, None).majority().1, events());
    assert_eq!((r.unwrap().unwrap(), taken), (20, 4));
    let (r, _) = run_threshold(responses(4, None).all().1, events());
    assert_eq!(node_errors(r), vec![(1, 14, "down1".to_string())]);
    let (r, taken) = run_threshold(responses(4, None).threshold(0).1, events());
    assert_eq!((r.unwrap().unwrap(), taken), (20, 2));
}

#[test]
fn an_incomplete_call_names_every_failure() {
    let events = vec![failed(1), dropped(2), ok(3, 30), Event::Closed];
    let (r, _) = run_threshold(responses(3, None).majority().1, events);
    assert_eq!(
        node_errors(r),
        vec![(1, 14, "down1".to_string()), (2, 13, "internal error".to_string())]
    );
}

#[test]
fn a_cancelled_call_is_cancelled_whatever_arrived() {
    let (r, _) =
        run_threshold(responses(3, None).majority().1, vec![ok(1, 10), Event::Cancelled]);
    assert!(matches!(r, Some(Err(Error::Cancelled))));
    let (r, _) = run_distinct(correctable(3).majority(), vec![ok(1, 10), Event::Cancelled]);
    assert!(matches!(r, Some(Err(Error::Cancelled))));
    let r = run_ordered(ordered(3).majority().1, vec![at(1, 10), Event::Cancelled]);
    assert!(matches!(r, Some(Err(Error::Cancelled))));
}

#[test]
fn majorities_of_small_configurations() {
    for (n, q) in [(1usize, 1usize), (2, 2), (3, 2), (4, 3), (5, 3), (7, 4)] {
        let events = (1..=n as u32).map(|i| ok(i, i)).collect();
        let (r, taken) = run_threshold(responses(n, None).majority().1, events);
        assert_eq!((r.unwrap().unwrap(), taken), (1, q));
    }
}

#[test]
fn the_fan_out_is_handed_out_once() {
    let mut r = responses(3, Some("fan-out"));
    assert_eq!(r.size(), 3);
    assert_eq!(r.send_now(), Some("fan-out"));
    assert_eq!(r.send_now(), None);
    assert_eq!(r.majority().0, None);
    assert_eq!(responses(3, Some("fan-out")).all().0, Some("fan-out"));
    assert_eq!(responses(3, Some("fan-out")).quorum().0, Some("fan-out"));
    let mut o = ordered(3);
    o.launch = Some("fan-out");
    assert_eq!(o.size(), 3);
    assert_eq!(o.send_now(), Some("fan-out"));
    assert_eq!(o.send_now(), None);
}

#[test]
fn a_quorum_function_sees_all_successes() {
    let mut waiting = responses(3, None).quorum().1;
    let mut seen: Vec<Vec<u32>> = Vec::new();
    for event in vec![ok(1, 5), failed(2), dropped(4), ok(3, 6)] {
        let watch = |oks: &[u32]| {
            seen.push(oks.to_vec());
            None
        };
        match waiting.on_event(event, watch) {
            Step::Wait(next) => waiting = next,
            Step::Done(r) => panic!("{r:?}"),
        }
    }
    assert_eq!(seen, vec![vec![5], vec![5, 6]]);
    match waiting.on_event(Event::Closed, |_: &[u32]| Some(1)) {
        Step::Done(r) => {
            assert_eq!(node_errors(Some(r)), vec![(2, 14, "down2".to_string())]);
        }
        _ => panic!("closed"),
    }
}

#[test]
fn a_quorum_function_resolves_the_call() {
    let waiting = responses(3, None).quorum().1;
    match waiting.on_event(ok(1, 5), |oks: &[u32]| Some(oks[0] + 94)) {
        Step::Done(Ok(v)) => assert_eq!(v, 99),
        _ => panic!("resolved"),
    }
    match responses(3, None).quorum().1.on_event(Event::Cancelled, |_: &[u32]| Some(1)) {
        Step::Done(Err(Error::Cancelled)) => {}
        _ => panic!("cancelled"),
    }
}

// ── Ordered ───────────────────────────────────────────────────────────────────

fn ordered(size: usize) -> OrderedResponses<u32, &'static str> {
    OrderedResponses {
        size,
        cancel: CancellationToken::new(),
        launch: None,
        values: PhantomData,
    }
}

#[test]
fn an_ordered_call_returns_the_lowest_position() {
    let r = run_ordered(ordered(4).threshold(3).1, vec![at(3, 33), at(1, 11), at(2, 22)]);
    assert_eq!(r.unwrap().unwrap(), 11);
    let r = run_ordered(ordered(4).first().1, vec![at(3, 33)]);
    assert_eq!(r.unwrap().unwrap(), 33);
    let r = run_ordered(ordered(2).all().1, vec![at(1, 11), at(0, 0)]);
    assert_eq!(r.unwrap().unwrap(), 0);
    assert!(run_ordered(ordered(3).majority().1, vec![at(2, 22)]).is_none());
}

#[test]
fn an_ordered_call_names_every_failure() {
    let failure = |position, node_id, e| {
        Event::Reply(OrderedNodeResponse { position, node_id, result: Err(e) })
    };
    let events = vec![
        failure(0, 1, Error::Transport(Status::new(5, "gone".to_string()))),
        failure(1, 2, Error::StreamDown),
        Event::Closed,
    ];
    let r = run_ordered(ordered(2).first().1, events);
    assert_eq!(
        node_errors(r),
        vec![(1, 5, "gone".to_string()), (2, 13, "internal error".to_string())]
    );
}

#[test]
fn an_ordered_quorum_function_sees_positions() {
    let mut waiting = ordered(3).quorum().1;
    let mut seen = Vec::new();
    for event in vec![at(2, 22), at(0, 0)] {
        let watch = |slots: &[Option<u32>]| {
            seen.push(slots.to_vec());
            None
        };
        match waiting.on_event(event, watch) {
            Step::Wait(next) => waiting = next,
            Step::Done(r) => panic!("{r:?}"),
        }
    }
    assert_eq!(seen, vec![vec![None, None, Some(22)], vec![Some(0), None, Some(22)]]);
    let lost = OrderedNodeResponse { position: 1, node_id: 2, result: Err(Error::NodeClosed) };
    let waiting = match waiting.on_event(Event::Reply(lost), |_: &[Option<u32>]| Some(1)) {
        Step::Wait(next) => next,
        Step::Done(_) => panic!("a failure is not asked about"),
    };
    match waiting.on_event(Event::Closed, |_: &[Option<u32>]| Some(1)) {
        Step::Done(r) => assert_eq!(node_errors(Some(r)), vec![]),
        _ => panic!("closed"),
    }
}

// ── Correctable ───────────────────────────────────────────────────────────────

fn correctable(size: usize) -> Correctable<u32> {
    Correctable { size, cancel: CancellationToken::new(), values: PhantomData }
}

#[test]
fn a_correctable_call_counts_distinct_nodes() {
    let events = || vec![ok(1, 10), ok(1, 11), ok(2, 20), ok(1, 12), ok(3, 30)];
    assert_eq!(correctable(3).size(), 3);
    let (r, taken) = run_distinct(correctable(3).majority(), events());
    assert_eq!((r.unwrap().unwrap(), taken), (20, 3));
    let (r, taken) = run_distinct(correctable(3).all(), events());
    assert_eq!((r.unwrap().unwrap(), taken), (30, 5));
    let (r, taken) = run_distinct(correctable(3).first(), events());
    assert_eq!((r.unwrap().unwrap(), taken), (10, 1));
}

#[test]
fn a_correctable_call_gives_up_when_too_many_nodes_fail() {
    let (r, taken) = run_distinct(
        correctable(3).majority(),
        vec![failed(1), failed(1), dropped(3), failed(2), ok(3, 30)],
    );
    assert_eq!(taken, 4);
    assert_eq!(
        node_errors(r),
        vec![(1, 14, "down1".to_string()), (2, 14, "down2".to_string())]
    );
    let (r, taken) = run_distinct(correctable(2).threshold(5), vec![ok(1, 10), failed(2)]);
    assert_eq!(taken, 2);
    assert_eq!(node_errors(r), vec![(2, 14, "down2".to_string())]);
}

#[test]
fn a_node_that_responded_does_not_fail() {
    let (r, taken) =
        run_distinct(correctable(2).all(), vec![ok(1, 10), failed(1), ok(2, 20)]);
    assert_eq!((r.unwrap().unwrap(), taken), (20, 3));
    let (r, _) = run_distinct(correctable(2).all(), vec![ok(1, 10), failed(1), Event::Closed]);
    assert_eq!(node_errors(r), vec![]);
}

// ── Multicast ─────────────────────────────────────────────────────────────────

fn run_acks(events: Vec<Event<(u32, Result<(), Error>)>>) -> Option<Result<(), Error>> {
    let mut acks = MulticastAcks::new(CancellationToken::new());
    for event in events {
        match acks.on_event(event) {
            Step::Wait(next) => acks = next,
            Step::Done(r) => return Some(r),
        }
    }
    None
}

#[test]
fn a_multicast_fails_with_the_statuses_of_its_nodes() {
    let bad = || Err(Error::Transport(Status::new(8, "full".to_string())));
    assert!(matches!(
        run_acks(vec![
            Event::Reply((1, Ok(()))),
            Event::Reply((2, Err(Error::NodeClosed))),
            Event::Closed,
        ]),
        Some(Ok(()))
    ));
    match run_acks(vec![Event::Reply((1, Ok(()))), Event::Reply((2, bad())), Event::Closed]) {
        Some(Err(Error::QuorumCall(e))) => {
            assert_eq!(e.cause, QuorumCallCause::SendFailure);
            assert_eq!(e.node_errors.len(), 1);
            assert_eq!(e.node_errors[0].node_id, 2);
            assert_eq!(e.node_errors[0].cause.code(), 8);
        }
        r => panic!("{r:?}"),
    }
    assert!(matches!(
        run_acks(vec![Event::Reply((1, Ok(()))), Event::Cancelled]),
        Some(Err(Error::Cancelled))
    ));
    assert!(run_acks(vec![Event::Reply((1, Ok(())))]).is_none());
}

#[test]
fn a_failed_reply_needs_no_slot() {
    let lost = || {
        let status = Status::new(14, "gone".to_string());
        Event::Reply(OrderedNodeResponse {
            position: 9,
            node_id: 10,
            result: Err(Error::Transport(status)),
        })
    };
    let r = run_ordered(ordered(2).all().1, vec![at(0, 1), lost(), Event::Closed]);
    assert_eq!(node_errors(r), vec![(10, 14, "gone".to_string())]);
    let waiting = ordered(2).quorum().1;
    match waiting.on_event(lost(), |_: &[Option<u32>]| Some(1)) {
        Step::Wait(_) => {}
        Step::Done(_) => panic!("a failure is not asked about"),
    }
}

#[test]
fn a_correctable_run_is_decided_by_one_response() {
    let events = vec![ok(1, 5), ok(1, 6), failed(3), ok(2, 7), ok(4, 8)];
    assert_eq!(run_distinct(correctable(4).threshold(2), events).0.unwrap().unwrap(), 7);
    let events = vec![ok(1, 5), failed(3), failed(3), failed(2), ok(4, 8)];
    assert_eq!(
        node_errors(run_distinct(correctable(4).threshold(3), events).0),
        vec![(3, 14, "down3".to_string()), (2, 14, "down2".to_string())]
    );
    assert_eq!(run_distinct(correctable(4).threshold(0), vec![ok(2, 9)]).0.unwrap().unwrap(), 9);
}
