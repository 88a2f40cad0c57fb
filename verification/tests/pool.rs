//! The connection pool, its configurations and their contexts.

use std::sync::Mutex;
use std::time::Duration;

use quorums::call_types::{answer, decode_payload, rpc_result, Reply};
use quorums::channel::Calls;
use quorums::interceptor::{run, run_server, ChainStep};
use quorums::manager::Address;
use quorums::message::{build_wire_message, metadata_entries, metadata_map};
use quorums::{
    multicast, quorum_call, rpc_call, CallInfo, Configuration, Error, HealthConfig, Manager,
    MulticastMethod, Node, NodeContext, QuorumCallMethod, RpcCallMethod,
};

type Pool = Manager<u64, &'static str>;

fn share(calls: Calls) -> u64 {
    calls.seq + 100
}

fn good(addr: &str) -> Address {
    Address { given: addr.to_string(), canonical: Some(addr.to_string()) }
}

fn bad(addr: &str) -> Address {
    Address { given: addr.to_string(), canonical: None }
}

fn pool(n: usize) -> (Pool, Configuration<u64>) {
    let mut mgr = Manager::new();
    let addrs: Vec<Address> = (0..n).map(|i| good(&format!("10.0.0.{i}:1"))).collect();
    let (launches, cfg) = mgr.add_node_list(&addrs, &share);
    assert_eq!(launches.len(), n);
    (mgr, cfg.unwrap())
}

#[test]
fn nodes_are_rejected_for_a_reason() {
    let mut mgr: Pool = Manager::new();
    let mut add = |id, addr: Address| mgr.add_node(id, &addr, &share).map(|l| l.node.id());
    assert_eq!(add(0, good("a:1")), Err("node ID 0 is reserved".to_string()));
    assert_eq!(add(0, bad("nope")), Err("node ID 0 is reserved".to_string()));
    assert_eq!(add(5, bad("nope")), Err("invalid address: nope".to_string()));
    assert_eq!(add(5, good("a:1")), Ok(5));
    assert_eq!(add(5, bad("nope")), Err("invalid address: nope".to_string()));
    assert_eq!(add(5, good("b:1")), Err("node ID 5 already in use".to_string()));
    assert_eq!(add(6, good("a:1")), Err("address a:1 already in use".to_string()));
    assert_eq!(add(6, good("b:1")), Ok(6));
}

#[test]
fn assigned_ids_follow_the_largest_id() {
    let mut mgr: Pool = Manager::default();
    mgr.add_node(7, &good("a:1"), &share).unwrap();
    let (launches, cfg) = mgr.add_node_list(&vec![good("b:1"), good("c:1")], &share);
    assert_eq!(cfg.unwrap().node_ids(), vec![8, 9]);
    assert_eq!(launches[0].node.address(), "b:1");
    assert!(mgr.remove_node(9));
    let (_, cfg) = mgr.add_node_list(&vec![good("c:1")], &share);
    assert_eq!(cfg.unwrap().node_ids(), vec![10]);
    mgr.add_node(2, &good("d:1"), &share).unwrap();
    let (_, cfg) = mgr.add_node_list(&vec![good("e:1")], &share);
    assert_eq!(cfg.unwrap().node_ids(), vec![11]);
    assert_eq!(mgr.all_nodes().node_ids(), vec![2, 7, 8, 10, 11]);
}

#[test]
fn a_list_stops_at_the_first_rejected_address() {
    let mut mgr: Pool = Manager::new();
    let (launches, r) =
        mgr.add_node_list(&vec![good("a:1"), good("b:1"), good("a:1"), good("c:1")], &share);
    assert_eq!(launches.len(), 2);
    assert_eq!(r.err(), Some("address a:1 already in use".to_string()));
    assert_eq!(mgr.all_nodes().node_ids(), vec![1, 2]);
    let base = mgr.all_nodes();
    let (launches, r) = mgr.with_new_nodes(&base, &vec![good("c:1"), bad("d")], &share);
    assert_eq!(launches.len(), 1);
    assert_eq!(r.err(), Some("invalid address: d".to_string()));
    let (_, r) = mgr.with_new_nodes(&base, &vec![good("d:1")], &share);
    assert_eq!(r.unwrap().node_ids(), vec![1, 2, 4]);
}

#[test]
fn configurations_are_built_from_ids() {
    let (mgr, cfg) = pool(4);
    assert_eq!(mgr.configuration(&[3, 1, 3]).unwrap().node_ids(), vec![3, 1, 3]);
    assert_eq!(mgr.configuration(&[2, 9, 8]).err(), Some("node ID 9 not found".to_string()));
    assert_eq!(mgr.configuration(&[]).unwrap().size(), 0);
    assert_eq!(mgr.node(2).unwrap().id(), 2);
    assert!(mgr.node(9).is_none());
    assert_eq!(cfg.nodes()[0].channel().calls, 100);
    assert_eq!(cfg.nodes()[1].debug_text(), "Node(id=2, addr=10.0.0.1:1)");
}

#[test]
fn callbacks_watch_every_node() {
    let (mut mgr, _) = pool(2);
    let first = mgr.on_status_change("first");
    let ids: Vec<_> = first.iter().map(|w| (w.node_id, w.callback)).collect();
    assert_eq!(ids, vec![(1, 0), (2, 0)]);
    mgr.on_status_change("second");
    let launch = mgr.add_node(3, &good("x:1"), &share).unwrap();
    let ids: Vec<_> = launch.watchers.iter().map(|w| (w.node_id, w.callback)).collect();
    assert_eq!(ids, vec![(3, 0), (3, 1)]);
    assert_eq!(mgr.callback(1), Some(&"second"));
    assert_eq!(mgr.callback(2), None);
}

// ── Views ─────────────────────────────────────────────────────────────────────

#[test]
fn views_of_a_configuration() {
    let (_, cfg) = pool(5);
    let sub = |ids: &[u32]| cfg.sub_config(ids);
    assert_eq!(sub(&[5, 9, 1]).node_ids(), vec![5, 1]);
    assert_eq!(cfg.without_nodes(&[2, 4, 9]).node_ids(), vec![1, 3, 5]);
    assert_eq!(sub(&[4, 2]).merge(&sub(&[2, 1, 4, 3])).node_ids(), vec![4, 2, 1, 3]);
    assert_eq!(cfg.merge(&cfg).node_ids(), cfg.node_ids());
    assert_eq!(sub(&[4, 2, 1]).intersect(&sub(&[1, 4, 5])).node_ids(), vec![4, 1]);
    assert_eq!(sub(&[4, 2, 1]).except(&sub(&[1, 4, 5])).node_ids(), vec![2]);
    let both = sub(&[1, 2, 3]).intersect(&sub(&[2])).size();
    let rest = sub(&[1, 2, 3]).except(&sub(&[2])).size();
    assert_eq!(both + rest, 3);
    assert_eq!(cfg.clone().size(), 5);
}

#[test]
fn the_last_node_with_an_id_is_found() {
    let (_, a) = pool(1);
    let (mut other, _) = pool(0);
    let (_, b) = other.add_node_list(&vec![good("other:1")], &share);
    let twice = Configuration::new(vec![a.nodes()[0].clone(), b.unwrap().nodes()[0].clone()]);
    assert_eq!(twice.sub_config(&[1]).nodes()[0].address(), "other:1");
    assert_eq!(a.merge(&twice).nodes()[0].address(), "10.0.0.0:1");
    assert_eq!(a.merge(&twice).size(), 1);
}

// ── Contexts ──────────────────────────────────────────────────────────────────

#[test]
fn contexts_accumulate_what_is_attached() {
    let (_, cfg) = pool(2);
    let ctx = cfg
        .context::<u8>()
        .with_interceptor(1)
        .with_metadata("a".into(), "1".into())
        .with_interceptor(2)
        .with_metadata("a".into(), "2".into());
    let ctx = ctx.clone();
    assert_eq!(ctx.interceptors, vec![1, 2]);
    let info = ctx.call_info("/m");
    assert_eq!(info.method, "/m");
    assert_eq!(info.node_ids, vec![1, 2]);
    let entry = |v: &str| ("a".to_string(), v.to_string());
    assert_eq!(info.clone().metadata, vec![entry("1"), entry("2")]);
    let node = cfg.nodes()[1].clone();
    let one = node.context::<u8>().with_interceptor(3).with_metadata("a".into(), "1".into());
    let one: NodeContext<u64, u8> = one.clone();
    assert_eq!(one.call_info("/n").node_ids, vec![2]);
    let (timed, deadline) = one.with_timeout(Duration::from_secs(1));
    assert_eq!(timed.interceptors, vec![3]);
    assert_eq!(deadline.after, Duration::from_secs(1));
    deadline.token.cancel();
    assert!(timed.cancel.is_cancelled());
}

#[test]
fn the_last_value_of_a_key_wins_on_the_wire() {
    let entry = |k: &str, v: &str| (k.to_string(), v.to_string());
    let attached = vec![entry("a", "1"), entry("b", "2"), entry("a", "3"), entry("c", "4")];
    let map = metadata_map(&attached);
    assert_eq!(map.len(), 3);
    assert_eq!(map.get("a"), Some(&"3".to_string()));
    assert_eq!(map.get("d"), None);
    let wire = build_wire_message(1, "/m", vec![], map);
    assert_eq!(
        metadata_entries(&wire.clone().metadata),
        vec![entry("a", "3"), entry("b", "2"), entry("c", "4")]
    );
}

#[test]
fn requests_have_the_status_of_success() {
    let msg = build_wire_message(3, "/m", vec![9], metadata_map(&vec![]));
    assert_eq!((msg.message_seq_no, msg.method.as_str()), (3, "/m"));
    assert_eq!((msg.status_code, msg.status_message.as_str()), (0, ""));
    assert_eq!(msg.payload, vec![9]);
    assert_eq!(msg.metadata.len(), 0);
}

// ── Interceptors ──────────────────────────────────────────────────────────────

fn chain(results: Vec<Result<(), u8>>) -> (Result<(), u8>, usize) {
    let mut progress = run(&results);
    let mut invoked = 0;
    let mut step: ChainStep<u8> = progress.step();
    loop {
        match step {
            ChainStep::Invoke(i) => {
                assert_eq!(i, invoked);
                invoked += 1;
                step = progress.on_verdict(results[i]);
            }
            ChainStep::Done(r) => return (r, invoked),
        }
    }
}

#[test]
fn the_first_error_ends_a_chain() {
    assert_eq!(chain(vec![]), (Ok(()), 0));
    assert_eq!(chain(vec![Ok(()), Ok(())]), (Ok(()), 2));
    assert_eq!(chain(vec![Ok(()), Err(7), Err(8)]), (Err(7), 2));
    assert_eq!(run_server(&vec![1, 2, 3]).len, 3);
}

// ── Results ───────────────────────────────────────────────────────────────────

struct Echo;

impl RpcCallMethod for Echo {
    type Req = String;
    type Resp = String;
    const PATH: &'static str = "/echo";
}

fn decode(bytes: &Vec<u8>) -> Result<String, prost::DecodeError> {
    prost::Message::decode(bytes.as_slice())
}

#[test]
fn an_rpc_to_a_node_without_task_fails() {
    let (node, task): (Node<Mutex<Calls>>, _) = Node::new(1, "a:1".to_string(), Mutex::new);
    let ctx: NodeContext<Mutex<Calls>, ()> = node.context();
    let mut calls = node.channel().calls.lock().unwrap();
    let rejected = rpc_call(&ctx, Err(Error::StreamDown), &mut calls, vec![], Echo);
    assert!(matches!(rejected, Err(Error::StreamDown)));
    assert_eq!(calls.seq, 0);
    let mut queue = task.send_rx;
    assert!(queue.try_recv().is_err());
    assert!(rpc_call(&ctx, Ok(()), &mut calls, vec![4], Echo).is_ok());
    let sent = queue.try_recv().unwrap();
    assert_eq!((sent.msg.message_seq_no, sent.msg.method.as_str()), (1, "/echo"));
    assert_eq!(sent.msg.payload, vec![4]);
    assert!(sent.response_tx.is_some() && sent.send_ack.is_none());
    assert!(queue.try_recv().is_err());
    drop(queue);
    let closed = rpc_call(&ctx, Ok(()), &mut calls, vec![], Echo);
    assert!(matches!(closed, Err(Error::NodeClosed)));
    assert_eq!(calls.seq, 2);
}

#[test]
fn results_of_an_rpc() {
    let payload = prost::Message::encode_to_vec(&"hi".to_string());
    let wire = |payload| build_wire_message(1, "/echo", payload, metadata_map(&vec![]));
    let r = rpc_result(Reply::Arrived(Ok(wire(payload.clone()))), decode);
    assert_eq!(r.unwrap(), "hi");
    assert!(matches!(
        rpc_result(Reply::Arrived(Ok(wire(vec![0xff]))), decode),
        Err(Error::Codec(t)) if t.starts_with("failed to decode Protobuf message")
    ));
    assert!(matches!(
        rpc_result(Reply::Arrived(Err(Error::StreamDown)), decode),
        Err(Error::StreamDown)
    ));
    assert!(matches!(rpc_result(Reply::Dropped, decode), Err(Error::NodeClosed)));
    assert!(matches!(rpc_result(Reply::Cancelled, decode), Err(Error::Cancelled)));
    assert_eq!(decode_payload(&wire(payload), decode).unwrap(), "hi");
    assert!(matches!(answer(Reply::Arrived(Ok(3))), Ok(3)));
}

#[test]
fn health_defaults() {
    let config = HealthConfig::default().clone();
    assert_eq!(config.interval, Duration::from_secs(5));
    assert_eq!(config.timeout, Duration::from_secs(2));
}

#[test]
fn call_info_is_plain_data() {
    let info = CallInfo { method: "/m".into(), node_ids: vec![1], metadata: vec![] };
    assert_eq!(info.clone().node_ids, vec![1]);
}

#[test]
fn new_nodes_follow_any_base() {
    let (mut mgr, own) = pool(2);
    let (launches, cfg) = mgr.with_new_nodes(&own, &vec![good("x:1"), good("y:1")], &share);
    assert_eq!(launches.len(), 2);
    assert_eq!(cfg.unwrap().node_ids(), vec![1, 2, 3, 4]);

    let (_, foreign) = pool(2);
    let mut other: Pool = Manager::new();
    let (launches, cfg) = other.with_new_nodes(&foreign, &vec![good("x:1")], &share);
    let cfg = cfg.unwrap();
    assert_eq!(cfg.size(), 3);
    assert_eq!(cfg.node_ids(), vec![1, 2, 1]);
    assert_eq!(cfg.nodes()[2].address(), "x:1");
    assert_eq!(launches[0].node.address(), "x:1");
    assert_eq!(other.node(1).unwrap().address(), "x:1");
    assert_eq!(foreign.node_ids(), vec![1, 2]);

    let (launches, cfg) = other.with_new_nodes(&foreign, &vec![good("z:1"), bad("?")], &share);
    assert_eq!(launches.len(), 1);
    assert!(matches!(cfg, Err(e) if e == "invalid address: ?"));
}

#[test]
fn accepted_addresses_are_counted() {
    let (mgr, _) = pool(1);
    let count = |addrs: Vec<Address>| mgr.accepted_count(&addrs);
    assert_eq!(count(vec![]), 0);
    assert_eq!(count(vec![good("a:1"), good("b:1")]), 2);
    assert_eq!(count(vec![good("a:1"), good("a:1"), good("b:1")]), 1);
    assert_eq!(count(vec![good("a:1"), bad("?"), good("b:1")]), 1);
    assert_eq!(count(vec![good("10.0.0.0:1"), good("a:1")]), 0);
}

impl QuorumCallMethod for Echo {
    type Req = String;
    type Resp = String;
    const PATH: &'static str = "/echo";
}

impl MulticastMethod for Echo {
    type Req = String;
    const PATH: &'static str = "/echo";
}

#[test]
fn a_fan_out_sends_one_request_to_each_node() {
    let mut mgr: Manager<Mutex<Calls>, ()> = Manager::new();
    let addrs: Vec<Address> = (0..3).map(|i| good(&format!("10.0.0.{i}:1"))).collect();
    let (launches, cfg) = mgr.add_node_list(&addrs, &Mutex::new);
    let mut queues: Vec<_> = launches.into_iter().map(|l| l.task.send_rx).collect();
    let ctx = cfg.unwrap().context::<()>();

    assert!(quorum_call(&ctx, Err(Error::StreamDown), vec![1], Echo).is_err());
    assert!(multicast(&ctx, Err(Error::StreamDown), vec![1], Echo).is_err());
    assert!(queues.iter_mut().all(|q| q.try_recv().is_err()));

    let mut call = quorum_call(&ctx, Ok(()), vec![7], Echo).unwrap();
    let fan_out = call.send_now().unwrap();
    assert!(queues.iter_mut().all(|q| q.try_recv().is_err()));
    for position in 0..3 {
        let mut calls = fan_out.nodes[position].channel().calls.lock().unwrap();
        assert!(fan_out.send_twoway(position, &mut calls).is_ok());
    }
    let (fan_out, _acks) = multicast(&ctx, Ok(()), vec![8], Echo).unwrap();
    let mut calls = fan_out.nodes[1].channel().calls.lock().unwrap();
    assert!(fan_out.send_oneway(1, &mut calls).is_ok());
    for (i, queue) in queues.iter_mut().enumerate() {
        let req = queue.try_recv().unwrap();
        assert_eq!((req.msg.message_seq_no, req.msg.payload), (1, vec![7]));
        assert!(req.response_tx.is_some() && req.send_ack.is_none());
        if i == 1 {
            let req = queue.try_recv().unwrap();
            assert_eq!((req.msg.message_seq_no, req.msg.payload), (2, vec![8]));
            assert!(req.response_tx.is_none() && req.send_ack.is_some());
        }
        assert!(queue.try_recv().is_err());
    }
}

#[test]
fn a_node_is_vetted_before_it_is_added() {
    let (mgr, _) = pool(1);
    assert_eq!(mgr.vet(2, &good("a:1")), Ok("a:1".to_string()));
    assert_eq!(mgr.vet(1, &good("a:1")), Err("node ID 1 already in use".to_string()));
    assert_eq!(mgr.vet(0, &good("a:1")), Err("node ID 0 is reserved".to_string()));
}
