use broadcast_node::message::{Refusal, Reply, Request};
use broadcast_node::single_node::Handler;
use broadcast_node::topology::Topology;

fn in_order(mut values: Vec<u64>) -> Vec<u64> {
    values.sort();
    values
}

#[test]
fn lone_node_starts_empty() {
    let node = Handler::default();
    assert!(node.get_data().is_empty());
    assert!(Handler::new().get_data().is_empty());
}

#[test]
fn lone_add_keeps_one_copy() {
    let mut node = Handler::new();
    node.add(4);
    node.add(4);
    node.add(6);
    assert_eq!(in_order(node.get_data()), vec![4, 6]);
}

#[test]
fn lone_read_returns_every_broadcast() {
    let mut node = Handler::new();
    for v in [3u64, 1, 3, 2, 1] {
        assert_eq!(node.process("broadcast", Some(Request::Broadcast { message: v })), Ok(Reply::Ack));
    }
    match node.process("read", Some(Request::Read)) {
        Ok(Reply::ReadOk { messages }) => assert_eq!(in_order(messages), vec![1, 2, 3]),
        other => panic!("unexpected reply {:?}", other),
    }
}

#[test]
fn lone_topology_is_acknowledged_and_ignored() {
    let mut node = Handler::new();
    node.add(1);
    assert_eq!(
        node.process("topology", Some(Request::Topology { topology: Topology::new() })),
        Ok(Reply::Ack)
    );
    let mut topology = Topology::new();
    topology.insert("n1".to_string(), vec!["n2".to_string()]);
    assert_eq!(node.process("topology", Some(Request::Topology { topology })), Ok(Reply::Ack));
    assert_eq!(node.get_data(), vec![1]);
}

#[test]
fn lone_node_leaves_unknown_types_unhandled() {
    let mut node = Handler::new();
    for tag in ["", "echo", "generate", "init", "read_ok", "Broadcast"] {
        assert_eq!(node.process(tag, None), Ok(Reply::Unhandled), "{}", tag);
    }
    assert_eq!(node.process("init", Some(Request::Init)), Ok(Reply::Unhandled));
    assert_eq!(
        node.process("read_ok", Some(Request::ReadOk { messages: vec![9] })),
        Ok(Reply::Unhandled)
    );
    assert!(node.get_data().is_empty());
}

#[test]
fn lone_node_refuses_a_malformed_operation() {
    let mut node = Handler::new();
    node.add(2);
    for tag in ["broadcast", "topology", "read"] {
        assert_eq!(node.process(tag, None), Err(Refusal::Malformed), "{}", tag);
    }
    assert_eq!(node.get_data(), vec![2]);
}

#[test]
fn lone_read_on_empty_node() {
    let mut node = Handler::new();
    assert_eq!(node.process("read", Some(Request::Read)), Ok(Reply::ReadOk { messages: vec![] }));
}
