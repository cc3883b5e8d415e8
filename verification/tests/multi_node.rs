use broadcast_node::message::{names_operation, Outbound, Refusal, Reply as Answer, Request};
use broadcast_node::multi_node::{Handler, Observation, Outcome};
use broadcast_node::topology::{Topology, TopologyError};

fn ordered(mut values: Vec<u64>) -> Vec<u64> {
    values.sort();
    values
}

fn list(items: &[&str]) -> Vec<String> {
    items.iter().map(|s| s.to_string()).collect()
}

fn graph(entries: &[(&str, &[&str])]) -> Topology {
    let mut topology = Topology::new();
    for (node, neighbors) in entries {
        topology.insert(node.to_string(), list(neighbors));
    }
    topology
}

fn send(dest: &str, message: u64) -> Outbound {
    Outbound { dest: dest.to_string(), message }
}

#[test]
fn observe_scenario() {
    let mut node = Handler::new();
    assert!(matches!(node.observe(3), Observation::New { .. }));
    assert_eq!(node.observe(3), Observation::Duplicate);
    assert!(matches!(node.observe(7), Observation::New { .. }));
    assert_eq!(ordered(node.get_data()), vec![3, 7]);

    let n1_only: &[&str] = &["n2", "n3"];
    assert_eq!(node.update_topology(graph(&[("n1", n1_only)]), "n1"), Ok(()));
    assert_eq!(node.current_neighbors(), &list(&["n2", "n3"]));

    assert_eq!(
        node.observe(9),
        Observation::New { sends: vec![send("n2", 9), send("n3", 9)] }
    );
    assert_eq!(node.observe(9), Observation::Duplicate);
    assert_eq!(ordered(node.get_data()), vec![3, 7, 9]);
}

#[test]
fn default_node_is_empty() {
    let node = Handler::default();
    assert!(node.get_data().is_empty());
    assert!(node.current_neighbors().is_empty());
}

#[test]
fn add_reports_whether_new() {
    let mut node = Handler::new();
    assert!(node.add(1));
    assert!(!node.add(1));
    assert!(node.add(2));
    assert_eq!(ordered(node.get_data()), vec![1, 2]);
}

#[test]
fn observe_many_times_is_new_once() {
    let mut node = Handler::new();
    let n1: &[&str] = &["n2"];
    node.update_topology(graph(&[("n1", n1)]), "n1").unwrap();
    let mut fresh = 0;
    let mut total_sends = 0;
    for _ in 0..20 {
        if let Observation::New { sends } = node.observe(5) {
            fresh += 1;
            total_sends += sends.len();
        }
    }
    assert_eq!(fresh, 1);
    assert_eq!(total_sends, 1);
    assert_eq!(node.get_data(), vec![5]);
}

#[test]
fn send_to_nbrs_is_one_per_neighbour() {
    let mut node = Handler::new();
    assert!(node.send_to_nbrs(4).is_empty());
    let n1: &[&str] = &["n2", "n3", "n4"];
    node.update_topology(graph(&[("n1", n1)]), "n1").unwrap();
    assert_eq!(node.send_to_nbrs(4), vec![send("n2", 4), send("n3", 4), send("n4", 4)]);
    assert!(node.get_data().is_empty());
}

#[test]
fn without_topology_nothing_is_sent() {
    let mut node = Handler::new();
    assert_eq!(node.observe(1), Observation::New { sends: vec![] });
    let outcome = node.process("n1", "broadcast", Some(Request::Broadcast { message: 2 })).unwrap();
    assert_eq!(outcome, Outcome { reply: Answer::Ack, sends: vec![] });
    assert_eq!(ordered(node.get_data()), vec![1, 2]);
}

#[test]
fn update_topology_missing_self_is_an_error() {
    let mut node = Handler::new();
    let n2: &[&str] = &["n1"];
    assert_eq!(
        node.update_topology(graph(&[("n2", n2)]), "n1"),
        Err(TopologyError::NodeNotListed)
    );
    assert!(node.current_neighbors().is_empty());
}

#[test]
fn update_topology_twice_keeps_only_the_second() {
    let mut node = Handler::new();
    let first: &[&str] = &["n2", "n3"];
    let second: &[&str] = &["n4"];
    node.update_topology(graph(&[("n1", first)]), "n1").unwrap();
    node.update_topology(graph(&[("n1", second)]), "n1").unwrap();
    assert_eq!(node.current_neighbors(), &list(&["n4"]));
    assert_eq!(node.observe(8), Observation::New { sends: vec![send("n4", 8)] });
}

#[test]
fn update_topology_keeps_values() {
    let mut node = Handler::new();
    node.add(11);
    let n1: &[&str] = &["n2"];
    node.update_topology(graph(&[("n1", n1)]), "n1").unwrap();
    assert_eq!(node.get_data(), vec![11]);
    assert_eq!(node.observe(11), Observation::Duplicate);
}

#[test]
fn process_read_returns_values() {
    let mut node = Handler::new();
    node.add(3);
    node.add(7);
    let outcome = node.process("n1", "read", Some(Request::Read)).unwrap();
    assert!(outcome.sends.is_empty());
    match outcome.reply {
        Answer::ReadOk { messages } => assert_eq!(ordered(messages), vec![3, 7]),
        other => panic!("unexpected reply {:?}", other),
    }
    assert_eq!(ordered(node.get_data()), vec![3, 7]);
}

#[test]
fn process_read_on_empty_node() {
    let mut node = Handler::new();
    let outcome = node.process("n1", "read", Some(Request::Read)).unwrap();
    assert_eq!(outcome, Outcome { reply: Answer::ReadOk { messages: vec![] }, sends: vec![] });
}

#[test]
fn process_broadcast_forwards_once() {
    let mut node = Handler::new();
    let n1: &[&str] = &["n2", "n3"];
    let topology = graph(&[("n1", n1), ("n2", &["n1"]), ("n3", &["n1"])]);
    let ack = node.process("n1", "topology", Some(Request::Topology { topology })).unwrap();
    assert_eq!(ack, Outcome { reply: Answer::Ack, sends: vec![] });

    let first = node.process("n1", "broadcast", Some(Request::Broadcast { message: 9 })).unwrap();
    assert_eq!(first, Outcome { reply: Answer::Ack, sends: vec![send("n2", 9), send("n3", 9)] });

    let again = node.process("n1", "broadcast", Some(Request::Broadcast { message: 9 })).unwrap();
    assert_eq!(again, Outcome { reply: Answer::Ack, sends: vec![] });
    assert_eq!(node.get_data(), vec![9]);
}

#[test]
fn process_topology_without_self_fails() {
    let mut node = Handler::new();
    node.add(1);
    let n2: &[&str] = &["n3"];
    let topology = graph(&[("n2", n2)]);
    assert_eq!(
        node.process("n1", "topology", Some(Request::Topology { topology })),
        Err(Refusal::NodeNotListed)
    );
    assert!(node.current_neighbors().is_empty());
    assert_eq!(node.get_data(), vec![1]);
}

#[test]
fn process_leaves_unknown_types_unhandled() {
    let mut node = Handler::new();
    node.add(1);
    for tag in ["", "echo", "generate", "init", "read_ok", "Read", "broadcast_ok", "topolog"] {
        assert_eq!(
            node.process("n1", tag, None),
            Ok(Outcome { reply: Answer::Unhandled, sends: vec![] }),
            "{}",
            tag
        );
    }
    assert_eq!(
        node.process("n1", "init", Some(Request::Init)),
        Ok(Outcome { reply: Answer::Unhandled, sends: vec![] })
    );
    assert_eq!(
        node.process("n1", "read_ok", Some(Request::ReadOk { messages: vec![5, 6] })),
        Ok(Outcome { reply: Answer::Unhandled, sends: vec![] })
    );
    assert_eq!(node.get_data(), vec![1]);
    assert!(node.current_neighbors().is_empty());
}

#[test]
fn process_refuses_a_malformed_operation() {
    let mut node = Handler::new();
    node.add(1);
    let n1: &[&str] = &["n2"];
    node.update_topology(graph(&[("n1", n1)]), "n1").unwrap();
    for tag in ["broadcast", "topology", "read"] {
        assert_eq!(node.process("n1", tag, None), Err(Refusal::Malformed), "{}", tag);
    }
    assert_eq!(node.get_data(), vec![1]);
    assert_eq!(node.current_neighbors(), &list(&["n2"]));
    assert_eq!(node.observe(0), Observation::New { sends: vec![send("n2", 0)] });
}

#[test]
fn a_decoded_body_rules_over_its_tag() {
    let mut node = Handler::new();
    let outcome = node.process("n1", "echo", Some(Request::Broadcast { message: 4 })).unwrap();
    assert_eq!(outcome, Outcome { reply: Answer::Ack, sends: vec![] });
    assert_eq!(node.get_data(), vec![4]);
}

#[test]
fn operation_names() {
    for tag in ["read", "broadcast", "topology"] {
        assert!(names_operation(tag), "{}", tag);
    }
    for tag in ["", "init", "read_ok", "generate", "READ", "broadcast ", "topologyy", "rea"] {
        assert!(!names_operation(tag), "{}", tag);
    }
}

#[test]
fn interleaved_requests_forward_each_value_once() {
    let mut node = Handler::new();
    let n1: &[&str] = &["n2", "n3"];
    node.process("n1", "topology", Some(Request::Topology { topology: graph(&[("n1", n1)]) })).unwrap();
    let handed = [5u64, 7, 5, 5, 7, 9, 5, 9, 7];
    let mut sends: Vec<Outbound> = Vec::new();
    for v in handed {
        sends.extend(node.process("n1", "broadcast", Some(Request::Broadcast { message: v })).unwrap().sends);
        node.process("n1", "read", Some(Request::Read)).unwrap();
    }
    assert_eq!(
        sends,
        vec![send("n2", 5), send("n3", 5), send("n2", 7), send("n3", 7), send("n2", 9), send("n3", 9)]
    );
    assert_eq!(ordered(node.get_data()), vec![5, 7, 9]);
}

#[test]
fn value_forwarded_to_neighbours_of_its_first_arrival() {
    let mut node = Handler::new();
    let early: &[&str] = &["n2"];
    let late: &[&str] = &["n3", "n4"];
    node.update_topology(graph(&[("n1", early)]), "n1").unwrap();
    assert_eq!(node.observe(1), Observation::New { sends: vec![send("n2", 1)] });
    node.update_topology(graph(&[("n1", late)]), "n1").unwrap();
    assert_eq!(node.observe(1), Observation::Duplicate);
    assert_eq!(node.observe(2), Observation::New { sends: vec![send("n3", 2), send("n4", 2)] });
}
