use delix::node::{Hello, Node, NodeConfig, NodeState, HandshakeOutcome, PROTOCOL_VERSION};
use delix::registry::{PeerState, SnapshotEntry};
use delix::stats::NullStatCollector;

fn id_of(address: &str) -> u64 {
    address.rsplit(':').next().unwrap().parse().unwrap()
}

fn build_node(address: &str, seeds: &[&str]) -> Node {
    let seeds: Vec<String> = seeds.iter().map(|s| s.to_string()).collect();
    let mut node = Node::new(id_of(address), address.to_string(), seeds, NodeConfig::standard());
    node.start();
    node
}

fn hello(node: &Node) -> Hello {
    Hello { protocol_version: PROTOCOL_VERSION, id: node.id(), address: node.address().clone() }
}

fn snapshot(node: &Node) -> Vec<SnapshotEntry> {
    node.outgoing_snapshot()
}

/// Both sides send greeting and snapshot, then each handles what it got.
fn handshake(a: &mut Node, b: &mut Node, now: u64) {
    let stats = NullStatCollector::new();
    let (ha, sa) = (hello(a), snapshot(a));
    let (hb, sb) = (hello(b), snapshot(b));
    assert_eq!(a.on_handshake(&hb, &sb, now, &stats), HandshakeOutcome::Accepted);
    assert_eq!(b.on_handshake(&ha, &sa, now, &stats), HandshakeOutcome::Accepted);
}

fn gossip(from: &Node, to: &mut Node, now: u64) {
    to.on_gossip(from.id(), &snapshot(from), now);
}

fn assert_node(node: &Node, state: NodeState, peers: usize) {
    assert_eq!(node.state(), state);
    assert_eq!(node.peer_count(), peers);
}

#[test]
fn two_nodes() {
    let mut node_one = build_node("127.0.0.1:3001", &[]);
    let mut node_two = build_node("127.0.0.1:3002", &["127.0.0.1:3001"]);
    assert_eq!(node_two.state(), NodeState::Joining);

    handshake(&mut node_two, &mut node_one, 1000);
    assert_node(&node_one, NodeState::Joined, 1);
    assert_node(&node_two, NodeState::Joined, 1);
    assert_eq!(node_one.peer_state(3002), Some(PeerState::Joined));
    assert_eq!(node_two.peer_state(3001), Some(PeerState::Joined));
}

#[test]
fn three_nodes() {
    let mut node_one = build_node("127.0.0.1:3011", &[]);
    let mut node_two = build_node("127.0.0.1:3012", &["127.0.0.1:3011"]);
    let mut node_three = build_node("127.0.0.1:3013", &["127.0.0.1:3011"]);

    handshake(&mut node_two, &mut node_one, 1000);
    handshake(&mut node_three, &mut node_one, 1000);
    gossip(&node_one, &mut node_two, 1000);
    gossip(&node_one, &mut node_three, 1000);

    assert_node(&node_one, NodeState::Joined, 2);
    assert_node(&node_two, NodeState::Joined, 2);
    assert_node(&node_three, NodeState::Joined, 2);
    assert!(node_two.peer_state(3013).is_some());
    assert!(node_three.peer_state(3012).is_some());
}

#[test]
fn single_node_joins_at_once() {
    let node = build_node("127.0.0.1:3021", &[]);
    assert_node(&node, NodeState::Joined, 0);
}

#[test]
fn start_returns_seeds_to_dial() {
    let seeds = vec!["a:1".to_string(), "b:2".to_string()];
    let mut node = Node::new(7, "c:3".to_string(), seeds.clone(), NodeConfig::standard());
    assert_eq!(node.state(), NodeState::Unknown);
    assert_eq!(node.start(), seeds);
    assert_eq!(node.state(), NodeState::Joining);
    assert!(node.start().is_empty());
    assert_eq!(node.state(), NodeState::Joining);
}

#[test]
fn self_connect_is_dropped_silently() {
    let mut node = build_node("127.0.0.1:3031", &["127.0.0.1:3031"]);
    let stats = NullStatCollector::new();
    let h = hello(&node);
    assert_eq!(node.on_handshake(&h, &Vec::new(), 5, &stats), HandshakeOutcome::SelfConnect);
    assert_node(&node, NodeState::Joining, 0);
}

#[test]
fn version_mismatch_is_a_failure() {
    let mut node = build_node("127.0.0.1:3041", &["127.0.0.1:3042"]);
    let stats = NullStatCollector::new();
    let h = Hello { protocol_version: PROTOCOL_VERSION + 1, id: 3042, address: "127.0.0.1:3042".to_string() };
    assert_eq!(
        node.on_handshake(&h, &Vec::new(), 5, &stats),
        HandshakeOutcome::Rejected(delix::node::HandshakeError::IncompatibleVersion)
    );
    assert_node(&node, NodeState::Joining, 0);
}

#[test]
fn shutdown_leaves_then_left() {
    let mut a = build_node("127.0.0.1:3051", &[]);
    let mut b = build_node("127.0.0.1:3052", &["127.0.0.1:3051"]);
    handshake(&mut b, &mut a, 10);
    let notify = b.shutdown();
    assert_eq!(notify.len(), 1);
    assert_eq!(notify[0].address, "127.0.0.1:3051");
    assert_eq!(b.state(), NodeState::Leaving);
    b.finish_shutdown();
    assert_eq!(b.state(), NodeState::Left);
    assert!(b.shutdown().is_empty());
    assert_eq!(b.state(), NodeState::Left);
}
