use std::sync::atomic::{AtomicU32, Ordering};

use delix::node::{
    backoff_delay, check_hello, should_retry, HandshakeError, HandshakeOutcome, Hello, Node,
    NodeConfig, NodeState, PROTOCOL_VERSION,
};
use delix::registry::{PeerState, Registry, SnapshotEntry};
use delix::stats::{joined_path, MultiStatCollector, NullStatCollector, StatCollector};

fn entry(id: u64, address: &str, state: PeerState, version: u64) -> SnapshotEntry {
    SnapshotEntry { id, address: address.to_string(), state, version }
}

fn listing(r: &Registry) -> Vec<(u64, String, PeerState, u64)> {
    let mut v: Vec<_> =
        r.snapshot().into_iter().map(|e| (e.id, e.address, e.state, e.version)).collect();
    v.sort_by_key(|t| t.0);
    v
}

#[test]
fn merge_inserts_unknown_as_joining() {
    let mut r = Registry::new(1);
    r.merge(&vec![entry(2, "b", PeerState::Joined, 4)], 10);
    assert_eq!(listing(&r), vec![(2, "b".to_string(), PeerState::Joining, 4)]);
}

#[test]
fn merge_ignores_local_identity() {
    let mut r = Registry::new(1);
    r.merge(&vec![entry(1, "me", PeerState::Joined, 9)], 10);
    assert_eq!(r.peer_count(), 0);
}

#[test]
fn merge_adopts_higher_version() {
    let mut r = Registry::new(1);
    r.merge(&vec![entry(2, "b", PeerState::Joining, 1)], 10);
    r.merge(&vec![entry(2, "b2", PeerState::Joined, 2)], 11);
    assert_eq!(listing(&r), vec![(2, "b2".to_string(), PeerState::Joined, 2)]);
}

#[test]
fn merge_is_idempotent() {
    let s = vec![
        entry(2, "b", PeerState::Joined, 3),
        entry(3, "c", PeerState::Joining, 1),
        entry(2, "b9", PeerState::Suspect, 5),
    ];
    let mut r = Registry::new(1);
    r.merge(&s, 10);
    let once = listing(&r);
    r.merge(&s, 20);
    assert_eq!(listing(&r), once);
}

#[test]
fn merge_is_commutative() {
    let x = vec![entry(2, "b", PeerState::Joined, 3), entry(3, "c", PeerState::Joining, 1)];
    let y = vec![entry(2, "b2", PeerState::Suspect, 5), entry(4, "d", PeerState::Joined, 2)];
    let base = vec![entry(2, "b0", PeerState::Joining, 1)];
    let mut xy = Registry::new(1);
    xy.merge(&base, 1);
    xy.merge(&x, 5);
    xy.merge(&y, 5);
    let mut yx = Registry::new(1);
    yx.merge(&base, 1);
    yx.merge(&y, 5);
    yx.merge(&x, 5);
    assert_eq!(listing(&xy), listing(&yx));
    assert_eq!(listing(&xy)[0], (2, "b2".to_string(), PeerState::Suspect, 5));
}

#[test]
fn stale_entry_changes_nothing() {
    let mut r = Registry::new(1);
    r.confirm(2, &"b".to_string(), 10);
    r.merge(&vec![entry(2, "elsewhere", PeerState::Suspect, 1)], 11);
    assert_eq!(listing(&r), vec![(2, "b".to_string(), PeerState::Joined, 1)]);
}

struct Counter {
    up: AtomicU32,
    down: AtomicU32,
    failed: AtomicU32,
}

impl Counter {
    fn new() -> Counter {
        Counter { up: AtomicU32::new(0), down: AtomicU32::new(0), failed: AtomicU32::new(0) }
    }

    fn ups(&self) -> u32 {
        self.up.load(Ordering::SeqCst)
    }

    fn downs(&self) -> u32 {
        self.down.load(Ordering::SeqCst)
    }

    fn failures(&self) -> u32 {
        self.failed.load(Ordering::SeqCst)
    }
}

impl StatCollector for Counter {
    fn increment(&self, path: &[&str]) {
        self.up.fetch_add(1, Ordering::SeqCst);
        if path.join(".") == "node.peer.failed" {
            self.failed.fetch_add(1, Ordering::SeqCst);
        }
    }

    fn decrement(&self, _path: &[&str]) {
        self.down.fetch_add(1, Ordering::SeqCst);
    }
}

impl<'a> StatCollector for &'a Counter {
    fn increment(&self, path: &[&str]) {
        (**self).increment(path)
    }

    fn decrement(&self, path: &[&str]) {
        (**self).decrement(path)
    }
}

fn joined_pair() -> (Node, Node) {
    let stats = NullStatCollector::new();
    let mut a = Node::new(1, "a".to_string(), vec![], NodeConfig::standard());
    a.start();
    let mut b = Node::new(2, "b".to_string(), vec!["a".to_string()], NodeConfig::standard());
    b.start();
    let hb = Hello { protocol_version: PROTOCOL_VERSION, id: 2, address: "b".to_string() };
    a.on_handshake(&hb, &Vec::new(), 0, &stats);
    let ha = Hello { protocol_version: PROTOCOL_VERSION, id: 1, address: "a".to_string() };
    b.on_handshake(&ha, &Vec::new(), 0, &stats);
    (a, b)
}

#[test]
fn silent_peer_is_removed_with_one_failure() {
    let (mut a, _) = joined_pair();
    let stats = Counter::new();
    let r = a.sweep(3001, &stats);
    assert_eq!(r.suspected, vec![2]);
    assert!(r.failed.is_empty());
    assert_eq!(a.peer_state(2), Some(PeerState::Suspect));
    let r = a.sweep(6001, &stats);
    assert_eq!(r.failed, vec![2]);
    assert_eq!(a.peer_count(), 0);
    assert_eq!(stats.failures(), 1);
    let r = a.sweep(9000, &stats);
    assert!(r.failed.is_empty());
    assert_eq!(stats.failures(), 1);
}

#[test]
fn peer_heard_before_deadline_recovers() {
    let (mut a, _) = joined_pair();
    let stats = Counter::new();
    a.sweep(3001, &stats);
    assert_eq!(a.peer_state(2), Some(PeerState::Suspect));
    assert!(a.on_heartbeat(2, 5000));
    assert_eq!(a.peer_state(2), Some(PeerState::Joined));
    let r = a.sweep(6001, &stats);
    assert!(r.failed.is_empty());
    assert_eq!(a.peer_state(2), Some(PeerState::Joined));
    assert_eq!(stats.failures(), 0);
}

#[test]
fn backoff_doubles_up_to_cap() {
    assert_eq!(backoff_delay(0, 100, 30000), 100);
    assert_eq!(backoff_delay(1, 100, 30000), 200);
    assert_eq!(backoff_delay(3, 100, 30000), 800);
    assert_eq!(backoff_delay(9, 100, 30000), 30000);
    assert_eq!(backoff_delay(200, 100, 30000), 30000);
    assert_eq!(backoff_delay(0, 50000, 30000), 30000);
}

#[test]
fn retry_policy() {
    assert!(should_retry(true, false, 1000, 5));
    assert!(!should_retry(true, true, 1, 5));
    assert!(should_retry(false, false, 4, 5));
    assert!(!should_retry(false, false, 5, 5));
}

#[test]
fn failure_schedules_retry() {
    let mut n = Node::new(1, "a".to_string(), vec!["s".to_string()], NodeConfig::standard());
    n.start();
    let stats = Counter::new();
    assert_eq!(n.on_handshake_failure(HandshakeError::ConnectionError, true, false, 2, &stats), Some(400));
    assert_eq!(n.on_handshake_failure(HandshakeError::HandshakeTimeout, false, false, 5, &stats), None);
    assert_eq!(n.on_handshake_failure(HandshakeError::MalformedMessage, true, true, 1, &stats), None);
    assert_eq!(stats.ups(), 3);
    assert_eq!(n.state(), NodeState::Joining);
}

#[test]
fn hello_checks() {
    let ok = Hello { protocol_version: PROTOCOL_VERSION, id: 2, address: "b".to_string() };
    assert_eq!(check_hello(1, &ok), HandshakeOutcome::Accepted);
    let me = Hello { protocol_version: PROTOCOL_VERSION, id: 1, address: "a".to_string() };
    assert_eq!(check_hello(1, &me), HandshakeOutcome::SelfConnect);
    let old = Hello { protocol_version: 0, id: 2, address: "b".to_string() };
    assert_eq!(check_hello(1, &old), HandshakeOutcome::Rejected(HandshakeError::IncompatibleVersion));
}

#[test]
fn join_threshold_counts_successes() {
    let stats = NullStatCollector::new();
    let mut config = NodeConfig::standard();
    config.join_threshold = 2;
    let mut n = Node::new(1, "a".to_string(), vec!["b".to_string(), "c".to_string()], config);
    n.start();
    let hb = Hello { protocol_version: PROTOCOL_VERSION, id: 2, address: "b".to_string() };
    n.on_handshake(&hb, &Vec::new(), 0, &stats);
    assert_eq!(n.state(), NodeState::Joining);
    let hc = Hello { protocol_version: PROTOCOL_VERSION, id: 3, address: "c".to_string() };
    n.on_handshake(&hc, &Vec::new(), 0, &stats);
    assert_eq!(n.state(), NodeState::Joined);
    assert_eq!(n.peer_count(), 2);
}

#[test]
fn path_is_dot_joined() {
    assert_eq!(joined_path(&["node", "handshake", "success"]), "node.handshake.success");
    assert_eq!(joined_path(&["one"]), "one");
    assert_eq!(joined_path(&[]), "");
}

#[test]
fn multi_collector_broadcasts() {
    let a = Counter::new();
    let b = Counter::new();
    {
        let multi = MultiStatCollector::new(vec![Box::new(NullStatCollector::new()) as Box<dyn StatCollector>, Box::new(&a), Box::new(&b)]);
        assert_eq!(multi.count(), 3);
        multi.increment(&["x", "y"]);
        multi.decrement(&["x"]);
    }
    assert_eq!((a.ups(), a.downs()), (1, 1));
    assert_eq!((b.ups(), b.downs()), (1, 1));
}

#[test]
fn capped_snapshot_drops_lowest_versions() {
    let mut r = Registry::new(1);
    r.merge(
        &vec![
            entry(2, "b", PeerState::Joined, 7),
            entry(3, "c", PeerState::Joined, 2),
            entry(4, "d", PeerState::Joined, 9),
            entry(5, "e", PeerState::Joined, 4),
        ],
        0,
    );
    let mut ids: Vec<u64> = r.snapshot_capped(2).into_iter().map(|e| e.id).collect();
    ids.sort();
    assert_eq!(ids, vec![2, 4]);
    assert_eq!(r.snapshot_capped(10).len(), 4);
    assert!(r.snapshot_capped(0).is_empty());
}

#[test]
fn gossip_targets_are_known_peers() {
    let (a, _) = joined_pair();
    assert_eq!(a.gossip_targets(&vec![0, 5, 17]), vec![2, 2, 2]);
    let lone = Node::new(9, "z".to_string(), vec![], NodeConfig::standard());
    assert!(lone.gossip_targets(&vec![1, 2]).is_empty());
}

#[test]
fn heartbeats_go_to_quiet_joined_peers() {
    let (a, _) = joined_pair();
    assert!(a.heartbeat_targets(999).is_empty());
    assert_eq!(a.heartbeat_targets(1000), vec![2]);
    let mut r = Registry::new(1);
    r.merge(&vec![entry(3, "c", PeerState::Joined, 1)], 0);
    assert!(r.quiet_joined(5000, 1000).is_empty());
}
