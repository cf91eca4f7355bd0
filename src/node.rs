//! The local node: its own lifecycle (Unknown, Joining, Joined, Leaving,
//! Left), the handshake checks, the retry policy, and the registry it owns.
use vstd::prelude::*;
use crate::registry::{
    apply_snapshot, confirmed, contacted, entries_view, swept, PeerView, Registry, SnapshotEntry,
    SweepReport,
};
use crate::stats::StatCollector;

verus! {

/// The protocol version this node speaks.
pub const PROTOCOL_VERSION: u64 = 1;

/// The node's own lifecycle state.
#[derive(Clone, Copy, Debug, PartialEq, Eq, Structural)]
pub enum NodeState {
    Unknown,
    Joining,
    Joined,
    Leaving,
    Left,
}

/// Why a handshake did not complete.
#[derive(Clone, Copy, Debug, PartialEq, Eq, Structural)]
pub enum HandshakeError {
    ConnectionError,
    HandshakeTimeout,
    IncompatibleVersion,
    MalformedMessage,
}

/// How a received greeting is judged.
#[derive(Clone, Copy, Debug, PartialEq, Eq, Structural)]
pub enum HandshakeOutcome {
    Accepted,
    /// The remote is this node itself: dropped silently, not a failure.
    SelfConnect,
    Rejected(HandshakeError),
}

/// The greeting each side of a handshake sends.
pub struct Hello {
    pub protocol_version: u64,
    pub id: u64,
    pub address: String,
}

/// Tunable bounds of the protocol, in milliseconds where they are times.
#[derive(Clone, Copy, Debug, PartialEq, Eq, Structural)]
pub struct NodeConfig {
    /// Successful handshakes needed to move from Joining to Joined.
    pub join_threshold: u64,
    pub handshake_timeout: u64,
    pub propagation_interval: u64,
    pub fanout: u64,
    pub heartbeat_interval: u64,
    pub suspect_after: u64,
    pub fail_after: u64,
    pub backoff_base: u64,
    pub backoff_cap: u64,
    /// Attempts allowed for an address that is not a seed.
    pub max_attempts: u64,
    /// The most entries one snapshot carries.
    pub snapshot_cap: usize,
}

impl NodeConfig {
    /// The defaults: one handshake to join, 5 s handshakes, 1 s propagation
    /// and heartbeats, suspicion after three heartbeats, failure after twice
    /// that, backoff capped at 30 s.
    pub fn standard() -> (r: NodeConfig)
        ensures
            r.join_threshold == 1,
            r.handshake_timeout == 5000,
            r.propagation_interval == 1000,
            r.fanout == 3,
            r.heartbeat_interval == 1000,
            r.suspect_after == 3000,
            r.fail_after == 6000,
            r.backoff_base == 100,
            r.backoff_cap == 30000,
            r.max_attempts == 5,
            r.snapshot_cap == 256,
    {
        NodeConfig {
            join_threshold: 1,
            handshake_timeout: 5000,
            propagation_interval: 1000,
            fanout: 3,
            heartbeat_interval: 1000,
            suspect_after: 3000,
            fail_after: 6000,
            backoff_base: 100,
            backoff_cap: 30000,
            max_attempts: 5,
            snapshot_cap: 256,
        }
    }
}

/// How a greeting is judged: a protocol mismatch is a failure; a greeting
/// carrying the local identity is a self-connection; any other is accepted.
pub open spec fn judged(local: u64, hello_version: u64, hello_id: u64) -> HandshakeOutcome {
    if hello_version != PROTOCOL_VERSION {
        HandshakeOutcome::Rejected(HandshakeError::IncompatibleVersion)
    } else if hello_id == local {
        HandshakeOutcome::SelfConnect
    } else {
        HandshakeOutcome::Accepted
    }
}

/// Judges a received greeting.
pub fn check_hello(local: u64, hello: &Hello) -> (r: HandshakeOutcome)
    ensures
        r == judged(local, hello.protocol_version, hello.id),
{
    if hello.protocol_version != PROTOCOL_VERSION {
        HandshakeOutcome::Rejected(HandshakeError::IncompatibleVersion)
    } else if hello.id == local {
        HandshakeOutcome::SelfConnect
    } else {
        HandshakeOutcome::Accepted
    }
}

/// The delay before retry number `attempt`: `base` doubled once per earlier
/// attempt, never above `cap`.
pub open spec fn backoff(attempt: nat, base: int, cap: int) -> int
    decreases attempt,
{
    if attempt == 0 {
        if base < cap {
            base
        } else {
            cap
        }
    } else {
        let d = 2 * backoff((attempt - 1) as nat, base, cap);
        if d < cap {
            d
        } else {
            cap
        }
    }
}

/// The capped exponential backoff delay before retry number `attempt`.
pub fn backoff_delay(attempt: u64, base: u64, cap: u64) -> (r: u64)
    ensures
        r == backoff(attempt as nat, base as int, cap as int),
        r <= cap,
{
    let mut d: u64 = if base < cap {
        base
    } else {
        cap
    };
    let mut k: u64 = 0;
    while k < attempt
        invariant
            k <= attempt,
            d <= cap,
            d == backoff(k as nat, base as int, cap as int),
        decreases attempt - k,
    {
        if d < cap - d {
            d = 2 * d;
        } else {
            d = cap;
        }
        k = k + 1;
    }
    d
}

/// Whether a failed address is tried again: never once withdrawn; always for
/// a seed; otherwise while fewer than `max_attempts` attempts have been made.
pub open spec fn retried(is_seed: bool, withdrawn: bool, attempts: u64, max_attempts: u64) -> bool {
    !withdrawn && (is_seed || attempts < max_attempts)
}

/// The retry decision for a failed connection attempt.
pub fn should_retry(is_seed: bool, withdrawn: bool, attempts: u64, max_attempts: u64) -> (r: bool)
    ensures
        r == retried(is_seed, withdrawn, attempts, max_attempts),
{
    !withdrawn && (is_seed || attempts < max_attempts)
}

fn report(stats: &dyn StatCollector, up: bool, group: &str, event: &str) {
    let path: Vec<&str> = vec!["node", group, event];
    if up {
        stats.increment(path.as_slice());
    } else {
        stats.decrement(path.as_slice());
    }
}

/// One local node: its identity, state, seeds and registry.
pub struct Node {
    id: u64,
    address: String,
    state: NodeState,
    registry: Registry,
    seeds: Vec<String>,
    successes: u64,
    failures: u64,
    config: NodeConfig,
}

impl Node {
    pub closed spec fn local_id(&self) -> u64 {
        self.id
    }

    /// The address this node advertises.
    pub closed spec fn advertised(&self) -> Seq<char> {
        self.address@
    }

    pub closed spec fn current(&self) -> NodeState {
        self.state
    }

    /// The node's registry of peers.
    pub closed spec fn peers(&self) -> Map<u64, PeerView> {
        self.registry@
    }

    pub closed spec fn seed_list(&self) -> Seq<Seq<char>> {
        self.seeds@.map_values(|s: String| s@)
    }

    pub closed spec fn success_count(&self) -> u64 {
        self.successes
    }

    pub closed spec fn failure_count(&self) -> u64 {
        self.failures
    }

    pub closed spec fn settings(&self) -> NodeConfig {
        self.config
    }

    pub closed spec fn wf(&self) -> bool {
        self.registry.wf() && self.registry.local_id() == self.id
    }

    /// A node in state Unknown with an empty registry.
    pub fn new(id: u64, address: String, seeds: Vec<String>, config: NodeConfig) -> (r: Node)
        ensures
            r.wf(),
            r.local_id() == id,
            r.advertised() == address@,
            r.current() == NodeState::Unknown,
            r.peers() == Map::<u64, PeerView>::empty(),
            r.seed_list() == seeds@.map_values(|s: String| s@),
            r.success_count() == 0,
            r.failure_count() == 0,
            r.settings() == config,
    {
        Node {
            id,
            address,
            state: NodeState::Unknown,
            registry: Registry::new(id),
            seeds,
            successes: 0,
            failures: 0,
            config,
        }
    }

    pub fn id(&self) -> (r: u64)
        ensures
            r == self.local_id(),
    {
        self.id
    }

    pub fn address(&self) -> (r: &String)
        ensures
            r@ == self.advertised(),
    {
        &self.address
    }

    pub fn state(&self) -> (r: NodeState)
        ensures
            r == self.current(),
    {
        self.state
    }

    pub fn config(&self) -> (r: NodeConfig)
        ensures
            r == self.settings(),
    {
        self.config
    }

    pub fn peer_count(&self) -> (r: usize)
        requires
            self.wf(),
        ensures
            r == self.peers().len(),
    {
        self.registry.peer_count()
    }

    /// Starts joining: with no seeds the node is a cluster of one and is
    /// Joined at once; otherwise it is Joining, and the seeds to dial are
    /// returned. Only a node in state Unknown starts; any other is unchanged
    /// and dials nothing.
    pub fn start(&mut self) -> (r: Vec<String>)
        requires
            old(self).wf(),
        ensures
            final(self).wf(),
            final(self).local_id() == old(self).local_id(),
            final(self).advertised() == old(self).advertised(),
            final(self).peers() == old(self).peers(),
            final(self).seed_list() == old(self).seed_list(),
            final(self).settings() == old(self).settings(),
            final(self).success_count() == old(self).success_count(),
            final(self).failure_count() == old(self).failure_count(),
            old(self).current() != NodeState::Unknown ==> final(self).current() == old(
                self,
            ).current() && r@.len() == 0,
            old(self).current() == NodeState::Unknown ==> final(self).current() == (if old(
                self,
            ).seed_list().len() == 0 {
                NodeState::Joined
            } else {
                NodeState::Joining
            }) && r@.map_values(|s: String| s@) == old(self).seed_list(),
    {
        if self.state != NodeState::Unknown {
            return Vec::new();
        }
        let mut r: Vec<String> = Vec::new();
        let mut i: usize = 0;
        while i < self.seeds.len()
            invariant
                i <= self.seeds@.len(),
                r@.len() == i,
                forall|k: int| 0 <= k < i ==> (#[trigger] r@[k])@ == self.seeds@[k]@,
            decreases self.seeds@.len() - i,
        {
            r.push(self.seeds[i].clone());
            i = i + 1;
        }
        assert(r@.map_values(|s: String| s@) =~= self.seeds@.map_values(|s: String| s@));
        if self.seeds.len() == 0 {
            self.state = NodeState::Joined;
        } else {
            self.state = NodeState::Joining;
        }
        r
    }

    /// Handles a completed exchange of greetings and snapshots. An accepted
    /// greeting merges the snapshot, then records the remote as `Joined`,
    /// counts a success, and moves a Joining node to Joined once the
    /// successes reach the threshold. A self-connection changes nothing. A
    /// rejected greeting counts a failure.
    pub fn on_handshake(
        &mut self,
        hello: &Hello,
        snapshot: &Vec<SnapshotEntry>,
        now: u64,
        stats: &dyn StatCollector,
    ) -> (r: HandshakeOutcome)
        requires
            old(self).wf(),
        ensures
            final(self).wf(),
            r == judged(old(self).local_id(), hello.protocol_version, hello.id),
            final(self).local_id() == old(self).local_id(),
            final(self).advertised() == old(self).advertised(),
            final(self).seed_list() == old(self).seed_list(),
            final(self).settings() == old(self).settings(),
            r == HandshakeOutcome::Accepted ==> {
                &&& final(self).peers() == confirmed(
                    apply_snapshot(
                        old(self).peers(),
                        old(self).local_id(),
                        entries_view(snapshot@),
                        now,
                    ),
                    old(self).local_id(),
                    hello.id,
                    hello.address@,
                    now,
                )
                &&& final(self).success_count() == (if old(self).success_count() < u64::MAX {
                    old(self).success_count() + 1
                } else {
                    old(self).success_count() as int
                })
                &&& final(self).failure_count() == old(self).failure_count()
                &&& final(self).current() == (if old(self).current() == NodeState::Joining
                    && final(self).success_count() >= old(self).settings().join_threshold {
                    NodeState::Joined
                } else {
                    old(self).current()
                })
            },
            r == HandshakeOutcome::SelfConnect ==> {
                &&& final(self).peers() == old(self).peers()
                &&& final(self).success_count() == old(self).success_count()
                &&& final(self).failure_count() == old(self).failure_count()
                &&& final(self).current() == old(self).current()
            },
            r == HandshakeOutcome::Rejected(HandshakeError::IncompatibleVersion) ==> {
                &&& final(self).peers() == old(self).peers()
                &&& final(self).success_count() == old(self).success_count()
                &&& final(self).failure_count() == (if old(self).failure_count() < u64::MAX {
                    old(self).failure_count() + 1
                } else {
                    old(self).failure_count() as int
                })
                &&& final(self).current() == old(self).current()
            },
    {
        let outcome = check_hello(self.id, hello);
        match outcome {
            HandshakeOutcome::Accepted => {
                self.registry.merge(snapshot, now);
                let newly_joined = match self.registry.state_of(hello.id) {
                    Some(crate::registry::PeerState::Joined) => false,
                    _ => true,
                };
                self.registry.confirm(hello.id, &hello.address, now);
                if newly_joined {
                    report(stats, true, "peer", "joined");
                }
                if self.successes < u64::MAX {
                    self.successes = self.successes + 1;
                }
                report(stats, true, "handshake", "success");
                if self.state == NodeState::Joining && self.successes >= self.config.join_threshold {
                    self.state = NodeState::Joined;
                    report(stats, true, "state", "joined");
                }
            },
            HandshakeOutcome::SelfConnect => {},
            HandshakeOutcome::Rejected(_) => {
                self.count_failure(stats);
            },
        }
        outcome
    }

    fn count_failure(&mut self, stats: &dyn StatCollector)
        ensures
            final(self).failure_count() == (if old(self).failure_count() < u64::MAX {
                old(self).failure_count() + 1
            } else {
                old(self).failure_count() as int
            }),
            final(self).id == old(self).id,
            final(self).address == old(self).address,
            final(self).state == old(self).state,
            final(self).registry == old(self).registry,
            final(self).seeds == old(self).seeds,
            final(self).successes == old(self).successes,
            final(self).config == old(self).config,
    {
        if self.failures < u64::MAX {
            self.failures = self.failures + 1;
        }
        report(stats, true, "handshake", "failure");
    }

    /// Handles a failed connection or handshake with an address: counts the
    /// failure, and returns the delay before the next attempt, or `None`
    /// where the address is not tried again. `attempts` is the number of
    /// attempts made so far, this one included.
    pub fn on_handshake_failure(
        &mut self,
        error: HandshakeError,
        is_seed: bool,
        withdrawn: bool,
        attempts: u64,
        stats: &dyn StatCollector,
    ) -> (r: Option<u64>)
        requires
            old(self).wf(),
        ensures
            final(self).wf(),
            final(self).local_id() == old(self).local_id(),
            final(self).advertised() == old(self).advertised(),
            final(self).peers() == old(self).peers(),
            final(self).current() == old(self).current(),
            final(self).seed_list() == old(self).seed_list(),
            final(self).settings() == old(self).settings(),
            final(self).success_count() == old(self).success_count(),
            final(self).failure_count() == (if old(self).failure_count() < u64::MAX {
                old(self).failure_count() + 1
            } else {
                old(self).failure_count() as int
            }),
            r == (if retried(is_seed, withdrawn, attempts, old(self).settings().max_attempts) {
                Some(
                    backoff(
                        attempts as nat,
                        old(self).settings().backoff_base as int,
                        old(self).settings().backoff_cap as int,
                    ) as u64,
                )
            } else {
                None::<u64>
            }),
    {
        self.count_failure(stats);
        if should_retry(is_seed, withdrawn, attempts, self.config.max_attempts) {
            Some(backoff_delay(attempts, self.config.backoff_base, self.config.backoff_cap))
        } else {
            None
        }
    }

    /// Handles a snapshot gossiped by peer `from`: the sender's contact is
    /// refreshed, then the snapshot is merged.
    pub fn on_gossip(&mut self, from: u64, snapshot: &Vec<SnapshotEntry>, now: u64)
        requires
            old(self).wf(),
        ensures
            final(self).wf(),
            final(self).local_id() == old(self).local_id(),
            final(self).advertised() == old(self).advertised(),
            final(self).current() == old(self).current(),
            final(self).seed_list() == old(self).seed_list(),
            final(self).settings() == old(self).settings(),
            final(self).success_count() == old(self).success_count(),
            final(self).failure_count() == old(self).failure_count(),
            final(self).peers() == apply_snapshot(
                contacted(old(self).peers(), from, now),
                old(self).local_id(),
                entries_view(snapshot@),
                now,
            ),
    {
        self.registry.record_contact(from, now);
        self.registry.merge(snapshot, now);
    }

    /// Handles a heartbeat from peer `from`; returns whether it is known.
    pub fn on_heartbeat(&mut self, from: u64, now: u64) -> (r: bool)
        requires
            old(self).wf(),
        ensures
            final(self).wf(),
            r == old(self).peers().contains_key(from),
            final(self).local_id() == old(self).local_id(),
            final(self).advertised() == old(self).advertised(),
            final(self).current() == old(self).current(),
            final(self).seed_list() == old(self).seed_list(),
            final(self).settings() == old(self).settings(),
            final(self).success_count() == old(self).success_count(),
            final(self).failure_count() == old(self).failure_count(),
            final(self).peers() == contacted(old(self).peers(), from, now),
    {
        self.registry.record_contact(from, now)
    }

    /// One failure-detector sweep at `now` with the configured timeouts. Each
    /// peer turned Suspect is reported once; each peer removed as failed is
    /// reported once as a failure, and once as a peer gone.
    pub fn sweep(&mut self, now: u64, stats: &dyn StatCollector) -> (r: SweepReport)
        requires
            old(self).wf(),
        ensures
            final(self).wf(),
            final(self).local_id() == old(self).local_id(),
            final(self).advertised() == old(self).advertised(),
            final(self).current() == old(self).current(),
            final(self).seed_list() == old(self).seed_list(),
            final(self).settings() == old(self).settings(),
            final(self).success_count() == old(self).success_count(),
            final(self).failure_count() == old(self).failure_count(),
            final(self).peers() == swept(
                old(self).peers(),
                now,
                old(self).settings().suspect_after,
                old(self).settings().fail_after,
            ),
            r.failed@.no_duplicates(),
            forall|id: u64|
                r.failed@.contains(id) <==> old(self).peers().contains_key(id)
                    && crate::registry::expired(
                    old(self).peers()[id],
                    now,
                    old(self).settings().fail_after,
                ),
            r.suspected@.no_duplicates(),
            forall|id: u64|
                r.suspected@.contains(id) <==> old(self).peers().contains_key(id) && old(
                    self,
                ).peers()[id].state == crate::registry::PeerState::Joined
                    && crate::registry::elapsed(old(self).peers()[id].last_contact, now)
                    > old(self).settings().suspect_after,
    {
        let r = self.registry.sweep(now, self.config.suspect_after, self.config.fail_after);
        let mut i: usize = 0;
        while i < r.suspected.len()
            decreases r.suspected@.len() - i,
        {
            report(stats, true, "peer", "suspect");
            i = i + 1;
        }
        let mut j: usize = 0;
        while j < r.failed.len()
            decreases r.failed@.len() - j,
        {
            report(stats, true, "peer", "failed");
            report(stats, false, "peer", "joined");
            j = j + 1;
        }
        r
    }

    /// Begins leaving: a node that has started moves to Leaving and the
    /// addresses of its known peers, to notify of the departure, are
    /// returned. A node in state Unknown, Leaving or Left is unchanged and
    /// notifies nobody.
    pub fn shutdown(&mut self) -> (r: Vec<SnapshotEntry>)
        requires
            old(self).wf(),
        ensures
            final(self).wf(),
            final(self).local_id() == old(self).local_id(),
            final(self).advertised() == old(self).advertised(),
            final(self).peers() == old(self).peers(),
            final(self).seed_list() == old(self).seed_list(),
            final(self).settings() == old(self).settings(),
            final(self).success_count() == old(self).success_count(),
            final(self).failure_count() == old(self).failure_count(),
            (old(self).current() == NodeState::Joining || old(self).current()
                == NodeState::Joined) ==> final(self).current() == NodeState::Leaving
                && r@.len() == old(self).peers().len() && (forall|i: int|
                0 <= i < r@.len() ==> old(self).peers().contains_key(#[trigger] r@[i].id)
                    && r@[i]@.address == old(self).peers()[r@[i].id].address),
            !(old(self).current() == NodeState::Joining || old(self).current()
                == NodeState::Joined) ==> final(self).current() == old(self).current()
                && r@.len() == 0,
    {
        if self.state == NodeState::Joining || self.state == NodeState::Joined {
            self.state = NodeState::Leaving;
            self.registry.snapshot()
        } else {
            Vec::new()
        }
    }

    /// Ends leaving: a Leaving node is Left; any other is unchanged.
    pub fn finish_shutdown(&mut self)
        requires
            old(self).wf(),
        ensures
            final(self).wf(),
            final(self).local_id() == old(self).local_id(),
            final(self).advertised() == old(self).advertised(),
            final(self).peers() == old(self).peers(),
            final(self).seed_list() == old(self).seed_list(),
            final(self).settings() == old(self).settings(),
            final(self).success_count() == old(self).success_count(),
            final(self).failure_count() == old(self).failure_count(),
            final(self).current() == (if old(self).current() == NodeState::Leaving {
                NodeState::Left
            } else {
                old(self).current()
            }),
    {
        if self.state == NodeState::Leaving {
            self.state = NodeState::Left;
        }
    }

    /// The known peers, one entry each, with address, state and version.
    pub fn listing(&self) -> (r: Vec<SnapshotEntry>)
        requires
            self.wf(),
        ensures
            r@.len() == self.peers().len(),
            forall|i: int|
                0 <= i < r@.len() ==> self.peers().contains_key(#[trigger] r@[i].id)
                    && r@[i]@.address == self.peers()[r@[i].id].address && r@[i].state
                    == self.peers()[r@[i].id].state && r@[i].version
                    == self.peers()[r@[i].id].version,
            forall|id: u64|
                #[trigger] self.peers().contains_key(id) ==> exists|i: int|
                    0 <= i < r@.len() && r@[i].id == id,
    {
        self.registry.snapshot()
    }

    /// The snapshot this node sends in a handshake or a gossip round: at
    /// most the configured cap of entries, the least recently changed left
    /// out first.
    pub fn outgoing_snapshot(&self) -> (r: Vec<SnapshotEntry>)
        requires
            self.wf(),
        ensures
            r@.len() == (if self.peers().len() <= self.settings().snapshot_cap {
                self.peers().len()
            } else {
                self.settings().snapshot_cap as nat
            }),
            forall|i: int|
                0 <= i < r@.len() ==> self.peers().contains_key(#[trigger] r@[i].id)
                    && r@[i]@.address == self.peers()[r@[i].id].address && r@[i].state
                    == self.peers()[r@[i].id].state && r@[i].version
                    == self.peers()[r@[i].id].version,
            forall|i: int, j: int| 0 <= i < j < r@.len() ==> r@[i].id != r@[j].id,
            forall|id: u64, i: int|
                #![trigger self.peers()[id], r@[i]]
                self.peers().contains_key(id) && 0 <= i < r@.len() && (forall|j: int|
                    0 <= j < r@.len() ==> r@[j].id != id) ==> self.peers()[id].version
                    <= r@[i].version,
    {
        self.registry.snapshot_capped(self.config.snapshot_cap)
    }

    /// The peers to gossip with this round, one per random draw; app code
    /// supplies `fanout` draws.
    pub fn gossip_targets(&self, draws: &Vec<u64>) -> (r: Vec<u64>)
        requires
            self.wf(),
        ensures
            r@.len() == (if self.peers().len() == 0 {
                0
            } else {
                draws@.len()
            }),
            forall|i: int| 0 <= i < r@.len() ==> self.peers().contains_key(#[trigger] r@[i]),
    {
        self.registry.pick(draws)
    }

    /// The peers a heartbeat goes to at `now`: the `Joined` peers with no
    /// traffic for at least the heartbeat interval, each once.
    pub fn heartbeat_targets(&self, now: u64) -> (r: Vec<u64>)
        requires
            self.wf(),
        ensures
            r@.no_duplicates(),
            forall|id: u64|
                r@.contains(id) <==> self.peers().contains_key(id) && self.peers()[id].state
                    == crate::registry::PeerState::Joined && crate::registry::elapsed(
                    self.peers()[id].last_contact,
                    now,
                ) >= self.settings().heartbeat_interval,
    {
        self.registry.quiet_joined(now, self.config.heartbeat_interval)
    }

    /// The state recorded for a peer, where it is known.
    pub fn peer_state(&self, id: u64) -> (r: Option<crate::registry::PeerState>)
        requires
            self.wf(),
        ensures
            r == (if self.peers().contains_key(id) {
                Some(self.peers()[id].state)
            } else {
                None::<crate::registry::PeerState>
            }),
    {
        self.registry.state_of(id)
    }
}

} // verus!
