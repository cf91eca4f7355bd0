//! The peer registry: known peers keyed by identity, the merge rule for
//! incoming snapshots, liveness updates and the failure-detector sweep.
use vstd::prelude::*;

verus! {

/// A peer's state as observed locally.
#[derive(Clone, Copy, Debug, PartialEq, Eq, Structural)]
pub enum PeerState {
    Joining,
    Joined,
    Suspect,
    Failed,
}

/// What the registry knows of one peer, keyed by its identity.
pub struct PeerView {
    pub address: Seq<char>,
    pub state: PeerState,
    pub version: u64,
    pub last_contact: u64,
}

/// One known peer.
pub struct Peer {
    pub id: u64,
    pub address: String,
    pub state: PeerState,
    pub version: u64,
    pub last_contact: u64,
}

impl View for Peer {
    type V = PeerView;

    open spec fn view(&self) -> PeerView {
        PeerView {
            address: self.address@,
            state: self.state,
            version: self.version,
            last_contact: self.last_contact,
        }
    }
}

/// One entry of a membership snapshot, as exchanged between nodes.
pub struct SnapshotEntry {
    pub id: u64,
    pub address: String,
    pub state: PeerState,
    pub version: u64,
}

/// A snapshot entry with its address as characters.
pub struct EntryView {
    pub id: u64,
    pub address: Seq<char>,
    pub state: PeerState,
    pub version: u64,
}

impl View for SnapshotEntry {
    type V = EntryView;

    open spec fn view(&self) -> EntryView {
        EntryView { id: self.id, address: self.address@, state: self.state, version: self.version }
    }
}

/// The entries of a snapshot, as views.
pub open spec fn entries_view(s: Seq<SnapshotEntry>) -> Seq<EntryView> {
    s.map_values(|e: SnapshotEntry| e@)
}

/// The merge rule for one incoming entry, seen from the node `local`:
/// entries about `local` itself are ignored; an unknown peer is inserted as
/// `Joining` with the entry's version; a known one adopts the entry's address,
/// state and version only where the entry's version is higher.
pub open spec fn apply_entry(m: Map<u64, PeerView>, local: u64, e: EntryView, now: u64) -> Map<
    u64,
    PeerView,
> {
    if e.id == local {
        m
    } else if !m.contains_key(e.id) {
        m.insert(
            e.id,
            PeerView {
                address: e.address,
                state: PeerState::Joining,
                version: e.version,
                last_contact: now,
            },
        )
    } else if m[e.id].version < e.version {
        m.insert(
            e.id,
            PeerView {
                address: e.address,
                state: e.state,
                version: e.version,
                last_contact: m[e.id].last_contact,
            },
        )
    } else {
        m
    }
}

/// The merge rule applied to each entry of a snapshot in turn.
pub open spec fn apply_snapshot(
    m: Map<u64, PeerView>,
    local: u64,
    s: Seq<EntryView>,
    now: u64,
) -> Map<u64, PeerView>
    decreases s.len(),
{
    if s.len() == 0 {
        m
    } else {
        apply_entry(apply_snapshot(m, local, s.drop_last(), now), local, s.last(), now)
    }
}

/// Time elapsed from `last` to `now`; none where the clock reads earlier.
pub open spec fn elapsed(last: u64, now: u64) -> int {
    if now >= last {
        now - last
    } else {
        0
    }
}

/// A `Joined` peer silent for longer than `suspect_after` turns `Suspect`.
pub open spec fn aged(p: PeerView, now: u64, suspect_after: u64) -> PeerView {
    if p.state == PeerState::Joined && elapsed(p.last_contact, now) > suspect_after {
        PeerView { state: PeerState::Suspect, ..p }
    } else {
        p
    }
}

/// A `Suspect` peer silent for longer than `fail_after` has failed.
pub open spec fn expired(p: PeerView, now: u64, fail_after: u64) -> bool {
    p.state == PeerState::Suspect && elapsed(p.last_contact, now) > fail_after
}

/// The registry after one failure-detector sweep: failed peers removed, the
/// others aged.
pub open spec fn swept(m: Map<u64, PeerView>, now: u64, suspect_after: u64, fail_after: u64) -> Map<
    u64,
    PeerView,
> {
    Map::new(
        |id: u64| m.contains_key(id) && !expired(m[id], now, fail_after),
        |id: u64| aged(m[id], now, suspect_after),
    )
}

/// The registry after any traffic from peer `id` at `now`: its last contact
/// advances, and a `Suspect` peer is `Joined` again.
pub open spec fn contacted(m: Map<u64, PeerView>, id: u64, now: u64) -> Map<u64, PeerView> {
    if m.contains_key(id) {
        m.insert(
            id,
            PeerView {
                state: if m[id].state == PeerState::Suspect {
                    PeerState::Joined
                } else {
                    m[id].state
                },
                last_contact: if now > m[id].last_contact {
                    now
                } else {
                    m[id].last_contact
                },
                ..m[id]
            },
        )
    } else {
        m
    }
}

/// The registry after a completed handshake with peer `id`: the peer is
/// `Joined` at `address`, in contact at `now`, under a new version.
pub open spec fn confirmed(m: Map<u64, PeerView>, local: u64, id: u64, address: Seq<char>, now: u64) -> Map<
    u64,
    PeerView,
> {
    if id == local {
        m
    } else if m.contains_key(id) {
        m.insert(
            id,
            PeerView {
                address,
                state: PeerState::Joined,
                version: if m[id].version < u64::MAX {
                    (m[id].version + 1) as u64
                } else {
                    m[id].version
                },
                last_contact: if now > m[id].last_contact {
                    now
                } else {
                    m[id].last_contact
                },
            },
        )
    } else {
        m.insert(id, PeerView { address, state: PeerState::Joined, version: 1, last_contact: now })
    }
}

/// What one sweep reports: the peers that turned `Suspect`, and the peers
/// removed as failed, each once.
pub struct SweepReport {
    pub suspected: Vec<u64>,
    pub failed: Vec<u64>,
}

/// The peers of a sequence, keyed by identity.
pub open spec fn peers_map(s: Seq<Peer>) -> Map<u64, PeerView>
    decreases s.len(),
{
    if s.len() == 0 {
        Map::empty()
    } else {
        peers_map(s.drop_last()).insert(s.last().id, s.last()@)
    }
}

/// No identity occurs twice.
pub open spec fn ids_unique(s: Seq<Peer>) -> bool {
    forall|i: int, j: int| 0 <= i < j < s.len() ==> s[i].id != s[j].id
}

proof fn lemma_map_contains(s: Seq<Peer>, id: u64)
    ensures
        peers_map(s).contains_key(id) <==> exists|i: int| 0 <= i < s.len() && s[i].id == id,
    decreases s.len(),
{
    if s.len() > 0 {
        lemma_map_contains(s.drop_last(), id);
        if peers_map(s.drop_last()).contains_key(id) {
            let i = choose|i: int| 0 <= i < s.len() - 1 && s.drop_last()[i].id == id;
            assert(s[i].id == id);
        }
        if exists|i: int| 0 <= i < s.len() && s[i].id == id {
            let i = choose|i: int| 0 <= i < s.len() && s[i].id == id;
            if i < s.len() - 1 {
                assert(s.drop_last()[i].id == id);
            }
        }
    }
}

proof fn lemma_map_at(s: Seq<Peer>, i: int)
    requires
        ids_unique(s),
        0 <= i < s.len(),
    ensures
        peers_map(s).contains_key(s[i].id),
        peers_map(s)[s[i].id] == s[i]@,
    decreases s.len(),
{
    if i < s.len() - 1 {
        lemma_map_at(s.drop_last(), i);
    }
}

proof fn lemma_map_update(s: Seq<Peer>, i: int, p: Peer)
    requires
        ids_unique(s),
        0 <= i < s.len(),
        p.id == s[i].id,
    ensures
        ids_unique(s.update(i, p)),
        peers_map(s.update(i, p)) =~= peers_map(s).insert(p.id, p@),
    decreases s.len(),
{
    let t = s.update(i, p);
    if i == s.len() - 1 {
        assert(t.drop_last() =~= s.drop_last());
    } else {
        assert(t.drop_last() =~= s.drop_last().update(i, p));
        lemma_map_update(s.drop_last(), i, p);
    }
}

proof fn lemma_map_push(s: Seq<Peer>, p: Peer)
    ensures
        peers_map(s.push(p)) == peers_map(s).insert(p.id, p@),
{
    assert(s.push(p).drop_last() =~= s);
}

proof fn lemma_map_len(s: Seq<Peer>)
    requires
        ids_unique(s),
    ensures
        peers_map(s).dom().finite(),
        peers_map(s).len() == s.len(),
    decreases s.len(),
{
    if s.len() > 0 {
        lemma_map_len(s.drop_last());
        lemma_map_contains(s.drop_last(), s.last().id);
    }
}

proof fn lemma_push_contains(s: Seq<u64>, x: u64, id: u64)
    ensures
        s.push(x).contains(id) <==> s.contains(id) || id == x,
{
    if s.contains(id) {
        let k = choose|k: int| 0 <= k < s.len() && s[k] == id;
        assert(s.push(x)[k] == id);
    }
    if s.push(x).contains(id) {
        let k = choose|k: int| 0 <= k < s.len() + 1 && s.push(x)[k] == id;
        if k < s.len() {
            assert(s[k] == id);
        }
    }
    assert(s.push(x)[s.len() as int] == x);
}

proof fn lemma_swept_push(m: Map<u64, PeerView>, p: PeerView, id: u64, now: u64, sa: u64, fa: u64)
    requires
        !m.contains_key(id),
    ensures
        expired(p, now, fa) ==> swept(m.insert(id, p), now, sa, fa) =~= swept(m, now, sa, fa),
        !expired(p, now, fa) ==> swept(m.insert(id, p), now, sa, fa) =~= swept(m, now, sa, fa).insert(
            id,
            aged(p, now, sa),
        ),
{
}

/// Failure detection: a `Suspect` peer silent for longer than `fail_after` is
/// expired, so a sweep removes it and reports it among the failed.
pub proof fn lemma_silent_peer_fails(
    m: Map<u64, PeerView>,
    id: u64,
    now: u64,
    suspect_after: u64,
    fail_after: u64,
)
    requires
        m.contains_key(id),
        m[id].state == PeerState::Suspect,
        elapsed(m[id].last_contact, now) > fail_after,
    ensures
        expired(m[id], now, fail_after),
        !swept(m, now, suspect_after, fail_after).contains_key(id),
{
}

/// Recovery: a `Suspect` peer heard from at `t`, before its failure deadline,
/// is `Joined` again, and a sweep at any `now` keeps it and does not count it
/// as failed.
pub proof fn lemma_contact_recovers(
    m: Map<u64, PeerView>,
    id: u64,
    t: u64,
    now: u64,
    suspect_after: u64,
    fail_after: u64,
)
    requires
        m.contains_key(id),
        m[id].state == PeerState::Suspect,
        elapsed(m[id].last_contact, t) <= fail_after,
    ensures
        contacted(m, id, t)[id].state == PeerState::Joined,
        !expired(contacted(m, id, t)[id], now, fail_after),
        swept(contacted(m, id, t), now, suspect_after, fail_after).contains_key(id),
{
}

/// The peers known to one node, which never holds an entry for itself.
pub struct Registry {
    local: u64,
    peers: Vec<Peer>,
}

impl View for Registry {
    type V = Map<u64, PeerView>;

    closed spec fn view(&self) -> Map<u64, PeerView> {
        peers_map(self.peers@)
    }
}

impl Registry {
    /// The identity of the node that owns this registry.
    pub closed spec fn local_id(&self) -> u64 {
        self.local
    }

    /// Identities are unique and the owner's own is absent.
    pub closed spec fn wf(&self) -> bool {
        ids_unique(self.peers@) && forall|i: int|
            0 <= i < self.peers@.len() ==> self.peers@[i].id != self.local
    }

    /// An empty registry owned by the node `local`.
    pub fn new(local: u64) -> (r: Registry)
        ensures
            r.wf(),
            r.local_id() == local,
            r@ == Map::<u64, PeerView>::empty(),
    {
        Registry { local, peers: Vec::new() }
    }

    /// The identity of the node that owns this registry.
    pub fn local(&self) -> (r: u64)
        ensures
            r == self.local_id(),
    {
        self.local
    }

    fn find(&self, id: u64) -> (r: Option<usize>)
        requires
            self.wf(),
        ensures
            match r {
                Some(i) => i < self.peers@.len() && self.peers@[i as int].id == id
                    && self@.contains_key(id) && self@[id] == self.peers@[i as int]@,
                None => !self@.contains_key(id),
            },
    {
        let mut i: usize = 0;
        while i < self.peers.len()
            invariant
                self.wf(),
                i <= self.peers@.len(),
                forall|j: int| 0 <= j < i ==> self.peers@[j].id != id,
            decreases self.peers@.len() - i,
        {
            if self.peers[i].id == id {
                proof {
                    lemma_map_at(self.peers@, i as int);
                }
                return Some(i);
            }
            i = i + 1;
        }
        proof {
            lemma_map_contains(self.peers@, id);
        }
        None
    }

    /// The number of known peers.
    pub fn peer_count(&self) -> (r: usize)
        requires
            self.wf(),
        ensures
            r == self@.len(),
    {
        proof {
            lemma_map_len(self.peers@);
        }
        self.peers.len()
    }

    /// Whether a peer is known.
    pub fn contains(&self, id: u64) -> (r: bool)
        requires
            self.wf(),
        ensures
            r == self@.contains_key(id),
    {
        self.find(id).is_some()
    }

    /// The state of a peer, where it is known.
    pub fn state_of(&self, id: u64) -> (r: Option<PeerState>)
        requires
            self.wf(),
        ensures
            r == (if self@.contains_key(id) { Some(self@[id].state) } else { None::<PeerState> }),
    {
        match self.find(id) {
            Some(i) => Some(self.peers[i].state),
            None => None,
        }
    }

    /// The version stored for a peer, where it is known.
    pub fn version_of(&self, id: u64) -> (r: Option<u64>)
        requires
            self.wf(),
        ensures
            r == (if self@.contains_key(id) { Some(self@[id].version) } else { None::<u64> }),
    {
        match self.find(id) {
            Some(i) => Some(self.peers[i].version),
            None => None,
        }
    }

    /// Applies the merge rule to one incoming entry.
    pub fn merge_entry(&mut self, e: &SnapshotEntry, now: u64)
        requires
            old(self).wf(),
        ensures
            final(self).wf(),
            final(self).local_id() == old(self).local_id(),
            final(self)@ == apply_entry(old(self)@, old(self).local_id(), e@, now),
    {
        if e.id == self.local {
            return ;
        }
        match self.find(e.id) {
            None => {
                let p = Peer {
                    id: e.id,
                    address: e.address.clone(),
                    state: PeerState::Joining,
                    version: e.version,
                    last_contact: now,
                };
                proof {
                    lemma_map_push(self.peers@, p);
                    lemma_map_contains(self.peers@, e.id);
                }
                self.peers.push(p);
            },
            Some(i) => {
                if self.peers[i].version < e.version {
                    let p = Peer {
                        id: e.id,
                        address: e.address.clone(),
                        state: e.state,
                        version: e.version,
                        last_contact: self.peers[i].last_contact,
                    };
                    proof {
                        lemma_map_update(self.peers@, i as int, p);
                    }
                    self.peers[i] = p;
                }
            },
        }
    }

    /// Applies the merge rule to each entry of a snapshot in order, as one
    /// update of the registry.
    pub fn merge(&mut self, snapshot: &Vec<SnapshotEntry>, now: u64)
        requires
            old(self).wf(),
        ensures
            final(self).wf(),
            final(self).local_id() == old(self).local_id(),
            final(self)@ == apply_snapshot(
                old(self)@,
                old(self).local_id(),
                entries_view(snapshot@),
                now,
            ),
    {
        let mut i: usize = 0;
        while i < snapshot.len()
            invariant
                i <= snapshot@.len(),
                self.wf(),
                self.local_id() == old(self).local_id(),
                self@ == apply_snapshot(
                    old(self)@,
                    old(self).local_id(),
                    entries_view(snapshot@).take(i as int),
                    now,
                ),
            decreases snapshot@.len() - i,
        {
            assert(entries_view(snapshot@).take(i as int + 1).drop_last() =~= entries_view(
                snapshot@,
            ).take(i as int));
            self.merge_entry(&snapshot[i], now);
            i = i + 1;
        }
        assert(entries_view(snapshot@).take(snapshot@.len() as int) =~= entries_view(snapshot@));
    }

    /// Records traffic from peer `id` at `now`; returns whether it is known.
    pub fn record_contact(&mut self, id: u64, now: u64) -> (r: bool)
        requires
            old(self).wf(),
        ensures
            final(self).wf(),
            final(self).local_id() == old(self).local_id(),
            r == old(self)@.contains_key(id),
            final(self)@ == contacted(old(self)@, id, now),
    {
        match self.find(id) {
            None => false,
            Some(i) => {
                let old_peer = &self.peers[i];
                let p = Peer {
                    id,
                    address: old_peer.address.clone(),
                    state: if old_peer.state == PeerState::Suspect {
                        PeerState::Joined
                    } else {
                        old_peer.state
                    },
                    version: old_peer.version,
                    last_contact: if now > old_peer.last_contact {
                        now
                    } else {
                        old_peer.last_contact
                    },
                };
                proof {
                    lemma_map_update(self.peers@, i as int, p);
                }
                self.peers[i] = p;
                true
            },
        }
    }

    /// Records a completed handshake with peer `id`, reachable at `address`.
    pub fn confirm(&mut self, id: u64, address: &String, now: u64)
        requires
            old(self).wf(),
        ensures
            final(self).wf(),
            final(self).local_id() == old(self).local_id(),
            final(self)@ == confirmed(old(self)@, old(self).local_id(), id, address@, now),
    {
        if id == self.local {
            return ;
        }
        match self.find(id) {
            None => {
                let p = Peer {
                    id,
                    address: address.clone(),
                    state: PeerState::Joined,
                    version: 1,
                    last_contact: now,
                };
                proof {
                    lemma_map_push(self.peers@, p);
                    lemma_map_contains(self.peers@, id);
                }
                self.peers.push(p);
            },
            Some(i) => {
                let old_peer = &self.peers[i];
                let p = Peer {
                    id,
                    address: address.clone(),
                    state: PeerState::Joined,
                    version: if old_peer.version < u64::MAX {
                        old_peer.version + 1
                    } else {
                        old_peer.version
                    },
                    last_contact: if now > old_peer.last_contact {
                        now
                    } else {
                        old_peer.last_contact
                    },
                };
                proof {
                    lemma_map_update(self.peers@, i as int, p);
                }
                self.peers[i] = p;
            },
        }
    }

    /// One failure-detector sweep at `now`: removes the `Suspect` peers silent
    /// for longer than `fail_after`, turns `Joined` peers silent for longer
    /// than `suspect_after` into `Suspect`, and reports both, each peer once.
    pub fn sweep(&mut self, now: u64, suspect_after: u64, fail_after: u64) -> (r: SweepReport)
        requires
            old(self).wf(),
        ensures
            final(self).wf(),
            final(self).local_id() == old(self).local_id(),
            final(self)@ == swept(old(self)@, now, suspect_after, fail_after),
            r.failed@.no_duplicates(),
            forall|id: u64|
                r.failed@.contains(id) <==> old(self)@.contains_key(id) && expired(
                    old(self)@[id],
                    now,
                    fail_after,
                ),
            r.suspected@.no_duplicates(),
            forall|id: u64|
                r.suspected@.contains(id) <==> old(self)@.contains_key(id) && old(self)@[id].state
                    == PeerState::Joined && elapsed(old(self)@[id].last_contact, now)
                    > suspect_after,
    {
        let mut kept: Vec<Peer> = Vec::new();
        let mut failed: Vec<u64> = Vec::new();
        let mut suspected: Vec<u64> = Vec::new();
        let mut i: usize = 0;
        let ghost ps = self.peers@;
        while i < self.peers.len()
            invariant
                self.wf(),
                ps == self.peers@,
                i <= ps.len(),
                ids_unique(kept@),
                forall|k: int|
                    0 <= k < kept@.len() ==> peers_map(ps.take(i as int)).contains_key(
                        #[trigger] kept@[k].id,
                    ),
                forall|k: int| 0 <= k < kept@.len() ==> kept@[k].id != self.local,
                peers_map(kept@) =~= swept(
                    peers_map(ps.take(i as int)),
                    now,
                    suspect_after,
                    fail_after,
                ),
                failed@.no_duplicates(),
                forall|id: u64|
                    #[trigger] failed@.contains(id) <==> peers_map(ps.take(i as int)).contains_key(id)
                        && expired(peers_map(ps.take(i as int))[id], now, fail_after),
                suspected@.no_duplicates(),
                forall|id: u64|
                    #[trigger] suspected@.contains(id) <==> peers_map(
                        ps.take(i as int),
                    ).contains_key(id) && peers_map(ps.take(i as int))[id].state
                        == PeerState::Joined && elapsed(
                        peers_map(ps.take(i as int))[id].last_contact,
                        now,
                    ) > suspect_after,
            decreases ps.len() - i,
        {
            let p = &self.peers[i];
            let gone = now >= p.last_contact;
            let quiet: u64 = if gone {
                now - p.last_contact
            } else {
                0
            };
            proof {
                assert(ps.take(i as int + 1).drop_last() =~= ps.take(i as int));
                lemma_map_push(ps.take(i as int), ps[i as int]);
                assert(ps.take(i as int + 1) =~= ps.take(i as int).push(ps[i as int]));
                lemma_map_contains(ps.take(i as int), p.id);
                if peers_map(ps.take(i as int)).contains_key(p.id) {
                    let j = choose|j: int| 0 <= j < i && ps.take(i as int)[j].id == p.id;
                    assert(ps[j].id == p.id);
                }
                assert(!failed@.contains(p.id));
                assert(!suspected@.contains(p.id));
                lemma_swept_push(
                    peers_map(ps.take(i as int)),
                    p@,
                    p.id,
                    now,
                    suspect_after,
                    fail_after,
                );
            }
            let ghost failed0 = failed@;
            let ghost suspected0 = suspected@;
            if p.state == PeerState::Suspect && quiet > fail_after {
                failed.push(p.id);
            } else {
                let turned = p.state == PeerState::Joined && quiet > suspect_after;
                if turned {
                    suspected.push(p.id);
                }
                let q = Peer {
                    id: p.id,
                    address: p.address.clone(),
                    state: if turned {
                        PeerState::Suspect
                    } else {
                        p.state
                    },
                    version: p.version,
                    last_contact: p.last_contact,
                };
                proof {
                    lemma_map_push(kept@, q);
                    assert(q@ == aged(p@, now, suspect_after));
                }
                kept.push(q);
            }
            proof {
                let m0 = peers_map(ps.take(i as int));
                let m1 = peers_map(ps.take(i as int + 1));
                assert(m1 == m0.insert(p.id, p@));
                assert(quiet == elapsed(p.last_contact, now));
                assert forall|id: u64| #[trigger] failed@.contains(id) <==> m1.contains_key(id)
                    && expired(m1[id], now, fail_after) by {
                    lemma_push_contains(failed0, p.id, id);
                    if id != p.id {
                        assert(m1.contains_key(id) == m0.contains_key(id));
                    }
                }
                assert forall|id: u64| #[trigger] suspected@.contains(id) <==> m1.contains_key(id)
                    && m1[id].state == PeerState::Joined && elapsed(m1[id].last_contact, now)
                    > suspect_after by {
                    lemma_push_contains(suspected0, p.id, id);
                    if id != p.id {
                        assert(m1.contains_key(id) == m0.contains_key(id));
                    }
                }
            }
            i = i + 1;
        }
        proof {
            assert(ps.take(ps.len() as int) =~= ps);
        }
        self.peers = kept;
        SweepReport { suspected, failed }
    }

    /// The registry as a snapshot, one entry per known peer.
    pub fn snapshot(&self) -> (r: Vec<SnapshotEntry>)
        requires
            self.wf(),
        ensures
            r@.len() == self@.len(),
            forall|i: int|
                0 <= i < r@.len() ==> self@.contains_key(#[trigger] r@[i].id) && r@[i]@.address
                    == self@[r@[i].id].address && r@[i].state == self@[r@[i].id].state
                    && r@[i].version == self@[r@[i].id].version,
            forall|id: u64|
                #[trigger] self@.contains_key(id) ==> exists|i: int| 0 <= i < r@.len() && r@[i].id == id,
            forall|i: int, j: int| 0 <= i < j < r@.len() ==> r@[i].id != r@[j].id,
    {
        let mut r: Vec<SnapshotEntry> = Vec::new();
        let mut i: usize = 0;
        while i < self.peers.len()
            invariant
                self.wf(),
                i <= self.peers@.len(),
                r@.len() == i,
                forall|k: int|
                    0 <= k < i ==> (#[trigger] r@[k]).id == self.peers@[k].id && r@[k]@.address
                        == self.peers@[k].address@ && r@[k].state == self.peers@[k].state
                        && r@[k].version == self.peers@[k].version,
            decreases self.peers@.len() - i,
        {
            let p = &self.peers[i];
            r.push(
                SnapshotEntry {
                    id: p.id,
                    address: p.address.clone(),
                    state: p.state,
                    version: p.version,
                },
            );
            i = i + 1;
        }
        proof {
            lemma_map_len(self.peers@);
            assert forall|k: int| 0 <= k < r@.len() implies self@.contains_key(#[trigger] r@[k].id)
                && r@[k]@.address == self@[r@[k].id].address && r@[k].state
                == self@[r@[k].id].state && r@[k].version == self@[r@[k].id].version by {
                lemma_map_at(self.peers@, k);
                assert(r@[k].id == self.peers@[k].id);
            }
            assert forall|id: u64| #[trigger] self@.contains_key(id) implies exists|k: int|
                0 <= k < r@.len() && r@[k].id == id by {
                lemma_map_contains(self.peers@, id);
                let k = choose|k: int| 0 <= k < self.peers@.len() && self.peers@[k].id == id;
                assert(r@[k].id == id);
            }
            assert forall|i: int, j: int| 0 <= i < j < r@.len() implies r@[i].id != r@[j].id by {
                assert(r@[i].id == self.peers@[i].id);
                assert(r@[j].id == self.peers@[j].id);
            }
        }
        r
    }

    /// Known peers picked by the given draws, one per draw: draw `d` picks the
    /// peer at position `d` modulo the peer count. With no peer known, none.
    pub fn pick(&self, draws: &Vec<u64>) -> (r: Vec<u64>)
        requires
            self.wf(),
        ensures
            r@.len() == (if self@.len() == 0 {
                0
            } else {
                draws@.len()
            }),
            forall|i: int| 0 <= i < r@.len() ==> self@.contains_key(#[trigger] r@[i]),
    {
        let mut r: Vec<u64> = Vec::new();
        let n = self.peers.len();
        proof {
            lemma_map_len(self.peers@);
        }
        if n == 0 {
            return r;
        }
        let mut i: usize = 0;
        while i < draws.len()
            invariant
                self.wf(),
                n == self.peers@.len(),
                n > 0,
                i <= draws@.len(),
                r@.len() == i,
                forall|k: int| 0 <= k < i ==> self@.contains_key(#[trigger] r@[k]),
            decreases draws@.len() - i,
        {
            let at = (draws[i] % (n as u64)) as usize;
            proof {
                lemma_map_at(self.peers@, at as int);
            }
            r.push(self.peers[at].id);
            i = i + 1;
        }
        r
    }

    /// The `Joined` peers not heard from for at least `interval` at `now`:
    /// those a heartbeat goes to. Each is listed once.
    pub fn quiet_joined(&self, now: u64, interval: u64) -> (r: Vec<u64>)
        requires
            self.wf(),
        ensures
            r@.no_duplicates(),
            forall|id: u64|
                r@.contains(id) <==> self@.contains_key(id) && self@[id].state == PeerState::Joined
                    && elapsed(self@[id].last_contact, now) >= interval,
    {
        let mut r: Vec<u64> = Vec::new();
        let mut i: usize = 0;
        let ghost ps = self.peers@;
        while i < self.peers.len()
            invariant
                self.wf(),
                ps == self.peers@,
                i <= ps.len(),
                r@.no_duplicates(),
                forall|id: u64|
                    #[trigger] r@.contains(id) <==> peers_map(ps.take(i as int)).contains_key(id)
                        && peers_map(ps.take(i as int))[id].state == PeerState::Joined && elapsed(
                        peers_map(ps.take(i as int))[id].last_contact,
                        now,
                    ) >= interval,
            decreases ps.len() - i,
        {
            let p = &self.peers[i];
            let ghost r0 = r@;
            let quiet: u64 = if now >= p.last_contact {
                now - p.last_contact
            } else {
                0
            };
            proof {
                lemma_map_push(ps.take(i as int), ps[i as int]);
                assert(ps.take(i as int + 1) =~= ps.take(i as int).push(ps[i as int]));
                lemma_map_contains(ps.take(i as int), p.id);
                if peers_map(ps.take(i as int)).contains_key(p.id) {
                    let j = choose|j: int| 0 <= j < i && ps.take(i as int)[j].id == p.id;
                    assert(ps[j].id == p.id);
                }
                assert(!r@.contains(p.id));
            }
            if p.state == PeerState::Joined && quiet >= interval {
                r.push(p.id);
            }
            proof {
                let m0 = peers_map(ps.take(i as int));
                let m1 = peers_map(ps.take(i as int + 1));
                assert(m1 == m0.insert(p.id, p@));
                assert forall|id: u64| #[trigger] r@.contains(id) <==> m1.contains_key(id)
                    && m1[id].state == PeerState::Joined && elapsed(m1[id].last_contact, now)
                    >= interval by {
                    lemma_push_contains(r0, p.id, id);
                    if id != p.id {
                        assert(m1.contains_key(id) == m0.contains_key(id));
                    }
                }
            }
            i = i + 1;
        }
        proof {
            assert(ps.take(ps.len() as int) =~= ps);
        }
        r
    }

    /// The registry as a snapshot of at most `cap` entries. Where more peers
    /// are known, the least recently changed (lowest versions) are left out:
    /// no peer left out has a higher version than any peer sent.
    pub fn snapshot_capped(&self, cap: usize) -> (r: Vec<SnapshotEntry>)
        requires
            self.wf(),
        ensures
            r@.len() == (if self@.len() <= cap {
                self@.len()
            } else {
                cap as nat
            }),
            forall|i: int|
                0 <= i < r@.len() ==> self@.contains_key(#[trigger] r@[i].id) && r@[i]@.address
                    == self@[r@[i].id].address && r@[i].state == self@[r@[i].id].state
                    && r@[i].version == self@[r@[i].id].version,
            forall|i: int, j: int| 0 <= i < j < r@.len() ==> r@[i].id != r@[j].id,
            forall|id: u64, i: int|
                #![trigger self@[id], r@[i]]
                self@.contains_key(id) && 0 <= i < r@.len() && (forall|j: int|
                    0 <= j < r@.len() ==> r@[j].id != id) ==> self@[id].version <= r@[i].version,
    {
        let mut work = self.snapshot();
        let n = work.len();
        let rounds = if n <= cap {
            n
        } else {
            cap
        };
        let mut r: Vec<SnapshotEntry> = Vec::new();
        while r.len() < rounds
            invariant
                self.wf(),
                n == self@.len(),
                rounds <= n,
                rounds == (if self@.len() <= cap {
                    self@.len()
                } else {
                    cap as nat
                }),
                r@.len() + work@.len() == n,
                r@.len() <= rounds,
                forall|i: int|
                    0 <= i < r@.len() ==> self@.contains_key(#[trigger] r@[i].id) && r@[i]@.address
                        == self@[r@[i].id].address && r@[i].state == self@[r@[i].id].state
                        && r@[i].version == self@[r@[i].id].version,
                forall|k: int|
                    0 <= k < work@.len() ==> self@.contains_key(#[trigger] work@[k].id)
                        && work@[k]@.address == self@[work@[k].id].address && work@[k].state
                        == self@[work@[k].id].state && work@[k].version
                        == self@[work@[k].id].version,
                forall|id: u64|
                    #[trigger] self@.contains_key(id) ==> (exists|i: int|
                        0 <= i < r@.len() && r@[i].id == id) || (exists|k: int|
                        0 <= k < work@.len() && work@[k].id == id),
                forall|i: int, j: int| 0 <= i < j < r@.len() ==> r@[i].id != r@[j].id,
                forall|k: int, l: int| 0 <= k < l < work@.len() ==> work@[k].id != work@[l].id,
                forall|i: int, k: int|
                    0 <= i < r@.len() && 0 <= k < work@.len() ==> r@[i].id != work@[k].id,
                forall|i: int, k: int|
                    0 <= i < r@.len() && 0 <= k < work@.len() ==> r@[i].version
                        >= work@[k].version,
            decreases rounds - r@.len(),
        {
            let mut best: usize = 0;
            let mut k: usize = 1;
            while k < work.len()
                invariant
                    0 < work@.len(),
                    best < work@.len(),
                    1 <= k <= work@.len(),
                    forall|l: int| 0 <= l < k ==> work@[l].version <= work@[best as int].version,
                decreases work@.len() - k,
            {
                if work[k].version > work[best].version {
                    best = k;
                }
                k = k + 1;
            }
            let ghost w0 = work@;
            let ghost r0 = r@;
            let e = work.remove(best);
            proof {
                assert forall|l: int| 0 <= l < work@.len() implies work@[l] == w0[if l < best {
                    l
                } else {
                    l + 1
                }] by {}
            }
            r.push(e);
            proof {
                assert(r@[r0.len() as int] == w0[best as int]);
                assert forall|i: int| 0 <= i < r0.len() implies r@[i] == r0[i] by {}
                assert forall|id: u64| #[trigger] self@.contains_key(id) implies (exists|i: int|
                    0 <= i < r@.len() && r@[i].id == id) || (exists|k: int|
                    0 <= k < work@.len() && work@[k].id == id) by {
                    if exists|i: int| 0 <= i < r0.len() && r0[i].id == id {
                        let i = choose|i: int| 0 <= i < r0.len() && r0[i].id == id;
                        assert(r@[i].id == id);
                    } else {
                        let k = choose|k: int| 0 <= k < w0.len() && w0[k].id == id;
                        if k == best {
                            assert(r@[r0.len() as int].id == id);
                        } else if k < best {
                            assert(work@[k].id == id);
                        } else {
                            assert(work@[k - 1].id == id);
                        }
                    }
                }
            }
        }
        r
    }
}

} // verus!
