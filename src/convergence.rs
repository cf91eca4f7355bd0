//! Laws of the merge rule: retransmission, duplication and reordering of
//! snapshots leave the registry as one delivery would.
use vstd::prelude::*;
use crate::registry::{apply_entry, apply_snapshot, EntryView, PeerView};

verus! {

/// Every entry of `s` not about `local` is known in `m` at its version or later.
pub open spec fn covers(m: Map<u64, PeerView>, local: u64, s: Seq<EntryView>) -> bool {
    forall|i: int|
        0 <= i < s.len() && s[i].id != local ==> #[trigger] m.contains_key(s[i].id)
            && m[s[i].id].version >= s[i].version
}

/// Two entries commute under the merge rule on `m`: they name different
/// peers or the local node, or they are the same entry, or the peer is
/// already known and, where their versions are equal, they agree on address
/// and state unless the stored version already reaches theirs.
pub open spec fn compatible(m: Map<u64, PeerView>, local: u64, a: EntryView, b: EntryView) -> bool {
    a.id != b.id || a.id == local || a == b || (m.contains_key(a.id) && (a.version == b.version
        ==> (a.address == b.address && a.state == b.state) || m[a.id].version >= a.version))
}

/// Every entry of `x` is compatible with every entry of `y`.
pub open spec fn compatible_all(
    m: Map<u64, PeerView>,
    local: u64,
    x: Seq<EntryView>,
    y: Seq<EntryView>,
) -> bool {
    forall|i: int, j: int|
        0 <= i < x.len() && 0 <= j < y.len() ==> compatible(m, local, #[trigger] x[i], #[trigger] y[j])
}

/// Merging never forgets a peer and never lowers a version.
pub proof fn lemma_entry_monotone(m: Map<u64, PeerView>, local: u64, e: EntryView, now: u64)
    ensures
        forall|k: u64|
            #[trigger] m.contains_key(k) ==> apply_entry(m, local, e, now).contains_key(k)
                && apply_entry(m, local, e, now)[k].version >= m[k].version,
        e.id != local ==> apply_entry(m, local, e, now).contains_key(e.id) && apply_entry(
            m,
            local,
            e,
            now,
        )[e.id].version >= e.version,
{
}

/// Merging a snapshot never forgets a peer and never lowers a version.
pub proof fn lemma_snapshot_monotone(m: Map<u64, PeerView>, local: u64, s: Seq<EntryView>, now: u64)
    ensures
        forall|k: u64|
            #[trigger] m.contains_key(k) ==> apply_snapshot(m, local, s, now).contains_key(k)
                && apply_snapshot(m, local, s, now)[k].version >= m[k].version,
    decreases s.len(),
{
    if s.len() > 0 {
        lemma_snapshot_monotone(m, local, s.drop_last(), now);
        lemma_entry_monotone(apply_snapshot(m, local, s.drop_last(), now), local, s.last(), now);
    }
}

proof fn lemma_covered_is_fixed(m: Map<u64, PeerView>, local: u64, s: Seq<EntryView>, now: u64)
    requires
        covers(m, local, s),
    ensures
        apply_snapshot(m, local, s, now) == m,
    decreases s.len(),
{
    if s.len() > 0 {
        let t = s.drop_last();
        assert forall|i: int| 0 <= i < t.len() && t[i].id != local implies #[trigger] m.contains_key(
            t[i].id,
        ) && m[t[i].id].version >= t[i].version by {
            assert(t[i] == s[i]);
        }
        lemma_covered_is_fixed(m, local, t, now);
        assert(s.last() == s[s.len() - 1]);
    }
}

proof fn lemma_merge_covers(m: Map<u64, PeerView>, local: u64, s: Seq<EntryView>, now: u64)
    ensures
        covers(apply_snapshot(m, local, s, now), local, s),
    decreases s.len(),
{
    if s.len() > 0 {
        let t = s.drop_last();
        let before = apply_snapshot(m, local, t, now);
        let after = apply_snapshot(m, local, s, now);
        lemma_merge_covers(m, local, t, now);
        lemma_entry_monotone(before, local, s.last(), now);
        assert forall|i: int| 0 <= i < s.len() && s[i].id != local implies #[trigger] after.contains_key(
            s[i].id,
        ) && after[s[i].id].version >= s[i].version by {
            if i < s.len() - 1 {
                assert(t[i] == s[i]);
                assert(before.contains_key(t[i].id));
            }
        }
    }
}

/// Idempotence: merging the same snapshot a second time changes nothing.
pub proof fn lemma_merge_idempotent(m: Map<u64, PeerView>, local: u64, s: Seq<EntryView>, now: u64)
    ensures
        apply_snapshot(apply_snapshot(m, local, s, now), local, s, now) == apply_snapshot(
            m,
            local,
            s,
            now,
        ),
{
    lemma_merge_covers(m, local, s, now);
    lemma_covered_is_fixed(apply_snapshot(m, local, s, now), local, s, now);
}

/// Staleness: an entry whose version is at most the stored one leaves the
/// registry, and so the stored address and state, unchanged.
pub proof fn lemma_stale_entry_ignored(m: Map<u64, PeerView>, local: u64, e: EntryView, now: u64)
    requires
        m.contains_key(e.id),
        e.version <= m[e.id].version,
    ensures
        apply_entry(m, local, e, now) == m,
        apply_entry(m, local, e, now)[e.id].address == m[e.id].address,
        apply_entry(m, local, e, now)[e.id].state == m[e.id].state,
{
}

proof fn lemma_swap(m: Map<u64, PeerView>, local: u64, a: EntryView, b: EntryView, now: u64)
    requires
        compatible(m, local, a, b),
    ensures
        apply_entry(apply_entry(m, local, a, now), local, b, now) == apply_entry(
            apply_entry(m, local, b, now),
            local,
            a,
            now,
        ),
{
    let ab = apply_entry(apply_entry(m, local, a, now), local, b, now);
    let ba = apply_entry(apply_entry(m, local, b, now), local, a, now);
    assert(ab =~= ba);
}

proof fn lemma_compatible_grows(
    m: Map<u64, PeerView>,
    m2: Map<u64, PeerView>,
    local: u64,
    a: EntryView,
    b: EntryView,
)
    requires
        compatible(m, local, a, b),
        forall|k: u64|
            #[trigger] m.contains_key(k) ==> m2.contains_key(k) && m2[k].version >= m[k].version,
    ensures
        compatible(m2, local, a, b),
{
}

proof fn lemma_push_through(
    m: Map<u64, PeerView>,
    local: u64,
    e: EntryView,
    y: Seq<EntryView>,
    now: u64,
)
    requires
        forall|j: int| 0 <= j < y.len() ==> compatible(m, local, e, #[trigger] y[j]),
    ensures
        apply_entry(apply_snapshot(m, local, y, now), local, e, now) == apply_snapshot(
            apply_entry(m, local, e, now),
            local,
            y,
            now,
        ),
    decreases y.len(),
{
    if y.len() > 0 {
        let t = y.drop_last();
        assert forall|j: int| 0 <= j < t.len() implies compatible(m, local, e, #[trigger] t[j]) by {
            assert(t[j] == y[j]);
        }
        lemma_push_through(m, local, e, t, now);
        let mid = apply_snapshot(m, local, t, now);
        lemma_snapshot_monotone(m, local, t, now);
        assert(compatible(m, local, e, y[y.len() - 1]));
        lemma_compatible_grows(m, mid, local, e, y.last());
        lemma_swap(mid, local, y.last(), e, now);
    }
}

/// Commutativity: merging snapshot `x` then `y` leaves the registry as merging
/// `y` then `x` does, wherever each entry of `x` is compatible with each entry
/// of `y`: a peer named in both by different entries is already known, and
/// equal versions carry equal addresses and states.
pub proof fn lemma_merge_commutative(
    m: Map<u64, PeerView>,
    local: u64,
    x: Seq<EntryView>,
    y: Seq<EntryView>,
    now: u64,
)
    requires
        compatible_all(m, local, x, y),
    ensures
        apply_snapshot(apply_snapshot(m, local, x, now), local, y, now) == apply_snapshot(
            apply_snapshot(m, local, y, now),
            local,
            x,
            now,
        ),
    decreases x.len(),
{
    if x.len() > 0 {
        let t = x.drop_last();
        let e = x.last();
        assert(compatible_all(m, local, t, y)) by {
            assert forall|i: int, j: int| 0 <= i < t.len() && 0 <= j < y.len() implies compatible(
                m,
                local,
                #[trigger] t[i],
                #[trigger] y[j],
            ) by {
                assert(t[i] == x[i]);
            }
        }
        lemma_merge_commutative(m, local, t, y, now);
        let mt = apply_snapshot(m, local, t, now);
        lemma_snapshot_monotone(m, local, t, now);
        assert forall|j: int| 0 <= j < y.len() implies compatible(mt, local, e, #[trigger] y[j]) by {
            assert(compatible(m, local, x[x.len() - 1], y[j]));
            lemma_compatible_grows(m, mt, local, e, y[j]);
        }
        lemma_push_through(mt, local, e, y, now);
    }
}

} // verus!
