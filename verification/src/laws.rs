//! What holds of the store whatever it holds: how its operations combine.

use crate::blob::{
    blob_at, is_live, lists_blobs, names_blob, put_blob, release, remove_blob, BlobMap, BlobView,
    ListedBlob,
};
use crate::doc::{kept, next_timestamp, of_doc, DocStoreView, UpdateView};
use crate::error::StorageError;
use crate::pool::{answered, connected, disconnected, routed, PoolMap};
use crate::seqs::{
    lemma_filter_source, lemma_filter_split, lemma_filter_target, lemma_filter_twice,
};
use crate::storage::StorageView;
use crate::sync::{upsert_clock, ClockMap};
use vstd::prelude::*;

verus! {

/// The updates whose timestamp is in `stamps`.
pub open spec fn stamped_in(stamps: Set<int>) -> spec_fn(UpdateView) -> bool {
    |u: UpdateView| stamps.contains(u.timestamp)
}

/// The updates whose timestamp is not in `stamps`.
pub open spec fn stamped_outside(stamps: Set<int>) -> spec_fn(UpdateView) -> bool {
    |u: UpdateView| !stamps.contains(u.timestamp)
}

/// An update pushed under a timestamp later than the document's clock makes
/// that timestamp the document's clock.
pub proof fn law_push_sets_clock(s: DocStoreView, doc_id: Seq<char>, timestamp: int, bin: Seq<u8>)
    requires
        s.clock_of(doc_id) matches Some(c) ==> c < timestamp,
    ensures
        s.with_update(doc_id, timestamp, bin).clock_of(doc_id) == Some(timestamp),
{
    let next = s.with_update(doc_id, timestamp, bin);
    let n = s.updates.len() as int;
    assert(next.updates[n].doc_id == doc_id && next.updates[n].timestamp == timestamp);
    assert(next.is_timestamp_of(doc_id, timestamp));
    assert forall|t: int| #[trigger] next.is_timestamp_of(doc_id, t) implies t <= timestamp by {
        if t != timestamp {
            if !(s.snapshots.contains_key(doc_id) && s.snapshots[doc_id].timestamp == t) {
                let i = choose|i: int|
                    0 <= i < next.updates.len() && i < next.updates.len() && (
                    #[trigger] next.updates[i]).doc_id == doc_id && next.updates[i].timestamp == t;
                assert(s.updates[i] == next.updates[i]);
            }
            assert(s.is_timestamp_of(doc_id, t));
            assert(s.has_doc(doc_id)) by {
                if !s.snapshots.contains_key(doc_id) {
                    let i = choose|i: int|
                        0 <= i < s.updates.len() && i < s.updates.len() && (
                        #[trigger] s.updates[i]).doc_id == doc_id && s.updates[i].timestamp == t;
                }
            }
            s.lemma_has_clock(doc_id);
        }
    }
    next.lemma_clock_unique(doc_id, timestamp);
}

/// An update pushed to one document leaves the clock of every other
/// document alone.
pub proof fn law_push_elsewhere_keeps_clock(
    s: DocStoreView,
    doc_id: Seq<char>,
    timestamp: int,
    bin: Seq<u8>,
    other: Seq<char>,
)
    requires
        other != doc_id,
    ensures
        s.with_update(doc_id, timestamp, bin).clock_of(other) == s.clock_of(other),
{
    let next = s.with_update(doc_id, timestamp, bin);
    assert forall|t: int| next.is_timestamp_of(other, t) == s.is_timestamp_of(other, t) by {
        if next.is_timestamp_of(other, t) && !(s.snapshots.contains_key(other)
            && s.snapshots[other].timestamp == t) {
            let i = choose|i: int|
                0 <= i < next.updates.len() && i < next.updates.len() && (
                #[trigger] next.updates[i]).doc_id == other && next.updates[i].timestamp == t;
            assert(s.updates[i] == next.updates[i]);
        }
        if s.is_timestamp_of(other, t) && !(s.snapshots.contains_key(other)
            && s.snapshots[other].timestamp == t) {
            let i = choose|i: int|
                0 <= i < s.updates.len() && i < s.updates.len() && (#[trigger] s.updates[i]).doc_id
                    == other && s.updates[i].timestamp == t;
            assert(s.updates[i] == next.updates[i]);
        }
    }
    law_same_timestamps_same_clock(s, next, other);
}

/// Two stores in which a document has the same timestamps give it the same
/// clock.
pub proof fn law_same_timestamps_same_clock(a: DocStoreView, b: DocStoreView, doc_id: Seq<char>)
    requires
        forall|t: int| b.is_timestamp_of(doc_id, t) == a.is_timestamp_of(doc_id, t),
    ensures
        a.clock_of(doc_id) == b.clock_of(doc_id),
{
    assert forall|c: int| a.is_clock(doc_id, c) == b.is_clock(doc_id, c) by {
        if a.is_clock(doc_id, c) {
            assert(b.is_timestamp_of(doc_id, c));
            assert forall|t: int| #[trigger] b.is_timestamp_of(doc_id, t) implies t <= c by {
                assert(a.is_timestamp_of(doc_id, t));
            }
        }
        if b.is_clock(doc_id, c) {
            assert(a.is_timestamp_of(doc_id, c));
            assert forall|t: int| #[trigger] a.is_timestamp_of(doc_id, t) implies t <= c by {
                assert(b.is_timestamp_of(doc_id, t));
            }
        }
    }
    if exists|c: int| a.is_clock(doc_id, c) {
        let c = choose|c: int| a.is_clock(doc_id, c);
        a.lemma_clock_unique(doc_id, c);
        b.lemma_clock_unique(doc_id, c);
    } else {
        assert forall|c: int| !b.is_clock(doc_id, c) by {
            assert(!a.is_clock(doc_id, c));
        }
    }
}

/// Writing a snapshot lowers no document's clock, and changes only the clock
/// of the snapshot's own document.
pub proof fn law_snapshot_keeps_clock(
    s: DocStoreView,
    doc_id: Seq<char>,
    bin: Seq<u8>,
    timestamp: int,
    any: Seq<char>,
)
    requires
        s.accepts_snapshot(doc_id, timestamp),
    ensures
        s.clock_of(any) matches Some(c) ==> s.with_snapshot(doc_id, bin, timestamp).clock_of(any)
            matches Some(d) && c <= d,
        any != doc_id ==> s.with_snapshot(doc_id, bin, timestamp).clock_of(any) == s.clock_of(
            any,
        ),
{
    let next = s.with_snapshot(doc_id, bin, timestamp);
    if any != doc_id {
        assert forall|t: int| next.is_timestamp_of(any, t) == s.is_timestamp_of(any, t) by {}
        law_same_timestamps_same_clock(s, next, any);
    } else if s.clock_of(any) is Some {
        let c = s.clock_of(any)->Some_0;
        assert(next.is_timestamp_of(any, timestamp));
        assert(next.has_doc(any));
        next.lemma_has_clock(any);
        let d = next.clock_of(any)->Some_0;
        assert(s.is_clock(any, c));
        assert(s.is_timestamp_of(any, c));
        if s.snapshots.contains_key(any) && s.snapshots[any].timestamp == c {
            assert(c < timestamp);
            assert(timestamp <= d);
        } else {
            let i = choose|i: int|
                0 <= i < s.updates.len() && i < s.updates.len() && (#[trigger] s.updates[i]).doc_id
                    == any && s.updates[i].timestamp == c;
            assert(next.updates[i].doc_id == any);
            assert(next.is_timestamp_of(any, c));
        }
    }
}

/// Merging updates of a document away leaves its clock where it was as long
/// as the update that carries the clock stays or the snapshot carries it too.
pub proof fn law_merge_keeps_clock(s: DocStoreView, doc_id: Seq<char>, stamps: Set<int>)
    requires
        s.clock_of(doc_id) matches Some(c) && (!stamps.contains(c) || (s.snapshots.contains_key(
            doc_id,
        ) && s.snapshots[doc_id].timestamp == c)),
    ensures
        s.without_merged(doc_id, stamps).clock_of(doc_id) == s.clock_of(doc_id),
{
    let next = s.without_merged(doc_id, stamps);
    let keep = kept(doc_id, Some(stamps));
    let c = s.clock_of(doc_id)->Some_0;
    assert(s.is_clock(doc_id, c));
    assert(s.is_timestamp_of(doc_id, c));
    assert(next.is_timestamp_of(doc_id, c)) by {
        if !(s.snapshots.contains_key(doc_id) && s.snapshots[doc_id].timestamp == c) {
            let j = choose|j: int|
                0 <= j < s.updates.len() && j < s.updates.len() && (#[trigger] s.updates[j]).doc_id
                    == doc_id && s.updates[j].timestamp == c;
            assert(keep(s.updates[j]));
            let i = lemma_filter_target(s.updates, keep, j);
            assert(next.updates[i].doc_id == doc_id);
        }
    }
    assert forall|t: int| #[trigger] next.is_timestamp_of(doc_id, t) implies t <= c by {
        if !(s.snapshots.contains_key(doc_id) && s.snapshots[doc_id].timestamp == t) {
            let i = choose|i: int|
                0 <= i < next.updates.len() && i < next.updates.len() && (
                #[trigger] next.updates[i]).doc_id == doc_id && next.updates[i].timestamp == t;
            let j = lemma_filter_source(s.updates, keep, i);
            assert(s.updates[j].doc_id == doc_id);
        }
        assert(s.is_timestamp_of(doc_id, t));
    }
    next.lemma_clock_unique(doc_id, c);
}

/// Removing updates of other documents only, and leaving the snapshot of
/// `doc_id` alone, leaves the timestamps of `doc_id` as they were.
proof fn lemma_kept_timestamps(
    s: DocStoreView,
    next: DocStoreView,
    keep: spec_fn(UpdateView) -> bool,
    doc_id: Seq<char>,
)
    requires
        next.updates == s.updates.filter(keep),
        next.snapshots.contains_key(doc_id) == s.snapshots.contains_key(doc_id),
        s.snapshots.contains_key(doc_id) ==> next.snapshots[doc_id] == s.snapshots[doc_id],
        forall|u: UpdateView| u.doc_id == doc_id ==> #[trigger] keep(u),
    ensures
        forall|t: int| next.is_timestamp_of(doc_id, t) == s.is_timestamp_of(doc_id, t),
        next.clock_of(doc_id) == s.clock_of(doc_id),
{
    assert forall|t: int| next.is_timestamp_of(doc_id, t) == s.is_timestamp_of(doc_id, t) by {
        let at_snapshot = s.snapshots.contains_key(doc_id) && s.snapshots[doc_id].timestamp == t;
        if next.is_timestamp_of(doc_id, t) && !at_snapshot {
            let i = choose|i: int|
                0 <= i < next.updates.len() && i < next.updates.len() && (
                #[trigger] next.updates[i]).doc_id == doc_id && next.updates[i].timestamp == t;
            let j = lemma_filter_source(s.updates, keep, i);
            assert(s.updates[j].doc_id == doc_id);
        }
        if s.is_timestamp_of(doc_id, t) && !at_snapshot {
            let j = choose|j: int|
                0 <= j < s.updates.len() && j < s.updates.len() && (#[trigger] s.updates[j]).doc_id
                    == doc_id && s.updates[j].timestamp == t;
            assert(keep(s.updates[j]));
            let i = lemma_filter_target(s.updates, keep, j);
            assert(next.updates[i].doc_id == doc_id);
        }
    }
    law_same_timestamps_same_clock(s, next, doc_id);
}

/// Merging updates of one document away, or deleting it, leaves the clock of
/// every other document alone.
pub proof fn law_removal_elsewhere_keeps_clock(
    s: DocStoreView,
    doc_id: Seq<char>,
    stamps: Set<int>,
    other: Seq<char>,
)
    requires
        other != doc_id,
    ensures
        s.without_merged(doc_id, stamps).clock_of(other) == s.clock_of(other),
        s.without_doc(doc_id).clock_of(other) == s.clock_of(other),
{
    lemma_kept_timestamps(s, s.without_merged(doc_id, stamps), kept(doc_id, Some(stamps)), other);
    lemma_kept_timestamps(s, s.without_doc(doc_id), kept(doc_id, None), other);
}

/// One change to a document store.
pub enum DocStep {
    /// An update of `doc_id` is pushed while the wall clock reads `now`.
    Push { doc_id: Seq<char>, bin: Seq<u8>, now: int },
    /// A snapshot of `doc_id` is offered.
    Snapshot { doc_id: Seq<char>, bin: Seq<u8>, timestamp: int },
    /// The updates of `doc_id` with a timestamp in `stamps` are merged away.
    Merge { doc_id: Seq<char>, stamps: Set<int> },
    /// `doc_id` is deleted.
    Delete { doc_id: Seq<char> },
}

/// The store after one change.
pub open spec fn step(s: DocStoreView, op: DocStep) -> DocStoreView {
    match op {
        DocStep::Push { doc_id, bin, now } => s.with_update(
            doc_id,
            next_timestamp(s.clock_of(doc_id), now),
            bin,
        ),
        DocStep::Snapshot { doc_id, bin, timestamp } => if s.accepts_snapshot(doc_id, timestamp) {
            s.with_snapshot(doc_id, bin, timestamp)
        } else {
            s
        },
        DocStep::Merge { doc_id, stamps } => s.without_merged(doc_id, stamps),
        DocStep::Delete { doc_id } => s.without_doc(doc_id),
    }
}

/// The store after a run of changes, first to last.
pub open spec fn run(s: DocStoreView, ops: Seq<DocStep>) -> DocStoreView
    decreases ops.len(),
{
    if ops.len() == 0 {
        s
    } else {
        step(run(s, ops.drop_last()), ops.last())
    }
}

/// The change leaves the clock of `doc_id` in store `s` standing. Pushes and
/// snapshots always do, and so does whatever is done to another document. A
/// merge does where the update that carries the clock stays or the snapshot
/// carries the clock too. Deleting the document does not.
pub open spec fn spares_clock(s: DocStoreView, op: DocStep, doc_id: Seq<char>) -> bool {
    match op {
        DocStep::Merge { doc_id: d, stamps } => d == doc_id ==> (s.clock_of(doc_id) matches Some(
            c,
        ) ==> !stamps.contains(c) || (s.snapshots.contains_key(doc_id)
            && s.snapshots[doc_id].timestamp == c)),
        DocStep::Delete { doc_id: d } => d != doc_id,
        _ => true,
    }
}

/// Each change of the run spares the clock of `doc_id` in the store that it
/// meets.
pub open spec fn run_spares_clock(s: DocStoreView, ops: Seq<DocStep>, doc_id: Seq<char>) -> bool {
    forall|i: int|
        0 <= i < ops.len() ==> spares_clock(run(s, ops.take(i)), #[trigger] ops[i], doc_id)
}

/// Through any run of changes that spare the clock of a document, that clock
/// never falls.
pub proof fn law_clock_never_falls(s: DocStoreView, ops: Seq<DocStep>, doc_id: Seq<char>)
    requires
        run_spares_clock(s, ops, doc_id),
    ensures
        s.clock_of(doc_id) matches Some(c) ==> run(s, ops).clock_of(doc_id) matches Some(d) && c
            <= d,
    decreases ops.len(),
{
    if ops.len() > 0 {
        let n = ops.len() - 1;
        let before = ops.drop_last();
        assert forall|i: int| 0 <= i < before.len() implies spares_clock(
            run(s, before.take(i)),
            #[trigger] before[i],
            doc_id,
        ) by {
            assert(before[i] == ops[i]);
            assert(before.take(i) =~= ops.take(i));
        }
        law_clock_never_falls(s, before, doc_id);
        let mid = run(s, before);
        let op = ops[n];
        assert(ops.take(n) =~= before);
        assert(spares_clock(mid, op, doc_id));
        match op {
            DocStep::Push { doc_id: d, bin, now } => {
                let t = next_timestamp(mid.clock_of(d), now);
                if d == doc_id {
                    law_push_sets_clock(mid, d, t, bin);
                } else {
                    law_push_elsewhere_keeps_clock(mid, d, t, bin, doc_id);
                }
            },
            DocStep::Snapshot { doc_id: d, bin, timestamp } => {
                if mid.accepts_snapshot(d, timestamp) {
                    law_snapshot_keeps_clock(mid, d, bin, timestamp, doc_id);
                }
            },
            DocStep::Merge { doc_id: d, stamps } => {
                if d == doc_id {
                    if mid.clock_of(doc_id) is Some {
                        law_merge_keeps_clock(mid, d, stamps);
                    }
                } else {
                    law_removal_elsewhere_keeps_clock(mid, d, stamps, doc_id);
                }
            },
            DocStep::Delete { doc_id: d } => {
                law_removal_elsewhere_keeps_clock(mid, d, Set::empty(), doc_id);
            },
        }
    }
}

/// Of two updates pushed to one document, the later one gets the strictly
/// later timestamp, whatever the wall clock read and whatever was done in
/// between, as long as every change in between spared the document's clock.
pub proof fn law_pushes_increase(
    s: DocStoreView,
    doc_id: Seq<char>,
    first_bin: Seq<u8>,
    first_now: int,
    between: Seq<DocStep>,
    second_now: int,
)
    requires
        run_spares_clock(
            s.with_update(doc_id, next_timestamp(s.clock_of(doc_id), first_now), first_bin),
            between,
            doc_id,
        ),
    ensures
        ({
            let t1 = next_timestamp(s.clock_of(doc_id), first_now);
            let s1 = s.with_update(doc_id, t1, first_bin);
            let t2 = next_timestamp(run(s1, between).clock_of(doc_id), second_now);
            t1 < t2
        }),
{
    let t1 = next_timestamp(s.clock_of(doc_id), first_now);
    let s1 = s.with_update(doc_id, t1, first_bin);
    law_push_sets_clock(s, doc_id, t1, first_bin);
    law_clock_never_falls(s1, between, doc_id);
}

/// After a merge the document's updates are those it had whose timestamp is
/// not among the merged ones; the count of removed updates is that of those
/// whose timestamp is; and the updates of every other document stay.
pub proof fn law_merge_removes_stamped(
    s: DocStoreView,
    doc_id: Seq<char>,
    stamps: Set<int>,
    other: Seq<char>,
)
    requires
        other != doc_id,
    ensures
        s.without_merged(doc_id, stamps).updates_of(doc_id) == s.updates_of(doc_id).filter(
            stamped_outside(stamps),
        ),
        s.count_merged(doc_id, stamps) == s.updates_of(doc_id).filter(stamped_in(stamps)).len(),
        s.without_merged(doc_id, stamps).updates_of(other) == s.updates_of(other),
{
    let log = s.updates;
    let keep = kept(doc_id, Some(stamps));
    let stay = |u: UpdateView| u.doc_id == doc_id && !stamps.contains(u.timestamp);
    let gone = |u: UpdateView| u.doc_id == doc_id && stamps.contains(u.timestamp);
    lemma_filter_twice(log, keep, of_doc(doc_id), stay);
    lemma_filter_twice(log, of_doc(doc_id), stamped_outside(stamps), stay);
    lemma_filter_twice(log, of_doc(doc_id), stamped_in(stamps), gone);
    lemma_filter_split(log, keep, gone);
    log.lemma_filter_len(keep);
    lemma_filter_twice(log, keep, of_doc(other), of_doc(other));
}

/// Deleting a document a second time changes nothing.
pub proof fn law_delete_doc_idempotent(s: DocStoreView, doc_id: Seq<char>)
    ensures
        s.without_doc(doc_id).without_doc(doc_id) == s.without_doc(doc_id),
        !s.without_doc(doc_id).has_doc(doc_id),
{
    let keep = kept(doc_id, None);
    lemma_filter_twice(s.updates, keep, keep, keep);
    let once = s.without_doc(doc_id);
    assert(once.snapshots.remove(doc_id) =~= once.snapshots);
    assert(once.without_doc(doc_id) =~= once);
    assert forall|i: int| 0 <= i < once.updates.len() implies (#[trigger] once.updates[i]).doc_id
        != doc_id by {
        s.updates.lemma_filter_pred(keep, i);
    }
}

/// A blob that was just stored is found under its key, with the contents
/// that were stored; a live or deleted blob that the key held before passes
/// its creation time on.
pub proof fn law_set_then_get_blob(
    m: BlobMap,
    key: Seq<char>,
    data: Seq<u8>,
    mime: Seq<char>,
    now: int,
)
    ensures
        blob_at(put_blob(m, key, data, mime, now), key) == Some(
            BlobView {
                key,
                data,
                mime,
                size: data.len() as int,
                created_at: if m.contains_key(key) {
                    m[key].created_at
                } else {
                    now
                },
            },
        ),
{
}

/// A blob that was deleted, softly or for good, is not found; one that was
/// deleted for good is not in the table at all.
pub proof fn law_delete_then_get_blob(m: BlobMap, key: Seq<char>, permanently: bool, now: int)
    ensures
        blob_at(remove_blob(m, key, permanently, now), key) is None,
        permanently ==> !remove_blob(m, key, permanently, now).contains_key(key),
{
}

/// A soft delete repeated changes nothing, not even the time of deletion.
pub proof fn law_soft_delete_idempotent(m: BlobMap, key: Seq<char>, first_now: int, second_now: int)
    ensures
        remove_blob(remove_blob(m, key, false, first_now), key, false, second_now) == remove_blob(
            m,
            key,
            false,
            first_now,
        ),
{
}

/// Once a blob was soft-deleted and the deleted blobs were released, the
/// table has no row under its key and no listing names it.
pub proof fn law_released_blob_is_gone(
    m: BlobMap,
    key: Seq<char>,
    now: int,
    listed: Seq<ListedBlob>,
)
    requires
        lists_blobs(listed, release(remove_blob(m, key, false, now))),
    ensures
        !release(remove_blob(m, key, false, now)).contains_key(key),
        !names_blob(listed, key),
{
    let after = release(remove_blob(m, key, false, now));
    if names_blob(listed, key) {
        let i = choose|i: int| 0 <= i < listed.len() && (#[trigger] listed[i]).key@ == key;
        assert(is_live(after, listed[i].key@));
    }
}

/// Releasing keeps exactly the live blobs, each as it was.
pub proof fn law_release_keeps_live(m: BlobMap, key: Seq<char>)
    ensures
        blob_at(release(m), key) == blob_at(m, key),
        release(m).contains_key(key) == is_live(m, key),
{
}

/// After a peer clock was set, the clock on record is the later of the one
/// that was on record and the one that was set.
pub proof fn law_set_then_get_clock(
    m: ClockMap,
    peer: Seq<char>,
    doc_id: Seq<char>,
    timestamp: int,
)
    ensures
        upsert_clock(m, peer, doc_id, timestamp).contains_key((peer, doc_id)),
        upsert_clock(m, peer, doc_id, timestamp)[(peer, doc_id)] == if m.contains_key(
            (peer, doc_id),
        ) && m[(peer, doc_id)] > timestamp {
            m[(peer, doc_id)]
        } else {
            timestamp
        },
{
}

/// Setting a peer clock leaves the clock of every other peer and document
/// alone.
pub proof fn law_set_clock_elsewhere(
    m: ClockMap,
    peer: Seq<char>,
    doc_id: Seq<char>,
    timestamp: int,
    other: (Seq<char>, Seq<char>),
)
    requires
        other != (peer, doc_id),
    ensures
        upsert_clock(m, peer, doc_id, timestamp).contains_key(other) == m.contains_key(other),
        m.contains_key(other) ==> upsert_clock(m, peer, doc_id, timestamp)[other] == m[other],
{
}

/// On a universe that was disconnected every operation fails with
/// `StorageError::NotConnected` and leaves the pool as it was.
pub proof fn law_disconnected_fails<T>(
    m: PoolMap,
    universal_id: Seq<char>,
    after: PoolMap,
    next: StorageView,
    r: Result<T, StorageError>,
)
    requires
        routed(disconnected(m, universal_id), after, universal_id, r, next) || answered(
            disconnected(m, universal_id),
            universal_id,
            r,
        ),
    ensures
        r == Err::<T, StorageError>(StorageError::NotConnected),
        routed(disconnected(m, universal_id), after, universal_id, r, next) ==> after
            == disconnected(m, universal_id),
{
}

/// Disconnecting one universe leaves every other one as it was.
pub proof fn law_disconnect_elsewhere(m: PoolMap, universal_id: Seq<char>, other: Seq<char>)
    requires
        other != universal_id,
    ensures
        disconnected(m, universal_id).contains_key(other) == m.contains_key(other),
        m.contains_key(other) ==> disconnected(m, universal_id)[other] == m[other],
{
}

/// Connecting a universe a second time changes nothing.
pub proof fn law_connect_idempotent(
    m: PoolMap,
    universal_id: Seq<char>,
    path: Seq<char>,
    second_path: Seq<char>,
)
    ensures
        connected(connected(m, universal_id, path), universal_id, second_path) == connected(
            m,
            universal_id,
            path,
        ),
        connected(m, universal_id, path).contains_key(universal_id),
{
}

} // verus!
