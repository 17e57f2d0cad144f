//! Documents: snapshots, the update log, and the clocks derived from them.
//!
//! A document is a snapshot followed by the updates pushed since. Timestamps
//! are microseconds since the Unix epoch. Within one document the timestamps
//! of the log grow strictly from each update to the next.

use crate::error::StorageError;
use crate::seqs::{lemma_filter_empty, lemma_filter_pairwise, lemma_filter_take_next, pairwise};
use crate::table::{
    as_map, keys_unique, lemma_empty_table, lemma_key_absent, lemma_key_present, lemma_push_row,
    lemma_remove_row, lemma_row_in_map, lemma_update_row,
};
use vstd::prelude::*;

verus! {

/// One incremental update of a document, with the timestamp the store gave it.
#[derive(Debug, Clone)]
pub struct DocUpdate {
    pub doc_id: String,
    pub timestamp: i64,
    pub bin: Vec<u8>,
}

/// The consolidated state of a document at a timestamp.
#[derive(Debug, Clone)]
pub struct DocRecord {
    pub doc_id: String,
    pub bin: Vec<u8>,
    pub timestamp: i64,
}

/// The clock of one document: the latest timestamp known for it.
#[derive(Debug, Clone)]
pub struct DocClock {
    pub doc_id: String,
    pub timestamp: i64,
}

/// What a `DocUpdate` holds.
#[verifier::ext_equal]
pub struct UpdateView {
    pub doc_id: Seq<char>,
    pub timestamp: int,
    pub bin: Seq<u8>,
}

/// What a `DocRecord` holds.
#[verifier::ext_equal]
pub struct RecordView {
    pub doc_id: Seq<char>,
    pub bin: Seq<u8>,
    pub timestamp: int,
}

/// A stored snapshot, as the snapshot table holds it under its document id.
#[verifier::ext_equal]
pub struct SnapshotView {
    pub bin: Seq<u8>,
    pub timestamp: int,
}

impl View for DocUpdate {
    type V = UpdateView;

    open spec fn view(&self) -> UpdateView {
        UpdateView { doc_id: self.doc_id@, timestamp: self.timestamp as int, bin: self.bin@ }
    }
}

impl View for DocRecord {
    type V = RecordView;

    open spec fn view(&self) -> RecordView {
        RecordView { doc_id: self.doc_id@, bin: self.bin@, timestamp: self.timestamp as int }
    }
}

/// The views of a run of updates, in the same order.
pub open spec fn update_views(s: Seq<DocUpdate>) -> Seq<UpdateView> {
    Seq::new(s.len(), |i: int| s[i]@)
}

/// The updates of document `doc_id`.
pub open spec fn of_doc(doc_id: Seq<char>) -> spec_fn(UpdateView) -> bool {
    |u: UpdateView| u.doc_id == doc_id
}

/// The updates that stay when those of `doc_id` leave: all of them where
/// `stamps` is `None`, else those whose timestamp is in `stamps`.
pub open spec fn kept(doc_id: Seq<char>, stamps: Option<Set<int>>) -> spec_fn(UpdateView) -> bool {
    |u: UpdateView|
        !(u.doc_id == doc_id && match stamps {
            Some(s) => s.contains(u.timestamp),
            None => true,
        })
}

/// Two updates of one document carry growing timestamps.
pub open spec fn in_order() -> spec_fn(UpdateView, UpdateView) -> bool {
    |a: UpdateView, b: UpdateView| a.doc_id == b.doc_id ==> a.timestamp < b.timestamp
}

/// The timestamps that occur in `stamps`.
pub open spec fn stamp_set(stamps: Seq<i64>) -> Set<int> {
    Set::new(|t: int| exists|k: int| 0 <= k < stamps.len() && (#[trigger] stamps[k]) as int == t)
}

/// Whether timestamp `t` comes strictly after `after`, where one is given.
pub open spec fn is_after(t: int, after: Option<int>) -> bool {
    match after {
        Some(a) => t > a,
        None => true,
    }
}

/// The timestamp that the next update of a document gets: the wall clock
/// `now`, or one microsecond past the document's clock where `now` would not
/// advance it.
pub open spec fn next_timestamp(clock: Option<int>, now: int) -> int {
    match clock {
        Some(c) => if now > c {
            now
        } else {
            c + 1
        },
        None => now,
    }
}

/// The state of a document store: the snapshot table, keyed by document id,
/// and the log of updates in the order in which they were pushed.
#[verifier::ext_equal]
pub struct DocStoreView {
    pub snapshots: Map<Seq<char>, SnapshotView>,
    pub updates: Seq<UpdateView>,
}

impl DocStoreView {
    /// The store that holds nothing.
    pub open spec fn empty() -> Self {
        DocStoreView { snapshots: Map::empty(), updates: Seq::empty() }
    }

    /// Within each document the log's timestamps grow strictly.
    pub open spec fn wf(self) -> bool {
        pairwise(self.updates, in_order())
    }

    /// `t` is the snapshot's timestamp of `doc_id` or that of one of its
    /// first `n` logged updates.
    pub open spec fn is_timestamp_within(self, doc_id: Seq<char>, t: int, n: int) -> bool {
        ||| self.snapshots.contains_key(doc_id) && self.snapshots[doc_id].timestamp == t
        ||| exists|i: int|
            0 <= i < n && i < self.updates.len() && (#[trigger] self.updates[i]).doc_id == doc_id
                && self.updates[i].timestamp == t
    }

    /// `t` is the timestamp of the snapshot of `doc_id` or of one of its
    /// updates.
    pub open spec fn is_timestamp_of(self, doc_id: Seq<char>, t: int) -> bool {
        self.is_timestamp_within(doc_id, t, self.updates.len() as int)
    }

    /// The store holds a snapshot or an update of `doc_id`.
    pub open spec fn has_doc(self, doc_id: Seq<char>) -> bool {
        ||| self.snapshots.contains_key(doc_id)
        ||| exists|i: int| 0 <= i < self.updates.len() && (#[trigger] self.updates[i]).doc_id == doc_id
    }

    /// `c` is the largest timestamp of `doc_id`.
    pub open spec fn is_clock(self, doc_id: Seq<char>, c: int) -> bool {
        &&& self.is_timestamp_of(doc_id, c)
        &&& forall|t: int| #[trigger] self.is_timestamp_of(doc_id, t) ==> t <= c
    }

    /// The clock of `doc_id`: its largest timestamp, where it has any.
    pub open spec fn clock_of(self, doc_id: Seq<char>) -> Option<int> {
        if exists|c: int| self.is_clock(doc_id, c) {
            Some(choose|c: int| self.is_clock(doc_id, c))
        } else {
            None
        }
    }

    /// The snapshot of `doc_id`, where one is stored.
    pub open spec fn snapshot_of(self, doc_id: Seq<char>) -> Option<RecordView> {
        if self.snapshots.contains_key(doc_id) {
            Some(
                RecordView {
                    doc_id,
                    bin: self.snapshots[doc_id].bin,
                    timestamp: self.snapshots[doc_id].timestamp,
                },
            )
        } else {
            None
        }
    }

    /// The logged updates of `doc_id`, oldest first.
    pub open spec fn updates_of(self, doc_id: Seq<char>) -> Seq<UpdateView> {
        self.updates.filter(of_doc(doc_id))
    }

    /// The store after an update of `doc_id` was logged at `timestamp`.
    pub open spec fn with_update(self, doc_id: Seq<char>, timestamp: int, bin: Seq<u8>) -> Self {
        DocStoreView {
            snapshots: self.snapshots,
            updates: self.updates.push(UpdateView { doc_id, timestamp, bin }),
        }
    }

    /// Whether a snapshot of `doc_id` at `timestamp` would be stored: none is
    /// stored yet, or the stored one is strictly older.
    pub open spec fn accepts_snapshot(self, doc_id: Seq<char>, timestamp: int) -> bool {
        self.snapshots.contains_key(doc_id) ==> self.snapshots[doc_id].timestamp < timestamp
    }

    /// The store after the snapshot of `doc_id` was replaced.
    pub open spec fn with_snapshot(self, doc_id: Seq<char>, bin: Seq<u8>, timestamp: int) -> Self {
        DocStoreView {
            snapshots: self.snapshots.insert(doc_id, SnapshotView { bin, timestamp }),
            updates: self.updates,
        }
    }

    /// The number of logged updates of `doc_id` with a timestamp in `stamps`.
    pub open spec fn count_merged(self, doc_id: Seq<char>, stamps: Set<int>) -> nat {
        (self.updates.len() - self.updates.filter(kept(doc_id, Some(stamps))).len()) as nat
    }

    /// The store after the updates of `doc_id` with a timestamp in `stamps`
    /// left the log.
    pub open spec fn without_merged(self, doc_id: Seq<char>, stamps: Set<int>) -> Self {
        DocStoreView {
            snapshots: self.snapshots,
            updates: self.updates.filter(kept(doc_id, Some(stamps))),
        }
    }

    /// The store after the snapshot and every update of `doc_id` left it.
    pub open spec fn without_doc(self, doc_id: Seq<char>) -> Self {
        DocStoreView {
            snapshots: self.snapshots.remove(doc_id),
            updates: self.updates.filter(kept(doc_id, None)),
        }
    }

    /// A document has at most one clock.
    pub proof fn lemma_clock_unique(self, doc_id: Seq<char>, c: int)
        requires
            self.is_clock(doc_id, c),
        ensures
            self.clock_of(doc_id) == Some(c),
            self.has_doc(doc_id),
    {
        let d = choose|d: int| self.is_clock(doc_id, d);
        assert(self.is_timestamp_of(doc_id, d));
        assert(self.is_timestamp_of(doc_id, c));
    }

    /// Among the snapshot of `doc_id` and its first `n` logged updates, where
    /// there is any of them, one timestamp is the largest.
    pub proof fn lemma_latest_within(self, doc_id: Seq<char>, n: nat) -> (c: int)
        requires
            n <= self.updates.len(),
            exists|t: int| self.is_timestamp_within(doc_id, t, n as int),
        ensures
            self.is_timestamp_within(doc_id, c, n as int),
            forall|t: int| #[trigger] self.is_timestamp_within(doc_id, t, n as int) ==> t <= c,
        decreases n,
    {
        if n == 0 {
            self.snapshots[doc_id].timestamp
        } else {
            let m = n - 1;
            let u = self.updates[m];
            assert forall|t: int| #[trigger]
                self.is_timestamp_within(doc_id, t, n as int) implies self.is_timestamp_within(
                doc_id,
                t,
                m,
            ) || (u.doc_id == doc_id && u.timestamp == t) by {
                if !(self.snapshots.contains_key(doc_id) && self.snapshots[doc_id].timestamp == t) {
                    let i = choose|i: int|
                        0 <= i < n && i < self.updates.len() && (#[trigger] self.updates[i]).doc_id
                            == doc_id && self.updates[i].timestamp == t;
                    if i < m {
                        assert(self.is_timestamp_within(doc_id, t, m));
                    }
                }
            }
            if exists|t: int| self.is_timestamp_within(doc_id, t, m) {
                let c0 = self.lemma_latest_within(doc_id, m as nat);
                assert(self.is_timestamp_within(doc_id, c0, n as int));
                if u.doc_id == doc_id && u.timestamp > c0 {
                    assert(self.updates[m].doc_id == doc_id);
                    u.timestamp
                } else {
                    c0
                }
            } else {
                let t = choose|t: int| self.is_timestamp_within(doc_id, t, n as int);
                assert(u.doc_id == doc_id);
                assert(self.updates[m].doc_id == doc_id);
                u.timestamp
            }
        }
    }

    /// A document that the store holds has a clock.
    pub proof fn lemma_has_clock(self, doc_id: Seq<char>)
        requires
            self.has_doc(doc_id),
        ensures
            self.clock_of(doc_id) is Some,
            self.is_clock(doc_id, self.clock_of(doc_id)->Some_0),
    {
        if self.snapshots.contains_key(doc_id) {
            assert(self.is_timestamp_of(doc_id, self.snapshots[doc_id].timestamp));
        } else {
            let i = choose|i: int|
                0 <= i < self.updates.len() && (#[trigger] self.updates[i]).doc_id == doc_id;
            assert(self.is_timestamp_of(doc_id, self.updates[i].timestamp));
        }
        let c = self.lemma_latest_within(doc_id, self.updates.len());
        assert(self.is_clock(doc_id, c));
    }

    /// A document that the store does not hold has no clock.
    pub proof fn lemma_no_clock(self, doc_id: Seq<char>)
        requires
            !self.has_doc(doc_id),
        ensures
            self.clock_of(doc_id) is None,
    {
        assert forall|c: int| !self.is_clock(doc_id, c) by {
            if self.is_timestamp_of(doc_id, c) {
                assert(self.has_doc(doc_id));
            }
        }
    }
}

/// `listed` names each document whose clock passes `after` exactly once, with
/// its clock.
pub open spec fn lists_clocks(listed: Seq<DocClock>, s: DocStoreView, after: Option<int>) -> bool {
    &&& forall|i: int|
        0 <= i < listed.len() ==> s.is_clock(
            (#[trigger] listed[i]).doc_id@,
            listed[i].timestamp as int,
        ) && is_after(listed[i].timestamp as int, after)
    &&& forall|i: int, j: int|
        0 <= i < j < listed.len() ==> (#[trigger] listed[i]).doc_id@ != (
        #[trigger] listed[j]).doc_id@
    &&& forall|d: Seq<char>, c: int| #[trigger]
        s.is_clock(d, c) && is_after(c, after) ==> names_doc(listed, d)
}

/// Some entry of `listed` is for document `d`.
pub open spec fn names_doc(listed: Seq<DocClock>, d: Seq<char>) -> bool {
    exists|i: int| 0 <= i < listed.len() && (#[trigger] listed[i]).doc_id@ == d
}

/// Where `d` has a clock that passes `after`, `listed` names it.
spec fn covers(s: DocStoreView, listed: Seq<DocClock>, after: Option<int>, d: Seq<char>)
    -> bool {
    (s.clock_of(d) is Some && is_after(s.clock_of(d)->Some_0, after)) ==> names_doc(listed, d)
}

/// Entry `i` of the log is the first of its document.
spec fn is_first(log: Seq<UpdateView>, i: int) -> bool {
    forall|j: int| 0 <= j < i ==> (#[trigger] log[j]).doc_id != log[i].doc_id
}

/// What `shorter` names, a list that starts with it names too.
proof fn lemma_names_grow(shorter: Seq<DocClock>, longer: Seq<DocClock>, d: Seq<char>)
    requires
        names_doc(shorter, d),
        shorter.len() <= longer.len(),
        forall|i: int| 0 <= i < shorter.len() ==> longer[i] == shorter[i],
    ensures
        names_doc(longer, d),
{
    let i = choose|i: int| 0 <= i < shorter.len() && (#[trigger] shorter[i]).doc_id@ == d;
    assert(longer[i].doc_id@ == d);
}

/// The timestamp `after` as a mathematical integer.
pub open spec fn after_view(after: Option<i64>) -> Option<int> {
    match after {
        Some(a) => Some(a as int),
        None => None,
    }
}

/// A copy of `bytes`.
pub(crate) fn clone_bytes(bytes: &Vec<u8>) -> (r: Vec<u8>)
    ensures
        r@ == bytes@,
{
    let mut out: Vec<u8> = Vec::new();
    let mut i: usize = 0;
    while i < bytes.len()
        invariant
            i <= bytes@.len(),
            out@ == bytes@.take(i as int),
        decreases bytes@.len() - i,
    {
        out.push(bytes[i]);
        i += 1;
        assert(out@ =~= bytes@.take(i as int));
    }
    assert(bytes@.take(bytes@.len() as int) =~= bytes@);
    out
}

/// Whether `t` occurs in `stamps`.
fn has_stamp(stamps: &Vec<i64>, t: i64) -> (r: bool)
    ensures
        r == stamp_set(stamps@).contains(t as int),
{
    let mut i: usize = 0;
    while i < stamps.len()
        invariant
            i <= stamps@.len(),
            forall|k: int| 0 <= k < i ==> (#[trigger] stamps@[k]) != t,
        decreases stamps@.len() - i,
    {
        if stamps[i] == t {
            return true;
        }
        i += 1;
    }
    false
}

/// The snapshots and the update log of one universe.
pub struct DocStore {
    snapshots: Vec<DocRecord>,
    updates: Vec<DocUpdate>,
}

impl DocStore {
    spec fn pairs(&self) -> Seq<(Seq<char>, SnapshotView)> {
        Seq::new(
            self.snapshots@.len(),
            |i: int|
                (
                    self.snapshots@[i].doc_id@,
                    SnapshotView {
                        bin: self.snapshots@[i].bin@,
                        timestamp: self.snapshots@[i].timestamp as int,
                    },
                ),
        )
    }

    /// What the store holds.
    pub closed spec fn view(&self) -> DocStoreView {
        DocStoreView { snapshots: as_map(self.pairs()), updates: update_views(self.updates@) }
    }

    /// No document has two snapshots, and the log is in order.
    pub closed spec fn wf(&self) -> bool {
        &&& keys_unique(self.pairs())
        &&& self@.wf()
    }

    /// In a well-formed store the log is in order.
    pub proof fn lemma_view_wf(&self)
        requires
            self.wf(),
        ensures
            self@.wf(),
    {
    }

    /// A store that holds nothing.
    pub fn new() -> (r: Self)
        ensures
            r.wf(),
            r@ == DocStoreView::empty(),
    {
        let r = DocStore { snapshots: Vec::new(), updates: Vec::new() };
        proof {
            lemma_empty_table::<Seq<char>, SnapshotView>();
            assert(r.pairs() =~= Seq::empty());
            assert(r@.updates =~= Seq::empty());
            assert(r@ =~= DocStoreView::empty());
        }
        r
    }

    fn find_snapshot(&self, doc_id: &String) -> (r: Option<usize>)
        ensures
            match r {
                Some(i) => i < self.snapshots@.len() && self.pairs()[i as int].0 == doc_id@,
                None => !self@.snapshots.contains_key(doc_id@),
            },
    {
        let mut i: usize = 0;
        while i < self.snapshots.len()
            invariant
                i <= self.snapshots@.len(),
                forall|j: int| 0 <= j < i ==> (#[trigger] self.pairs()[j]).0 != doc_id@,
            decreases self.snapshots@.len() - i,
        {
            if self.snapshots[i].doc_id == *doc_id {
                return Some(i);
            }
            i += 1;
        }
        proof {
            lemma_key_absent(self.pairs(), doc_id@);
        }
        None
    }

    /// The largest timestamp of `doc_id`, where the store holds any.
    fn latest(&self, doc_id: &String) -> (r: Option<i64>)
        requires
            self.wf(),
        ensures
            match r {
                Some(c) => self@.is_clock(doc_id@, c as int),
                None => !self@.has_doc(doc_id@),
            },
            r is Some ==> self@.clock_of(doc_id@) == Some(r->Some_0 as int),
            r is None ==> self@.clock_of(doc_id@) is None,
    {
        let mut best: Option<i64> = match self.find_snapshot(doc_id) {
            Some(i) => {
                proof {
                    lemma_row_in_map(self.pairs(), i as int);
                }
                Some(self.snapshots[i].timestamp)
            },
            None => None,
        };
        let mut i: usize = 0;
        while i < self.updates.len()
            invariant
                i <= self.updates@.len(),
                match best {
                    Some(c) => self@.is_timestamp_within(doc_id@, c as int, i as int) && forall|
                        t: int,
                    | #[trigger]
                        self@.is_timestamp_within(doc_id@, t, i as int) ==> t <= c,
                    None => !self@.snapshots.contains_key(doc_id@) && forall|j: int|
                        0 <= j < i ==> (#[trigger] self@.updates[j]).doc_id != doc_id@,
                },
            decreases self.updates@.len() - i,
        {
            let ghost before = best;
            if self.updates[i].doc_id == *doc_id {
                let t: i64 = self.updates[i].timestamp;
                assert(self@.updates[i as int].timestamp == t);
                best =
                match best {
                    Some(c) => if t > c {
                        Some(t)
                    } else {
                        Some(c)
                    },
                    None => Some(t),
                };
            }
            proof {
                let s = self@;
                match best {
                    Some(c) => {
                        assert(s.is_timestamp_within(doc_id@, c as int, i + 1)) by {
                            if before is Some && before->Some_0 == c {
                                assert(s.is_timestamp_within(doc_id@, c as int, i as int));
                            } else {
                                assert(s.updates[i as int].doc_id == doc_id@);
                            }
                        }
                        assert forall|t: int| #[trigger]
                            s.is_timestamp_within(doc_id@, t, i + 1) implies t <= c by {
                            if s.is_timestamp_within(doc_id@, t, i as int) {
                            } else {
                                let j = choose|j: int|
                                    0 <= j < i + 1 && j < s.updates.len() && (
                                    #[trigger] s.updates[j]).doc_id == doc_id@
                                        && s.updates[j].timestamp == t;
                                assert(j == i);
                            }
                        }
                    },
                    None => {},
                }
            }
            i += 1;
        }
        proof {
            match best {
                Some(c) => {
                    self@.lemma_clock_unique(doc_id@, c as int);
                },
                None => {
                    self@.lemma_no_clock(doc_id@);
                },
            }
        }
        best
    }

    /// Logs an update of `doc_id` under a fresh timestamp and returns that
    /// timestamp: `now`, or one microsecond past the document's clock where
    /// `now` is not later than it. Fails with `StorageError::Internal`, changing
    /// nothing, where no such timestamp can be represented.
    pub fn push_update(&mut self, doc_id: String, bin: Vec<u8>, now: i64) -> (r: Result<i64, StorageError>)
        requires
            old(self).wf(),
        ensures
            final(self).wf(),
            match r {
                Ok(t) => t == next_timestamp(old(self)@.clock_of(doc_id@), now as int)
                    && final(self)@ == old(self)@.with_update(doc_id@, t as int, bin@),
                Err(e) => e == StorageError::Internal && old(self)@.clock_of(doc_id@) == Some(
                    i64::MAX as int,
                ) && next_timestamp(old(self)@.clock_of(doc_id@), now as int) > i64::MAX
                    && final(self)@ == old(self)@,
            },
    {
        let clock = self.latest(&doc_id);
        let t: i64 = match clock {
            Some(c) => {
                if now > c {
                    now
                } else if c < i64::MAX {
                    c + 1
                } else {
                    return Err(StorageError::Internal);
                }
            },
            None => now,
        };
        let ghost s0 = self@;
        let ghost u = UpdateView { doc_id: doc_id@, timestamp: t as int, bin: bin@ };
        proof {
            let next = s0.updates.push(u);
            assert forall|i: int, j: int| #![trigger next[i], next[j]]
                0 <= i < j < next.len() implies in_order()(next[i], next[j]) by {
                if j < s0.updates.len() {
                    assert(in_order()(s0.updates[i], s0.updates[j]));
                } else if s0.updates[i].doc_id == doc_id@ {
                    assert(s0.is_timestamp_of(doc_id@, s0.updates[i].timestamp));
                }
            }
        }
        self.updates.push(DocUpdate { doc_id, timestamp: t, bin });
        proof {
            assert(self@.updates =~= s0.updates.push(u));
            assert(self@ =~= s0.with_update(doc_id@, t as int, bin@));
        }
        Ok(t)
    }

    /// The stored snapshot of `doc_id`, if there is one.
    pub fn get_doc_snapshot(&self, doc_id: &String) -> (r: Option<DocRecord>)
        requires
            self.wf(),
        ensures
            match r {
                Some(rec) => Some(rec@) == self@.snapshot_of(doc_id@),
                None => self@.snapshot_of(doc_id@) is None,
            },
    {
        match self.find_snapshot(doc_id) {
            Some(i) => {
                proof {
                    lemma_row_in_map(self.pairs(), i as int);
                }
                let rec = DocRecord {
                    doc_id: self.snapshots[i].doc_id.clone(),
                    bin: clone_bytes(&self.snapshots[i].bin),
                    timestamp: self.snapshots[i].timestamp,
                };
                assert(rec@ =~= self@.snapshot_of(doc_id@)->Some_0);
                Some(rec)
            },
            None => None,
        }
    }

    /// Stores `snapshot` where its document has no snapshot yet or a strictly
    /// older one, and says whether it did.
    pub fn set_doc_snapshot(&mut self, snapshot: DocRecord) -> (r: bool)
        requires
            old(self).wf(),
        ensures
            final(self).wf(),
            r == old(self)@.accepts_snapshot(snapshot.doc_id@, snapshot.timestamp as int),
            final(self)@ == if r {
                old(self)@.with_snapshot(
                    snapshot.doc_id@,
                    snapshot.bin@,
                    snapshot.timestamp as int,
                )
            } else {
                old(self)@
            },
    {
        let ghost rows0 = self.pairs();
        let ghost s0 = self@;
        let ghost v = SnapshotView { bin: snapshot.bin@, timestamp: snapshot.timestamp as int };
        match self.find_snapshot(&snapshot.doc_id) {
            Some(i) => {
                proof {
                    lemma_row_in_map(rows0, i as int);
                }
                if snapshot.timestamp > self.snapshots[i].timestamp {
                    proof {
                        lemma_update_row(rows0, i as int, v);
                    }
                    self.snapshots[i].bin = snapshot.bin;
                    self.snapshots[i].timestamp = snapshot.timestamp;
                    proof {
                        assert(self.pairs() =~= rows0.update(i as int, (rows0[i as int].0, v)));
                        assert(self@.updates =~= s0.updates);
                        assert(self@ =~= s0.with_snapshot(
                            snapshot.doc_id@,
                            snapshot.bin@,
                            snapshot.timestamp as int,
                        ));
                    }
                    true
                } else {
                    false
                }
            },
            None => {
                proof {
                    lemma_push_row(rows0, snapshot.doc_id@, v);
                }
                self.snapshots.push(snapshot);
                proof {
                    assert(self.pairs() =~= rows0.push((snapshot.doc_id@, v)));
                    assert(self@.updates =~= s0.updates);
                    assert(self@ =~= s0.with_snapshot(
                        snapshot.doc_id@,
                        snapshot.bin@,
                        snapshot.timestamp as int,
                    ));
                }
                true
            },
        }
    }

    /// The logged updates of `doc_id`, by ascending timestamp.
    pub fn get_doc_updates(&self, doc_id: &String) -> (r: Vec<DocUpdate>)
        requires
            self.wf(),
        ensures
            update_views(r@) == self@.updates_of(doc_id@),
            forall|i: int, j: int|
                0 <= i < j < r@.len() ==> (#[trigger] r@[i]).timestamp < (#[trigger] r@[j]).timestamp,
    {
        let mut out: Vec<DocUpdate> = Vec::new();
        let ghost log = self@.updates;
        let mut i: usize = 0;
        proof {
            lemma_filter_empty(of_doc(doc_id@));
            assert(log.take(0) =~= Seq::empty());
            assert(update_views(out@) =~= Seq::empty());
        }
        while i < self.updates.len()
            invariant
                i <= self.updates@.len(),
                log == self@.updates,
                update_views(out@) == log.take(i as int).filter(of_doc(doc_id@)),
            decreases self.updates@.len() - i,
        {
            proof {
                lemma_filter_take_next(log, of_doc(doc_id@), i as int);
            }
            if self.updates[i].doc_id == *doc_id {
                let u = DocUpdate {
                    doc_id: self.updates[i].doc_id.clone(),
                    timestamp: self.updates[i].timestamp,
                    bin: clone_bytes(&self.updates[i].bin),
                };
                let ghost before = update_views(out@);
                out.push(u);
                proof {
                    assert(u@ =~= log[i as int]);
                    assert(update_views(out@) =~= before.push(log[i as int]));
                }
            }
            i += 1;
        }
        proof {
            assert(log.take(log.len() as int) =~= log);
            let f = log.filter(of_doc(doc_id@));
            lemma_filter_pairwise(log, of_doc(doc_id@), in_order());
            assert forall|a: int, b: int| 0 <= a < b < out@.len() implies (#[trigger] out@[a]).timestamp
                < (#[trigger] out@[b]).timestamp by {
                assert(f[a] == out@[a]@ && f[b] == out@[b]@);
                log.lemma_filter_pred(of_doc(doc_id@), a);
                log.lemma_filter_pred(of_doc(doc_id@), b);
                assert(in_order()(f[a], f[b]));
            }
        }
        out
    }

    /// Removes from the log the updates of `doc_id` that `kept` does not
    /// keep, and returns how many left.
    fn drop_updates(&mut self, doc_id: &String, stamps: Option<&Vec<i64>>) -> (n: usize)
        requires
            old(self).wf(),
        ensures
            final(self).wf(),
            final(self)@.snapshots == old(self)@.snapshots,
            final(self)@.updates == old(self)@.updates.filter(
                kept(
                    doc_id@,
                    match stamps {
                        Some(v) => Some(stamp_set(v@)),
                        None => None,
                    },
                ),
            ),
            n == old(self)@.updates.len() - final(self)@.updates.len(),
    {
        let ghost log = self@.updates;
        let ghost keep = kept(
            doc_id@,
            match stamps {
                Some(v) => Some(stamp_set(v@)),
                None => None,
            },
        );
        let ghost mut k: int = 0;
        let total: usize = self.updates.len();
        let mut i: usize = 0;
        proof {
            lemma_filter_empty(keep);
            assert(log.take(0) =~= Seq::empty());
            assert(log.skip(0) =~= log);
            assert(self@.updates =~= log.take(0).filter(keep) + log.skip(0));
        }
        while i < self.updates.len()
            invariant
                0 <= k <= log.len() == total,
                k + self.updates@.len() == log.len() + i,
                i == log.take(k).filter(keep).len(),
                self@.updates == log.take(k).filter(keep) + log.skip(k),
                self.pairs() == old(self).pairs(),
                keep == kept(
                    doc_id@,
                    match stamps {
                        Some(v) => Some(stamp_set(v@)),
                        None => None,
                    },
                ),
            decreases self.updates@.len() - i,
        {
            let ghost cur = self@.updates;
            proof {
                lemma_filter_take_next(log, keep, k);
                assert(cur[i as int] == log.skip(k)[0]);
                assert(self.updates@[i as int]@ == log[k]);
            }
            let gone = self.updates[i].doc_id == *doc_id && match stamps {
                Some(v) => has_stamp(v, self.updates[i].timestamp),
                None => true,
            };
            assert(gone == !keep(log[k]));
            if gone {
                self.updates.remove(i);
                proof {
                    assert(self@.updates =~= cur.remove(i as int));
                    assert(cur.remove(i as int) =~= log.take(k + 1).filter(keep) + log.skip(k + 1));
                }
            } else {
                i += 1;
                proof {
                    assert(cur =~= log.take(k + 1).filter(keep) + log.skip(k + 1));
                }
            }
            proof {
                k = k + 1;
            }
        }
        proof {
            assert(log.take(log.len() as int) =~= log);
            assert(self@.updates =~= log.filter(keep));
            lemma_filter_pairwise(log, keep, in_order());
            assert(self@.snapshots == old(self)@.snapshots);
        }
        total - self.updates.len()
    }

    /// Removes from the log the updates of `doc_id` whose timestamp occurs in
    /// `timestamps`, and returns how many it removed.
    pub fn mark_updates_merged(&mut self, doc_id: &String, timestamps: &Vec<i64>) -> (n: usize)
        requires
            old(self).wf(),
        ensures
            final(self).wf(),
            final(self)@ == old(self)@.without_merged(doc_id@, stamp_set(timestamps@)),
            n == old(self)@.count_merged(doc_id@, stamp_set(timestamps@)),
    {
        let n = self.drop_updates(doc_id, Some(timestamps));
        proof {
            assert(self@ =~= old(self)@.without_merged(doc_id@, stamp_set(timestamps@)));
        }
        n
    }

    /// Removes the snapshot and every update of `doc_id`.
    pub fn delete_doc(&mut self, doc_id: &String)
        requires
            old(self).wf(),
        ensures
            final(self).wf(),
            final(self)@ == old(self)@.without_doc(doc_id@),
    {
        let ghost s0 = self@;
        let _ = self.drop_updates(doc_id, None);
        let ghost rows0 = self.pairs();
        let ghost s1 = self@;
        match self.find_snapshot(doc_id) {
            Some(i) => {
                proof {
                    lemma_remove_row(rows0, i as int);
                }
                self.snapshots.remove(i);
                proof {
                    assert(self.pairs() =~= rows0.remove(i as int));
                    assert(self@.updates =~= s1.updates);
                }
            },
            None => {
                proof {
                    assert(s1.snapshots.remove(doc_id@) =~= s1.snapshots);
                }
            },
        }
        proof {
            assert(self@ =~= s0.without_doc(doc_id@));
        }
    }

    fn seen_before(&self, n: usize, doc_id: &String) -> (r: bool)
        requires
            n <= self.updates@.len(),
        ensures
            r == exists|j: int| 0 <= j < n && (#[trigger] self@.updates[j]).doc_id == doc_id@,
    {
        let mut j: usize = 0;
        while j < n
            invariant
                j <= n <= self.updates@.len(),
                forall|k: int| 0 <= k < j ==> (#[trigger] self@.updates[k]).doc_id != doc_id@,
            decreases n - j,
        {
            if self.updates[j].doc_id == *doc_id {
                assert(self@.updates[j as int].doc_id == doc_id@);
                return true;
            }
            j += 1;
        }
        false
    }

    /// The clocks, where they pass `after`, of the documents that have a
    /// snapshot.
    fn snapshot_clocks(&self, after: Option<i64>) -> (r: Vec<DocClock>)
        requires
            self.wf(),
        ensures
            forall|k: int|
                0 <= k < r@.len() ==> self@.snapshots.contains_key((#[trigger] r@[k]).doc_id@)
                    && self@.is_clock(r@[k].doc_id@, r@[k].timestamp as int) && is_after(
                    r@[k].timestamp as int,
                    after_view(after),
                ),
            forall|a: int, b: int|
                0 <= a < b < r@.len() ==> (#[trigger] r@[a]).doc_id@ != (#[trigger] r@[b]).doc_id@,
            forall|d: Seq<char>| #[trigger]
                self@.snapshots.contains_key(d) ==> covers(self@, r@, after_view(after), d),
    {
        let ghost s = self@;
        let ghost aft = after_view(after);
        let mut out: Vec<DocClock> = Vec::new();
        let ghost mut src: Seq<int> = Seq::empty();
        let mut i: usize = 0;
        while i < self.snapshots.len()
            invariant
                i <= self.snapshots@.len(),
                self.wf(),
                s == self@,
                aft == after_view(after),
                src.len() == out@.len(),
                forall|k: int|
                    0 <= k < out@.len() ==> 0 <= #[trigger] src[k] < i && self.pairs()[src[k]].0
                        == out@[k].doc_id@,
                forall|k: int|
                    0 <= k < out@.len() ==> s.snapshots.contains_key((#[trigger] out@[k]).doc_id@)
                        && s.is_clock(out@[k].doc_id@, out@[k].timestamp as int) && is_after(
                        out@[k].timestamp as int,
                        aft,
                    ),
                forall|a: int, b: int| 0 <= a < b < src.len() ==> src[a] < src[b],
                forall|j: int| 0 <= j < i ==> covers(s, out@, aft, (#[trigger] self.pairs()[j]).0),
            decreases self.snapshots@.len() - i,
        {
            let ghost d = self.pairs()[i as int].0;
            let ghost before = out@;
            proof {
                lemma_row_in_map(self.pairs(), i as int);
            }
            match self.latest(&self.snapshots[i].doc_id) {
                Some(t) => {
                    let pass = match after {
                        Some(a) => t > a,
                        None => true,
                    };
                    if pass {
                        out.push(DocClock { doc_id: self.snapshots[i].doc_id.clone(), timestamp: t });
                        proof {
                            src = src.push(i as int);
                            assert(out@[before.len() as int].doc_id@ == d);
                            assert(names_doc(out@, d));
                        }
                    }
                },
                None => {},
            }
            proof {
                assert forall|j: int| 0 <= j < i + 1 implies covers(
                    s,
                    out@,
                    aft,
                    (#[trigger] self.pairs()[j]).0,
                ) by {
                    let dj = self.pairs()[j].0;
                    if j < i {
                        if names_doc(before, dj) {
                            lemma_names_grow(before, out@, dj);
                        }
                    }
                }
            }
            i += 1;
        }
        proof {
            assert forall|a: int, b: int| 0 <= a < b < out@.len() implies (#[trigger] out@[a]).doc_id@
                != (#[trigger] out@[b]).doc_id@ by {
                assert(src[a] < src[b]);
                assert(self.pairs()[src[a]].0 != self.pairs()[src[b]].0);
            }
            assert forall|d: Seq<char>| #[trigger] s.snapshots.contains_key(d) implies covers(
                s,
                out@,
                aft,
                d,
            ) by {
                let j = lemma_key_present(self.pairs(), d);
                assert(covers(s, out@, aft, self.pairs()[j].0));
            }
        }
        out
    }

    /// The clock of every document that the store holds, or of those whose
    /// clock is strictly later than `after`, in no particular order.
    pub fn get_doc_clocks(&self, after: Option<i64>) -> (r: Vec<DocClock>)
        requires
            self.wf(),
        ensures
            lists_clocks(r@, self@, after_view(after)),
    {
        let ghost s = self@;
        let ghost aft = after_view(after);
        let mut out = self.snapshot_clocks(after);
        let ghost head = out@;
        let ghost mut first: Seq<int> = Seq::empty();
        let mut i: usize = 0;
        while i < self.updates.len()
            invariant
                i <= self.updates@.len(),
                self.wf(),
                s == self@,
                aft == after_view(after),
                head.len() + first.len() == out@.len(),
                forall|k: int| 0 <= k < head.len() ==> out@[k] == head[k],
                forall|k: int|
                    0 <= k < head.len() ==> s.snapshots.contains_key((#[trigger] head[k]).doc_id@),
                forall|a: int, b: int|
                    0 <= a < b < head.len() ==> (#[trigger] head[a]).doc_id@ != (
                    #[trigger] head[b]).doc_id@,
                forall|d: Seq<char>| #[trigger]
                    s.snapshots.contains_key(d) ==> covers(s, head, aft, d),
                forall|k: int|
                    0 <= k < out@.len() ==> s.is_clock(
                        (#[trigger] out@[k]).doc_id@,
                        out@[k].timestamp as int,
                    ) && is_after(out@[k].timestamp as int, aft),
                forall|k: int|
                    0 <= k < first.len() ==> 0 <= #[trigger] first[k] < i && is_first(
                        s.updates,
                        first[k],
                    ) && s.updates[first[k]].doc_id == out@[head.len() + k].doc_id@
                        && !s.snapshots.contains_key(s.updates[first[k]].doc_id),
                forall|a: int, b: int| 0 <= a < b < first.len() ==> first[a] < first[b],
                forall|j: int|
                    0 <= j < i && !s.snapshots.contains_key((#[trigger] s.updates[j]).doc_id)
                        ==> covers(s, out@, aft, s.updates[j].doc_id),
            decreases self.updates@.len() - i,
        {
            let ghost d = s.updates[i as int].doc_id;
            let ghost before = out@;
            assert(self.updates@[i as int]@ == s.updates[i as int]);
            let fresh = self.find_snapshot(&self.updates[i].doc_id).is_none() && !self.seen_before(
                i,
                &self.updates[i].doc_id,
            );
            if fresh {
                match self.latest(&self.updates[i].doc_id) {
                    Some(t) => {
                        let pass = match after {
                            Some(a) => t > a,
                            None => true,
                        };
                        if pass {
                            out.push(
                                DocClock { doc_id: self.updates[i].doc_id.clone(), timestamp: t },
                            );
                            proof {
                                first = first.push(i as int);
                                assert(is_first(s.updates, i as int));
                                assert(out@[before.len() as int].doc_id@ == d);
                                assert(names_doc(out@, d));
                            }
                        }
                    },
                    None => {},
                }
            }
            proof {
                assert forall|j: int|
                    0 <= j < i + 1 && !s.snapshots.contains_key(
                        (#[trigger] s.updates[j]).doc_id,
                    ) implies covers(s, out@, aft, s.updates[j].doc_id) by {
                    let dj = s.updates[j].doc_id;
                    if j < i {
                        if names_doc(before, dj) {
                            lemma_names_grow(before, out@, dj);
                        }
                    } else if !fresh {
                        let j0 = choose|j0: int|
                            0 <= j0 < i && (#[trigger] s.updates[j0]).doc_id == d;
                        assert(covers(s, before, aft, s.updates[j0].doc_id));
                        if names_doc(before, dj) {
                            lemma_names_grow(before, out@, dj);
                        }
                    }
                }
            }
            i += 1;
        }
        proof {
            assert forall|a: int, b: int| 0 <= a < b < out@.len() implies (#[trigger] out@[a]).doc_id@
                != (#[trigger] out@[b]).doc_id@ by {
                let n = head.len() as int;
                if b < n {
                    assert(head[a].doc_id@ != head[b].doc_id@);
                } else if a < n {
                    assert(s.snapshots.contains_key(head[a].doc_id@));
                    assert(!s.snapshots.contains_key(s.updates[first[b - n]].doc_id));
                } else {
                    assert(first[a - n] < first[b - n]);
                    assert(is_first(s.updates, first[b - n]));
                    assert(s.updates[first[a - n]].doc_id != s.updates[first[b - n]].doc_id);
                }
            }
            assert forall|d: Seq<char>, c: int| #[trigger]
                s.is_clock(d, c) && is_after(c, aft) implies names_doc(out@, d) by {
                s.lemma_clock_unique(d, c);
                if s.snapshots.contains_key(d) {
                    assert(covers(s, head, aft, d));
                    lemma_names_grow(head, out@, d);
                } else {
                    assert(s.is_timestamp_of(d, c));
                    let j = choose|j: int|
                        0 <= j < s.updates.len() && j < s.updates.len() && (
                        #[trigger] s.updates[j]).doc_id == d && s.updates[j].timestamp == c;
                    assert(covers(s, out@, aft, s.updates[j].doc_id));
                }
            }
        }
        out
    }

    /// The clock of `doc_id`: its latest timestamp, or nothing where the store
    /// holds neither a snapshot nor an update of it.
    pub fn get_doc_clock(&self, doc_id: &String) -> (r: Option<DocClock>)
        requires
            self.wf(),
        ensures
            match r {
                Some(c) => c.doc_id@ == doc_id@ && self@.is_clock(doc_id@, c.timestamp as int)
                    && self@.clock_of(doc_id@) == Some(c.timestamp as int),
                None => !self@.has_doc(doc_id@) && self@.clock_of(doc_id@) is None,
            },
    {
        match self.latest(doc_id) {
            Some(t) => Some(DocClock { doc_id: doc_id.clone(), timestamp: t }),
            None => None,
        }
    }
}

} // verus!
