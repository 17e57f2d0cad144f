//! The pool: the storages of the connected universes, by universe id.
//!
//! Every operation names the universe it is for. On a universe that is not
//! connected it fails with `StorageError::NotConnected` and changes nothing.

use crate::blob::{
    blob_at, lists_blobs, put_blob, release, remove_blob, Blob, ListedBlob, SetBlob,
};
use crate::doc::{
    after_view, lists_clocks, stamp_set, update_views, DocClock, DocRecord, DocUpdate,
};
use crate::error::StorageError;
use crate::storage::{ClockKind, Storage, StorageView};
use crate::sync::{lists_peer, upsert_clock};
use crate::table::{
    as_map, keys_unique, lemma_empty_table, lemma_key_absent, lemma_key_present, lemma_push_row,
    lemma_remove_row, lemma_row_in_map, lemma_update_row,
};
use crate::time::wall_clock_micros;
use vstd::prelude::*;

verus! {

/// What a pool holds: the storage of each connected universe.
pub type PoolMap = Map<Seq<char>, StorageView>;

/// The pool after `universal_id` was connected at `path`: a universe that is
/// connected already stays as it is, another one starts empty.
pub open spec fn connected(m: PoolMap, universal_id: Seq<char>, path: Seq<char>) -> PoolMap {
    if m.contains_key(universal_id) {
        m
    } else {
        m.insert(universal_id, StorageView::empty(path))
    }
}

/// The pool after `universal_id` was disconnected.
pub open spec fn disconnected(m: PoolMap, universal_id: Seq<char>) -> PoolMap {
    m.remove(universal_id)
}

/// The outcome of an operation that only a missing connection can fail:
/// on a connected universe it succeeds and leaves `next` in place of the
/// universe's storage, else it fails with `StorageError::NotConnected` and the pool
/// stays as it was.
pub open spec fn routed<T>(
    before: PoolMap,
    after: PoolMap,
    universal_id: Seq<char>,
    r: Result<T, StorageError>,
    next: StorageView,
) -> bool {
    if before.contains_key(universal_id) {
        r is Ok && after == before.insert(universal_id, next)
    } else {
        r == Err::<T, StorageError>(StorageError::NotConnected) && after == before
    }
}

/// The outcome of an operation that reads from one universe: it succeeds
/// exactly on a connected universe.
pub open spec fn answered<T>(m: PoolMap, universal_id: Seq<char>, r: Result<T, StorageError>) -> bool {
    if m.contains_key(universal_id) {
        r is Ok
    } else {
        r == Err::<T, StorageError>(StorageError::NotConnected)
    }
}

/// One connected universe.
struct Entry {
    universal_id: String,
    storage: Storage,
}

/// The storages of the connected universes.
pub struct DocStoragePool {
    entries: Vec<Entry>,
}

impl DocStoragePool {
    spec fn pairs(&self) -> Seq<(Seq<char>, StorageView)> {
        Seq::new(
            self.entries@.len(),
            |i: int| (self.entries@[i].universal_id@, self.entries@[i].storage@),
        )
    }

    /// The storage of each connected universe.
    pub closed spec fn view(&self) -> PoolMap {
        as_map(self.pairs())
    }

    /// No universe is connected twice, and every storage is well formed.
    pub closed spec fn wf(&self) -> bool {
        &&& keys_unique(self.pairs())
        &&& forall|i: int| 0 <= i < self.entries@.len() ==> (#[trigger] self.entries@[i]).storage.wf()
    }

    /// In a well-formed pool the update log of every universe is in order.
    pub proof fn lemma_view_wf(&self, universal_id: Seq<char>)
        requires
            self.wf(),
            self@.contains_key(universal_id),
        ensures
            self@[universal_id].wf(),
    {
        let i = lemma_key_present(self.pairs(), universal_id);
        self.entries@[i].storage.lemma_view_wf();
    }

    /// One storage changed and nothing else did.
    proof fn lemma_changed(before: Self, after: Self, i: int)
        requires
            before.wf(),
            0 <= i < before.entries@.len(),
            after.entries@.len() == before.entries@.len(),
            forall|j: int|
                0 <= j < before.entries@.len() && j != i ==> after.entries@[j]
                    == before.entries@[j],
            after.entries@[i].universal_id@ == before.entries@[i].universal_id@,
            after.entries@[i].storage.wf(),
        ensures
            after.wf(),
            before@.contains_key(before.entries@[i].universal_id@),
            before@[before.entries@[i].universal_id@] == before.entries@[i].storage@,
            after@ == before@.insert(
                before.entries@[i].universal_id@,
                after.entries@[i].storage@,
            ),
    {
        let rows0 = before.pairs();
        lemma_row_in_map(rows0, i);
        lemma_update_row(rows0, i, after.entries@[i].storage@);
        assert(after.pairs() =~= rows0.update(i, (rows0[i].0, after.entries@[i].storage@)));
        assert forall|j: int| 0 <= j < after.entries@.len() implies (
        #[trigger] after.entries@[j]).storage.wf() by {
            if j != i {
                assert(before.entries@[j].storage.wf());
            }
        }
    }

    /// A pool with no universe connected.
    pub fn new() -> (r: Result<Self, StorageError>)
        ensures
            r is Ok,
            r->Ok_0.wf(),
            r->Ok_0@ == PoolMap::empty(),
    {
        let pool = DocStoragePool { entries: Vec::new() };
        proof {
            lemma_empty_table::<Seq<char>, StorageView>();
            assert(pool.pairs() =~= Seq::empty());
        }
        Ok(pool)
    }

    fn slot(&self, universal_id: &String) -> (r: Option<usize>)
        ensures
            match r {
                Some(i) => i < self.entries@.len() && self.entries@[i as int].universal_id@
                    == universal_id@,
                None => !self@.contains_key(universal_id@),
            },
    {
        let mut i: usize = 0;
        while i < self.entries.len()
            invariant
                i <= self.entries@.len(),
                forall|j: int| 0 <= j < i ==> (#[trigger] self.pairs()[j]).0 != universal_id@,
            decreases self.entries@.len() - i,
        {
            if self.entries[i].universal_id == *universal_id {
                return Some(i);
            }
            i += 1;
        }
        proof {
            lemma_key_absent(self.pairs(), universal_id@);
        }
        None
    }

    /// Connects `universal_id` with an empty storage for the file at `path`.
    /// Connecting a universe that is connected already changes nothing.
    pub fn connect(&mut self, universal_id: String, path: String) -> (r: Result<(), StorageError>)
        requires
            old(self).wf(),
        ensures
            final(self).wf(),
            r is Ok,
            final(self)@ == connected(old(self)@, universal_id@, path@),
    {
        self.connect_with(universal_id, path, Ok(()))
    }

    /// Connects `universal_id` after the file at `path` was opened and its
    /// schema brought up to date, or after that failed: `opened` says which.
    /// A universe that is connected already stays as it is, whatever `opened`
    /// says. Else a failure is passed on and the universe stays absent, and a
    /// success connects it with an empty storage.
    pub fn connect_with(
        &mut self,
        universal_id: String,
        path: String,
        opened: Result<(), StorageError>,
    ) -> (r: Result<(), StorageError>)
        requires
            old(self).wf(),
        ensures
            final(self).wf(),
            r == if old(self)@.contains_key(universal_id@) {
                Ok::<(), StorageError>(())
            } else {
                opened
            },
            final(self)@ == if r is Ok {
                connected(old(self)@, universal_id@, path@)
            } else {
                old(self)@
            },
    {
        match self.slot(&universal_id) {
            Some(i) => {
                proof {
                    lemma_row_in_map(self.pairs(), i as int);
                }
                Ok(())
            },
            None => {
                if opened.is_ok() {
                    let ghost rows0 = self.pairs();
                    let storage = Storage::open(path);
                    proof {
                        lemma_push_row(rows0, universal_id@, storage@);
                    }
                    self.entries.push(Entry { universal_id, storage });
                    assert(self.pairs() =~= rows0.push(
                        (universal_id@, StorageView::empty(path@)),
                    ));
                }
                opened
            },
        }
    }

    /// Disconnects `universal_id`, dropping its storage. Disconnecting a
    /// universe that is not connected changes nothing.
    pub fn disconnect(&mut self, universal_id: String) -> (r: Result<(), StorageError>)
        requires
            old(self).wf(),
        ensures
            final(self).wf(),
            r is Ok,
            final(self)@ == disconnected(old(self)@, universal_id@),
    {
        let ghost rows0 = self.pairs();
        match self.slot(&universal_id) {
            Some(i) => {
                proof {
                    lemma_row_in_map(rows0, i as int);
                    lemma_remove_row(rows0, i as int);
                }
                self.entries.remove(i);
                assert(self.pairs() =~= rows0.remove(i as int));
            },
            None => {
                assert(old(self)@.remove(universal_id@) =~= old(self)@);
            },
        }
        Ok(())
    }

    /// The storage of `universal_id`, or `StorageError::NotConnected` where it is
    /// not connected.
    pub fn ensure_storage(&self, universal_id: &String) -> (r: Result<&Storage, StorageError>)
        requires
            self.wf(),
        ensures
            answered(self@, universal_id@, r),
            r is Ok ==> r->Ok_0.wf() && r->Ok_0@ == self@[universal_id@],
    {
        match self.slot(universal_id) {
            Some(i) => {
                proof {
                    lemma_row_in_map(self.pairs(), i as int);
                }
                Ok(&self.entries[i].storage)
            },
            None => Err(StorageError::NotConnected),
        }
    }

    /// Sets the space that `universal_id` belongs to. Setting the same space
    /// again changes nothing; setting another one fails with
    /// `StorageError::SpaceMismatch`.
    pub fn set_space_id(&mut self, universal_id: String, space_id: String) -> (r: Result<(), StorageError>)
        requires
            old(self).wf(),
        ensures
            final(self).wf(),
            match r {
                Ok(_) => old(self)@.contains_key(universal_id@) && old(self)@[universal_id@].accepts_space_id(space_id@) && final(self)@ == old(self)@.insert(universal_id@, old(self)@[universal_id@].with_space_id(space_id@)),
                Err(e) => final(self)@ == old(self)@ && if old(self)@.contains_key(
                    universal_id@,
                ) {
                    e == StorageError::SpaceMismatch && !old(self)@[universal_id@].accepts_space_id(
                        space_id@,
                    )
                } else {
                    e == StorageError::NotConnected
                },
            },
    {
        let i = match self.slot(&universal_id) {
            Some(i) => i,
            None => {
                return Err(StorageError::NotConnected);
            },
        };
        let r = self.entries[i].storage.set_space_id(space_id);
        proof {
            Self::lemma_changed(*old(self), *self, i as int);
            if r is Err {
                assert(self@ =~= old(self)@);
            }
        }
        r
    }

    /// Logs an update of `doc_id` in `universal_id` under a fresh timestamp
    /// and returns it: the wall clock's time, or one microsecond past the
    /// document's clock where the wall clock is not later than it. The
    /// timestamp is therefore later than every timestamp the document had.
    /// Fails with `StorageError::Internal`, changing nothing, where the document's
    /// clock is the last representable timestamp and the wall clock is not
    /// past it.
    pub fn push_update(&mut self, universal_id: String, doc_id: String, update: Vec<u8>) -> (r:
        Result<i64, StorageError>)
        requires
            old(self).wf(),
        ensures
            final(self).wf(),
            match r {
                Ok(t) => old(self)@.contains_key(universal_id@) && (old(self)@[universal_id@].docs.clock_of(doc_id@) matches Some(c) ==> t > c) && final(self)@ == old(self)@.insert(
                    universal_id@,
                    old(self)@[universal_id@].with_docs(
                        old(self)@[universal_id@].docs.with_update(doc_id@, t as int, update@),
                    ),
                ),
                Err(e) => final(self)@ == old(self)@ && if old(self)@.contains_key(
                    universal_id@,
                ) {
                    e == StorageError::Internal && old(self)@[universal_id@].docs.clock_of(doc_id@)
                        == Some(i64::MAX as int)
                } else {
                    e == StorageError::NotConnected
                },
            },
    {
        let i = match self.slot(&universal_id) {
            Some(i) => i,
            None => {
                return Err(StorageError::NotConnected);
            },
        };
        let now = wall_clock_micros();
        let r = self.entries[i].storage.push_update(doc_id, update, now);
        proof {
            Self::lemma_changed(*old(self), *self, i as int);
            if r is Err {
                assert(self@ =~= old(self)@);
            }
        }
        r
    }

    /// The stored snapshot of `doc_id` in `universal_id`, if there is one.
    pub fn get_doc_snapshot(&self, universal_id: String, doc_id: String) -> (r: Result<
        Option<DocRecord>,
        StorageError,
    >)
        requires
            self.wf(),
        ensures
            answered(self@, universal_id@, r),
            r matches Ok(found) ==> match found {
                Some(rec) => Some(rec@) == self@[universal_id@].docs.snapshot_of(doc_id@),
                None => self@[universal_id@].docs.snapshot_of(doc_id@) is None,
            },
    {
        match self.ensure_storage(&universal_id) {
            Ok(storage) => Ok(storage.get_doc_snapshot(&doc_id)),
            Err(e) => Err(e),
        }
    }

    /// Stores `snapshot` in `universal_id` where its document has no snapshot
    /// yet or a strictly older one, and says whether it did.
    pub fn set_doc_snapshot(&mut self, universal_id: String, snapshot: DocRecord) -> (r: Result<
        bool,
        StorageError,
    >)
        requires
            old(self).wf(),
        ensures
            final(self).wf(),
            routed(
                old(self)@,
                final(self)@,
                universal_id@,
                r,
                if old(self)@[universal_id@].docs.accepts_snapshot(
                    snapshot.doc_id@,
                    snapshot.timestamp as int,
                ) {
                    old(self)@[universal_id@].with_docs(
                        old(self)@[universal_id@].docs.with_snapshot(
                            snapshot.doc_id@,
                            snapshot.bin@,
                            snapshot.timestamp as int,
                        ),
                    )
                } else {
                    old(self)@[universal_id@]
                },
            ),
            r matches Ok(stored) ==> stored == old(self)@[universal_id@].docs.accepts_snapshot(
                snapshot.doc_id@,
                snapshot.timestamp as int,
            ),
    {
        let i = match self.slot(&universal_id) {
            Some(i) => i,
            None => {
                return Err(StorageError::NotConnected);
            },
        };
        let stored = self.entries[i].storage.set_doc_snapshot(snapshot);
        proof {
            Self::lemma_changed(*old(self), *self, i as int);
        }
        Ok(stored)
    }

    /// The logged updates of `doc_id` in `universal_id`, by ascending
    /// timestamp.
    pub fn get_doc_updates(&self, universal_id: String, doc_id: String) -> (r: Result<
        Vec<DocUpdate>,
        StorageError,
    >)
        requires
            self.wf(),
        ensures
            answered(self@, universal_id@, r),
            r matches Ok(list) ==> update_views(list@) == self@[universal_id@].docs.updates_of(
                doc_id@,
            ) && forall|i: int, j: int|
                0 <= i < j < list@.len() ==> (#[trigger] list@[i]).timestamp < (
                #[trigger] list@[j]).timestamp,
    {
        match self.ensure_storage(&universal_id) {
            Ok(storage) => Ok(storage.get_doc_updates(&doc_id)),
            Err(e) => Err(e),
        }
    }

    /// Removes from the log of `universal_id` the updates of `doc_id` whose
    /// timestamp occurs in `updates`, and returns how many it removed.
    pub fn mark_updates_merged(
        &mut self,
        universal_id: String,
        doc_id: String,
        updates: Vec<i64>,
    ) -> (r: Result<usize, StorageError>)
        requires
            old(self).wf(),
        ensures
            final(self).wf(),
            routed(
                old(self)@,
                final(self)@,
                universal_id@,
                r,
                old(self)@[universal_id@].with_docs(
                    old(self)@[universal_id@].docs.without_merged(doc_id@, stamp_set(updates@)),
                ),
            ),
            r matches Ok(n) ==> n == old(self)@[universal_id@].docs.count_merged(
                doc_id@,
                stamp_set(updates@),
            ),
    {
        let i = match self.slot(&universal_id) {
            Some(i) => i,
            None => {
                return Err(StorageError::NotConnected);
            },
        };
        let n = self.entries[i].storage.mark_updates_merged(&doc_id, &updates);
        proof {
            Self::lemma_changed(*old(self), *self, i as int);
        }
        Ok(n)
    }

    /// Removes the snapshot and every update of `doc_id` from `universal_id`.
    /// Blobs stay.
    pub fn delete_doc(&mut self, universal_id: String, doc_id: String) -> (r: Result<(), StorageError>)
        requires
            old(self).wf(),
        ensures
            final(self).wf(),
            routed(
                old(self)@,
                final(self)@,
                universal_id@,
                r,
                old(self)@[universal_id@].with_docs(
                    old(self)@[universal_id@].docs.without_doc(doc_id@),
                ),
            ),
    {
        let i = match self.slot(&universal_id) {
            Some(i) => i,
            None => {
                return Err(StorageError::NotConnected);
            },
        };
        self.entries[i].storage.delete_doc(&doc_id);
        proof {
            Self::lemma_changed(*old(self), *self, i as int);
        }
        Ok(())
    }

    /// The clock of every document that `universal_id` holds, or of those
    /// whose clock is strictly later than `after`, in no particular order.
    pub fn get_doc_clocks(&self, universal_id: String, after: Option<i64>) -> (r: Result<
        Vec<DocClock>,
        StorageError,
    >)
        requires
            self.wf(),
        ensures
            answered(self@, universal_id@, r),
            r matches Ok(list) ==> lists_clocks(
                list@,
                self@[universal_id@].docs,
                after_view(after),
            ),
    {
        match self.ensure_storage(&universal_id) {
            Ok(storage) => Ok(storage.get_doc_clocks(after)),
            Err(e) => Err(e),
        }
    }

    /// The clock of `doc_id` in `universal_id`: its latest timestamp, or
    /// nothing where the universe holds neither a snapshot nor an update of
    /// it.
    pub fn get_doc_clock(&self, universal_id: String, doc_id: String) -> (r: Result<
        Option<DocClock>,
        StorageError,
    >)
        requires
            self.wf(),
        ensures
            answered(self@, universal_id@, r),
            r matches Ok(found) ==> match found {
                Some(c) => c.doc_id@ == doc_id@ && self@[universal_id@].docs.is_clock(
                    doc_id@,
                    c.timestamp as int,
                ) && self@[universal_id@].docs.clock_of(doc_id@) == Some(c.timestamp as int),
                None => !self@[universal_id@].docs.has_doc(doc_id@)
                    && self@[universal_id@].docs.clock_of(doc_id@) is None,
            },
    {
        match self.ensure_storage(&universal_id) {
            Ok(storage) => Ok(storage.get_doc_clock(&doc_id)),
            Err(e) => Err(e),
        }
    }

    /// The live blob under `key` in `universal_id`, if there is one.
    pub fn get_blob(&self, universal_id: String, key: String) -> (r: Result<Option<Blob>, StorageError>)
        requires
            self.wf(),
        ensures
            answered(self@, universal_id@, r),
            r matches Ok(found) ==> match found {
                Some(b) => Some(b@) == blob_at(self@[universal_id@].blobs, key@),
                None => blob_at(self@[universal_id@].blobs, key@) is None,
            },
    {
        match self.ensure_storage(&universal_id) {
            Ok(storage) => Ok(storage.get_blob(&key)),
            Err(e) => Err(e),
        }
    }

    /// Stores `blob` under its key in `universal_id`, replacing what the key
    /// held and undoing a soft delete. A key that is new is created at the
    /// wall clock's time; a key that exists keeps its creation time.
    pub fn set_blob(&mut self, universal_id: String, blob: SetBlob) -> (r: Result<(), StorageError>)
        requires
            old(self).wf(),
        ensures
            final(self).wf(),
            exists|now: int|
                routed(
                    old(self)@,
                    final(self)@,
                    universal_id@,
                    r,
                    old(self)@[universal_id@].with_blobs(
                        put_blob(
                            old(self)@[universal_id@].blobs,
                            blob.key@,
                            blob.data@,
                            blob.mime@,
                            now,
                        ),
                    ),
                ),
    {
        let i = match self.slot(&universal_id) {
            Some(i) => i,
            None => {
                assert(routed(
                    old(self)@,
                    self@,
                    universal_id@,
                    Err::<(), StorageError>(StorageError::NotConnected),
                    old(self)@[universal_id@].with_blobs(
                        put_blob(
                            old(self)@[universal_id@].blobs,
                            blob.key@,
                            blob.data@,
                            blob.mime@,
                            0,
                        ),
                    ),
                ));
                return Err(StorageError::NotConnected);
            },
        };
        let now = wall_clock_micros();
        self.entries[i].storage.set_blob(blob, now);
        proof {
            Self::lemma_changed(*old(self), *self, i as int);
            assert(routed(
                old(self)@,
                self@,
                universal_id@,
                Ok::<(), StorageError>(()),
                old(self)@[universal_id@].with_blobs(
                    put_blob(
                        old(self)@[universal_id@].blobs,
                        blob.key@,
                        blob.data@,
                        blob.mime@,
                        now as int,
                    ),
                ),
            ));
        }
        Ok(())
    }

    /// Deletes the blob under `key` in `universal_id`: for good where
    /// `permanently` is set, else by marking it as deleted at the wall clock's
    /// time, which a second call does not repeat.
    pub fn delete_blob(&mut self, universal_id: String, key: String, permanently: bool) -> (r:
        Result<(), StorageError>)
        requires
            old(self).wf(),
        ensures
            final(self).wf(),
            exists|now: int|
                routed(
                    old(self)@,
                    final(self)@,
                    universal_id@,
                    r,
                    old(self)@[universal_id@].with_blobs(
                        remove_blob(old(self)@[universal_id@].blobs, key@, permanently, now),
                    ),
                ),
    {
        let i = match self.slot(&universal_id) {
            Some(i) => i,
            None => {
                assert(routed(
                    old(self)@,
                    self@,
                    universal_id@,
                    Err::<(), StorageError>(StorageError::NotConnected),
                    old(self)@[universal_id@].with_blobs(
                        remove_blob(old(self)@[universal_id@].blobs, key@, permanently, 0),
                    ),
                ));
                return Err(StorageError::NotConnected);
            },
        };
        let now = wall_clock_micros();
        self.entries[i].storage.delete_blob(&key, permanently, now);
        proof {
            Self::lemma_changed(*old(self), *self, i as int);
            assert(routed(
                old(self)@,
                self@,
                universal_id@,
                Ok::<(), StorageError>(()),
                old(self)@[universal_id@].with_blobs(
                    remove_blob(
                        old(self)@[universal_id@].blobs,
                        key@,
                        permanently,
                        now as int,
                    ),
                ),
            ));
        }
        Ok(())
    }

    /// Removes every soft-deleted blob of `universal_id` for good.
    pub fn release_blobs(&mut self, universal_id: String) -> (r: Result<(), StorageError>)
        requires
            old(self).wf(),
        ensures
            final(self).wf(),
            routed(
                old(self)@,
                final(self)@,
                universal_id@,
                r,
                old(self)@[universal_id@].with_blobs(release(old(self)@[universal_id@].blobs)),
            ),
    {
        let i = match self.slot(&universal_id) {
            Some(i) => i,
            None => {
                return Err(StorageError::NotConnected);
            },
        };
        self.entries[i].storage.release_blobs();
        proof {
            Self::lemma_changed(*old(self), *self, i as int);
        }
        Ok(())
    }

    /// The live blobs of `universal_id` without their bytes, latest creation
    /// first.
    pub fn list_blobs(&self, universal_id: String) -> (r: Result<Vec<ListedBlob>, StorageError>)
        requires
            self.wf(),
        ensures
            answered(self@, universal_id@, r),
            r matches Ok(list) ==> lists_blobs(list@, self@[universal_id@].blobs),
    {
        match self.ensure_storage(&universal_id) {
            Ok(storage) => Ok(storage.list_blobs()),
            Err(e) => Err(e),
        }
    }

    fn get_peer_clocks(&self, kind: ClockKind, universal_id: String, peer: String) -> (r: Result<
        Vec<DocClock>,
        StorageError,
    >)
        requires
            self.wf(),
        ensures
            answered(self@, universal_id@, r),
            r matches Ok(list) ==> lists_peer(list@, self@[universal_id@].clocks(kind), peer@),
    {
        match self.ensure_storage(&universal_id) {
            Ok(storage) => Ok(storage.get_peer_clocks(kind, &peer)),
            Err(e) => Err(e),
        }
    }

    fn get_peer_clock(
        &self,
        kind: ClockKind,
        universal_id: String,
        peer: String,
        doc_id: String,
    ) -> (r: Result<Option<DocClock>, StorageError>)
        requires
            self.wf(),
        ensures
            answered(self@, universal_id@, r),
            r matches Ok(found) ==> match found {
                Some(c) => self@[universal_id@].clocks(kind).contains_key((peer@, doc_id@))
                    && c.doc_id@ == doc_id@ && c.timestamp == self@[universal_id@].clocks(
                    kind,
                )[(peer@, doc_id@)],
                None => !self@[universal_id@].clocks(kind).contains_key((peer@, doc_id@)),
            },
    {
        match self.ensure_storage(&universal_id) {
            Ok(storage) => Ok(storage.get_peer_clock(kind, &peer, &doc_id)),
            Err(e) => Err(e),
        }
    }

    fn set_peer_clock(
        &mut self,
        kind: ClockKind,
        universal_id: String,
        peer: String,
        doc_id: String,
        clock: i64,
    ) -> (r: Result<(), StorageError>)
        requires
            old(self).wf(),
        ensures
            final(self).wf(),
            routed(
                old(self)@,
                final(self)@,
                universal_id@,
                r,
                old(self)@[universal_id@].with_clocks(
                    kind,
                    upsert_clock(
                        old(self)@[universal_id@].clocks(kind),
                        peer@,
                        doc_id@,
                        clock as int,
                    ),
                ),
            ),
    {
        let i = match self.slot(&universal_id) {
            Some(i) => i,
            None => {
                return Err(StorageError::NotConnected);
            },
        };
        self.entries[i].storage.set_peer_clock(kind, peer, doc_id, clock);
        proof {
            Self::lemma_changed(*old(self), *self, i as int);
        }
        Ok(())
    }

    /// For every document on record for `peer` in `universal_id`: the latest timestamp that `peer` has announced.
    pub fn get_peer_remote_clocks(&self, universal_id: String, peer: String) -> (r: Result<
        Vec<DocClock>,
        StorageError,
    >)
        requires
            self.wf(),
        ensures
            answered(self@, universal_id@, r),
            r matches Ok(list) ==> lists_peer(list@, self@[universal_id@].remote_clocks, peer@),
    {
        self.get_peer_clocks(ClockKind::Remote, universal_id, peer)
    }

    /// For `doc_id` in `universal_id`: the latest timestamp that `peer` has announced, if one is on record.
    pub fn get_peer_remote_clock(&self, universal_id: String, peer: String, doc_id: String) -> (r:
        Result<Option<DocClock>, StorageError>)
        requires
            self.wf(),
        ensures
            answered(self@, universal_id@, r),
            r matches Ok(found) ==> match found {
                Some(c) => self@[universal_id@].remote_clocks.contains_key((peer@, doc_id@))
                    && c.doc_id@ == doc_id@ && c.timestamp == self@[universal_id@].remote_clocks[(
                    peer@,
                    doc_id@,
                )],
                None => !self@[universal_id@].remote_clocks.contains_key((peer@, doc_id@)),
            },
    {
        self.get_peer_clock(ClockKind::Remote, universal_id, peer, doc_id)
    }

    /// Records `clock` for `doc_id` at `peer` in `universal_id` as the latest timestamp that `peer` has announced,
    /// unless a timestamp at least as late is already on record.
    pub fn set_peer_remote_clock(
        &mut self,
        universal_id: String,
        peer: String,
        doc_id: String,
        clock: i64,
    ) -> (r: Result<(), StorageError>)
        requires
            old(self).wf(),
        ensures
            final(self).wf(),
            routed(
                old(self)@,
                final(self)@,
                universal_id@,
                r,
                old(self)@[universal_id@].with_clocks(
                    ClockKind::Remote,
                    upsert_clock(
                        old(self)@[universal_id@].remote_clocks,
                        peer@,
                        doc_id@,
                        clock as int,
                    ),
                ),
            ),
    {
        self.set_peer_clock(ClockKind::Remote, universal_id, peer, doc_id, clock)
    }

    /// For every document on record for `peer` in `universal_id`: the latest announced timestamp that was pulled from `peer`.
    pub fn get_peer_pulled_remote_clocks(&self, universal_id: String, peer: String) -> (r: Result<
        Vec<DocClock>,
        StorageError,
    >)
        requires
            self.wf(),
        ensures
            answered(self@, universal_id@, r),
            r matches Ok(list) ==> lists_peer(list@, self@[universal_id@].pulled_remote_clocks, peer@),
    {
        self.get_peer_clocks(ClockKind::PulledRemote, universal_id, peer)
    }

    /// For `doc_id` in `universal_id`: the latest announced timestamp that was pulled from `peer`, if one is on record.
    pub fn get_peer_pulled_remote_clock(&self, universal_id: String, peer: String, doc_id: String) -> (r:
        Result<Option<DocClock>, StorageError>)
        requires
            self.wf(),
        ensures
            answered(self@, universal_id@, r),
            r matches Ok(found) ==> match found {
                Some(c) => self@[universal_id@].pulled_remote_clocks.contains_key((peer@, doc_id@))
                    && c.doc_id@ == doc_id@ && c.timestamp == self@[universal_id@].pulled_remote_clocks[(
                    peer@,
                    doc_id@,
                )],
                None => !self@[universal_id@].pulled_remote_clocks.contains_key((peer@, doc_id@)),
            },
    {
        self.get_peer_clock(ClockKind::PulledRemote, universal_id, peer, doc_id)
    }

    /// Records `clock` for `doc_id` at `peer` in `universal_id` as the latest announced timestamp that was pulled from `peer`,
    /// unless a timestamp at least as late is already on record.
    pub fn set_peer_pulled_remote_clock(
        &mut self,
        universal_id: String,
        peer: String,
        doc_id: String,
        clock: i64,
    ) -> (r: Result<(), StorageError>)
        requires
            old(self).wf(),
        ensures
            final(self).wf(),
            routed(
                old(self)@,
                final(self)@,
                universal_id@,
                r,
                old(self)@[universal_id@].with_clocks(
                    ClockKind::PulledRemote,
                    upsert_clock(
                        old(self)@[universal_id@].pulled_remote_clocks,
                        peer@,
                        doc_id@,
                        clock as int,
                    ),
                ),
            ),
    {
        self.set_peer_clock(ClockKind::PulledRemote, universal_id, peer, doc_id, clock)
    }

    /// For every document on record for `peer` in `universal_id`: the latest local timestamp that was pushed to `peer`.
    pub fn get_peer_pushed_clocks(&self, universal_id: String, peer: String) -> (r: Result<
        Vec<DocClock>,
        StorageError,
    >)
        requires
            self.wf(),
        ensures
            answered(self@, universal_id@, r),
            r matches Ok(list) ==> lists_peer(list@, self@[universal_id@].pushed_clocks, peer@),
    {
        self.get_peer_clocks(ClockKind::Pushed, universal_id, peer)
    }

    /// For `doc_id` in `universal_id`: the latest local timestamp that was pushed to `peer`, if one is on record.
    pub fn get_peer_pushed_clock(&self, universal_id: String, peer: String, doc_id: String) -> (r:
        Result<Option<DocClock>, StorageError>)
        requires
            self.wf(),
        ensures
            answered(self@, universal_id@, r),
            r matches Ok(found) ==> match found {
                Some(c) => self@[universal_id@].pushed_clocks.contains_key((peer@, doc_id@))
                    && c.doc_id@ == doc_id@ && c.timestamp == self@[universal_id@].pushed_clocks[(
                    peer@,
                    doc_id@,
                )],
                None => !self@[universal_id@].pushed_clocks.contains_key((peer@, doc_id@)),
            },
    {
        self.get_peer_clock(ClockKind::Pushed, universal_id, peer, doc_id)
    }

    /// Records `clock` for `doc_id` at `peer` in `universal_id` as the latest local timestamp that was pushed to `peer`,
    /// unless a timestamp at least as late is already on record.
    pub fn set_peer_pushed_clock(
        &mut self,
        universal_id: String,
        peer: String,
        doc_id: String,
        clock: i64,
    ) -> (r: Result<(), StorageError>)
        requires
            old(self).wf(),
        ensures
            final(self).wf(),
            routed(
                old(self)@,
                final(self)@,
                universal_id@,
                r,
                old(self)@[universal_id@].with_clocks(
                    ClockKind::Pushed,
                    upsert_clock(
                        old(self)@[universal_id@].pushed_clocks,
                        peer@,
                        doc_id@,
                        clock as int,
                    ),
                ),
            ),
    {
        self.set_peer_clock(ClockKind::Pushed, universal_id, peer, doc_id, clock)
    }

    /// Forgets every peer clock of `universal_id`, of all three kinds.
    pub fn clear_clocks(&mut self, universal_id: String) -> (r: Result<(), StorageError>)
        requires
            old(self).wf(),
        ensures
            final(self).wf(),
            routed(
                old(self)@,
                final(self)@,
                universal_id@,
                r,
                old(self)@[universal_id@].without_clocks(),
            ),
    {
        let i = match self.slot(&universal_id) {
            Some(i) => i,
            None => {
                return Err(StorageError::NotConnected);
            },
        };
        self.entries[i].storage.clear_clocks();
        proof {
            Self::lemma_changed(*old(self), *self, i as int);
        }
        Ok(())
    }
}

} // verus!
