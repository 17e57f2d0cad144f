//! The storage of one universe: its documents, its blobs, the three peer
//! clock tables and the space it belongs to.

use crate::blob::{
    blob_at, lists_blobs, put_blob, release, remove_blob, Blob, BlobMap, BlobStore, ListedBlob,
    SetBlob,
};
use crate::doc::{
    after_view, lists_clocks, next_timestamp, stamp_set, update_views, DocClock, DocRecord,
    DocStore, DocStoreView, DocUpdate,
};
use crate::error::StorageError;
use crate::sync::{lists_peer, upsert_clock, ClockMap, ClockTable};
use vstd::prelude::*;

verus! {

/// Which of the three clocks kept per peer and document is meant.
#[derive(Debug, Clone, Copy, PartialEq, Eq, Structural)]
pub enum ClockKind {
    /// The latest timestamp that the peer has announced.
    Remote,
    /// The latest announced timestamp that was pulled and applied here.
    PulledRemote,
    /// The latest local timestamp that was pushed to the peer.
    Pushed,
}

/// What the storage of one universe holds.
#[verifier::ext_equal]
pub struct StorageView {
    pub path: Seq<char>,
    pub space_id: Option<Seq<char>>,
    pub docs: DocStoreView,
    pub blobs: BlobMap,
    pub remote_clocks: ClockMap,
    pub pulled_remote_clocks: ClockMap,
    pub pushed_clocks: ClockMap,
}

impl StorageView {
    /// The storage of a universe that was just created at `path`.
    pub open spec fn empty(path: Seq<char>) -> Self {
        StorageView {
            path,
            space_id: None,
            docs: DocStoreView::empty(),
            blobs: Map::empty(),
            remote_clocks: Map::empty(),
            pulled_remote_clocks: Map::empty(),
            pushed_clocks: Map::empty(),
        }
    }

    /// The update log is in order.
    pub open spec fn wf(self) -> bool {
        self.docs.wf()
    }

    /// The clock table of the given kind.
    pub open spec fn clocks(self, kind: ClockKind) -> ClockMap {
        match kind {
            ClockKind::Remote => self.remote_clocks,
            ClockKind::PulledRemote => self.pulled_remote_clocks,
            ClockKind::Pushed => self.pushed_clocks,
        }
    }

    /// This storage with other documents.
    pub open spec fn with_docs(self, docs: DocStoreView) -> Self {
        StorageView { docs, ..self }
    }

    /// This storage with other blobs.
    pub open spec fn with_blobs(self, blobs: BlobMap) -> Self {
        StorageView { blobs, ..self }
    }

    /// This storage with another clock table of the given kind.
    pub open spec fn with_clocks(self, kind: ClockKind, clocks: ClockMap) -> Self {
        match kind {
            ClockKind::Remote => StorageView { remote_clocks: clocks, ..self },
            ClockKind::PulledRemote => StorageView { pulled_remote_clocks: clocks, ..self },
            ClockKind::Pushed => StorageView { pushed_clocks: clocks, ..self },
        }
    }

    /// This storage with all three clock tables empty.
    pub open spec fn without_clocks(self) -> Self {
        StorageView {
            remote_clocks: Map::empty(),
            pulled_remote_clocks: Map::empty(),
            pushed_clocks: Map::empty(),
            ..self
        }
    }

    /// Whether `space_id` may be set: none is set yet, or this very one is.
    pub open spec fn accepts_space_id(self, space_id: Seq<char>) -> bool {
        self.space_id is None || self.space_id == Some(space_id)
    }

    /// This storage belonging to `space_id`.
    pub open spec fn with_space_id(self, space_id: Seq<char>) -> Self {
        StorageView { space_id: Some(space_id), ..self }
    }
}

/// The storage of one universe.
pub struct Storage {
    path: String,
    space_id: Option<String>,
    docs: DocStore,
    blobs: BlobStore,
    remote_clocks: ClockTable,
    pulled_remote_clocks: ClockTable,
    pushed_clocks: ClockTable,
}

impl Storage {
    /// What the storage holds.
    pub closed spec fn view(&self) -> StorageView {
        StorageView {
            path: self.path@,
            space_id: match self.space_id {
                Some(s) => Some(s@),
                None => None,
            },
            docs: self.docs@,
            blobs: self.blobs@,
            remote_clocks: self.remote_clocks@,
            pulled_remote_clocks: self.pulled_remote_clocks@,
            pushed_clocks: self.pushed_clocks@,
        }
    }

    /// Every table is well formed.
    pub closed spec fn wf(&self) -> bool {
        &&& self.docs.wf()
        &&& self.blobs.wf()
        &&& self.remote_clocks.wf()
        &&& self.pulled_remote_clocks.wf()
        &&& self.pushed_clocks.wf()
    }

    /// In a well-formed storage the update log is in order.
    pub proof fn lemma_view_wf(&self)
        requires
            self.wf(),
        ensures
            self@.wf(),
    {
        self.docs.lemma_view_wf();
    }

    /// The storage of a universe that was just created at `path`.
    pub fn open(path: String) -> (r: Self)
        ensures
            r.wf(),
            r@ == StorageView::empty(path@),
    {
        let r = Storage {
            path,
            space_id: None,
            docs: DocStore::new(),
            blobs: BlobStore::new(),
            remote_clocks: ClockTable::new(),
            pulled_remote_clocks: ClockTable::new(),
            pushed_clocks: ClockTable::new(),
        };
        assert(r@ =~= StorageView::empty(path@));
        r
    }

    /// The path of the file that the universe belongs to.
    pub fn path(&self) -> (r: &String)
        ensures
            r@ == self@.path,
    {
        &self.path
    }

    /// The space that the universe belongs to, once it was set.
    pub fn space_id(&self) -> (r: Option<String>)
        ensures
            match r {
                Some(s) => self@.space_id == Some(s@),
                None => self@.space_id is None,
            },
    {
        match &self.space_id {
            Some(s) => Some(s.clone()),
            None => None,
        }
    }

    /// Sets the space that the universe belongs to. Setting the same space
    /// again changes nothing; setting another one fails with
    /// `StorageError::SpaceMismatch`.
    pub fn set_space_id(&mut self, space_id: String) -> (r: Result<(), StorageError>)
        requires
            old(self).wf(),
        ensures
            final(self).wf(),
            match r {
                Ok(_) => old(self)@.accepts_space_id(space_id@) && final(self)@ == old(self)@.with_space_id(space_id@),
                Err(e) => e == StorageError::SpaceMismatch && !old(self)@.accepts_space_id(space_id@)
                    && final(self)@ == old(self)@,
            },
    {
        let same = match &self.space_id {
            Some(s) => *s == space_id,
            None => true,
        };
        if same {
            self.space_id = Some(space_id);
            assert(self@ =~= old(self)@.with_space_id(space_id@));
            Ok(())
        } else {
            Err(StorageError::SpaceMismatch)
        }
    }

    /// Logs an update of `doc_id` under a fresh timestamp and returns it:
    /// `now`, or one microsecond past the document's clock where `now` is not
    /// later than it. Fails with `StorageError::Internal`, changing nothing, where no
    /// such timestamp can be represented.
    pub fn push_update(&mut self, doc_id: String, bin: Vec<u8>, now: i64) -> (r: Result<i64, StorageError>)
        requires
            old(self).wf(),
        ensures
            final(self).wf(),
            match r {
                Ok(t) => t == next_timestamp(old(self)@.docs.clock_of(doc_id@), now as int)
                    && final(self)@ == old(self)@.with_docs(
                    old(self)@.docs.with_update(doc_id@, t as int, bin@),
                ),
                Err(e) => e == StorageError::Internal && old(self)@.docs.clock_of(doc_id@) == Some(
                    i64::MAX as int,
                ) && next_timestamp(old(self)@.docs.clock_of(doc_id@), now as int) > i64::MAX
                    && final(self)@ == old(self)@,
            },
    {
        let r = self.docs.push_update(doc_id, bin, now);
        proof {
            match r {
                Ok(t) => {
                    assert(self@ =~= old(self)@.with_docs(
                        old(self)@.docs.with_update(doc_id@, t as int, bin@),
                    ));
                },
                Err(_) => {
                    assert(self@ =~= old(self)@);
                },
            }
        }
        r
    }

    /// The stored snapshot of `doc_id`, if there is one.
    pub fn get_doc_snapshot(&self, doc_id: &String) -> (r: Option<DocRecord>)
        requires
            self.wf(),
        ensures
            match r {
                Some(rec) => Some(rec@) == self@.docs.snapshot_of(doc_id@),
                None => self@.docs.snapshot_of(doc_id@) is None,
            },
    {
        self.docs.get_doc_snapshot(doc_id)
    }

    /// Stores `snapshot` where its document has no snapshot yet or a strictly
    /// older one, and says whether it did.
    pub fn set_doc_snapshot(&mut self, snapshot: DocRecord) -> (r: bool)
        requires
            old(self).wf(),
        ensures
            final(self).wf(),
            r == old(self)@.docs.accepts_snapshot(snapshot.doc_id@, snapshot.timestamp as int),
            final(self)@ == if r {
                old(self)@.with_docs(
                    old(self)@.docs.with_snapshot(
                        snapshot.doc_id@,
                        snapshot.bin@,
                        snapshot.timestamp as int,
                    ),
                )
            } else {
                old(self)@
            },
    {
        let ghost want = old(self)@.with_docs(
            old(self)@.docs.with_snapshot(
                snapshot.doc_id@,
                snapshot.bin@,
                snapshot.timestamp as int,
            ),
        );
        let r = self.docs.set_doc_snapshot(snapshot);
        proof {
            if r {
                assert(self@ =~= want);
            } else {
                assert(self@ =~= old(self)@);
            }
        }
        r
    }

    /// The logged updates of `doc_id`, by ascending timestamp.
    pub fn get_doc_updates(&self, doc_id: &String) -> (r: Vec<DocUpdate>)
        requires
            self.wf(),
        ensures
            update_views(r@) == self@.docs.updates_of(doc_id@),
            forall|i: int, j: int|
                0 <= i < j < r@.len() ==> (#[trigger] r@[i]).timestamp < (#[trigger] r@[j]).timestamp,
    {
        self.docs.get_doc_updates(doc_id)
    }

    /// Removes from the log the updates of `doc_id` whose timestamp occurs in
    /// `timestamps`, and returns how many it removed.
    pub fn mark_updates_merged(&mut self, doc_id: &String, timestamps: &Vec<i64>) -> (n: usize)
        requires
            old(self).wf(),
        ensures
            final(self).wf(),
            final(self)@ == old(self)@.with_docs(
                old(self)@.docs.without_merged(doc_id@, stamp_set(timestamps@)),
            ),
            n == old(self)@.docs.count_merged(doc_id@, stamp_set(timestamps@)),
    {
        let n = self.docs.mark_updates_merged(doc_id, timestamps);
        assert(self@ =~= old(self)@.with_docs(
            old(self)@.docs.without_merged(doc_id@, stamp_set(timestamps@)),
        ));
        n
    }

    /// Removes the snapshot and every update of `doc_id`. Blobs stay.
    pub fn delete_doc(&mut self, doc_id: &String)
        requires
            old(self).wf(),
        ensures
            final(self).wf(),
            final(self)@ == old(self)@.with_docs(old(self)@.docs.without_doc(doc_id@)),
    {
        self.docs.delete_doc(doc_id);
        assert(self@ =~= old(self)@.with_docs(old(self)@.docs.without_doc(doc_id@)));
    }

    /// The clock of every document that the storage holds, or of those whose
    /// clock is strictly later than `after`, in no particular order.
    pub fn get_doc_clocks(&self, after: Option<i64>) -> (r: Vec<DocClock>)
        requires
            self.wf(),
        ensures
            lists_clocks(r@, self@.docs, after_view(after)),
    {
        self.docs.get_doc_clocks(after)
    }

    /// The clock of `doc_id`: its latest timestamp, or nothing where the
    /// storage holds neither a snapshot nor an update of it.
    pub fn get_doc_clock(&self, doc_id: &String) -> (r: Option<DocClock>)
        requires
            self.wf(),
        ensures
            match r {
                Some(c) => c.doc_id@ == doc_id@ && self@.docs.is_clock(
                    doc_id@,
                    c.timestamp as int,
                ) && self@.docs.clock_of(doc_id@) == Some(c.timestamp as int),
                None => !self@.docs.has_doc(doc_id@) && self@.docs.clock_of(doc_id@) is None,
            },
    {
        self.docs.get_doc_clock(doc_id)
    }

    /// Stores `blob` under its key at time `now`, replacing what the key
    /// held and undoing a soft delete.
    pub fn set_blob(&mut self, blob: SetBlob, now: i64)
        requires
            old(self).wf(),
        ensures
            final(self).wf(),
            final(self)@ == old(self)@.with_blobs(
                put_blob(old(self)@.blobs, blob.key@, blob.data@, blob.mime@, now as int),
            ),
    {
        let ghost want = old(self)@.with_blobs(
            put_blob(old(self)@.blobs, blob.key@, blob.data@, blob.mime@, now as int),
        );
        self.blobs.set_blob(blob, now);
        assert(self@ =~= want);
    }

    /// The live blob under `key`, if there is one.
    pub fn get_blob(&self, key: &String) -> (r: Option<Blob>)
        requires
            self.wf(),
        ensures
            match r {
                Some(b) => Some(b@) == blob_at(self@.blobs, key@),
                None => blob_at(self@.blobs, key@) is None,
            },
    {
        self.blobs.get_blob(key)
    }

    /// Deletes the blob under `key` at time `now`: for good where
    /// `permanently` is set, else by marking it, which a second call does not
    /// repeat.
    pub fn delete_blob(&mut self, key: &String, permanently: bool, now: i64)
        requires
            old(self).wf(),
        ensures
            final(self).wf(),
            final(self)@ == old(self)@.with_blobs(
                remove_blob(old(self)@.blobs, key@, permanently, now as int),
            ),
    {
        self.blobs.delete_blob(key, permanently, now);
        assert(self@ =~= old(self)@.with_blobs(
            remove_blob(old(self)@.blobs, key@, permanently, now as int),
        ));
    }

    /// Removes every soft-deleted blob for good.
    pub fn release_blobs(&mut self)
        requires
            old(self).wf(),
        ensures
            final(self).wf(),
            final(self)@ == old(self)@.with_blobs(release(old(self)@.blobs)),
    {
        self.blobs.release_blobs();
        assert(self@ =~= old(self)@.with_blobs(release(old(self)@.blobs)));
    }

    /// The live blobs without their bytes, latest creation first.
    pub fn list_blobs(&self) -> (r: Vec<ListedBlob>)
        requires
            self.wf(),
        ensures
            lists_blobs(r@, self@.blobs),
    {
        self.blobs.list_blobs()
    }

    /// Every clock of the given kind on record for `peer`, in no particular
    /// order.
    pub fn get_peer_clocks(&self, kind: ClockKind, peer: &String) -> (r: Vec<DocClock>)
        requires
            self.wf(),
        ensures
            lists_peer(r@, self@.clocks(kind), peer@),
    {
        match kind {
            ClockKind::Remote => self.remote_clocks.get_all(peer),
            ClockKind::PulledRemote => self.pulled_remote_clocks.get_all(peer),
            ClockKind::Pushed => self.pushed_clocks.get_all(peer),
        }
    }

    /// The clock of the given kind on record for `doc_id` at `peer`, if there
    /// is one.
    pub fn get_peer_clock(&self, kind: ClockKind, peer: &String, doc_id: &String) -> (r: Option<
        DocClock,
    >)
        requires
            self.wf(),
        ensures
            match r {
                Some(c) => self@.clocks(kind).contains_key((peer@, doc_id@)) && c.doc_id@
                    == doc_id@ && c.timestamp == self@.clocks(kind)[(peer@, doc_id@)],
                None => !self@.clocks(kind).contains_key((peer@, doc_id@)),
            },
    {
        match kind {
            ClockKind::Remote => self.remote_clocks.get_one(peer, doc_id),
            ClockKind::PulledRemote => self.pulled_remote_clocks.get_one(peer, doc_id),
            ClockKind::Pushed => self.pushed_clocks.get_one(peer, doc_id),
        }
    }

    /// Records `timestamp` as the clock of the given kind for `doc_id` at
    /// `peer`, unless a timestamp at least as late is already on record.
    pub fn set_peer_clock(&mut self, kind: ClockKind, peer: String, doc_id: String, timestamp: i64)
        requires
            old(self).wf(),
        ensures
            final(self).wf(),
            final(self)@ == old(self)@.with_clocks(
                kind,
                upsert_clock(old(self)@.clocks(kind), peer@, doc_id@, timestamp as int),
            ),
    {
        let ghost want = old(self)@.with_clocks(
            kind,
            upsert_clock(old(self)@.clocks(kind), peer@, doc_id@, timestamp as int),
        );
        match kind {
            ClockKind::Remote => self.remote_clocks.set(peer, doc_id, timestamp),
            ClockKind::PulledRemote => self.pulled_remote_clocks.set(peer, doc_id, timestamp),
            ClockKind::Pushed => self.pushed_clocks.set(peer, doc_id, timestamp),
        }
        assert(self@ =~= want);
    }

    /// Forgets every peer clock of all three kinds.
    pub fn clear_clocks(&mut self)
        requires
            old(self).wf(),
        ensures
            final(self).wf(),
            final(self)@ == old(self)@.without_clocks(),
    {
        self.remote_clocks.clear();
        self.pulled_remote_clocks.clear();
        self.pushed_clocks.clear();
        assert(self@ =~= old(self)@.without_clocks());
    }
}

} // verus!
