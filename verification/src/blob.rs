//! The blob store: binary attachments under caller-supplied keys, with soft
//! delete and a vacuum that makes it final.

use crate::doc::clone_bytes;
use crate::seqs::{lemma_filter_empty, lemma_filter_take_next};
use crate::table::{
    as_map, keys_unique, lemma_empty_table, lemma_filter_rows, lemma_key_absent,
    lemma_key_present, lemma_push_row, lemma_remove_row, lemma_row_in_map, lemma_update_row,
    restrict_to,
};
use vstd::prelude::*;

verus! {

/// A blob to store.
#[derive(Debug, Clone)]
pub struct SetBlob {
    pub key: String,
    pub data: Vec<u8>,
    pub mime: String,
}

/// A stored blob.
#[derive(Debug, Clone)]
pub struct Blob {
    pub key: String,
    pub data: Vec<u8>,
    pub mime: String,
    /// The number of bytes in `data`.
    pub size: u64,
    /// When the key was first stored, in microseconds since the Unix epoch.
    pub created_at: i64,
}

/// A stored blob without its bytes.
#[derive(Debug, Clone)]
pub struct ListedBlob {
    pub key: String,
    pub size: u64,
    pub mime: String,
    pub created_at: i64,
}

/// One row of the blob table.
struct BlobRow {
    key: String,
    data: Vec<u8>,
    mime: String,
    size: u64,
    created_at: i64,
    deleted_at: Option<i64>,
}

/// What the blob table holds under a key.
#[verifier::ext_equal]
pub struct BlobRowView {
    pub data: Seq<u8>,
    pub mime: Seq<char>,
    pub size: int,
    pub created_at: int,
    /// When the blob was soft-deleted, if it was.
    pub deleted_at: Option<int>,
}

/// What a `Blob` holds.
#[verifier::ext_equal]
pub struct BlobView {
    pub key: Seq<char>,
    pub data: Seq<u8>,
    pub mime: Seq<char>,
    pub size: int,
    pub created_at: int,
}

impl View for Blob {
    type V = BlobView;

    open spec fn view(&self) -> BlobView {
        BlobView {
            key: self.key@,
            data: self.data@,
            mime: self.mime@,
            size: self.size as int,
            created_at: self.created_at as int,
        }
    }
}

/// The blob table: its rows by key.
pub type BlobMap = Map<Seq<char>, BlobRowView>;

/// The blob under `key` is stored and not soft-deleted.
pub open spec fn is_live(m: BlobMap, key: Seq<char>) -> bool {
    m.contains_key(key) && m[key].deleted_at is None
}

/// A row that is not soft-deleted.
pub open spec fn live_row() -> spec_fn((Seq<char>, BlobRowView)) -> bool {
    |row: (Seq<char>, BlobRowView)| row.1.deleted_at is None
}

/// The table after `data` and `mime` were stored under `key` at time `now`:
/// a new row is created at `now`; an existing one keeps its creation time,
/// takes the new contents and is live again.
pub open spec fn put_blob(m: BlobMap, key: Seq<char>, data: Seq<u8>, mime: Seq<char>, now: int)
    -> BlobMap {
    m.insert(
        key,
        BlobRowView {
            data,
            mime,
            size: data.len() as int,
            created_at: if m.contains_key(key) {
                m[key].created_at
            } else {
                now
            },
            deleted_at: None,
        },
    )
}

/// The live blob under `key`, where there is one.
pub open spec fn blob_at(m: BlobMap, key: Seq<char>) -> Option<BlobView> {
    if is_live(m, key) {
        Some(
            BlobView {
                key,
                data: m[key].data,
                mime: m[key].mime,
                size: m[key].size,
                created_at: m[key].created_at,
            },
        )
    } else {
        None
    }
}

/// The table after the blob under `key` was deleted at time `now`: for good
/// where `permanently` is set, else marked as deleted at `now` unless it is
/// so marked already.
pub open spec fn remove_blob(m: BlobMap, key: Seq<char>, permanently: bool, now: int) -> BlobMap {
    if permanently {
        m.remove(key)
    } else if is_live(m, key) {
        m.insert(
            key,
            BlobRowView {
                data: m[key].data,
                mime: m[key].mime,
                size: m[key].size,
                created_at: m[key].created_at,
                deleted_at: Some(now),
            },
        )
    } else {
        m
    }
}

/// The table without its soft-deleted rows.
pub open spec fn release(m: BlobMap) -> BlobMap {
    restrict_to(m, live_row())
}

/// Some entry of `listed` is for `key`.
pub open spec fn names_blob(listed: Seq<ListedBlob>, key: Seq<char>) -> bool {
    exists|i: int| 0 <= i < listed.len() && (#[trigger] listed[i]).key@ == key
}

/// `listed` names each live blob of `m` exactly once, with what the table
/// holds of it, latest creation first.
pub open spec fn lists_blobs(listed: Seq<ListedBlob>, m: BlobMap) -> bool {
    &&& forall|i: int|
        0 <= i < listed.len() ==> {
            let b = #[trigger] listed[i];
            &&& is_live(m, b.key@)
            &&& b.size == m[b.key@].size
            &&& b.mime@ == m[b.key@].mime
            &&& b.created_at == m[b.key@].created_at
        }
    &&& forall|i: int, j: int|
        0 <= i < j < listed.len() ==> (#[trigger] listed[i]).key@ != (#[trigger] listed[j]).key@
    &&& forall|i: int, j: int|
        0 <= i < j < listed.len() ==> (#[trigger] listed[i]).created_at >= (
        #[trigger] listed[j]).created_at
    &&& forall|key: Seq<char>| #[trigger] is_live(m, key) ==> names_blob(listed, key)
}

/// The blobs of one universe.
pub struct BlobStore {
    rows: Vec<BlobRow>,
}

impl BlobStore {
    spec fn pairs(&self) -> Seq<(Seq<char>, BlobRowView)> {
        Seq::new(
            self.rows@.len(),
            |i: int|
                (
                    self.rows@[i].key@,
                    BlobRowView {
                        data: self.rows@[i].data@,
                        mime: self.rows@[i].mime@,
                        size: self.rows@[i].size as int,
                        created_at: self.rows@[i].created_at as int,
                        deleted_at: match self.rows@[i].deleted_at {
                            Some(t) => Some(t as int),
                            None => None,
                        },
                    },
                ),
        )
    }

    /// The rows of the table, by key.
    pub closed spec fn view(&self) -> BlobMap {
        as_map(self.pairs())
    }

    /// No two rows share a key.
    pub closed spec fn wf(&self) -> bool {
        keys_unique(self.pairs())
    }

    /// A store that holds nothing.
    pub fn new() -> (r: Self)
        ensures
            r.wf(),
            r@ == BlobMap::empty(),
    {
        let r = BlobStore { rows: Vec::new() };
        proof {
            lemma_empty_table::<Seq<char>, BlobRowView>();
            assert(r.pairs() =~= Seq::empty());
        }
        r
    }

    fn find(&self, key: &String) -> (r: Option<usize>)
        ensures
            match r {
                Some(i) => i < self.rows@.len() && self.pairs()[i as int].0 == key@,
                None => !self@.contains_key(key@),
            },
    {
        let mut i: usize = 0;
        while i < self.rows.len()
            invariant
                i <= self.rows@.len(),
                forall|j: int| 0 <= j < i ==> (#[trigger] self.pairs()[j]).0 != key@,
            decreases self.rows@.len() - i,
        {
            if self.rows[i].key == *key {
                return Some(i);
            }
            i += 1;
        }
        proof {
            lemma_key_absent(self.pairs(), key@);
        }
        None
    }

    /// Stores `blob` under its key at time `now`, replacing what the key
    /// held and undoing a soft delete.
    pub fn set_blob(&mut self, blob: SetBlob, now: i64)
        requires
            old(self).wf(),
        ensures
            final(self).wf(),
            final(self)@ == put_blob(old(self)@, blob.key@, blob.data@, blob.mime@, now as int),
    {
        let ghost rows0 = self.pairs();
        let size: u64 = blob.data.len() as u64;
        match self.find(&blob.key) {
            Some(i) => {
                let ghost v = BlobRowView {
                    data: blob.data@,
                    mime: blob.mime@,
                    size: blob.data@.len() as int,
                    created_at: rows0[i as int].1.created_at,
                    deleted_at: None,
                };
                proof {
                    lemma_row_in_map(rows0, i as int);
                    lemma_update_row(rows0, i as int, v);
                }
                self.rows[i].data = blob.data;
                self.rows[i].mime = blob.mime;
                self.rows[i].size = size;
                self.rows[i].deleted_at = None;
                assert(self.pairs() =~= rows0.update(i as int, (rows0[i as int].0, v)));
            },
            None => {
                let ghost v = BlobRowView {
                    data: blob.data@,
                    mime: blob.mime@,
                    size: blob.data@.len() as int,
                    created_at: now as int,
                    deleted_at: None,
                };
                proof {
                    lemma_push_row(rows0, blob.key@, v);
                }
                self.rows.push(
                    BlobRow {
                        key: blob.key,
                        data: blob.data,
                        mime: blob.mime,
                        size,
                        created_at: now,
                        deleted_at: None,
                    },
                );
                assert(self.pairs() =~= rows0.push((blob.key@, v)));
            },
        }
    }

    /// The live blob under `key`, if there is one; a soft-deleted blob is not
    /// returned.
    pub fn get_blob(&self, key: &String) -> (r: Option<Blob>)
        requires
            self.wf(),
        ensures
            match r {
                Some(b) => Some(b@) == blob_at(self@, key@),
                None => blob_at(self@, key@) is None,
            },
    {
        match self.find(key) {
            Some(i) => {
                proof {
                    lemma_row_in_map(self.pairs(), i as int);
                }
                if self.rows[i].deleted_at.is_none() {
                    let b = Blob {
                        key: self.rows[i].key.clone(),
                        data: clone_bytes(&self.rows[i].data),
                        mime: self.rows[i].mime.clone(),
                        size: self.rows[i].size,
                        created_at: self.rows[i].created_at,
                    };
                    assert(b@ =~= blob_at(self@, key@)->Some_0);
                    Some(b)
                } else {
                    None
                }
            },
            None => None,
        }
    }

    /// Deletes the blob under `key` at time `now`: for good where
    /// `permanently` is set, else by marking it, which a second call does not
    /// repeat.
    pub fn delete_blob(&mut self, key: &String, permanently: bool, now: i64)
        requires
            old(self).wf(),
        ensures
            final(self).wf(),
            final(self)@ == remove_blob(old(self)@, key@, permanently, now as int),
    {
        let ghost rows0 = self.pairs();
        let ghost m0 = self@;
        match self.find(key) {
            Some(i) => {
                proof {
                    lemma_row_in_map(rows0, i as int);
                }
                if permanently {
                    proof {
                        lemma_remove_row(rows0, i as int);
                    }
                    self.rows.remove(i);
                    assert(self.pairs() =~= rows0.remove(i as int));
                } else if self.rows[i].deleted_at.is_none() {
                    let ghost v = BlobRowView {
                        data: m0[key@].data,
                        mime: m0[key@].mime,
                        size: m0[key@].size,
                        created_at: m0[key@].created_at,
                        deleted_at: Some(now as int),
                    };
                    proof {
                        lemma_update_row(rows0, i as int, v);
                    }
                    self.rows[i].deleted_at = Some(now);
                    assert(self.pairs() =~= rows0.update(i as int, (rows0[i as int].0, v)));
                }
            },
            None => {
                assert(m0.remove(key@) =~= m0);
            },
        }
    }

    /// Removes every soft-deleted blob for good.
    pub fn release_blobs(&mut self)
        requires
            old(self).wf(),
        ensures
            final(self).wf(),
            final(self)@ == release(old(self)@),
    {
        let ghost rows0 = self.pairs();
        let ghost keep = live_row();
        let ghost mut k: int = 0;
        let mut i: usize = 0;
        proof {
            lemma_filter_empty(keep);
            assert(rows0.take(0) =~= Seq::empty());
            assert(rows0.skip(0) =~= rows0);
            assert(self.pairs() =~= rows0.take(0).filter(keep) + rows0.skip(0));
        }
        while i < self.rows.len()
            invariant
                0 <= k <= rows0.len(),
                k + self.rows@.len() == rows0.len() + i,
                i == rows0.take(k).filter(keep).len(),
                self.pairs() == rows0.take(k).filter(keep) + rows0.skip(k),
                keep == live_row(),
            decreases self.rows@.len() - i,
        {
            let ghost cur = self.pairs();
            proof {
                lemma_filter_take_next(rows0, keep, k);
                assert(cur[i as int] == rows0.skip(k)[0]);
            }
            if self.rows[i].deleted_at.is_some() {
                self.rows.remove(i);
                proof {
                    assert(self.pairs() =~= cur.remove(i as int));
                    assert(cur.remove(i as int) =~= rows0.take(k + 1).filter(keep) + rows0.skip(
                        k + 1,
                    ));
                }
            } else {
                i += 1;
                proof {
                    assert(cur =~= rows0.take(k + 1).filter(keep) + rows0.skip(k + 1));
                }
            }
            proof {
                k = k + 1;
            }
        }
        proof {
            assert(rows0.take(rows0.len() as int) =~= rows0);
            assert(self.pairs() =~= rows0.filter(keep));
            lemma_filter_rows(rows0, keep);
        }
    }

    /// The live blobs without their bytes, latest creation first.
    pub fn list_blobs(&self) -> (r: Vec<ListedBlob>)
        requires
            self.wf(),
        ensures
            lists_blobs(r@, self@),
    {
        let ghost rows = self.pairs();
        let mut out: Vec<ListedBlob> = Vec::new();
        let ghost mut src: Seq<int> = Seq::empty();
        let mut i: usize = 0;
        while i < self.rows.len()
            invariant
                i <= self.rows@.len(),
                rows == self.pairs(),
                keys_unique(rows),
                src.len() == out@.len(),
                forall|k: int|
                    0 <= k < out@.len() ==> {
                        let j = #[trigger] src[k];
                        &&& 0 <= j < i
                        &&& rows[j].0 == out@[k].key@
                        &&& rows[j].1.deleted_at is None
                        &&& rows[j].1.size == out@[k].size
                        &&& rows[j].1.mime == out@[k].mime@
                        &&& rows[j].1.created_at == out@[k].created_at
                    },
                forall|a: int, b: int| 0 <= a < b < src.len() ==> src[a] != src[b],
                forall|a: int, b: int|
                    0 <= a < b < out@.len() ==> (#[trigger] out@[a]).created_at >= (
                    #[trigger] out@[b]).created_at,
                forall|j: int|
                    0 <= j < i && (#[trigger] rows[j]).1.deleted_at is None ==> exists|k: int|
                        0 <= k < src.len() && #[trigger] src[k] == j,
            decreases self.rows@.len() - i,
        {
            if self.rows[i].deleted_at.is_none() {
                let created: i64 = self.rows[i].created_at;
                let mut p: usize = 0;
                while p < out.len() && out[p].created_at >= created
                    invariant
                        p <= out@.len(),
                        forall|k: int| 0 <= k < p ==> (#[trigger] out@[k]).created_at >= created,
                    decreases out@.len() - p,
                {
                    p += 1;
                }
                let item = ListedBlob {
                    key: self.rows[i].key.clone(),
                    size: self.rows[i].size,
                    mime: self.rows[i].mime.clone(),
                    created_at: created,
                };
                let ghost before = out@;
                let ghost src0 = src;
                out.insert(p, item);
                proof {
                    src = src0.insert(p as int, i as int);
                    assert forall|j: int|
                        0 <= j < i + 1 && (#[trigger] rows[j]).1.deleted_at is None implies exists|
                        k: int,
                    | 0 <= k < src.len() && #[trigger] src[k] == j by {
                        if j < i {
                            let k0 = choose|k: int| 0 <= k < src0.len() && #[trigger] src0[k] == j;
                            let k1 = if k0 < p {
                                k0
                            } else {
                                k0 + 1
                            };
                            assert(src[k1] == j);
                        } else {
                            assert(src[p as int] == j);
                        }
                    }
                    assert forall|a: int, b: int| 0 <= a < b < out@.len() implies (
                    #[trigger] out@[a]).created_at >= (#[trigger] out@[b]).created_at by {
                        if a < p && b > p {
                            assert(before[a].created_at >= before[b - 1].created_at);
                        }
                    }
                }
            }
            i += 1;
        }
        proof {
            let m = self@;
            assert forall|k: int| 0 <= k < out@.len() implies {
                let b = #[trigger] out@[k];
                &&& is_live(m, b.key@)
                &&& b.size == m[b.key@].size
                &&& b.mime@ == m[b.key@].mime
                &&& b.created_at == m[b.key@].created_at
            } by {
                lemma_row_in_map(rows, src[k]);
            }
            assert forall|a: int, b: int| 0 <= a < b < out@.len() implies (#[trigger] out@[a]).key@
                != (#[trigger] out@[b]).key@ by {
                let x = src[a];
                let y = src[b];
                assert(x != y);
                if x < y {
                    assert(rows[x].0 != rows[y].0);
                } else {
                    assert(rows[y].0 != rows[x].0);
                }
            }
            assert forall|key: Seq<char>| #[trigger] is_live(m, key) implies names_blob(
                out@,
                key,
            ) by {
                let j = lemma_key_present(rows, key);
                assert(rows[j].1.deleted_at is None);
                let k = choose|k: int| 0 <= k < src.len() && #[trigger] src[k] == j;
                assert(out@[k].key@ == key);
            }
        }
        out
    }
}

} // verus!
