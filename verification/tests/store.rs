use nbstore::{
    ClockKind, DocRecord, DocStoragePool, SetBlob, Storage, StorageError,
};

fn s(text: &str) -> String {
    text.to_string()
}

fn connected_pool(id: &str) -> DocStoragePool {
    let mut pool = DocStoragePool::new().unwrap();
    pool.connect(s(id), format!("/tmp/{}.db", id)).unwrap();
    pool
}

fn png(key: &str, data: Vec<u8>) -> SetBlob {
    SetBlob { key: s(key), data, mime: s("image/png") }
}

#[test]
fn snapshot_compaction() {
    let mut pool = DocStoragePool::new().unwrap();
    pool.connect(s("u"), s("/tmp/u.db")).unwrap();
    let t1 = pool.push_update(s("u"), s("d"), vec![0x01]).unwrap();
    let t2 = pool.push_update(s("u"), s("d"), vec![0x02]).unwrap();
    assert!(t2 > t1);
    let stored = pool
        .set_doc_snapshot(s("u"), DocRecord { doc_id: s("d"), bin: vec![0x01, 0x02], timestamp: t2 })
        .unwrap();
    assert!(stored);
    assert_eq!(pool.mark_updates_merged(s("u"), s("d"), vec![t1, t2]).unwrap(), 2);
    assert!(pool.get_doc_updates(s("u"), s("d")).unwrap().is_empty());
    assert_eq!(pool.get_doc_clock(s("u"), s("d")).unwrap().unwrap().timestamp, t2);
}

#[test]
fn monotonic_snapshot_rejection() {
    let mut pool = connected_pool("u");
    let t1 = pool.push_update(s("u"), s("d"), vec![0x01]).unwrap();
    let t2 = pool.push_update(s("u"), s("d"), vec![0x02]).unwrap();
    assert!(pool
        .set_doc_snapshot(s("u"), DocRecord { doc_id: s("d"), bin: vec![0x01, 0x02], timestamp: t2 })
        .unwrap());
    assert_eq!(pool.mark_updates_merged(s("u"), s("d"), vec![t1, t2]).unwrap(), 2);
    let stored = pool
        .set_doc_snapshot(s("u"), DocRecord { doc_id: s("d"), bin: vec![0x00], timestamp: t1 })
        .unwrap();
    assert!(!stored);
    let snapshot = pool.get_doc_snapshot(s("u"), s("d")).unwrap().unwrap();
    assert_eq!(snapshot.bin, vec![0x01, 0x02]);
    assert_eq!(snapshot.timestamp, t2);
    assert_eq!(snapshot.doc_id, "d");
}

#[test]
fn snapshot_with_equal_timestamp_is_rejected() {
    let mut st = Storage::open(s("/tmp/u.db"));
    assert!(st.set_doc_snapshot(DocRecord { doc_id: s("d"), bin: vec![1], timestamp: 10 }));
    assert!(!st.set_doc_snapshot(DocRecord { doc_id: s("d"), bin: vec![2], timestamp: 10 }));
    assert!(!st.set_doc_snapshot(DocRecord { doc_id: s("d"), bin: vec![3], timestamp: 9 }));
    assert_eq!(st.get_doc_snapshot(&s("d")).unwrap().bin, vec![1]);
    assert!(st.set_doc_snapshot(DocRecord { doc_id: s("d"), bin: vec![4], timestamp: 11 }));
    let snapshot = st.get_doc_snapshot(&s("d")).unwrap();
    assert_eq!(snapshot.bin, vec![4]);
    assert_eq!(snapshot.timestamp, 11);
    assert!(st.get_doc_snapshot(&s("other")).is_none());
}

#[test]
fn blob_lifecycle() {
    let mut pool = connected_pool("u");
    pool.set_blob(s("u"), png("k1", vec![0xAA])).unwrap();
    let listed = pool.list_blobs(s("u")).unwrap();
    assert!(listed.iter().any(|b| b.key == "k1"));
    pool.delete_blob(s("u"), s("k1"), false).unwrap();
    let listed = pool.list_blobs(s("u")).unwrap();
    assert!(!listed.iter().any(|b| b.key == "k1"));
    assert!(pool.get_blob(s("u"), s("k1")).unwrap().is_none());
    pool.release_blobs(s("u")).unwrap();
    pool.set_blob(s("u"), png("k1", vec![0xBB])).unwrap();
    assert_eq!(pool.get_blob(s("u"), s("k1")).unwrap().unwrap().data, vec![0xBB]);
}

#[test]
fn peer_clock_monotonicity() {
    let mut pool = connected_pool("u");
    let t1: i64 = 2_000_000;
    let t0: i64 = 1_000_000;
    pool.set_peer_remote_clock(s("u"), s("p"), s("d"), t1).unwrap();
    pool.set_peer_remote_clock(s("u"), s("p"), s("d"), t0).unwrap();
    let clock = pool.get_peer_remote_clock(s("u"), s("p"), s("d")).unwrap().unwrap();
    assert_eq!(clock.timestamp, t1);
    assert_eq!(clock.doc_id, "d");
}

#[test]
fn disconnect_isolation() {
    let mut pool = DocStoragePool::new().unwrap();
    pool.connect(s("u1"), s("/tmp/u1.db")).unwrap();
    pool.connect(s("u2"), s("/tmp/u2.db")).unwrap();
    pool.disconnect(s("u1")).unwrap();
    assert!(pool.push_update(s("u2"), s("d"), vec![1, 2, 3]).is_ok());
    assert_eq!(pool.push_update(s("u1"), s("d"), vec![1, 2, 3]), Err(StorageError::NotConnected));
}

#[test]
fn pushes_in_a_row_get_distinct_timestamps() {
    let mut pool = connected_pool("u");
    let mut returned: Vec<i64> = Vec::new();
    for i in 0..200u8 {
        returned.push(pool.push_update(s("u"), s("d"), vec![i]).unwrap());
    }
    for pair in returned.windows(2) {
        assert!(pair[0] < pair[1]);
    }
    let logged: Vec<i64> =
        pool.get_doc_updates(s("u"), s("d")).unwrap().iter().map(|u| u.timestamp).collect();
    assert_eq!(logged, returned);
    let bins: Vec<Vec<u8>> =
        pool.get_doc_updates(s("u"), s("d")).unwrap().into_iter().map(|u| u.bin).collect();
    assert_eq!(bins[0], vec![0]);
    assert_eq!(bins[199], vec![199]);
}

#[test]
fn push_takes_the_wall_clock_or_steps_past_the_doc_clock() {
    let mut st = Storage::open(s("/tmp/u.db"));
    assert_eq!(st.push_update(s("d"), vec![1], 100), Ok(100));
    assert_eq!(st.push_update(s("d"), vec![2], 100), Ok(101));
    assert_eq!(st.push_update(s("d"), vec![3], 50), Ok(102));
    assert_eq!(st.push_update(s("d"), vec![4], 500), Ok(500));
    assert_eq!(st.push_update(s("e"), vec![5], 7), Ok(7));
    assert_eq!(st.push_update(s("e"), vec![6], -3), Ok(8));
    let updates = st.get_doc_updates(&s("d"));
    let stamps: Vec<i64> = updates.iter().map(|u| u.timestamp).collect();
    assert_eq!(stamps, vec![100, 101, 102, 500]);
    let bins: Vec<Vec<u8>> = updates.iter().map(|u| u.bin.clone()).collect();
    assert_eq!(bins, vec![vec![1], vec![2], vec![3], vec![4]]);
    assert!(updates.iter().all(|u| u.doc_id == "d"));
}

#[test]
fn push_steps_past_a_later_snapshot() {
    let mut st = Storage::open(s("/tmp/u.db"));
    assert!(st.set_doc_snapshot(DocRecord { doc_id: s("d"), bin: vec![9], timestamp: 1_000 }));
    assert_eq!(st.push_update(s("d"), vec![1], 10), Ok(1_001));
    assert_eq!(st.get_doc_clock(&s("d")).unwrap().timestamp, 1_001);
}

#[test]
fn push_fails_when_no_later_timestamp_exists() {
    let mut st = Storage::open(s("/tmp/u.db"));
    assert!(st.set_doc_snapshot(DocRecord { doc_id: s("d"), bin: vec![], timestamp: i64::MAX }));
    assert_eq!(st.push_update(s("d"), vec![1], 5), Err(StorageError::Internal));
    assert_eq!(st.push_update(s("d"), vec![1], i64::MAX), Err(StorageError::Internal));
    assert!(st.get_doc_updates(&s("d")).is_empty());
    assert_eq!(st.push_update(s("e"), vec![1], i64::MAX), Ok(i64::MAX));
}

#[test]
fn doc_clock_is_the_latest_timestamp() {
    let mut st = Storage::open(s("/tmp/u.db"));
    assert!(st.get_doc_clock(&s("d")).is_none());
    st.push_update(s("d"), vec![1], 10).unwrap();
    st.push_update(s("d"), vec![2], 20).unwrap();
    assert_eq!(st.get_doc_clock(&s("d")).unwrap().timestamp, 20);
    assert!(st.set_doc_snapshot(DocRecord { doc_id: s("d"), bin: vec![], timestamp: 15 }));
    assert_eq!(st.get_doc_clock(&s("d")).unwrap().timestamp, 20);
    assert!(st.set_doc_snapshot(DocRecord { doc_id: s("d"), bin: vec![], timestamp: 25 }));
    let clock = st.get_doc_clock(&s("d")).unwrap();
    assert_eq!(clock.timestamp, 25);
    assert_eq!(clock.doc_id, "d");
    assert!(st.set_doc_snapshot(DocRecord { doc_id: s("only"), bin: vec![], timestamp: 3 }));
    assert_eq!(st.get_doc_clock(&s("only")).unwrap().timestamp, 3);
}

#[test]
fn doc_clocks_list_every_document_once() {
    let mut st = Storage::open(s("/tmp/u.db"));
    assert!(st.get_doc_clocks(None).is_empty());
    st.push_update(s("a"), vec![1], 10).unwrap();
    st.push_update(s("b"), vec![1], 30).unwrap();
    st.push_update(s("a"), vec![2], 40).unwrap();
    assert!(st.set_doc_snapshot(DocRecord { doc_id: s("c"), bin: vec![], timestamp: 20 }));
    assert!(st.set_doc_snapshot(DocRecord { doc_id: s("b"), bin: vec![], timestamp: 35 }));
    let mut all: Vec<(String, i64)> =
        st.get_doc_clocks(None).into_iter().map(|c| (c.doc_id, c.timestamp)).collect();
    all.sort();
    assert_eq!(all, vec![(s("a"), 40), (s("b"), 35), (s("c"), 20)]);
    let mut late: Vec<(String, i64)> =
        st.get_doc_clocks(Some(35)).into_iter().map(|c| (c.doc_id, c.timestamp)).collect();
    late.sort();
    assert_eq!(late, vec![(s("a"), 40)]);
    let mut mid: Vec<(String, i64)> =
        st.get_doc_clocks(Some(20)).into_iter().map(|c| (c.doc_id, c.timestamp)).collect();
    mid.sort();
    assert_eq!(mid, vec![(s("a"), 40), (s("b"), 35)]);
    assert!(st.get_doc_clocks(Some(40)).is_empty());
}

#[test]
fn merge_removes_only_the_named_updates_of_the_doc() {
    let mut st = Storage::open(s("/tmp/u.db"));
    st.push_update(s("d"), vec![1], 10).unwrap();
    st.push_update(s("e"), vec![2], 10).unwrap();
    st.push_update(s("d"), vec![3], 20).unwrap();
    st.push_update(s("d"), vec![4], 30).unwrap();
    assert_eq!(st.mark_updates_merged(&s("d"), &vec![10, 30, 30, 99]), 2);
    let left: Vec<i64> = st.get_doc_updates(&s("d")).iter().map(|u| u.timestamp).collect();
    assert_eq!(left, vec![20]);
    let other: Vec<i64> = st.get_doc_updates(&s("e")).iter().map(|u| u.timestamp).collect();
    assert_eq!(other, vec![10]);
    assert_eq!(st.mark_updates_merged(&s("d"), &vec![10, 30]), 0);
    assert_eq!(st.mark_updates_merged(&s("d"), &vec![]), 0);
    assert_eq!(st.mark_updates_merged(&s("missing"), &vec![20]), 0);
    assert_eq!(st.get_doc_updates(&s("d")).len(), 1);
}

#[test]
fn delete_doc_twice_is_delete_doc_once() {
    let mut st = Storage::open(s("/tmp/u.db"));
    st.push_update(s("d"), vec![1], 10).unwrap();
    st.push_update(s("e"), vec![2], 11).unwrap();
    assert!(st.set_doc_snapshot(DocRecord { doc_id: s("d"), bin: vec![7], timestamp: 12 }));
    st.set_blob(png("k", vec![1]), 5);
    st.delete_doc(&s("d"));
    assert!(st.get_doc_snapshot(&s("d")).is_none());
    assert!(st.get_doc_updates(&s("d")).is_empty());
    assert!(st.get_doc_clock(&s("d")).is_none());
    assert_eq!(st.get_doc_updates(&s("e")).len(), 1);
    assert!(st.get_blob(&s("k")).is_some());
    st.delete_doc(&s("d"));
    assert!(st.get_doc_clock(&s("d")).is_none());
    assert_eq!(st.get_doc_updates(&s("e")).len(), 1);
    assert_eq!(st.get_doc_clocks(None).len(), 1);
}

#[test]
fn a_clock_can_fall_when_the_doc_is_deleted() {
    let mut st = Storage::open(s("/tmp/u.db"));
    assert_eq!(st.push_update(s("d"), vec![1], 100), Ok(100));
    st.delete_doc(&s("d"));
    assert_eq!(st.push_update(s("d"), vec![2], 90), Ok(90));
}

#[test]
fn set_blob_keeps_the_creation_time_of_its_key() {
    let mut st = Storage::open(s("/tmp/u.db"));
    st.set_blob(png("k", vec![1, 2, 3]), 100);
    let first = st.get_blob(&s("k")).unwrap();
    assert_eq!(first.key, "k");
    assert_eq!(first.data, vec![1, 2, 3]);
    assert_eq!(first.mime, "image/png");
    assert_eq!(first.size, 3);
    assert_eq!(first.created_at, 100);
    st.set_blob(SetBlob { key: s("k"), data: vec![9], mime: s("text/plain") }, 200);
    let second = st.get_blob(&s("k")).unwrap();
    assert_eq!(second.data, vec![9]);
    assert_eq!(second.mime, "text/plain");
    assert_eq!(second.size, 1);
    assert_eq!(second.created_at, 100);
    st.delete_blob(&s("k"), false, 300);
    assert!(st.get_blob(&s("k")).is_none());
    st.set_blob(png("k", vec![]), 400);
    let third = st.get_blob(&s("k")).unwrap();
    assert_eq!(third.size, 0);
    assert_eq!(third.created_at, 100);
    st.delete_blob(&s("k"), false, 500);
    st.release_blobs();
    st.set_blob(png("k", vec![5]), 600);
    assert_eq!(st.get_blob(&s("k")).unwrap().created_at, 600);
}

#[test]
fn permanent_delete_removes_the_blob() {
    let mut st = Storage::open(s("/tmp/u.db"));
    st.set_blob(png("k", vec![1]), 100);
    assert!(st.get_blob(&s("k")).is_some());
    st.delete_blob(&s("k"), true, 200);
    assert!(st.get_blob(&s("k")).is_none());
    st.set_blob(png("k", vec![2]), 300);
    assert_eq!(st.get_blob(&s("k")).unwrap().created_at, 300);
    st.delete_blob(&s("absent"), true, 400);
    st.delete_blob(&s("absent"), false, 400);
    assert_eq!(st.list_blobs().len(), 1);
}

#[test]
fn soft_delete_twice_is_soft_delete_once() {
    let mut st = Storage::open(s("/tmp/u.db"));
    st.set_blob(png("k", vec![1]), 100);
    st.set_blob(png("j", vec![2]), 101);
    st.delete_blob(&s("k"), false, 200);
    st.delete_blob(&s("k"), false, 300);
    assert!(st.get_blob(&s("k")).is_none());
    let keys: Vec<String> = st.list_blobs().into_iter().map(|b| b.key).collect();
    assert_eq!(keys, vec![s("j")]);
    st.release_blobs();
    let keys: Vec<String> = st.list_blobs().into_iter().map(|b| b.key).collect();
    assert_eq!(keys, vec![s("j")]);
    assert_eq!(st.get_blob(&s("j")).unwrap().data, vec![2]);
}

#[test]
fn blobs_are_listed_latest_first() {
    let mut st = Storage::open(s("/tmp/u.db"));
    st.set_blob(png("old", vec![1]), 100);
    st.set_blob(png("new", vec![1, 2]), 300);
    st.set_blob(png("mid", vec![1, 2, 3]), 200);
    st.set_blob(png("gone", vec![]), 250);
    st.delete_blob(&s("gone"), false, 400);
    let listed = st.list_blobs();
    let keys: Vec<&str> = listed.iter().map(|b| b.key.as_str()).collect();
    assert_eq!(keys, vec!["new", "mid", "old"]);
    let sizes: Vec<u64> = listed.iter().map(|b| b.size).collect();
    assert_eq!(sizes, vec![2, 3, 1]);
    let created: Vec<i64> = listed.iter().map(|b| b.created_at).collect();
    assert_eq!(created, vec![300, 200, 100]);
    assert!(listed.iter().all(|b| b.mime == "image/png"));
}

#[test]
fn peer_clocks_take_the_later_timestamp() {
    let mut st = Storage::open(s("/tmp/u.db"));
    for kind in [ClockKind::Remote, ClockKind::PulledRemote, ClockKind::Pushed] {
        assert!(st.get_peer_clock(kind, &s("p"), &s("d")).is_none());
        st.set_peer_clock(kind, s("p"), s("d"), 10);
        assert_eq!(st.get_peer_clock(kind, &s("p"), &s("d")).unwrap().timestamp, 10);
        st.set_peer_clock(kind, s("p"), s("d"), 10);
        assert_eq!(st.get_peer_clock(kind, &s("p"), &s("d")).unwrap().timestamp, 10);
        st.set_peer_clock(kind, s("p"), s("d"), 5);
        assert_eq!(st.get_peer_clock(kind, &s("p"), &s("d")).unwrap().timestamp, 10);
        st.set_peer_clock(kind, s("p"), s("d"), 11);
        assert_eq!(st.get_peer_clock(kind, &s("p"), &s("d")).unwrap().timestamp, 11);
    }
}

#[test]
fn the_three_clock_tables_are_independent() {
    let mut pool = connected_pool("u");
    pool.set_peer_remote_clock(s("u"), s("p"), s("d"), 1).unwrap();
    pool.set_peer_pulled_remote_clock(s("u"), s("p"), s("d"), 2).unwrap();
    pool.set_peer_pushed_clock(s("u"), s("p"), s("d"), 3).unwrap();
    pool.set_peer_pushed_clock(s("u"), s("p"), s("e"), 4).unwrap();
    pool.set_peer_pushed_clock(s("u"), s("q"), s("d"), 5).unwrap();
    assert_eq!(pool.get_peer_remote_clock(s("u"), s("p"), s("d")).unwrap().unwrap().timestamp, 1);
    assert_eq!(
        pool.get_peer_pulled_remote_clock(s("u"), s("p"), s("d")).unwrap().unwrap().timestamp,
        2
    );
    assert_eq!(pool.get_peer_pushed_clock(s("u"), s("p"), s("d")).unwrap().unwrap().timestamp, 3);
    assert!(pool.get_peer_remote_clock(s("u"), s("p"), s("e")).unwrap().is_none());
    assert!(pool.get_peer_remote_clock(s("u"), s("q"), s("d")).unwrap().is_none());
    assert_eq!(pool.get_peer_remote_clocks(s("u"), s("p")).unwrap().len(), 1);
    assert_eq!(pool.get_peer_pulled_remote_clocks(s("u"), s("p")).unwrap().len(), 1);
    let mut pushed: Vec<(String, i64)> = pool
        .get_peer_pushed_clocks(s("u"), s("p"))
        .unwrap()
        .into_iter()
        .map(|c| (c.doc_id, c.timestamp))
        .collect();
    pushed.sort();
    assert_eq!(pushed, vec![(s("d"), 3), (s("e"), 4)]);
    assert!(pool.get_peer_pushed_clocks(s("u"), s("nobody")).unwrap().is_empty());
    pool.clear_clocks(s("u")).unwrap();
    assert!(pool.get_peer_remote_clocks(s("u"), s("p")).unwrap().is_empty());
    assert!(pool.get_peer_pulled_remote_clocks(s("u"), s("p")).unwrap().is_empty());
    assert!(pool.get_peer_pushed_clocks(s("u"), s("p")).unwrap().is_empty());
    assert!(pool.get_peer_pushed_clock(s("u"), s("q"), s("d")).unwrap().is_none());
}

#[test]
fn every_operation_fails_on_a_disconnected_universe() {
    let mut pool = connected_pool("u");
    pool.push_update(s("u"), s("d"), vec![1]).unwrap();
    pool.disconnect(s("u")).unwrap();
    let gone = StorageError::NotConnected;
    assert_eq!(pool.set_space_id(s("u"), s("space")), Err(gone));
    assert_eq!(pool.push_update(s("u"), s("d"), vec![1]), Err(gone));
    assert_eq!(pool.get_doc_snapshot(s("u"), s("d")).err(), Some(gone));
    assert_eq!(
        pool.set_doc_snapshot(s("u"), DocRecord { doc_id: s("d"), bin: vec![], timestamp: 1 }),
        Err(gone)
    );
    assert_eq!(pool.get_doc_updates(s("u"), s("d")).err(), Some(gone));
    assert_eq!(pool.mark_updates_merged(s("u"), s("d"), vec![1]), Err(gone));
    assert_eq!(pool.delete_doc(s("u"), s("d")), Err(gone));
    assert_eq!(pool.get_doc_clocks(s("u"), None).err(), Some(gone));
    assert_eq!(pool.get_doc_clock(s("u"), s("d")).err(), Some(gone));
    assert_eq!(pool.get_blob(s("u"), s("k")).err(), Some(gone));
    assert_eq!(pool.set_blob(s("u"), png("k", vec![1])), Err(gone));
    assert_eq!(pool.delete_blob(s("u"), s("k"), false), Err(gone));
    assert_eq!(pool.release_blobs(s("u")), Err(gone));
    assert_eq!(pool.list_blobs(s("u")).err(), Some(gone));
    assert_eq!(pool.get_peer_remote_clocks(s("u"), s("p")).err(), Some(gone));
    assert_eq!(pool.get_peer_remote_clock(s("u"), s("p"), s("d")).err(), Some(gone));
    assert_eq!(pool.set_peer_remote_clock(s("u"), s("p"), s("d"), 1), Err(gone));
    assert_eq!(pool.get_peer_pulled_remote_clocks(s("u"), s("p")).err(), Some(gone));
    assert_eq!(pool.get_peer_pulled_remote_clock(s("u"), s("p"), s("d")).err(), Some(gone));
    assert_eq!(pool.set_peer_pulled_remote_clock(s("u"), s("p"), s("d"), 1), Err(gone));
    assert_eq!(pool.get_peer_pushed_clocks(s("u"), s("p")).err(), Some(gone));
    assert_eq!(pool.get_peer_pushed_clock(s("u"), s("p"), s("d")).err(), Some(gone));
    assert_eq!(pool.set_peer_pushed_clock(s("u"), s("p"), s("d"), 1), Err(gone));
    assert_eq!(pool.clear_clocks(s("u")), Err(gone));
    assert!(pool.ensure_storage(&s("u")).is_err());
    assert_eq!(pool.disconnect(s("u")), Ok(()));
    assert_eq!(pool.disconnect(s("never")), Ok(()));
}

#[test]
fn connect_twice_is_connect_once() {
    let mut pool = DocStoragePool::new().unwrap();
    assert!(pool.ensure_storage(&s("u")).is_err());
    pool.connect(s("u"), s("/tmp/u.db")).unwrap();
    let t = pool.push_update(s("u"), s("d"), vec![1]).unwrap();
    pool.connect(s("u"), s("/tmp/u.db")).unwrap();
    pool.connect(s("u"), s("/tmp/elsewhere.db")).unwrap();
    let updates = pool.get_doc_updates(s("u"), s("d")).unwrap();
    assert_eq!(updates.len(), 1);
    assert_eq!(updates[0].timestamp, t);
    assert_eq!(pool.ensure_storage(&s("u")).unwrap().path(), "/tmp/u.db");
}

#[test]
fn space_id_is_set_once() {
    let mut pool = connected_pool("u");
    assert_eq!(pool.ensure_storage(&s("u")).unwrap().space_id(), None);
    assert_eq!(pool.set_space_id(s("u"), s("space")), Ok(()));
    assert_eq!(pool.set_space_id(s("u"), s("space")), Ok(()));
    assert_eq!(pool.set_space_id(s("u"), s("other")), Err(StorageError::SpaceMismatch));
    assert_eq!(pool.ensure_storage(&s("u")).unwrap().space_id(), Some(s("space")));
}

#[test]
fn universes_do_not_share_their_contents() {
    let mut pool = DocStoragePool::new().unwrap();
    pool.connect(s("a"), s("/tmp/a.db")).unwrap();
    pool.connect(s("b"), s("/tmp/b.db")).unwrap();
    pool.push_update(s("a"), s("d"), vec![1]).unwrap();
    pool.set_blob(s("a"), png("k", vec![1])).unwrap();
    pool.set_peer_pushed_clock(s("a"), s("p"), s("d"), 9).unwrap();
    assert!(pool.get_doc_updates(s("b"), s("d")).unwrap().is_empty());
    assert!(pool.get_doc_clock(s("b"), s("d")).unwrap().is_none());
    assert!(pool.get_blob(s("b"), s("k")).unwrap().is_none());
    assert!(pool.get_peer_pushed_clock(s("b"), s("p"), s("d")).unwrap().is_none());
    pool.delete_doc(s("b"), s("d")).unwrap();
    assert_eq!(pool.get_doc_updates(s("a"), s("d")).unwrap().len(), 1);
}

#[test]
fn each_error_says_what_went_wrong() {
    assert_eq!(StorageError::NotConnected.message(), "storage is not connected");
    assert_eq!(StorageError::SpaceMismatch.message(), "space id differs from the one already set");
    assert_eq!(StorageError::Internal.message(), "internal storage error");
    let all = [
        StorageError::NotConnected,
        StorageError::Io,
        StorageError::Migration,
        StorageError::Busy,
        StorageError::SpaceMismatch,
        StorageError::Corruption,
        StorageError::Internal,
    ];
    for (i, a) in all.iter().enumerate() {
        for (j, b) in all.iter().enumerate() {
            assert_eq!(a.message() == b.message(), i == j);
        }
    }
}

#[test]
fn a_failed_open_leaves_the_universe_absent() {
    let mut pool = DocStoragePool::new().unwrap();
    for failure in [
        StorageError::Io,
        StorageError::Migration,
        StorageError::Busy,
        StorageError::Corruption,
        StorageError::Internal,
    ] {
        assert_eq!(pool.connect_with(s("u"), s("/tmp/u.db"), Err(failure)), Err(failure));
        assert!(pool.ensure_storage(&s("u")).is_err());
        assert_eq!(pool.get_doc_clock(s("u"), s("d")).err(), Some(StorageError::NotConnected));
    }
    assert_eq!(pool.connect_with(s("u"), s("/tmp/u.db"), Ok(())), Ok(()));
    pool.set_blob(s("u"), png("k", vec![1])).unwrap();
    assert_eq!(pool.connect_with(s("u"), s("/tmp/u.db"), Err(StorageError::Io)), Ok(()));
    assert!(pool.get_blob(s("u"), s("k")).unwrap().is_some());
}

#[test]
fn a_clock_can_fall_when_its_update_is_merged_away() {
    let mut st = Storage::open(s("/tmp/u.db"));
    assert_eq!(st.push_update(s("d"), vec![1], 100), Ok(100));
    assert_eq!(st.push_update(s("d"), vec![2], 200), Ok(200));
    assert_eq!(st.mark_updates_merged(&s("d"), &vec![200]), 1);
    assert_eq!(st.get_doc_clock(&s("d")).unwrap().timestamp, 100);
    assert_eq!(st.push_update(s("d"), vec![3], 150), Ok(150));
}

#[test]
fn a_merge_under_a_snapshot_keeps_the_clock() {
    let mut st = Storage::open(s("/tmp/u.db"));
    assert_eq!(st.push_update(s("d"), vec![1], 100), Ok(100));
    assert_eq!(st.push_update(s("d"), vec![2], 200), Ok(200));
    assert!(st.set_doc_snapshot(DocRecord { doc_id: s("d"), bin: vec![1, 2], timestamp: 200 }));
    assert_eq!(st.mark_updates_merged(&s("d"), &vec![100, 200]), 2);
    assert_eq!(st.get_doc_clock(&s("d")).unwrap().timestamp, 200);
    assert_eq!(st.push_update(s("d"), vec![3], 150), Ok(201));
}
