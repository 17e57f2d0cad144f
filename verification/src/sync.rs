//! The ledger of peer clocks.

use crate::doc::DocClock;
use crate::table::{
    as_map, keys_unique, lemma_empty_table, lemma_key_absent, lemma_key_present, lemma_push_row,
    lemma_row_in_map, lemma_update_row,
};
use vstd::prelude::*;

verus! {

/// One row of a clock table.
struct PeerClock {
    peer: String,
    doc_id: String,
    timestamp: i64,
}

/// What a clock table holds: a timestamp for each `(peer, doc_id)` on record.
pub type ClockMap = Map<(Seq<char>, Seq<char>), int>;

/// The table after a monotonic upsert: the entry moves to `timestamp` when it
/// is new or strictly older, and stays as it is otherwise.
pub open spec fn upsert_clock(m: ClockMap, peer: Seq<char>, doc_id: Seq<char>, timestamp: int)
    -> ClockMap {
    if m.contains_key((peer, doc_id)) && m[(peer, doc_id)] >= timestamp {
        m
    } else {
        m.insert((peer, doc_id), timestamp)
    }
}

/// `listed` names each document that `m` has on record for `peer` exactly
/// once, with the timestamp on record.
pub open spec fn lists_peer(listed: Seq<DocClock>, m: ClockMap, peer: Seq<char>) -> bool {
    &&& forall|i: int|
        0 <= i < listed.len() ==> m.contains_key((peer, (#[trigger] listed[i]).doc_id@))
            && m[(peer, listed[i].doc_id@)] == listed[i].timestamp
    &&& forall|i: int, j: int|
        0 <= i < j < listed.len() ==> (#[trigger] listed[i]).doc_id@ != (
        #[trigger] listed[j]).doc_id@
    &&& forall|d: Seq<char>| #[trigger]
        m.contains_key((peer, d)) ==> exists|i: int|
            0 <= i < listed.len() && (#[trigger] listed[i]).doc_id@ == d
}

/// One of the three clock tables, keyed by `(peer, doc_id)`.
pub struct ClockTable {
    rows: Vec<PeerClock>,
}

impl ClockTable {
    spec fn pairs(&self) -> Seq<((Seq<char>, Seq<char>), int)> {
        Seq::new(
            self.rows@.len(),
            |i: int| ((self.rows@[i].peer@, self.rows@[i].doc_id@), self.rows@[i].timestamp as int),
        )
    }

    /// No two rows share a `(peer, doc_id)`.
    pub closed spec fn wf(&self) -> bool {
        keys_unique(self.pairs())
    }

    /// The timestamps on record.
    pub closed spec fn view(&self) -> ClockMap {
        as_map(self.pairs())
    }

    /// A table with nothing on record.
    pub fn new() -> (r: Self)
        ensures
            r.wf(),
            r@ == ClockMap::empty(),
    {
        let r = ClockTable { rows: Vec::new() };
        proof {
            lemma_empty_table::<(Seq<char>, Seq<char>), int>();
            assert(r.pairs() =~= Seq::empty());
        }
        r
    }

    fn find(&self, peer: &String, doc_id: &String) -> (r: Option<usize>)
        ensures
            match r {
                Some(i) => i < self.rows@.len() && self.pairs()[i as int].0 == (peer@, doc_id@),
                None => !self@.contains_key((peer@, doc_id@)),
            },
    {
        let mut i: usize = 0;
        while i < self.rows.len()
            invariant
                i <= self.rows@.len(),
                forall|j: int| 0 <= j < i ==> (#[trigger] self.pairs()[j]).0 != (peer@, doc_id@),
            decreases self.rows@.len() - i,
        {
            if self.rows[i].peer == *peer && self.rows[i].doc_id == *doc_id {
                return Some(i);
            }
            i += 1;
        }
        proof {
            lemma_key_absent(self.pairs(), (peer@, doc_id@));
        }
        None
    }

    /// The clock on record for `doc_id` at `peer`, if there is one.
    pub fn get_one(&self, peer: &String, doc_id: &String) -> (r: Option<DocClock>)
        requires
            self.wf(),
        ensures
            match r {
                Some(c) => self@.contains_key((peer@, doc_id@)) && c.doc_id@ == doc_id@
                    && c.timestamp == self@[(peer@, doc_id@)],
                None => !self@.contains_key((peer@, doc_id@)),
            },
    {
        match self.find(peer, doc_id) {
            Some(i) => {
                proof {
                    lemma_row_in_map(self.pairs(), i as int);
                }
                Some(DocClock { doc_id: doc_id.clone(), timestamp: self.rows[i].timestamp })
            },
            None => None,
        }
    }

    /// Every clock on record for `peer`, in no particular order.
    pub fn get_all(&self, peer: &String) -> (r: Vec<DocClock>)
        requires
            self.wf(),
        ensures
            lists_peer(r@, self@, peer@),
    {
        let mut out: Vec<DocClock> = Vec::new();
        let ghost mut src: Seq<int> = Seq::empty();
        let mut i: usize = 0;
        while i < self.rows.len()
            invariant
                i <= self.rows@.len(),
                keys_unique(self.pairs()),
                src.len() == out@.len(),
                forall|k: int|
                    0 <= k < out@.len() ==> 0 <= #[trigger] src[k] < i && self.pairs()[src[k]].0
                        == (peer@, out@[k].doc_id@) && self.pairs()[src[k]].1
                        == out@[k].timestamp,
                forall|a: int, b: int| 0 <= a < b < src.len() ==> src[a] < src[b],
                forall|j: int|
                    0 <= j < i && (#[trigger] self.pairs()[j]).0.0 == peer@ ==> exists|k: int|
                        0 <= k < out@.len() && (#[trigger] out@[k]).doc_id@
                            == self.pairs()[j].0.1,
            decreases self.rows@.len() - i,
        {
            if self.rows[i].peer == *peer {
                let c = DocClock {
                    doc_id: self.rows[i].doc_id.clone(),
                    timestamp: self.rows[i].timestamp,
                };
                let ghost before = out@;
                out.push(c);
                proof {
                    src = src.push(i as int);
                    assert forall|j: int|
                        0 <= j < i + 1 && (#[trigger] self.pairs()[j]).0.0
                            == peer@ implies exists|k: int|
                        0 <= k < out@.len() && (#[trigger] out@[k]).doc_id@
                            == self.pairs()[j].0.1 by {
                        if j < i {
                            let k = choose|k: int|
                                0 <= k < before.len() && (#[trigger] before[k]).doc_id@
                                    == self.pairs()[j].0.1;
                            assert(out@[k] == before[k]);
                        } else {
                            assert(out@[before.len() as int].doc_id@ == self.pairs()[j].0.1);
                        }
                    }
                }
            }
            i += 1;
        }
        proof {
            let m = self@;
            assert forall|k: int| 0 <= k < out@.len() implies m.contains_key(
                (peer@, (#[trigger] out@[k]).doc_id@),
            ) && m[(peer@, out@[k].doc_id@)] == out@[k].timestamp by {
                lemma_row_in_map(self.pairs(), src[k]);
            }
            assert forall|a: int, b: int| 0 <= a < b < out@.len() implies (#[trigger] out@[a]).doc_id@
                != (#[trigger] out@[b]).doc_id@ by {
                assert(src[a] < src[b]);
                assert(self.pairs()[src[a]].0 != self.pairs()[src[b]].0);
            }
            assert forall|d: Seq<char>| #[trigger] m.contains_key((peer@, d)) implies exists|k: int|
                0 <= k < out@.len() && (#[trigger] out@[k]).doc_id@ == d by {
                let j = lemma_key_present(self.pairs(), (peer@, d));
                assert(self.pairs()[j].0.0 == peer@);
            }
        }
        out
    }

    /// Records `timestamp` for `doc_id` at `peer` unless a timestamp at least
    /// as late is already on record.
    pub fn set(&mut self, peer: String, doc_id: String, timestamp: i64)
        requires
            old(self).wf(),
        ensures
            final(self).wf(),
            final(self)@ == upsert_clock(old(self)@, peer@, doc_id@, timestamp as int),
    {
        let ghost rows0 = self.pairs();
        match self.find(&peer, &doc_id) {
            Some(i) => {
                proof {
                    lemma_row_in_map(rows0, i as int);
                }
                if timestamp > self.rows[i].timestamp {
                    proof {
                        lemma_update_row(rows0, i as int, timestamp as int);
                    }
                    self.rows[i].timestamp = timestamp;
                    assert(self.pairs() =~= rows0.update(
                        i as int,
                        (rows0[i as int].0, timestamp as int),
                    ));
                }
            },
            None => {
                proof {
                    lemma_push_row(rows0, (peer@, doc_id@), timestamp as int);
                }
                self.rows.push(PeerClock { peer, doc_id, timestamp });
                assert(self.pairs() =~= rows0.push(((peer@, doc_id@), timestamp as int)));
            },
        }
    }

    /// Forgets every clock.
    pub fn clear(&mut self)
        ensures
            final(self).wf(),
            final(self)@ == ClockMap::empty(),
    {
        proof {
            lemma_empty_table::<(Seq<char>, Seq<char>), int>();
        }
        self.rows = Vec::new();
        assert(self.pairs() =~= Seq::empty());
    }
}

} // verus!
