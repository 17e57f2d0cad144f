//! Keyed rows as finite maps.
//!
//! Every table of the store is kept as a vector of rows, each with a key that
//! no other row shares. The contracts speak of the map from keys to values
//! that such a table stands for; the lemmas here relate row edits to map
//! edits.

use crate::seqs::{lemma_filter_pairwise, lemma_filter_source, lemma_filter_target, pairwise};
use vstd::prelude::*;

verus! {

/// No two rows share a key.
pub open spec fn keys_unique<K, V>(rows: Seq<(K, V)>) -> bool {
    forall|i: int, j: int|
        0 <= i < j < rows.len() ==> (#[trigger] rows[i]).0 != (#[trigger] rows[j]).0
}

/// Some row is keyed by `k`.
pub open spec fn has_key<K, V>(rows: Seq<(K, V)>, k: K) -> bool {
    exists|i: int| 0 <= i < rows.len() && (#[trigger] rows[i]).0 == k
}

/// The position of a row keyed by `k`, where there is one.
pub open spec fn row_of<K, V>(rows: Seq<(K, V)>, k: K) -> int {
    choose|i: int| 0 <= i < rows.len() && (#[trigger] rows[i]).0 == k
}

/// The map from keys to values that the rows stand for.
pub open spec fn as_map<K, V>(rows: Seq<(K, V)>) -> Map<K, V> {
    Map::new(|k: K| has_key(rows, k), |k: K| rows[row_of(rows, k)].1)
}

/// Row `i` of a table with unique keys is what the map holds under its key.
pub proof fn lemma_row_in_map<K, V>(rows: Seq<(K, V)>, i: int)
    requires
        keys_unique(rows),
        0 <= i < rows.len(),
    ensures
        as_map(rows).contains_key(rows[i].0),
        as_map(rows)[rows[i].0] == rows[i].1,
{
    let k = rows[i].0;
    assert(has_key(rows, k));
    let j = row_of(rows, k);
    assert(0 <= j < rows.len() && rows[j].0 == k);
    assert(j == i);
}

/// A key that no row carries is outside the map.
pub proof fn lemma_key_absent<K, V>(rows: Seq<(K, V)>, k: K)
    requires
        forall|i: int| 0 <= i < rows.len() ==> (#[trigger] rows[i]).0 != k,
    ensures
        !as_map(rows).contains_key(k),
{
}

/// A key of the map is carried by some row.
pub proof fn lemma_key_present<K, V>(rows: Seq<(K, V)>, k: K) -> (i: int)
    requires
        as_map(rows).contains_key(k),
    ensures
        0 <= i < rows.len(),
        rows[i].0 == k,
        as_map(rows)[k] == rows[i].1,
{
    row_of(rows, k)
}

/// The empty table stands for the empty map.
pub proof fn lemma_empty_table<K, V>()
    ensures
        keys_unique(Seq::<(K, V)>::empty()),
        as_map(Seq::<(K, V)>::empty()) == Map::<K, V>::empty(),
{
    assert(as_map(Seq::<(K, V)>::empty()) =~= Map::<K, V>::empty());
}

/// Appending a row under a fresh key inserts it into the map.
pub proof fn lemma_push_row<K, V>(rows: Seq<(K, V)>, k: K, v: V)
    requires
        keys_unique(rows),
        !as_map(rows).contains_key(k),
    ensures
        keys_unique(rows.push((k, v))),
        as_map(rows.push((k, v))) == as_map(rows).insert(k, v),
{
    let next = rows.push((k, v));
    assert forall|i: int, j: int| 0 <= i < j < next.len() implies (#[trigger] next[i]).0 != (
    #[trigger] next[j]).0 by {
        if j < rows.len() {
            assert(rows[i].0 != rows[j].0);
        } else {
            assert(rows[i].0 != k) by {
                if rows[i].0 == k {
                    assert(has_key(rows, k));
                }
            }
        }
    }
    assert forall|q: K| as_map(next).contains_key(q) <==> as_map(rows).insert(k, v).contains_key(
        q,
    ) by {
        if as_map(next).contains_key(q) {
            let i = row_of(next, q);
            if i < rows.len() {
                assert(rows[i].0 == q);
            }
        }
        if as_map(rows).insert(k, v).contains_key(q) {
            if q == k {
                assert(next[rows.len() as int].0 == q);
            } else {
                let i = row_of(rows, q);
                assert(next[i].0 == q);
            }
        }
    }
    assert forall|q: K| as_map(next).contains_key(q) implies as_map(next)[q] == as_map(
        rows,
    ).insert(k, v)[q] by {
        let i = row_of(next, q);
        lemma_row_in_map(next, i);
        if i < rows.len() {
            assert(rows[i] == next[i]);
            lemma_row_in_map(rows, i);
        }
    }
    assert(as_map(next) =~= as_map(rows).insert(k, v));
}

/// Replacing the value of row `i` replaces it in the map.
pub proof fn lemma_update_row<K, V>(rows: Seq<(K, V)>, i: int, v: V)
    requires
        keys_unique(rows),
        0 <= i < rows.len(),
    ensures
        keys_unique(rows.update(i, (rows[i].0, v))),
        as_map(rows.update(i, (rows[i].0, v))) == as_map(rows).insert(rows[i].0, v),
{
    let k = rows[i].0;
    let next = rows.update(i, (k, v));
    assert forall|a: int, b: int| 0 <= a < b < next.len() implies (#[trigger] next[a]).0 != (
    #[trigger] next[b]).0 by {
        assert(rows[a].0 != rows[b].0);
    }
    assert forall|q: K| as_map(next).contains_key(q) <==> as_map(rows).insert(k, v).contains_key(
        q,
    ) by {
        if as_map(next).contains_key(q) {
            let j = row_of(next, q);
            assert(rows[j].0 == q);
        }
        if as_map(rows).insert(k, v).contains_key(q) {
            if q == k {
                assert(next[i].0 == q);
            } else {
                let j = row_of(rows, q);
                assert(next[j].0 == q);
            }
        }
    }
    assert forall|q: K| as_map(next).contains_key(q) implies as_map(next)[q] == as_map(
        rows,
    ).insert(k, v)[q] by {
        let j = row_of(next, q);
        lemma_row_in_map(next, j);
        if j != i {
            assert(rows[j] == next[j]);
            lemma_row_in_map(rows, j);
        }
    }
    assert(as_map(next) =~= as_map(rows).insert(k, v));
}

/// Dropping row `i` removes its key from the map.
pub proof fn lemma_remove_row<K, V>(rows: Seq<(K, V)>, i: int)
    requires
        keys_unique(rows),
        0 <= i < rows.len(),
    ensures
        keys_unique(rows.remove(i)),
        as_map(rows.remove(i)) == as_map(rows).remove(rows[i].0),
{
    let k = rows[i].0;
    let next = rows.remove(i);
    assert forall|a: int, b: int| 0 <= a < b < next.len() implies (#[trigger] next[a]).0 != (
    #[trigger] next[b]).0 by {
        let a0 = if a < i { a } else { a + 1 };
        let b0 = if b < i { b } else { b + 1 };
        assert(next[a] == rows[a0]);
        assert(next[b] == rows[b0]);
        assert(rows[a0].0 != rows[b0].0);
    }
    assert forall|q: K| as_map(next).contains_key(q) <==> as_map(rows).remove(k).contains_key(
        q,
    ) by {
        if as_map(next).contains_key(q) {
            let j = row_of(next, q);
            let j0 = if j < i { j } else { j + 1 };
            assert(next[j] == rows[j0]);
            assert(rows[j0].0 == q);
            if q == k {
                if j0 < i {
                    assert(rows[j0].0 != rows[i].0);
                } else {
                    assert(rows[i].0 != rows[j0].0);
                }
            }
        }
        if as_map(rows).remove(k).contains_key(q) {
            let j = row_of(rows, q);
            assert(j != i);
            let j1 = if j < i { j } else { j - 1 };
            assert(next[j1] == rows[j]);
            assert(next[j1].0 == q);
        }
    }
    assert forall|q: K| as_map(next).contains_key(q) implies as_map(next)[q] == as_map(
        rows,
    ).remove(k)[q] by {
        let j = row_of(next, q);
        lemma_row_in_map(next, j);
        let j0 = if j < i { j } else { j + 1 };
        assert(next[j] == rows[j0]);
        lemma_row_in_map(rows, j0);
    }
    assert(as_map(next) =~= as_map(rows).remove(k));
}

/// Two rows carry different keys.
pub open spec fn keys_differ<K, V>() -> spec_fn((K, V), (K, V)) -> bool {
    |a: (K, V), b: (K, V)| a.0 != b.0
}

/// The part of `m` whose entries satisfy `p`.
pub open spec fn restrict_to<K, V>(m: Map<K, V>, p: spec_fn((K, V)) -> bool) -> Map<K, V> {
    Map::new(|k: K| m.contains_key(k) && p((k, m[k])), |k: K| m[k])
}

/// Keeping the rows that satisfy `p` keeps the entries of the map that do.
pub proof fn lemma_filter_rows<K, V>(rows: Seq<(K, V)>, p: spec_fn((K, V)) -> bool)
    requires
        keys_unique(rows),
    ensures
        keys_unique(rows.filter(p)),
        as_map(rows.filter(p)) == restrict_to(as_map(rows), p),
{
    let next = rows.filter(p);
    assert(pairwise(rows, keys_differ::<K, V>())) by {
        assert forall|i: int, j: int| #![trigger rows[i], rows[j]]
            0 <= i < j < rows.len() implies keys_differ::<K, V>()(rows[i], rows[j]) by {}
    }
    lemma_filter_pairwise(rows, p, keys_differ::<K, V>());
    assert forall|i: int, j: int| 0 <= i < j < next.len() implies (#[trigger] next[i]).0 != (
    #[trigger] next[j]).0 by {
        assert(keys_differ::<K, V>()(next[i], next[j]));
    }
    let want = restrict_to(as_map(rows), p);
    assert forall|q: K| as_map(next).contains_key(q) <==> want.contains_key(q) by {
        if as_map(next).contains_key(q) {
            let k = row_of(next, q);
            let i = lemma_filter_source(rows, p, k);
            lemma_row_in_map(rows, i);
        }
        if want.contains_key(q) {
            let i = row_of(rows, q);
            lemma_row_in_map(rows, i);
            let k = lemma_filter_target(rows, p, i);
            assert(next[k].0 == q);
        }
    }
    assert forall|q: K| as_map(next).contains_key(q) implies as_map(next)[q] == want[q] by {
        let k = row_of(next, q);
        lemma_row_in_map(next, k);
        let i = lemma_filter_source(rows, p, k);
        lemma_row_in_map(rows, i);
    }
    assert(as_map(next) =~= want);
}

} // verus!
