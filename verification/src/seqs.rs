//! Facts about filtered sequences.

use vstd::prelude::*;

verus! {

/// Every earlier element stands in relation `r` to every later one.
pub open spec fn pairwise<A>(s: Seq<A>, r: spec_fn(A, A) -> bool) -> bool {
    forall|i: int, j: int| #![trigger s[i], s[j]] 0 <= i < j < s.len() ==> r(s[i], s[j])
}

/// Filtering the empty sequence leaves it empty.
pub proof fn lemma_filter_empty<A>(p: spec_fn(A) -> bool)
    ensures
        Seq::<A>::empty().filter(p) == Seq::<A>::empty(),
{
    reveal(Seq::filter);
}

/// Filtering a prefix one element longer either appends that element or
/// changes nothing.
pub proof fn lemma_filter_take_next<A>(s: Seq<A>, p: spec_fn(A) -> bool, n: int)
    requires
        0 <= n < s.len(),
    ensures
        s.take(n + 1).filter(p) == if p(s[n]) {
            s.take(n).filter(p).push(s[n])
        } else {
            s.take(n).filter(p)
        },
{
    assert(s.take(n + 1) =~= s.take(n).push(s[n]));
    s.take(n).lemma_filter_push(s[n], p);
}

/// Each element of a filtered sequence is an element of the sequence it was
/// filtered from, and satisfies the predicate.
pub proof fn lemma_filter_source<A>(s: Seq<A>, p: spec_fn(A) -> bool, k: int) -> (i: int)
    requires
        0 <= k < s.filter(p).len(),
    ensures
        0 <= i < s.len(),
        s[i] == s.filter(p)[k],
        p(s[i]),
{
    let f = s.filter(p);
    s.lemma_filter_pred(p, k);
    assert(f.contains(f[k]));
    s.lemma_filter_contains_rev(p, f[k]);
    choose|i: int| 0 <= i < s.len() && s[i] == f[k]
}

/// Each element of a sequence that satisfies the predicate is an element of
/// the filtered sequence.
pub proof fn lemma_filter_target<A>(s: Seq<A>, p: spec_fn(A) -> bool, i: int) -> (k: int)
    requires
        0 <= i < s.len(),
        p(s[i]),
    ensures
        0 <= k < s.filter(p).len(),
        s.filter(p)[k] == s[i],
{
    s.lemma_filter_contains(p, i);
    let f = s.filter(p);
    choose|k: int| 0 <= k < f.len() && f[k] == s[i]
}

/// Filtering keeps a relation that holds from every earlier element to every
/// later one.
pub proof fn lemma_filter_pairwise<A>(s: Seq<A>, p: spec_fn(A) -> bool, r: spec_fn(A, A) -> bool)
    requires
        pairwise(s, r),
    ensures
        pairwise(s.filter(p), r),
    decreases s.len(),
{
    reveal(Seq::filter);
    if s.len() > 0 {
        let rest = s.drop_last();
        assert(pairwise(rest, r)) by {
            assert forall|i: int, j: int| #![trigger rest[i], rest[j]]
                0 <= i < j < rest.len() implies r(rest[i], rest[j]) by {
                assert(r(s[i], s[j]));
            }
        }
        lemma_filter_pairwise(rest, p, r);
        if p(s.last()) {
            let f = rest.filter(p);
            let g = f.push(s.last());
            assert forall|i: int, j: int| #![trigger g[i], g[j]] 0 <= i < j < g.len() implies r(
                g[i],
                g[j],
            ) by {
                if j < f.len() {
                    assert(r(f[i], f[j]));
                } else {
                    let k = lemma_filter_source(rest, p, i);
                    assert(r(s[k], s[s.len() - 1]));
                }
            }
        }
    }
}

/// Two predicates that agree on every element filter alike.
pub proof fn lemma_filter_agree<A>(s: Seq<A>, p: spec_fn(A) -> bool, q: spec_fn(A) -> bool)
    requires
        forall|i: int| 0 <= i < s.len() ==> p(#[trigger] s[i]) == q(s[i]),
    ensures
        s.filter(p) == s.filter(q),
    decreases s.len(),
{
    reveal(Seq::filter);
    if s.len() > 0 {
        let rest = s.drop_last();
        assert forall|i: int| 0 <= i < rest.len() implies p(#[trigger] rest[i]) == q(rest[i]) by {
            assert(rest[i] == s[i]);
        }
        lemma_filter_agree(rest, p, q);
        assert(p(s[s.len() - 1]) == q(s[s.len() - 1]));
    }
}

/// Filtering twice is filtering once by both predicates.
pub proof fn lemma_filter_twice<A>(
    s: Seq<A>,
    p: spec_fn(A) -> bool,
    q: spec_fn(A) -> bool,
    both: spec_fn(A) -> bool,
)
    requires
        forall|i: int| 0 <= i < s.len() ==> both(#[trigger] s[i]) == (p(s[i]) && q(s[i])),
    ensures
        s.filter(p).filter(q) == s.filter(both),
    decreases s.len(),
{
    reveal(Seq::filter);
    if s.len() > 0 {
        let rest = s.drop_last();
        let x = s.last();
        assert forall|i: int| 0 <= i < rest.len() implies both(#[trigger] rest[i]) == (p(rest[i])
            && q(rest[i])) by {
            assert(rest[i] == s[i]);
        }
        lemma_filter_twice(rest, p, q, both);
        assert(both(s[s.len() - 1]) == (p(x) && q(x)));
        if p(x) {
            rest.filter(p).lemma_filter_push(x, q);
        }
    } else {
        lemma_filter_empty(q);
    }
}

/// A predicate and its negation split a sequence between them.
pub proof fn lemma_filter_split<A>(s: Seq<A>, p: spec_fn(A) -> bool, not_p: spec_fn(A) -> bool)
    requires
        forall|i: int| 0 <= i < s.len() ==> not_p(#[trigger] s[i]) == !p(s[i]),
    ensures
        s.filter(p).len() + s.filter(not_p).len() == s.len(),
    decreases s.len(),
{
    reveal(Seq::filter);
    if s.len() > 0 {
        let rest = s.drop_last();
        assert forall|i: int| 0 <= i < rest.len() implies not_p(#[trigger] rest[i]) == !p(
            rest[i],
        ) by {
            assert(rest[i] == s[i]);
        }
        lemma_filter_split(rest, p, not_p);
        assert(not_p(s[s.len() - 1]) == !p(s[s.len() - 1]));
    }
}

} // verus!
