//! Stable sorting of small lists.

use vstd::prelude::*;

verus! {

/// Values with an order. Two values may stand either way where both ways are in order.
pub trait Ranked: View {
    /// Whether the first may stand before the second.
    spec fn in_order(a: Self::V, b: Self::V) -> bool;

    fn is_in_order(a: &Self, b: &Self) -> (r: bool)
        ensures
            r == Self::in_order(a@, b@),
    ;
}

/// Values by their views.
pub open spec fn views<T: View>(v: Seq<T>) -> Seq<T::V> {
    Seq::new(v.len(), |i: int| v[i]@)
}

/// The list with one more value, behind all that may stand before it at its end.
pub open spec fn ranked_in<T: Ranked>(v: Seq<T::V>, x: T::V) -> Seq<T::V>
    decreases v.len(),
{
    if v.len() == 0 || T::in_order(v.last(), x) {
        v.push(x)
    } else {
        ranked_in::<T>(v.drop_last(), x).push(v.last())
    }
}

/// The first `n` values in order; those that may stand either way keep theirs.
pub open spec fn ranked<T: Ranked>(v: Seq<T::V>, n: nat) -> Seq<T::V>
    decreases n,
{
    if n == 0 || n > v.len() {
        Seq::empty()
    } else {
        ranked_in::<T>(ranked::<T>(v, (n - 1) as nat), v[n - 1])
    }
}

/// Puts a value where it belongs.
pub fn rank_in<T: Ranked>(v: &mut Vec<T>, x: T)
    ensures
        views(final(v)@) == ranked_in::<T>(views(old(v)@), x@),
{
    let ghost o = views(v@);
    let mut j: usize = v.len();
    assert(o.take(j as int) =~= o);
    assert(ranked_in::<T>(o.take(j as int), x@) + o.skip(j as int) =~= ranked_in::<T>(o, x@));
    while j > 0 && !T::is_in_order(&v[j - 1], &x)
        invariant
            j <= v.len(),
            o == views(v@),
            v@ == old(v)@,
            ranked_in::<T>(o, x@) == ranked_in::<T>(o.take(j as int), x@) + o.skip(j as int),
        decreases j,
    {
        let ghost p = o.take(j as int);
        assert(p.last() == v@[j - 1]@);
        assert(p.drop_last() =~= o.take(j - 1));
        assert(ranked_in::<T>(o.take(j - 1), x@) + o.skip(j - 1) =~= ranked_in::<T>(p, x@) + o.skip(j as int));
        j -= 1;
    }
    if j > 0 {
        assert(o.take(j as int).last() == v@[j - 1]@);
    }
    v.insert(j, x);
    assert(views(v@) =~= o.take(j as int).push(x@) + o.skip(j as int));
}

/// Sorts a list.
pub fn rank<T: Ranked>(v: Vec<T>) -> (r: Vec<T>)
    ensures
        views(r@) == ranked::<T>(views(v@), v@.len()),
{
    let ghost all = views(v@);
    let mut out: Vec<T> = Vec::new();
    assert(views(out@) =~= Seq::<T::V>::empty());
    for x in it: v
        invariant
            it.seq() == v@,
            all == views(v@),
            views(out@) == ranked::<T>(all, it.index() as nat),
    {
        assert(all[it.index() as int] == x@);
        rank_in(&mut out, x);
    }
    out
}

pub proof fn lemma_ranked_len<T: Ranked>(v: Seq<T::V>, n: nat)
    requires
        n <= v.len(),
    ensures
        ranked::<T>(v, n).len() == n,
    decreases n,
{
    if n > 0 {
        lemma_ranked_len::<T>(v, (n - 1) as nat);
        lemma_ranked_in_len::<T>(ranked::<T>(v, (n - 1) as nat), v[n - 1]);
    }
}

proof fn lemma_ranked_in_len<T: Ranked>(v: Seq<T::V>, x: T::V)
    ensures
        ranked_in::<T>(v, x).len() == v.len() + 1,
    decreases v.len(),
{
    if v.len() > 0 && !T::in_order(v.last(), x) {
        lemma_ranked_in_len::<T>(v.drop_last(), x);
    }
}

proof fn lemma_ranked_in_keeps<T: Ranked>(v: Seq<T::V>, x: T::V)
    ensures
        ranked_in::<T>(v, x).to_multiset() == v.to_multiset().insert(x),
    decreases v.len(),
{
    broadcast use vstd::seq_lib::group_to_multiset_ensures;

    if v.len() > 0 && !T::in_order(v.last(), x) {
        lemma_ranked_in_keeps::<T>(v.drop_last(), x);
        assert(v.drop_last().push(v.last()) =~= v);
        assert(v.to_multiset() =~= v.drop_last().to_multiset().insert(v.last()));
        assert(ranked_in::<T>(v, x).to_multiset() =~= v.to_multiset().insert(x));
    }
}

/// Sorting neither loses nor adds a value.
pub proof fn law_ranking_keeps_every_value<T: Ranked>(v: Seq<T::V>, n: nat)
    requires
        n <= v.len(),
    ensures
        ranked::<T>(v, n).to_multiset() == v.take(n as int).to_multiset(),
    decreases n,
{
    broadcast use vstd::seq_lib::group_to_multiset_ensures;

    if n > 0 {
        law_ranking_keeps_every_value::<T>(v, (n - 1) as nat);
        lemma_ranked_in_keeps::<T>(ranked::<T>(v, (n - 1) as nat), v[n - 1]);
        assert(v.take(n as int) =~= v.take(n - 1).push(v[n - 1]));
    } else {
        assert(v.take(0) =~= Seq::<T::V>::empty());
    }
}

/// The values stand in order, each before all behind it.
pub open spec fn arranged<T: Ranked>(v: Seq<T::V>) -> bool {
    forall|i: int, j: int| 0 <= i < j < v.len() ==> T::in_order(#[trigger] v[i], #[trigger] v[j])
}

/// The order holds between any two values one way or the other, and carries over.
pub open spec fn orderly<T: Ranked>() -> bool {
    &&& forall|a: T::V, b: T::V| #[trigger] T::in_order(a, b) || T::in_order(b, a)
    &&& forall|a: T::V, b: T::V, c: T::V|
        #[trigger] T::in_order(a, b) && #[trigger] T::in_order(b, c) ==> T::in_order(a, c)
}

proof fn lemma_ranked_in_from<T: Ranked>(v: Seq<T::V>, x: T::V, k: int)
    requires
        0 <= k < ranked_in::<T>(v, x).len(),
    ensures
        ranked_in::<T>(v, x)[k] == x || exists|m: int| 0 <= m < v.len() && #[trigger] v[m] == ranked_in::<T>(v, x)[k],
    decreases v.len(),
{
    let r = ranked_in::<T>(v, x);
    if v.len() == 0 || T::in_order(v.last(), x) {
        if k < v.len() {
            assert(v[k] == r[k]);
        }
    } else {
        let q = ranked_in::<T>(v.drop_last(), x);
        if k < q.len() {
            lemma_ranked_in_from::<T>(v.drop_last(), x, k);
            if r[k] != x {
                let m = choose|m: int| 0 <= m < v.drop_last().len() && #[trigger] v.drop_last()[m] == q[k];
                assert(v[m] == r[k]);
            }
        } else {
            assert(v[v.len() - 1] == r[k]);
        }
    }
}

proof fn lemma_ranked_in_arranged<T: Ranked>(v: Seq<T::V>, x: T::V)
    requires
        orderly::<T>(),
        arranged::<T>(v),
    ensures
        arranged::<T>(ranked_in::<T>(v, x)),
    decreases v.len(),
{
    let r = ranked_in::<T>(v, x);
    if v.len() == 0 {
    } else if T::in_order(v.last(), x) {
        assert forall|i: int, j: int| 0 <= i < j < r.len() implies T::in_order(#[trigger] r[i], #[trigger] r[j]) by {
            if j == v.len() {
                if i < v.len() - 1 {
                    assert(T::in_order(v[i], v[v.len() - 1]));
                }
            } else {
                assert(T::in_order(v[i], v[j]));
            }
        }
    } else {
        let p = v.drop_last();
        assert(arranged::<T>(p)) by {
            assert forall|i: int, j: int| 0 <= i < j < p.len() implies T::in_order(
                #[trigger] p[i],
                #[trigger] p[j],
            ) by {
                assert(T::in_order(v[i], v[j]));
            }
        }
        lemma_ranked_in_arranged::<T>(p, x);
        let q = ranked_in::<T>(p, x);
        assert(T::in_order(x, v.last()));
        assert forall|i: int, j: int| 0 <= i < j < r.len() implies T::in_order(#[trigger] r[i], #[trigger] r[j]) by {
            if j < q.len() {
                assert(T::in_order(q[i], q[j]));
            } else {
                lemma_ranked_in_from::<T>(p, x, i);
                if q[i] != x {
                    let m = choose|m: int| 0 <= m < p.len() && #[trigger] p[m] == q[i];
                    assert(T::in_order(v[m], v[v.len() - 1]));
                }
            }
        }
    }
}

/// What was sorted stands in order, where the order is one.
pub proof fn law_ranking_sorts<T: Ranked>(v: Seq<T::V>, n: nat)
    requires
        orderly::<T>(),
    ensures
        arranged::<T>(ranked::<T>(v, n)),
    decreases n,
{
    if 0 < n <= v.len() {
        law_ranking_sorts::<T>(v, (n - 1) as nat);
        lemma_ranked_in_arranged::<T>(ranked::<T>(v, (n - 1) as nat), v[n - 1]);
    }
}

/// A value stands either way with another.
pub open spec fn level<T: Ranked>(x: T::V) -> spec_fn(T::V) -> bool {
    |y: T::V| T::in_order(x, y) && T::in_order(y, x)
}

proof fn lemma_filter_push<A>(s: Seq<A>, x: A, p: spec_fn(A) -> bool)
    ensures
        s.push(x).filter(p) == (if p(x) {
            s.filter(p).push(x)
        } else {
            s.filter(p)
        }),
{
    reveal(Seq::filter);
    assert(s.push(x).drop_last() =~= s);
}

proof fn lemma_ranked_in_stable<T: Ranked>(v: Seq<T::V>, x: T::V, y: T::V)
    requires
        orderly::<T>(),
    ensures
        ranked_in::<T>(v, y).filter(level::<T>(x)) == v.push(y).filter(level::<T>(x)),
    decreases v.len(),
{
    let p = level::<T>(x);
    if v.len() > 0 && !T::in_order(v.last(), y) {
        let z = v.last();
        let d = v.drop_last();
        lemma_ranked_in_stable::<T>(d, x, y);
        let q = ranked_in::<T>(d, y);
        lemma_filter_push(q, z, p);
        lemma_filter_push(d, y, p);
        lemma_filter_push(d, z, p);
        lemma_filter_push(v, y, p);
        assert(d.push(z) =~= v);
        if p(y) && p(z) {
            assert(T::in_order(z, x) && T::in_order(x, y));
            assert(T::in_order(z, y));
        }
    }
}

/// Values that may stand either way keep the order that they came in.
pub proof fn law_ranking_is_stable<T: Ranked>(v: Seq<T::V>, n: nat, x: T::V)
    requires
        orderly::<T>(),
        n <= v.len(),
    ensures
        ranked::<T>(v, n).filter(level::<T>(x)) == v.take(n as int).filter(level::<T>(x)),
    decreases n,
{
    if n > 0 {
        let r = ranked::<T>(v, (n - 1) as nat);
        law_ranking_is_stable::<T>(v, (n - 1) as nat, x);
        lemma_ranked_in_stable::<T>(r, x, v[n - 1]);
        lemma_filter_push(r, v[n - 1], level::<T>(x));
        lemma_filter_push(v.take(n - 1), v[n - 1], level::<T>(x));
        assert(v.take(n as int) =~= v.take(n - 1).push(v[n - 1]));
    } else {
        assert(v.take(0) =~= Seq::<T::V>::empty());
    }
}

} // verus!
