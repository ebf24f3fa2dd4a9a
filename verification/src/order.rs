//! Stable sorting under a relation given as a function.

use vstd::prelude::*;

verus! {

/// Any two values are related one way or the other.
pub open spec fn total<T>(le: spec_fn(T, T) -> bool) -> bool {
    forall|a: T, b: T| #[trigger] le(a, b) || #[trigger] le(b, a)
}

/// The relation carries over a middle value.
pub open spec fn transitive<T>(le: spec_fn(T, T) -> bool) -> bool {
    forall|a: T, b: T, c: T| #[trigger] le(a, b) && #[trigger] le(b, c) ==> le(a, c)
}

/// Each value stands before every later one.
pub open spec fn sorted_by<T>(s: Seq<T>, le: spec_fn(T, T) -> bool) -> bool {
    forall|i: int, j: int| 0 <= i < j < s.len() ==> le(#[trigger] s[i], #[trigger] s[j])
}

/// Where `x` goes into `s`: behind the last value that is not above it.
pub open spec fn insert_point<T>(s: Seq<T>, x: T, le: spec_fn(T, T) -> bool) -> int
    decreases s.len(),
{
    if s.len() == 0 {
        0
    } else if le(s.last(), x) {
        s.len() as int
    } else {
        insert_point(s.drop_last(), x, le)
    }
}

/// `s` with `x` put in behind the last value that is not above it.
pub open spec fn insert_by<T>(s: Seq<T>, x: T, le: spec_fn(T, T) -> bool) -> Seq<T> {
    s.insert(insert_point(s, x, le), x)
}

/// The values of `s`, each put in turn into the sorted values before it.
pub open spec fn sort_by<T>(s: Seq<T>, le: spec_fn(T, T) -> bool) -> Seq<T>
    decreases s.len(),
{
    if s.len() == 0 {
        s
    } else {
        insert_by(sort_by(s.drop_last(), le), s.last(), le)
    }
}

/// The values that `le` does not tell apart from `x`.
pub open spec fn alike<T>(x: T, le: spec_fn(T, T) -> bool) -> spec_fn(T) -> bool {
    |y: T| le(x, y) && le(y, x)
}

/// The insertion point lies in `s`, behind a value that is not above `x`
/// (if behind any), and every value from it on is above `x`.
pub proof fn lemma_insert_point<T>(s: Seq<T>, x: T, le: spec_fn(T, T) -> bool)
    ensures
        0 <= insert_point(s, x, le) <= s.len(),
        insert_point(s, x, le) > 0 ==> le(s[insert_point(s, x, le) - 1], x),
        forall|j: int| insert_point(s, x, le) <= j < s.len() ==> !le(#[trigger] s[j], x),
    decreases s.len(),
{
    if s.len() > 0 && !le(s.last(), x) {
        let front = s.drop_last();
        lemma_insert_point(front, x, le);
        assert forall|j: int| insert_point(s, x, le) <= j < s.len() implies !le(
            #[trigger] s[j],
            x,
        ) by {
            if j < front.len() {
                assert(s[j] == front[j]);
            }
        }
    }
}

/// Putting a value into sorted values leaves them sorted.
pub proof fn lemma_insert_by_sorted<T>(s: Seq<T>, x: T, le: spec_fn(T, T) -> bool)
    requires
        total(le),
        transitive(le),
        sorted_by(s, le),
    ensures
        sorted_by(insert_by(s, x, le), le),
{
    lemma_insert_point(s, x, le);
    let p = insert_point(s, x, le);
    let r = insert_by(s, x, le);
    assert forall|i: int, j: int| 0 <= i < j < r.len() implies le(#[trigger] r[i], #[trigger] r[j]) by {
        if j < p {
            assert(r[i] == s[i] && r[j] == s[j]);
        } else if j == p {
            assert(r[i] == s[i]);
            if i < p - 1 {
                assert(le(s[i], s[p - 1]));
            }
            assert(le(s[p - 1], x));
        } else if i == p {
            assert(r[j] == s[j - 1]);
            assert(!le(s[j - 1], x));
            assert(le(x, s[j - 1]) || le(s[j - 1], x));
        } else if i < p {
            assert(r[i] == s[i] && r[j] == s[j - 1]);
        } else {
            assert(r[i] == s[i - 1] && r[j] == s[j - 1]);
        }
    }
}

/// What `sort_by` gives is sorted.
pub proof fn lemma_sort_by_sorted<T>(s: Seq<T>, le: spec_fn(T, T) -> bool)
    requires
        total(le),
        transitive(le),
    ensures
        sorted_by(sort_by(s, le), le),
    decreases s.len(),
{
    if s.len() > 0 {
        lemma_sort_by_sorted(s.drop_last(), le);
        lemma_insert_by_sorted(sort_by(s.drop_last(), le), s.last(), le);
    }
}

/// What `sort_by` gives holds the values of `s`, each as often as `s` does.
pub proof fn lemma_sort_by_permutes<T>(s: Seq<T>, le: spec_fn(T, T) -> bool)
    ensures
        sort_by(s, le).to_multiset() == s.to_multiset(),
        sort_by(s, le).len() == s.len(),
    decreases s.len(),
{
    broadcast use vstd::seq_lib::group_to_multiset_ensures;

    if s.len() > 0 {
        let before = sort_by(s.drop_last(), le);
        lemma_sort_by_permutes(s.drop_last(), le);
        lemma_insert_point(before, s.last(), le);
        assert(s.drop_last().push(s.last()) == s);
    }
}

/// What `sort_by` gives holds exactly the values that `s` holds, and none of
/// them twice where `s` holds none twice.
pub proof fn lemma_sort_by_keeps_values<T>(s: Seq<T>, le: spec_fn(T, T) -> bool)
    ensures
        forall|x: T| #[trigger] sort_by(s, le).contains(x) <==> s.contains(x),
        s.no_duplicates() ==> sort_by(s, le).no_duplicates(),
{
    broadcast use vstd::seq_lib::group_to_multiset_ensures;

    lemma_sort_by_permutes(s, le);
    assert forall|x: T| #[trigger] sort_by(s, le).contains(x) <==> s.contains(x) by {
        vstd::seq_lib::to_multiset_contains(sort_by(s, le), x);
        vstd::seq_lib::to_multiset_contains(s, x);
    }
    if s.no_duplicates() {
        s.lemma_multiset_has_no_duplicates();
        sort_by(s, le).lemma_multiset_has_no_duplicates_conv();
    }
}

/// No value of `s` passes `pred`: nothing is left of `s` under it.
proof fn lemma_filter_none<T>(s: Seq<T>, pred: spec_fn(T) -> bool)
    requires
        forall|i: int| 0 <= i < s.len() ==> !pred(#[trigger] s[i]),
    ensures
        s.filter(pred) == Seq::<T>::empty(),
    decreases s.len(),
{
    reveal(Seq::filter);
    if s.len() > 0 {
        lemma_filter_none(s.drop_last(), pred);
    }
}

/// `sort_by` is stable: the values that `le` does not tell apart from `x`
/// keep the order they have in `s`.
pub proof fn lemma_sort_by_stable<T>(s: Seq<T>, le: spec_fn(T, T) -> bool, x: T)
    requires
        total(le),
        transitive(le),
    ensures
        sort_by(s, le).filter(alike(x, le)) == s.filter(alike(x, le)),
    decreases s.len(),
{
    reveal(Seq::filter);
    if s.len() > 0 {
        let pred = alike(x, le);
        let e = s.last();
        let before = sort_by(s.drop_last(), le);
        let p = insert_point(before, e, le);
        lemma_sort_by_stable(s.drop_last(), le, x);
        lemma_sort_by_sorted(s.drop_last(), le);
        lemma_insert_point(before, e, le);
        let head = before.take(p);
        let tail = before.skip(p);
        assert(before == head + tail);
        assert(before.insert(p, e) == head.push(e) + tail);
        Seq::filter_distributes_over_add(head, tail, pred);
        Seq::filter_distributes_over_add(head.push(e), tail, pred);
        assert(head.push(e).drop_last() == head);
        if pred(e) {
            assert forall|i: int| 0 <= i < tail.len() implies !pred(#[trigger] tail[i]) by {
                assert(tail[i] == before[p + i]);
                assert(!le(before[p + i], e));
                if pred(tail[i]) {
                    assert(le(tail[i], x) && le(x, e));
                }
            }
            lemma_filter_none(tail, pred);
            assert(head.filter(pred) + Seq::<T>::empty() == head.filter(pred));
            assert(head.filter(pred).push(e) + Seq::<T>::empty() == head.filter(pred).push(e));
        }
    }
}

/// Two rows of values are one row where both are sorted and both hold, of
/// the values that `le` does not tell apart from any given one, the same in
/// the same order.
pub proof fn lemma_sorted_stable_unique<T>(a: Seq<T>, b: Seq<T>, le: spec_fn(T, T) -> bool)
    requires
        total(le),
        transitive(le),
        sorted_by(a, le),
        sorted_by(b, le),
        forall|x: T| a.filter(#[trigger] alike(x, le)) == b.filter(alike(x, le)),
    ensures
        a == b,
    decreases a.len(),
{
    reveal(Seq::filter);
    if a.len() == 0 {
        if b.len() > 0 {
            let z = b.last();
            assert(le(z, z) || le(z, z));
            assert(alike(z, le)(z));
            assert(b.filter(alike(z, le)).len() > 0);
            assert(a.filter(alike(z, le)).len() == 0);
        }
    } else {
        let m = a.last();
        let same_as_m = alike(m, le);
        assert(le(m, m) || le(m, m));
        assert(a.filter(same_as_m).last() == m);
        assert(b.filter(same_as_m).last() == m);
        assert(b.len() > 0);
        let z = b.last();
        let same_as_z = alike(z, le);
        assert(le(z, z) || le(z, z));
        assert(le(m, z)) by {
            assert(b.filter(same_as_m).contains(m));
            b.lemma_filter_contains_rev(same_as_m, m);
            let k = choose|k: int| 0 <= k < b.len() && b[k] == m;
            if k < b.len() - 1 {
                assert(le(b[k], b[b.len() - 1]));
            }
        }
        assert(le(z, m)) by {
            assert(b.filter(same_as_z).last() == z);
            assert(a.filter(same_as_z).last() == z);
            assert(a.filter(same_as_z).contains(z));
            a.lemma_filter_contains_rev(same_as_z, z);
            let k = choose|k: int| 0 <= k < a.len() && a[k] == z;
            if k < a.len() - 1 {
                assert(le(a[k], a[a.len() - 1]));
            }
        }
        assert(same_as_m(z));
        assert(b.filter(same_as_m).last() == z);
        assert(z == m);
        let front_a = a.drop_last();
        let front_b = b.drop_last();
        assert(sorted_by(front_a, le)) by {
            assert forall|i: int, j: int| 0 <= i < j < front_a.len() implies le(
                #[trigger] front_a[i],
                #[trigger] front_a[j],
            ) by {
                assert(le(a[i], a[j]));
            }
        }
        assert(sorted_by(front_b, le)) by {
            assert forall|i: int, j: int| 0 <= i < j < front_b.len() implies le(
                #[trigger] front_b[i],
                #[trigger] front_b[j],
            ) by {
                assert(le(b[i], b[j]));
            }
        }
        assert forall|x: T| front_a.filter(#[trigger] alike(x, le)) == front_b.filter(
            alike(x, le),
        ) by {
            let pred = alike(x, le);
            assert(a.filter(pred) == b.filter(pred));
            if pred(m) {
                assert(front_a.filter(pred).push(m).drop_last() == front_a.filter(pred));
                assert(front_b.filter(pred).push(m).drop_last() == front_b.filter(pred));
            }
        }
        lemma_sorted_stable_unique(front_a, front_b, le);
        assert(a == front_a.push(m));
        assert(b == front_b.push(z));
    }
}

/// `sort_by` gives the one row that is sorted and holds, of the values that
/// `le` does not tell apart from any given one, what `s` holds in the order
/// `s` holds it.
pub proof fn lemma_sort_by_unique<T>(s: Seq<T>, sorted: Seq<T>, le: spec_fn(T, T) -> bool)
    requires
        total(le),
        transitive(le),
        sorted_by(sorted, le),
        forall|x: T| sorted.filter(#[trigger] alike(x, le)) == s.filter(alike(x, le)),
    ensures
        sorted == sort_by(s, le),
{
    lemma_sort_by_sorted(s, le);
    assert forall|x: T| sorted.filter(#[trigger] alike(x, le)) == sort_by(s, le).filter(
        alike(x, le),
    ) by {
        lemma_sort_by_stable(s, le, x);
    }
    lemma_sorted_stable_unique(sorted, sort_by(s, le), le);
}

/// The relation that `le` makes of values through what `f` shows of them.
pub open spec fn through<T, U>(f: spec_fn(T) -> U, le: spec_fn(U, U) -> bool) -> spec_fn(
    T,
    T,
) -> bool {
    |a: T, b: T| le(f(a), f(b))
}

/// Under a relation made through `f`, a value goes in where what `f` shows of
/// it goes in.
proof fn lemma_insert_point_through<T, U>(
    s: Seq<T>,
    x: T,
    f: spec_fn(T) -> U,
    le: spec_fn(U, U) -> bool,
)
    ensures
        insert_point(s, x, through(f, le)) == insert_point(s.map_values(f), f(x), le),
    decreases s.len(),
{
    if s.len() > 0 {
        assert(s.map_values(f).drop_last() == s.drop_last().map_values(f));
        lemma_insert_point_through(s.drop_last(), x, f, le);
    }
}

/// Sorting under a relation made through `f`, then looking through `f`, is
/// looking through `f`, then sorting.
pub proof fn lemma_sort_by_through<T, U>(s: Seq<T>, f: spec_fn(T) -> U, le: spec_fn(U, U) -> bool)
    ensures
        sort_by(s, through(f, le)).map_values(f) == sort_by(s.map_values(f), le),
    decreases s.len(),
{
    if s.len() > 0 {
        let before = sort_by(s.drop_last(), through(f, le));
        lemma_sort_by_through(s.drop_last(), f, le);
        lemma_insert_point_through(before, s.last(), f, le);
        lemma_insert_point(before, s.last(), through(f, le));
        let p = insert_point(before, s.last(), through(f, le));
        assert(s.map_values(f).drop_last() == s.drop_last().map_values(f));
        assert(before.insert(p, s.last()).map_values(f) == before.map_values(f).insert(
            p,
            f(s.last()),
        ));
    } else {
        assert(s.map_values(f) == Seq::<U>::empty());
    }
}

/// Sorts `v` by a comparison that answers `rel` of what `f` shows of its
/// arguments. Values that `rel` does not tell apart keep their order.
pub(crate) fn sort_vec<T, U, F>(
    v: Vec<T>,
    le: F,
    Ghost(f): Ghost<spec_fn(T) -> U>,
    Ghost(rel): Ghost<spec_fn(U, U) -> bool>,
) -> (sorted: Vec<T>) where F: Fn(&T, &T) -> bool
    requires
        forall|a: T, b: T| call_requires(le, (&a, &b)),
        forall|a: T, b: T, r: bool| call_ensures(le, (&a, &b), r) ==> r == rel(f(a), f(b)),
    ensures
        sorted@ == sort_by(v@, through(f, rel)),
        sorted@.map_values(f) == sort_by(v@.map_values(f), rel),
{
    let ghost all = v@;
    let ghost by = through(f, rel);
    let mut out: Vec<T> = Vec::new();
    for x in it: v
        invariant
            it.seq() == all,
            by == through(f, rel),
            out@ == sort_by(all.take(it.index() as int), by),
            forall|a: T, b: T| call_requires(le, (&a, &b)),
            forall|a: T, b: T, r: bool| call_ensures(le, (&a, &b), r) ==> r == rel(f(a), f(b)),
    {
        let mut pos: usize = out.len();
        assert(out@.take(pos as int) == out@);
        while pos > 0 && !le(&out[pos - 1], &x)
            invariant
                0 <= pos <= out.len(),
                by == through(f, rel),
                insert_point(out@, x, by) == insert_point(out@.take(pos as int), x, by),
                forall|a: T, b: T| call_requires(le, (&a, &b)),
                forall|a: T, b: T, r: bool| call_ensures(le, (&a, &b), r) ==> r == rel(f(a), f(b)),
            decreases pos,
        {
            assert(out@.take(pos as int).drop_last() == out@.take(pos - 1));
            pos -= 1;
        }
        assert(all.take(it.index() + 1).drop_last() == all.take(it.index() as int));
        out.insert(pos, x);
    }
    proof {
        assert(all.take(all.len() as int) == all);
        lemma_sort_by_through(all, f, rel);
    }
    out
}

} // verus!
