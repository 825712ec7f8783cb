//! Stable sorting as a specification: the order a stable sort gives, and the
//! proof that it is sorted and keeps every element.

use vstd::prelude::*;

verus! {

/// `before` is a strict weak order: irreflexive, transitive, and "neither
/// before the other" is transitive too (so elements fall into ordered classes
/// of equivalent ones).
pub open spec fn is_strict_weak_order<T>(before: spec_fn(T, T) -> bool) -> bool {
    &&& forall|a: T| !#[trigger] before(a, a)
    &&& forall|a: T, b: T, c: T| #[trigger] before(a, b) && #[trigger] before(b, c) ==> before(a, c)
    &&& forall|a: T, b: T, c: T|
        !#[trigger] before(a, b) && !#[trigger] before(b, c) ==> !before(a, c)
}

/// No element comes before one that precedes it.
pub open spec fn sorted_by<T>(s: Seq<T>, before: spec_fn(T, T) -> bool) -> bool {
    forall|i: int, j: int| 0 <= i < j < s.len() ==> !before(#[trigger] s[j], #[trigger] s[i])
}

/// `x` placed into `s` after every element that it does not come before.
pub open spec fn insert_sorted<T>(s: Seq<T>, x: T, before: spec_fn(T, T) -> bool) -> Seq<T>
    decreases s.len(),
{
    if s.len() > 0 && before(x, s.last()) {
        insert_sorted(s.drop_last(), x, before).push(s.last())
    } else {
        s.push(x)
    }
}

/// `s` in the order that a stable sort by `before` gives: elements that are
/// not ordered either way keep their relative order.
pub open spec fn stable_sort<T>(s: Seq<T>, before: spec_fn(T, T) -> bool) -> Seq<T>
    decreases s.len(),
{
    if s.len() == 0 {
        s
    } else {
        insert_sorted(stable_sort(s.drop_last(), before), s.last(), before)
    }
}

proof fn lemma_insert_sorted<T>(s: Seq<T>, x: T, before: spec_fn(T, T) -> bool)
    requires
        is_strict_weak_order(before),
        sorted_by(s, before),
    ensures
        sorted_by(insert_sorted(s, x, before), before),
        insert_sorted(s, x, before).to_multiset() == s.to_multiset().insert(x),
    decreases s.len(),
{
    broadcast use vstd::seq_lib::group_to_multiset_ensures;

    let r = insert_sorted(s, x, before);
    if s.len() > 0 && before(x, s.last()) {
        let d = s.drop_last();
        let last = s.last();
        assert(sorted_by(d, before)) by {
            assert forall|i: int, j: int| 0 <= i < j < d.len() implies !before(
                #[trigger] d[j],
                #[trigger] d[i],
            ) by {
                assert(d[i] == s[i] && d[j] == s[j]);
            }
        }
        lemma_insert_sorted(d, x, before);
        let m = insert_sorted(d, x, before);
        assert(d.push(last) =~= s);
        assert forall|i: int, j: int| 0 <= i < j < r.len() implies !before(
            #[trigger] r[j],
            #[trigger] r[i],
        ) by {
            if j == r.len() - 1 {
                let e = r[i];
                assert(m[i] == e);
                assert(m.contains(e));
                assert(m.to_multiset().count(e) > 0);
                if e == x {
                    if before(last, x) {
                        assert(before(x, x));
                    }
                } else {
                    assert(d.to_multiset().count(e) > 0);
                    assert(d.contains(e));
                    let k = choose|k: int| 0 <= k < d.len() && d[k] == e;
                    assert(s[k] == e);
                    assert(s[s.len() - 1] == last);
                }
            } else {
                assert(r[i] == m[i] && r[j] == m[j]);
            }
        }
    } else {
        assert forall|i: int, j: int| 0 <= i < j < r.len() implies !before(
            #[trigger] r[j],
            #[trigger] r[i],
        ) by {
            if j == r.len() - 1 {
                assert(r[j] == x);
                assert(r[i] == s[i]);
                let last = s.last();
                if i < s.len() - 1 {
                    assert(s[s.len() - 1] == last);
                    assert(!before(last, s[i]));
                }
            } else {
                assert(r[i] == s[i] && r[j] == s[j]);
            }
        }
    }
}

/// A stable sort by a strict weak order gives a sorted rearrangement of its
/// input: every element is kept, as often as it occurs.
pub proof fn stable_sort_is_a_sorted_rearrangement<T>(s: Seq<T>, before: spec_fn(T, T) -> bool)
    requires
        is_strict_weak_order(before),
    ensures
        sorted_by(stable_sort(s, before), before),
        stable_sort(s, before).to_multiset() == s.to_multiset(),
    decreases s.len(),
{
    broadcast use vstd::seq_lib::group_to_multiset_ensures;

    if s.len() > 0 {
        stable_sort_is_a_sorted_rearrangement(s.drop_last(), before);
        lemma_insert_sorted(stable_sort(s.drop_last(), before), s.last(), before);
        assert(s.drop_last().push(s.last()) =~= s);
    }
}

/// Neither of `a` and `b` comes before the other.
pub open spec fn equivalent<T>(before: spec_fn(T, T) -> bool, a: T, b: T) -> bool {
    !before(a, b) && !before(b, a)
}

proof fn lemma_insert_sorted_filter<T>(s: Seq<T>, x: T, before: spec_fn(T, T) -> bool, c: T)
    requires
        is_strict_weak_order(before),
    ensures
        ({
            let p = |y: T| equivalent(before, c, y);
            insert_sorted(s, x, before).filter(p) == s.push(x).filter(p)
        }),
    decreases s.len(),
{
    broadcast use vstd::seq::Seq::lemma_filter_push;

    let p = |y: T| equivalent(before, c, y);
    if s.len() > 0 && before(x, s.last()) {
        let d = s.drop_last();
        let m = s.last();
        lemma_insert_sorted_filter(d, x, before, c);
        assert(d.push(m) =~= s);
        if p(x) && p(m) {
            assert(!before(x, m));
        }
        assert(insert_sorted(s, x, before).filter(p) =~= s.push(x).filter(p));
    }
}

/// The sort is stable: elements that are equivalent (neither comes before the
/// other) come out in the order they went in.
pub proof fn stable_sort_keeps_equivalent_elements_in_order<T>(
    s: Seq<T>,
    before: spec_fn(T, T) -> bool,
    c: T,
)
    requires
        is_strict_weak_order(before),
    ensures
        ({
            let p = |y: T| equivalent(before, c, y);
            stable_sort(s, before).filter(p) == s.filter(p)
        }),
    decreases s.len(),
{
    broadcast use vstd::seq::Seq::lemma_filter_push;

    let p = |y: T| equivalent(before, c, y);
    if s.len() > 0 {
        stable_sort_keeps_equivalent_elements_in_order(s.drop_last(), before, c);
        lemma_insert_sorted_filter(stable_sort(s.drop_last(), before), s.last(), before, c);
        assert(s.drop_last().push(s.last()) =~= s);
    }
}

} // verus!
