//! Stable sorting and removal of repeats, as mathematics.
//!
//! [`stable_sort`] says what a stable sort returns: it places each element,
//! in turn, behind every element that is not greater. The lemmas show that
//! the outcome is ordered, holds the same elements, and leaves an ordered
//! sequence as it is. [`without_repeats`] keeps the first of equal elements.

use vstd::prelude::*;

verus! {

/// `le` compares any two values, and does so transitively.
pub open spec fn total_preorder<A>(le: spec_fn(A, A) -> bool) -> bool {
    &&& forall|a: A, b: A| #[trigger] le(a, b) || #[trigger] le(b, a)
    &&& forall|a: A, b: A, c: A| #[trigger] le(a, b) && #[trigger] le(b, c) ==> le(a, c)
}

/// No element of `s` is followed by a smaller one.
pub open spec fn ordered<A>(s: Seq<A>, le: spec_fn(A, A) -> bool) -> bool {
    forall|i: int, j: int| 0 <= i < j < s.len() ==> le(#[trigger] s[i], #[trigger] s[j])
}

/// `s` with `e` placed behind the last element that is not greater than `e`.
pub open spec fn stable_insert<A>(s: Seq<A>, e: A, le: spec_fn(A, A) -> bool) -> Seq<A>
    decreases s.len(),
{
    if s.len() == 0 || le(s.last(), e) {
        s.push(e)
    } else {
        stable_insert(s.drop_last(), e, le).push(s.last())
    }
}

/// `s` sorted by `le`, equal elements in the order in which they stood.
pub open spec fn stable_sort<A>(s: Seq<A>, le: spec_fn(A, A) -> bool) -> Seq<A>
    decreases s.len(),
{
    if s.len() == 0 {
        s
    } else {
        stable_insert(stable_sort(s.drop_last(), le), s.last(), le)
    }
}

/// `s` with every element removed that equals an earlier one.
pub open spec fn without_repeats<A>(s: Seq<A>) -> Seq<A>
    decreases s.len(),
{
    if s.len() == 0 {
        s
    } else if s.drop_last().contains(s.last()) {
        without_repeats(s.drop_last())
    } else {
        without_repeats(s.drop_last()).push(s.last())
    }
}

/// Where [`stable_insert`] puts the element: at `p`, if everything from `p`
/// on is greater and the element before `p` is not.
pub proof fn lemma_insert_at<A>(s: Seq<A>, e: A, le: spec_fn(A, A) -> bool, p: int)
    requires
        0 <= p <= s.len(),
        forall|j: int| p <= j < s.len() ==> !le(#[trigger] s[j], e),
        p == 0 || le(s[p - 1], e),
    ensures
        stable_insert(s, e, le) == s.insert(p, e),
    decreases s.len() - p,
{
    if p == s.len() {
        assert(s.insert(p, e) =~= s.push(e));
    } else {
        let t = s.drop_last();
        assert(!le(s[s.len() - 1], e));
        assert forall|j: int| p <= j < t.len() implies !le(#[trigger] t[j], e) by {
            assert(t[j] == s[j]);
        }
        lemma_insert_at(t, e, le, p);
        assert(t.insert(p, e).push(s.last()) =~= s.insert(p, e));
    }
}

/// Inserting adds one element and keeps the others.
pub proof fn lemma_insert_multiset<A>(s: Seq<A>, e: A, le: spec_fn(A, A) -> bool)
    ensures
        stable_insert(s, e, le).len() == s.len() + 1,
        stable_insert(s, e, le).to_multiset() == s.to_multiset().insert(e),
    decreases s.len(),
{
    broadcast use vstd::seq_lib::group_to_multiset_ensures;

    if s.len() == 0 || le(s.last(), e) {
    } else {
        let t = s.drop_last();
        lemma_insert_multiset(t, e, le);
        assert(t.push(s.last()) =~= s);
        assert(stable_insert(s, e, le).to_multiset() =~= s.to_multiset().insert(e));
    }
}

/// Inserting into an ordered sequence leaves it ordered.
pub proof fn lemma_insert_ordered<A>(s: Seq<A>, e: A, le: spec_fn(A, A) -> bool)
    requires
        total_preorder(le),
        ordered(s, le),
    ensures
        ordered(stable_insert(s, e, le), le),
    decreases s.len(),
{
    if s.len() == 0 || le(s.last(), e) {
        let r = s.push(e);
        assert forall|i: int, j: int| 0 <= i < j < r.len() implies le(
            #[trigger] r[i],
            #[trigger] r[j],
        ) by {
            if j == s.len() {
                if i < s.len() - 1 {
                    assert(le(s[i], s[s.len() - 1]));
                }
            }
        }
    } else {
        let t = s.drop_last();
        assert(ordered(t, le)) by {
            assert forall|i: int, j: int| 0 <= i < j < t.len() implies le(
                #[trigger] t[i],
                #[trigger] t[j],
            ) by {
                assert(t[i] == s[i] && t[j] == s[j]);
            }
        }
        lemma_insert_ordered(t, e, le);
        lemma_insert_members(t, e, le);
        let u = stable_insert(t, e, le);
        let r = u.push(s.last());
        assert(le(e, s.last()));
        assert forall|i: int, j: int| 0 <= i < j < r.len() implies le(
            #[trigger] r[i],
            #[trigger] r[j],
        ) by {
            if j == u.len() {
                if u[i] != e {
                    let k = choose|k: int| 0 <= k < t.len() && t[k] == u[i];
                    assert(t[k] == s[k]);
                    assert(le(s[k], s[s.len() - 1]));
                }
            }
        }
    }
}

/// Every element of the outcome of [`stable_insert`] is the new element or an
/// old one.
pub proof fn lemma_insert_members<A>(s: Seq<A>, e: A, le: spec_fn(A, A) -> bool)
    ensures
        forall|i: int|
            0 <= i < stable_insert(s, e, le).len() ==> #[trigger] stable_insert(s, e, le)[i] == e
                || exists|k: int| 0 <= k < s.len() && s[k] == stable_insert(s, e, le)[i],
    decreases s.len(),
{
    let r = stable_insert(s, e, le);
    if s.len() == 0 || le(s.last(), e) {
        assert forall|i: int| 0 <= i < r.len() implies #[trigger] r[i] == e || exists|k: int|
            0 <= k < s.len() && s[k] == r[i] by {
            if i < s.len() {
                assert(s[i] == r[i]);
            }
        }
    } else {
        let t = s.drop_last();
        lemma_insert_members(t, e, le);
        let u = stable_insert(t, e, le);
        assert forall|i: int| 0 <= i < r.len() implies #[trigger] r[i] == e || exists|k: int|
            0 <= k < s.len() && s[k] == r[i] by {
            if i < u.len() {
                if u[i] != e {
                    let k = choose|k: int| 0 <= k < t.len() && t[k] == u[i];
                    assert(s[k] == r[i]);
                }
            } else {
                assert(s[s.len() - 1] == r[i]);
            }
        }
    }
}

/// A stable sort returns an ordered sequence with the elements it was given.
pub proof fn lemma_sort_properties<A>(s: Seq<A>, le: spec_fn(A, A) -> bool)
    requires
        total_preorder(le),
    ensures
        ordered(stable_sort(s, le), le),
        stable_sort(s, le).len() == s.len(),
        stable_sort(s, le).to_multiset() == s.to_multiset(),
    decreases s.len(),
{
    broadcast use vstd::seq_lib::group_to_multiset_ensures;

    if s.len() > 0 {
        let t = s.drop_last();
        lemma_sort_properties(t, le);
        lemma_insert_ordered(stable_sort(t, le), s.last(), le);
        lemma_insert_multiset(stable_sort(t, le), s.last(), le);
        assert(t.push(s.last()) =~= s);
    }
}

/// Sorting an ordered sequence changes nothing.
pub proof fn lemma_sort_of_ordered<A>(s: Seq<A>, le: spec_fn(A, A) -> bool)
    requires
        ordered(s, le),
    ensures
        stable_sort(s, le) == s,
    decreases s.len(),
{
    if s.len() > 0 {
        let t = s.drop_last();
        assert(ordered(t, le)) by {
            assert forall|i: int, j: int| 0 <= i < j < t.len() implies le(
                #[trigger] t[i],
                #[trigger] t[j],
            ) by {
                assert(t[i] == s[i] && t[j] == s[j]);
            }
        }
        lemma_sort_of_ordered(t, le);
        if t.len() > 0 {
            assert(t.last() == s[s.len() - 2]);
            assert(le(s[s.len() - 2], s[s.len() - 1]));
        }
        assert(t.push(s.last()) =~= s);
    }
}

/// What [`without_repeats`] keeps: each element of `s` once, in the order of
/// first appearance.
pub proof fn lemma_without_repeats<A>(s: Seq<A>)
    ensures
        without_repeats(s).no_duplicates(),
        without_repeats(s).len() <= s.len(),
        forall|a: A| #[trigger] without_repeats(s).contains(a) <==> s.contains(a),
        s.no_duplicates() ==> without_repeats(s) == s,
    decreases s.len(),
{
    if s.len() > 0 {
        let t = s.drop_last();
        let x = s.last();
        lemma_without_repeats(t);
        let r = without_repeats(s);
        let u = without_repeats(t);
        assert(t.push(x) =~= s);
        assert forall|a: A| #[trigger] r.contains(a) <==> s.contains(a) by {
            if s.contains(a) {
                let i = choose|i: int| 0 <= i < s.len() && s[i] == a;
                if i < t.len() {
                    assert(t[i] == a);
                    assert(t.contains(a));
                    assert(u.contains(a));
                    let k = choose|k: int| 0 <= k < u.len() && u[k] == a;
                    assert(r[k] == a);
                } else {
                    if t.contains(x) {
                        assert(u.contains(x));
                    } else {
                        assert(r[r.len() - 1] == x);
                    }
                }
            }
            if r.contains(a) {
                let k = choose|k: int| 0 <= k < r.len() && r[k] == a;
                if k < u.len() {
                    assert(u[k] == a);
                    assert(u.contains(a));
                    assert(t.contains(a));
                    let i = choose|i: int| 0 <= i < t.len() && t[i] == a;
                    assert(s[i] == a);
                } else {
                    assert(s[s.len() - 1] == a);
                }
            }
        }
        if !t.contains(x) {
            assert(!u.contains(x));
            assert forall|i: int, j: int| 0 <= i < j < r.len() implies r[i] != r[j] by {
                if j == u.len() {
                    assert(u[i] == r[i]);
                    assert(u.contains(r[i]));
                }
            }
        }
        if s.no_duplicates() {
            assert(t.no_duplicates());
            if t.contains(x) {
                let i = choose|i: int| 0 <= i < t.len() && t[i] == x;
                assert(s[i] == s[s.len() - 1]);
            }
        }
    }
}

/// Removing repeats from an ordered sequence leaves it ordered.
pub proof fn lemma_without_repeats_ordered<A>(s: Seq<A>, le: spec_fn(A, A) -> bool)
    requires
        ordered(s, le),
    ensures
        ordered(without_repeats(s), le),
    decreases s.len(),
{
    if s.len() > 0 {
        let t = s.drop_last();
        let x = s.last();
        assert(ordered(t, le)) by {
            assert forall|i: int, j: int| 0 <= i < j < t.len() implies le(
                #[trigger] t[i],
                #[trigger] t[j],
            ) by {
                assert(t[i] == s[i] && t[j] == s[j]);
            }
        }
        lemma_without_repeats_ordered(t, le);
        lemma_without_repeats(t);
        let u = without_repeats(t);
        let r = without_repeats(s);
        if !t.contains(x) {
            assert forall|i: int, j: int| 0 <= i < j < r.len() implies le(
                #[trigger] r[i],
                #[trigger] r[j],
            ) by {
                if j == u.len() {
                    assert(u.contains(u[i]));
                    assert(t.contains(u[i]));
                    let k = choose|k: int| 0 <= k < t.len() && t[k] == u[i];
                    assert(s[k] == u[i]);
                    assert(le(s[k], s[s.len() - 1]));
                }
            }
        }
    }
}

} // verus!
