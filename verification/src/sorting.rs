//! Stable sorting, specified as insertion sort over an ordering relation, with the
//! facts that the result is ordered and holds the same items.
use vstd::prelude::*;
use vstd::multiset::Multiset;

verus! {

/// `sorted` with `x` inserted after the last item that may precede it (`leq`), moving
/// only past items that may not.
pub open spec fn insert_sorted<T>(sorted: Seq<T>, x: T, leq: spec_fn(T, T) -> bool) -> Seq<T>
    decreases sorted.len(),
{
    if sorted.len() == 0 {
        seq![x]
    } else if leq(sorted.last(), x) {
        sorted.push(x)
    } else {
        insert_sorted(sorted.drop_last(), x, leq).push(sorted.last())
    }
}

/// A stable sort of `s` by `leq`: items inserted one by one in their input order.
pub open spec fn insertion_sort<T>(s: Seq<T>, leq: spec_fn(T, T) -> bool) -> Seq<T>
    decreases s.len(),
{
    if s.len() == 0 {
        s
    } else {
        insert_sorted(insertion_sort(s.drop_last(), leq), s.last(), leq)
    }
}

/// `leq` is total and transitive.
pub open spec fn total_preorder<T>(leq: spec_fn(T, T) -> bool) -> bool {
    &&& forall|a: T, b: T| #[trigger] leq(a, b) || leq(b, a)
    &&& forall|a: T, b: T, c: T| #[trigger] leq(a, b) && #[trigger] leq(b, c) ==> leq(a, c)
}

/// Every item may precede every later item.
pub open spec fn is_sorted<T>(s: Seq<T>, leq: spec_fn(T, T) -> bool) -> bool {
    forall|i: int, j: int| 0 <= i < j < s.len() ==> leq(#[trigger] s[i], #[trigger] s[j])
}

/// Where insertion puts `x`: after position `j - 1`, when the items from `j` on may not
/// precede it and the one before may.
pub proof fn lemma_insert_sorted_at<T>(s: Seq<T>, x: T, leq: spec_fn(T, T) -> bool, j: int)
    requires
        0 <= j <= s.len(),
        forall|k: int| j <= k < s.len() ==> !leq(#[trigger] s[k], x),
        j == 0 || leq(s[j - 1], x),
    ensures
        insert_sorted(s, x, leq) == s.take(j).push(x) + s.skip(j),
    decreases s.len(),
{
    if s.len() == 0 {
        assert(s.take(j).push(x) + s.skip(j) =~= seq![x]);
    } else if leq(s.last(), x) {
        assert(j == s.len());
        assert(s.take(j).push(x) + s.skip(j) =~= s.push(x));
    } else {
        lemma_insert_sorted_at(s.drop_last(), x, leq, j);
        assert(s.drop_last().take(j).push(x) + s.drop_last().skip(j) + seq![s.last()]
            =~= s.take(j).push(x) + s.skip(j));
    }
}

proof fn lemma_insert_sorted_props<T>(s: Seq<T>, x: T, leq: spec_fn(T, T) -> bool)
    requires
        total_preorder(leq),
        is_sorted(s, leq),
    ensures
        is_sorted(insert_sorted(s, x, leq), leq),
        insert_sorted(s, x, leq).to_multiset() == s.to_multiset().insert(x),
        insert_sorted(s, x, leq).len() == s.len() + 1,
    decreases s.len(),
{
    broadcast use vstd::seq_lib::group_to_multiset_ensures;
    let r = insert_sorted(s, x, leq);
    if s.len() == 0 {
        assert(s.to_multiset() =~= Multiset::empty());
    } else if leq(s.last(), x) {
        assert forall|i: int, j: int| 0 <= i < j < r.len() implies leq(
            #[trigger] r[i],
            #[trigger] r[j],
        ) by {
            if j == s.len() {
                if i < s.len() - 1 {
                    assert(leq(s[i], s[s.len() - 1]));
                }
            }
        }
    } else {
        let p = s.drop_last();
        assert(is_sorted(p, leq)) by {
            assert forall|i: int, j: int| 0 <= i < j < p.len() implies leq(
                #[trigger] p[i],
                #[trigger] p[j],
            ) by {
                assert(p[i] == s[i] && p[j] == s[j]);
            }
        }
        lemma_insert_sorted_props(p, x, leq);
        let q = insert_sorted(p, x, leq);
        assert(leq(x, s.last()));
        assert forall|k: int| 0 <= k < q.len() implies leq(#[trigger] q[k], s.last()) by {
            assert(q.to_multiset().count(q[k]) > 0);
            assert(q.to_multiset() == p.to_multiset().insert(x));
            if q[k] != x {
                assert(p.to_multiset().count(q[k]) > 0);
                assert(p.contains(q[k]));
                let m = choose|m: int| 0 <= m < p.len() && p[m] == q[k];
                assert(leq(s[m], s[s.len() - 1]));
            }
        }
        assert forall|i: int, j: int| 0 <= i < j < r.len() implies leq(
            #[trigger] r[i],
            #[trigger] r[j],
        ) by {
            if j == q.len() {
                assert(r[i] == q[i]);
            } else {
                assert(r[i] == q[i] && r[j] == q[j]);
            }
        }
        assert(s =~= p.push(s.last()));
        assert(s.to_multiset() == p.to_multiset().insert(s.last()));
        assert(r.to_multiset() == q.to_multiset().insert(s.last()));
        assert(r.to_multiset() =~= s.to_multiset().insert(x));
    }
}

/// A stable sort by a total preorder gives an ordered sequence with the same items.
pub proof fn lemma_insertion_sort_props<T>(s: Seq<T>, leq: spec_fn(T, T) -> bool)
    requires
        total_preorder(leq),
    ensures
        is_sorted(insertion_sort(s, leq), leq),
        insertion_sort(s, leq).to_multiset() == s.to_multiset(),
        insertion_sort(s, leq).len() == s.len(),
    decreases s.len(),
{
    broadcast use vstd::seq_lib::group_to_multiset_ensures;
    if s.len() > 0 {
        lemma_insertion_sort_props(s.drop_last(), leq);
        lemma_insert_sorted_props(insertion_sort(s.drop_last(), leq), s.last(), leq);
        assert(s =~= s.drop_last().push(s.last()));
    }
}

/// No two items of `s` have the same key.
pub open spec fn distinct_keys<T>(s: Seq<T>, key: spec_fn(T) -> Seq<char>) -> bool {
    forall|i: int, j: int|
        0 <= i < s.len() && 0 <= j < s.len() && i != j ==> key(#[trigger] s[i]) != key(
            #[trigger] s[j],
        )
}

/// Insertion puts `x` at some position of `sorted` and leaves the other items in order.
proof fn lemma_insert_sorted_split<T>(sorted: Seq<T>, x: T, leq: spec_fn(T, T) -> bool) -> (j: int)
    ensures
        0 <= j <= sorted.len(),
        insert_sorted(sorted, x, leq) == sorted.take(j).push(x) + sorted.skip(j),
    decreases sorted.len(),
{
    if sorted.len() == 0 {
        assert(sorted.take(0).push(x) + sorted.skip(0) =~= seq![x]);
        0
    } else if leq(sorted.last(), x) {
        let n = sorted.len() as int;
        assert(sorted.take(n).push(x) + sorted.skip(n) =~= sorted.push(x));
        n
    } else {
        let p = sorted.drop_last();
        let j = lemma_insert_sorted_split(p, x, leq);
        assert(p.take(j).push(x) + p.skip(j) + seq![sorted.last()] =~= sorted.take(j).push(x)
            + sorted.skip(j));
        j
    }
}

/// Sorting keeps the keys distinct, and every item of the result is an item of the
/// input.
pub proof fn lemma_insertion_sort_keys<T>(
    s: Seq<T>,
    leq: spec_fn(T, T) -> bool,
    key: spec_fn(T) -> Seq<char>,
)
    requires
        distinct_keys(s, key),
    ensures
        distinct_keys(insertion_sort(s, leq), key),
        insertion_sort(s, leq).len() == s.len(),
        forall|k: int|
            0 <= k < insertion_sort(s, leq).len() ==> exists|m: int|
                0 <= m < s.len() && #[trigger] insertion_sort(s, leq)[k] == s[m],
    decreases s.len(),
{
    if s.len() > 0 {
        let p = s.drop_last();
        let x = s.last();
        assert(distinct_keys(p, key)) by {
            assert forall|i: int, j: int|
                0 <= i < p.len() && 0 <= j < p.len() && i != j implies key(#[trigger] p[i])
                != key(#[trigger] p[j]) by {
                assert(p[i] == s[i] && p[j] == s[j]);
            }
        }
        lemma_insertion_sort_keys(p, leq, key);
        let q = insertion_sort(p, leq);
        let j = lemma_insert_sorted_split(q, x, leq);
        let r = insertion_sort(s, leq);
        assert(r == q.take(j).push(x) + q.skip(j));
        assert forall|k: int| 0 <= k < r.len() implies exists|m: int|
            0 <= m < s.len() && #[trigger] r[k] == s[m] by {
            if k < j {
                assert(r[k] == q[k]);
                let m = choose|m: int| 0 <= m < p.len() && q[k] == p[m];
                assert(s[m] == p[m]);
            } else if k == j {
                assert(r[k] == s[s.len() - 1]);
            } else {
                assert(r[k] == q[k - 1]);
                let m = choose|m: int| 0 <= m < p.len() && #[trigger] q[k - 1] == p[m];
                assert(s[m] == p[m]);
            }
        }
        assert forall|a: int, b: int|
            0 <= a < r.len() && 0 <= b < r.len() && a != b implies key(#[trigger] r[a]) != key(
            #[trigger] r[b],
        ) by {
            let ia = if a < j { a } else if a == j { -1 } else { a - 1 };
            let ib = if b < j { b } else if b == j { -1 } else { b - 1 };
            if ia >= 0 {
                assert(r[a] == q[ia]);
            } else {
                assert(r[a] == x);
            }
            if ib >= 0 {
                assert(r[b] == q[ib]);
            } else {
                assert(r[b] == x);
            }
            if ia >= 0 && ib >= 0 {
            } else if ia >= 0 {
                let m = choose|m: int| 0 <= m < p.len() && #[trigger] q[ia] == p[m];
                assert(p[m] == s[m]);
                assert(key(s[m]) != key(s[s.len() - 1]));
            } else if ib >= 0 {
                let m = choose|m: int| 0 <= m < p.len() && #[trigger] q[ib] == p[m];
                assert(p[m] == s[m]);
                assert(key(s[m]) != key(s[s.len() - 1]));
            }
        }
    }
}

} // verus!
