//! Stable sorting, specified once and reused for ordering tasks by start
//! time and timespans by size.
//!
//! `stable_sort` is the mathematical insertion sort: an element is inserted
//! after every element it does not strictly precede, so ties keep their
//! original relative order. The executable sorts are proved to return
//! exactly `stable_sort` of their input.
use vstd::prelude::*;
use vstd::relations::sorted_by;

verus! {

/// Insert `x` into `s` after every element `e` with `leq(e, x)`:
/// the position a stable sort gives a newly arriving element.
pub open spec fn stable_insert<T>(s: Seq<T>, x: T, leq: spec_fn(T, T) -> bool) -> Seq<T>
    decreases s.len(),
{
    if s.len() > 0 && !leq(s.last(), x) {
        stable_insert(s.drop_last(), x, leq).push(s.last())
    } else {
        s.push(x)
    }
}

/// Stable insertion sort of `s` under `leq`.
pub open spec fn stable_sort<T>(s: Seq<T>, leq: spec_fn(T, T) -> bool) -> Seq<T>
    decreases s.len(),
{
    if s.len() == 0 {
        s
    } else {
        stable_insert(stable_sort(s.drop_last(), leq), s.last(), leq)
    }
}

/// The order is total in the sense insertion sort needs: any two values
/// compare one way or the other, and the order is transitive.
pub open spec fn usable_order<T>(leq: spec_fn(T, T) -> bool) -> bool {
    &&& forall|a: T, b: T| #[trigger] leq(a, b) || #[trigger] leq(b, a)
    &&& forall|a: T, b: T, c: T| #[trigger] leq(a, b) && #[trigger] leq(b, c) ==> leq(a, c)
}

pub proof fn lemma_stable_insert_ensures<T>(s: Seq<T>, x: T, leq: spec_fn(T, T) -> bool)
    requires
        usable_order(leq),
        sorted_by(s, leq),
    ensures
        sorted_by(stable_insert(s, x, leq), leq),
        stable_insert(s, x, leq).to_multiset() == s.to_multiset().insert(x),
        stable_insert(s, x, leq).len() == s.len() + 1,
    decreases s.len(),
{
    broadcast use vstd::seq_lib::group_to_multiset_ensures;

    let r = stable_insert(s, x, leq);
    if s.len() > 0 && !leq(s.last(), x) {
        let d = s.drop_last();
        assert(sorted_by(d, leq)) by {
            assert(forall|i: int, j: int|
                0 <= i < j < d.len() ==> leq(#[trigger] d[i], #[trigger] d[j]));
        }
        lemma_stable_insert_ensures(d, x, leq);
        let rd = stable_insert(d, x, leq);
        // every element of rd is an element of d or is x, hence leq s.last()
        assert forall|i: int| 0 <= i < rd.len() implies leq(#[trigger] rd[i], s.last()) by {
            assert(rd.to_multiset().count(rd[i]) > 0);
            if rd[i] == x {
                assert(leq(x, s.last()));
            } else {
                assert(d.to_multiset().count(rd[i]) > 0);
                assert(d.contains(rd[i]));
                let k = choose|k: int| 0 <= k < d.len() && d[k] == rd[i];
                assert(leq(s[k], s.last()));
            }
        }
        assert(sorted_by(r, leq)) by {
            assert(forall|i: int, j: int|
                0 <= i < j < r.len() ==> leq(#[trigger] r[i], #[trigger] r[j]));
        }
        assert(r.to_multiset() =~= s.to_multiset().insert(x)) by {
            assert(d.push(s.last()) =~= s);
        }
    } else {
        assert(r == s.push(x));
        if s.len() > 0 {
            assert forall|i: int| 0 <= i < s.len() implies leq(#[trigger] s[i], x) by {
                assert(leq(s[i], s.last()));
            }
        }
        assert(sorted_by(r, leq)) by {
            assert(forall|i: int, j: int|
                0 <= i < j < r.len() ==> leq(#[trigger] r[i], #[trigger] r[j]));
        }
    }
}

pub proof fn lemma_stable_sort_ensures<T>(s: Seq<T>, leq: spec_fn(T, T) -> bool)
    requires
        usable_order(leq),
    ensures
        sorted_by(stable_sort(s, leq), leq),
        stable_sort(s, leq).to_multiset() == s.to_multiset(),
        stable_sort(s, leq).len() == s.len(),
    decreases s.len(),
{
    broadcast use vstd::seq_lib::group_to_multiset_ensures;

    if s.len() == 0 {
        assert(sorted_by(stable_sort(s, leq), leq));
    } else {
        let d = s.drop_last();
        lemma_stable_sort_ensures(d, leq);
        lemma_stable_insert_ensures(stable_sort(d, leq), s.last(), leq);
        assert(d.push(s.last()) =~= s);
        assert(stable_sort(s, leq).to_multiset() =~= s.to_multiset());
    }
}

/// Two sorted sequences over the same multiset are the same sequence, as
/// long as the order has no ties between distinct elements present in them.
/// This is why one project's task list, however the export was permuted,
/// assembles into the same report.
pub proof fn lemma_sorted_unique<T>(s1: Seq<T>, s2: Seq<T>, leq: spec_fn(T, T) -> bool)
    requires
        usable_order(leq),
        sorted_by(s1, leq),
        sorted_by(s2, leq),
        s1.to_multiset() == s2.to_multiset(),
        forall|a: T, b: T|
            s1.contains(a) && s1.contains(b) && #[trigger] leq(a, b) && #[trigger] leq(b, a)
                ==> a == b,
    ensures
        s1 == s2,
    decreases s1.len(),
{
    broadcast use vstd::seq_lib::group_to_multiset_ensures;

    s1.to_multiset_ensures();
    s2.to_multiset_ensures();
    assert(s1.to_multiset().len() == s2.to_multiset().len());
    assert(s1.len() == s2.len());
    if s1.len() == 0 {
        assert(s1 =~= s2);
    } else {
        let x1 = s1.last();
        let x2 = s2.last();
        assert(s1.contains(x1));
        assert(s2.contains(x2));
        assert(s1.to_multiset().count(x2) > 0);
        assert(s1.contains(x2));
        // both lasts are maxima of the common multiset
        assert(leq(x2, x1)) by {
            let k = choose|k: int| 0 <= k < s1.len() && s1[k] == x2;
            if k < s1.len() - 1 {
                assert(leq(s1[k], s1[s1.len() - 1]));
            }
        }
        assert(leq(x1, x2)) by {
            assert(s2.to_multiset().count(x1) > 0);
            assert(s2.contains(x1));
            let k = choose|k: int| 0 <= k < s2.len() && s2[k] == x1;
            if k < s2.len() - 1 {
                assert(leq(s2[k], s2[s2.len() - 1]));
            }
        }
        assert(x1 == x2);
        let d1 = s1.drop_last();
        let d2 = s2.drop_last();
        assert(d1.to_multiset() =~= s1.to_multiset().remove(x1)) by {
            assert(s1.remove(s1.len() - 1) =~= d1);
        }
        assert(d2.to_multiset() =~= s2.to_multiset().remove(x2)) by {
            assert(s2.remove(s2.len() - 1) =~= d2);
        }
        assert(sorted_by(d1, leq)) by {
            assert(forall|i: int, j: int|
                0 <= i < j < d1.len() ==> leq(#[trigger] d1[i], #[trigger] d1[j]));
        }
        assert(sorted_by(d2, leq)) by {
            assert(forall|i: int, j: int|
                0 <= i < j < d2.len() ==> leq(#[trigger] d2[i], #[trigger] d2[j]));
        }
        assert forall|a: T| #[trigger] d1.contains(a) implies s1.contains(a) by {
            let k = choose|k: int| 0 <= k < d1.len() && d1[k] == a;
            assert(s1[k] == a);
        }
        lemma_sorted_unique(d1, d2, leq);
        assert(d1.push(x1) =~= s1);
        assert(d2.push(x2) =~= s2);
    }
}

/// The numeric order used for the median of timespans.
pub open spec fn i64_le() -> spec_fn(i64, i64) -> bool {
    |a: i64, b: i64| a <= b
}

/// Stable sort of machine integers, ascending.
pub fn sort_i64(v: Vec<i64>) -> (r: Vec<i64>)
    ensures
        r@ == stable_sort(v@, i64_le()),
{
    let mut v = v;
    let ghost orig = v@;
    let mut r: Vec<i64> = Vec::new();
    let mut i: usize = 0;
    proof {
        assert(orig.subrange(0, 0) =~= Seq::<i64>::empty());
    }
    while i < v.len()
        invariant
            i <= v@.len(),
            v@ == orig,
            r@ == stable_sort(orig.subrange(0, i as int), i64_le()),
        decreases v@.len() - i,
    {
        let x = v[i];
        let mut pos: usize = r.len();
        proof {
            assert(r@.subrange(0, pos as int) =~= r@);
            assert(r@.subrange(pos as int, r@.len() as int) =~= Seq::<i64>::empty());
            assert(stable_insert(r@.subrange(0, pos as int), x, i64_le())
                + r@.subrange(pos as int, r@.len() as int)
                =~= stable_insert(r@, x, i64_le()));
        }
        while pos > 0 && r[pos - 1] > x
            invariant
                pos <= r@.len(),
                stable_insert(r@.subrange(0, pos as int), x, i64_le())
                    + r@.subrange(pos as int, r@.len() as int)
                    == stable_insert(r@, x, i64_le()),
            decreases pos,
        {
            proof {
                let pre = r@.subrange(0, pos as int);
                let pre1 = r@.subrange(0, pos as int - 1);
                assert(pre.last() == r@[pos as int - 1]);
                assert(pre.drop_last() =~= pre1);
                assert(stable_insert(pre, x, i64_le())
                    == stable_insert(pre1, x, i64_le()).push(r@[pos as int - 1]));
                assert(stable_insert(pre1, x, i64_le()).push(r@[pos as int - 1])
                    + r@.subrange(pos as int, r@.len() as int)
                    =~= stable_insert(pre1, x, i64_le())
                    + r@.subrange(pos as int - 1, r@.len() as int));
            }
            pos = pos - 1;
        }
        proof {
            let pre = r@.subrange(0, pos as int);
            assert(stable_insert(pre, x, i64_le()) == pre.push(x));
            assert(pre.push(x) + r@.subrange(pos as int, r@.len() as int)
                =~= r@.insert(pos as int, x));
        }
        r.insert(pos, x);
        let ghost prefix = orig.subrange(0, i as int);
        proof {
            assert(orig.subrange(0, i as int + 1).drop_last() =~= prefix);
            assert(orig.subrange(0, i as int + 1).last() == orig[i as int]);
        }
        i = i + 1;
    }
    proof {
        assert(orig.subrange(0, orig.len() as int) =~= orig);
    }
    r
}

} // verus!
