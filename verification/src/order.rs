//! Samples in ascending order.

use vstd::prelude::*;
use vstd::relations::{sorted_by, total_ordering};
use vstd::seq_lib::{lemma_multiset_commutative, lemma_sorted_unique, to_multiset_build};

verus! {

/// The order of the samples: less than or equal.
pub open spec fn at_most() -> spec_fn(i32, i32) -> bool {
    |a: i32, b: i32| a <= b
}

/// Whether no sample is followed by a smaller one.
pub open spec fn ascending(s: Seq<i32>) -> bool {
    forall|i: int, j: int| 0 <= i < j < s.len() ==> s[i] <= s[j]
}

/// The samples of `s`, each as often as in `s`, in ascending order.
pub open spec fn in_order(s: Seq<i32>) -> Seq<i32> {
    s.sort_by(at_most())
}

/// `in_order` keeps every sample, as often as it occurs, and puts them in
/// ascending order.
pub proof fn lemma_in_order(s: Seq<i32>)
    ensures
        ascending(in_order(s)),
        in_order(s).to_multiset() == s.to_multiset(),
        in_order(s).len() == s.len(),
{
    assert(total_ordering(at_most()));
    s.lemma_sort_by_ensures(at_most());
    let r = in_order(s);
    assert(ascending(r)) by {
        assert forall|i: int, j: int| 0 <= i < j < r.len() implies r[i] <= r[j] by {
            assert(at_most()(r[i], r[j]));
        }
    }
    vstd::seq_lib::to_multiset_len(s);
    vstd::seq_lib::to_multiset_len(r);
}

/// There is one ascending arrangement of given samples: an ascending
/// sequence that holds what `s` holds is `in_order(s)`.
pub proof fn lemma_ascending_is_in_order(r: Seq<i32>, s: Seq<i32>)
    requires
        ascending(r),
        r.to_multiset() == s.to_multiset(),
    ensures
        r == in_order(s),
{
    lemma_in_order(s);
    assert(total_ordering(at_most()));
    assert(sorted_by(r, at_most()));
    assert(sorted_by(in_order(s), at_most()));
    lemma_sorted_unique(r, in_order(s), at_most());
}

/// Merges two ascending vectors into one.
fn merge(a: &Vec<i32>, b: &Vec<i32>) -> (out: Vec<i32>)
    requires
        ascending(a@),
        ascending(b@),
    ensures
        ascending(out@),
        out@.to_multiset() == a@.to_multiset().add(b@.to_multiset()),
{
    let mut out: Vec<i32> = Vec::new();
    let mut i: usize = 0;
    let mut j: usize = 0;
    proof {
        let none = Seq::<i32>::empty();
        assert(a@.take(0) =~= none);
        assert(b@.take(0) =~= none);
        assert(none + none =~= none);
        lemma_multiset_commutative(none, none);
    }
    while i < a.len() || j < b.len()
        invariant
            i <= a.len(),
            j <= b.len(),
            ascending(a@),
            ascending(b@),
            ascending(out@),
            out@.to_multiset() == a@.take(i as int).to_multiset().add(
                b@.take(j as int).to_multiset(),
            ),
            forall|k: int| 0 <= k < out@.len() && i < a.len() ==> out@[k] <= a@[i as int],
            forall|k: int| 0 <= k < out@.len() && j < b.len() ==> out@[k] <= b@[j as int],
        decreases a.len() - i + b.len() - j,
    {
        let from_a = if i >= a.len() {
            false
        } else if j >= b.len() {
            true
        } else {
            a[i] <= b[j]
        };
        if from_a {
            let x = a[i];
            proof {
                to_multiset_build(out@, x);
                to_multiset_build(a@.take(i as int), x);
                assert(a@.take(i as int).push(x) =~= a@.take(i + 1));
            }
            out.push(x);
            i += 1;
        } else {
            let x = b[j];
            proof {
                to_multiset_build(out@, x);
                to_multiset_build(b@.take(j as int), x);
                assert(b@.take(j as int).push(x) =~= b@.take(j + 1));
            }
            out.push(x);
            j += 1;
        }
        assert(out@.to_multiset() =~= a@.take(i as int).to_multiset().add(
            b@.take(j as int).to_multiset(),
        ));
    }
    assert(a@.take(i as int) =~= a@);
    assert(b@.take(j as int) =~= b@);
    out
}

/// The samples of `v` from index `lo` up to `hi`, in ascending order.
fn sorted_range(v: &Vec<i32>, lo: usize, hi: usize) -> (out: Vec<i32>)
    requires
        lo <= hi <= v.len(),
    ensures
        ascending(out@),
        out@.to_multiset() == v@.subrange(lo as int, hi as int).to_multiset(),
    decreases hi - lo,
{
    if hi - lo <= 1 {
        let mut out: Vec<i32> = Vec::new();
        if hi - lo == 1 {
            out.push(v[lo]);
        }
        assert(out@ =~= v@.subrange(lo as int, hi as int));
        out
    } else {
        let mid = lo + (hi - lo) / 2;
        let left = sorted_range(v, lo, mid);
        let right = sorted_range(v, mid, hi);
        proof {
            lemma_multiset_commutative(
                v@.subrange(lo as int, mid as int),
                v@.subrange(mid as int, hi as int),
            );
            assert(v@.subrange(lo as int, mid as int) + v@.subrange(mid as int, hi as int)
                =~= v@.subrange(lo as int, hi as int));
        }
        merge(&left, &right)
    }
}

/// A copy of the samples in ascending order. `v` itself keeps the order
/// it has.
pub fn sorted(v: &Vec<i32>) -> (out: Vec<i32>)
    ensures
        out@ == in_order(v@),
{
    let out = sorted_range(v, 0, v.len());
    proof {
        assert(v@.subrange(0, v.len() as int) =~= v@);
        lemma_ascending_is_in_order(out@, v@);
    }
    out
}

} // verus!
