//! Mean and standard deviation of integer samples, in exact arithmetic.
//!
//! Neither value is rounded here. The mean is handed out as the fraction
//! `sum / count`. The population standard deviation of `n` samples with
//! sum `t` and sum of squares `q` is `sqrt(n * q - t * t) / n`; it is
//! handed out as the radicand and `n`.

use vstd::prelude::*;

verus! {

/// The sum of the samples.
pub open spec fn total(s: Seq<i32>) -> int
    decreases s.len(),
{
    if s.len() == 0 {
        0
    } else {
        total(s.drop_last()) + s.last()
    }
}

/// The sum of the squares of the samples.
pub open spec fn total_squares(s: Seq<i32>) -> int
    decreases s.len(),
{
    if s.len() == 0 {
        0
    } else {
        total_squares(s.drop_last()) + s.last() * s.last()
    }
}

/// The sum, over the samples `x`, of `(a * x - b)` squared.
pub open spec fn squared_distances(s: Seq<i32>, a: int, b: int) -> int
    decreases s.len(),
{
    if s.len() == 0 {
        0
    } else {
        squared_distances(s.drop_last(), a, b) + (a * s.last() - b) * (a * s.last() - b)
    }
}

/// The population variance of the samples, times the square of their
/// number: `n * q - t * t`.
pub open spec fn spread(s: Seq<i32>) -> int {
    s.len() * total_squares(s) - total(s) * total(s)
}

/// An arithmetic mean, as the fraction `sum / count`.
#[derive(Clone, Copy, Debug, PartialEq, Eq, Structural)]
pub struct Mean {
    pub sum: i128,
    pub count: usize,
}

/// A population standard deviation: the square root of `radicand`,
/// divided by `count`.
#[derive(Clone, Copy, Debug, PartialEq, Eq, Structural)]
pub struct Deviation {
    pub radicand: u128,
    pub count: usize,
}

/// Appending a sample adds it to the sum and its square to the sum of
/// squares.
pub proof fn lemma_totals_push(s: Seq<i32>, x: i32)
    ensures
        total(s.push(x)) == total(s) + x,
        total_squares(s.push(x)) == total_squares(s) + x * x,
{
    assert(s.push(x).drop_last() =~= s);
}

/// Each sample lies within the range of `i32`, so the sum of `n` of them
/// lies within `n` times that range, and the sum of their squares within
/// `n` times its square.
pub proof fn lemma_totals_bounds(s: Seq<i32>)
    ensures
        -0x8000_0000 * s.len() <= total(s) <= 0x8000_0000 * s.len(),
        0 <= total_squares(s) <= 0x4000_0000_0000_0000 * s.len(),
    decreases s.len(),
{
    if s.len() > 0 {
        lemma_totals_bounds(s.drop_last());
        let x = s.last();
        assert(0 <= x * x <= 0x4000_0000_0000_0000) by (nonlinear_arith)
            requires
                -0x8000_0000 <= x <= 0x8000_0000,
        ;
    }
}

/// Taking one sample out takes it out of the sum, and its square out of
/// the sum of squares.
pub proof fn lemma_totals_remove(s: Seq<i32>, k: int)
    requires
        0 <= k < s.len(),
    ensures
        total(s) == total(s.remove(k)) + s[k],
        total_squares(s) == total_squares(s.remove(k)) + s[k] * s[k],
    decreases s.len(),
{
    if k == s.len() - 1 {
        assert(s.remove(k) =~= s.drop_last());
    } else {
        lemma_totals_remove(s.drop_last(), k);
        assert(s.remove(k).drop_last() =~= s.drop_last().remove(k));
        assert(s.remove(k).last() == s.last());
    }
}

/// The sums do not depend on the order of the samples: two sequences
/// that hold the same samples, each as often, have the same sum, the
/// same sum of squares and the same spread.
pub proof fn lemma_totals_reordered(a: Seq<i32>, b: Seq<i32>)
    requires
        a.to_multiset() == b.to_multiset(),
    ensures
        a.len() == b.len(),
        total(a) == total(b),
        total_squares(a) == total_squares(b),
        spread(a) == spread(b),
    decreases a.len(),
{
    vstd::seq_lib::to_multiset_len(a);
    vstd::seq_lib::to_multiset_len(b);
    if a.len() > 0 {
        let x = a.last();
        let front = a.drop_last();
        assert(front.push(x) =~= a);
        vstd::seq_lib::to_multiset_build(front, x);
        vstd::seq_lib::to_multiset_contains(b, x);
        assert(b.to_multiset().count(x) > 0);
        let k = choose|k: int| 0 <= k < b.len() && b[k] == x;
        vstd::seq_lib::to_multiset_remove(b, k);
        assert(front.to_multiset() =~= b.remove(k).to_multiset());
        lemma_totals_reordered(front, b.remove(k));
        lemma_totals_remove(b, k);
    }
}

/// The sum of the samples.
fn sum(data: &Vec<i32>) -> (t: i128)
    ensures
        t == total(data@),
{
    let n = data.len();
    let mut t: i128 = 0;
    let mut i: usize = 0;
    while i < n
        invariant
            n == data.len(),
            i <= n,
            t == total(data@.take(i as int)),
        decreases n - i,
    {
        proof {
            lemma_totals_bounds(data@.take(i as int));
            lemma_totals_push(data@.take(i as int), data@[i as int]);
            assert(data@.take(i as int).push(data@[i as int]) =~= data@.take(i + 1));
        }
        t = t + data[i] as i128;
        i += 1;
    }
    assert(data@.take(n as int) =~= data@);
    t
}

/// The arithmetic mean of the samples: their sum over their number.
/// There is none of no samples.
pub fn mean(data: &Vec<i32>) -> (r: Option<Mean>)
    ensures
        r is None <==> data@.len() == 0,
        r matches Some(m) ==> m.sum == total(data@) && m.count == data@.len(),
{
    let n = data.len();
    if n == 0 {
        return None;
    }
    let t = sum(data);
    Some(Mean { sum: t, count: n })
}

/// The sum of the squares of the samples.
fn sum_squares(data: &Vec<i32>) -> (q: i128)
    ensures
        q == total_squares(data@),
{
    let n = data.len();
    let mut q: i128 = 0;
    let mut i: usize = 0;
    while i < n
        invariant
            n == data.len(),
            i <= n,
            q == total_squares(data@.take(i as int)),
        decreases n - i,
    {
        let x = data[i] as i128;
        proof {
            lemma_totals_bounds(data@.take(i as int));
            lemma_totals_push(data@.take(i as int), data@[i as int]);
            assert(data@.take(i as int).push(data@[i as int]) =~= data@.take(i + 1));
            assert(0 <= x * x <= 0x4000_0000_0000_0000) by (nonlinear_arith)
                requires
                    -0x8000_0000 <= x <= 0x8000_0000,
            ;
        }
        q = q + x * x;
        i += 1;
    }
    assert(data@.take(n as int) =~= data@);
    q
}

/// The sum of the squares of `a * x - b` is a polynomial in the two sums
/// and the number of samples.
pub proof fn lemma_squared_distances_expand(s: Seq<i32>, a: int, b: int)
    ensures
        squared_distances(s, a, b) == a * a * total_squares(s) - 2 * a * b * total(s) + s.len() * b
            * b,
        squared_distances(s, a, b) >= 0,
    decreases s.len(),
{
    if s.len() > 0 {
        lemma_squared_distances_expand(s.drop_last(), a, b);
        let d0 = squared_distances(s.drop_last(), a, b);
        let q0 = total_squares(s.drop_last());
        let t0 = total(s.drop_last());
        let n0 = s.len() - 1;
        let x = s.last() as int;
        assert(d0 + (a * x - b) * (a * x - b) == a * a * (q0 + x * x) - 2 * a * b * (t0 + x) + (n0
            + 1) * b * b && (a * x - b) * (a * x - b) >= 0) by (nonlinear_arith)
            requires
                d0 == a * a * q0 - 2 * a * b * t0 + n0 * b * b,
        ;
    }
}

/// The spread is the textbook variance in whole numbers: with `n` samples
/// of sum `t`, the distance of a sample `x` from the mean is
/// `(n * x - t) / n`, and the squares of the numerators add up to `n`
/// times the spread. So the mean of the squared distances from the mean
/// is `spread / (n * n)`, and the spread is never negative.
pub proof fn lemma_spread_is_mean_squared_distance(s: Seq<i32>)
    ensures
        squared_distances(s, s.len() as int, total(s)) == s.len() * spread(s),
        spread(s) >= 0,
{
    let n = s.len() as int;
    let t = total(s);
    let q = total_squares(s);
    lemma_squared_distances_expand(s, n, t);
    let d = squared_distances(s, n, t);
    assert(d == n * (n * q - t * t)) by (nonlinear_arith)
        requires
            d == n * n * q - 2 * n * t * t + n * t * t,
    ;
    assert(n * q - t * t >= 0) by (nonlinear_arith)
        requires
            n * (n * q - t * t) >= 0,
            n >= 0,
            n == 0 ==> n * q - t * t == 0 - t * t,
            n == 0 ==> t == 0,
    ;
}

/// The population standard deviation of the samples: the square root of
/// the mean of the squared distances from the mean, given as the square
/// root of the spread over the number of samples. There is none of no
/// samples.
pub fn std_deviation(data: &Vec<i32>) -> (r: Option<Deviation>)
    requires
        data.len() <= u32::MAX,
    ensures
        r is None <==> data@.len() == 0,
        r matches Some(d) ==> d.radicand == spread(data@) && d.count == data@.len(),
{
    match mean(data) {
        Some(data_mean) => {
            let n = data_mean.count as i128;
            let t = data_mean.sum;
            let q = sum_squares(data);
            proof {
                lemma_totals_bounds(data@);
                lemma_spread_is_mean_squared_distance(data@);
                assert(0 <= n * q <= 0x4000_0000_0000_0000_0000_0000_0000_0000) by (nonlinear_arith)
                    requires
                        0 <= n <= 0x1_0000_0000,
                        0 <= q <= 0x4000_0000_0000_0000 * n,
                ;
                assert(0 <= t * t <= 0x4000_0000_0000_0000_0000_0000_0000_0000) by (nonlinear_arith)
                    requires
                        -0x8000_0000_0000_0000 <= t <= 0x8000_0000_0000_0000,
                ;
            }
            let radicand = n * q - t * t;
            Some(Deviation { radicand: radicand as u128, count: data_mean.count })
        },
        None => None,
    }
}

} // verus!
