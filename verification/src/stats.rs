//! Sums, means, extremes and variances of sequences of quantities in millionths.

use vstd::prelude::*;

verus! {

/// The sum of the values.
pub open spec fn total(s: Seq<u32>) -> int
    decreases s.len(),
{
    if s.len() == 0 {
        0
    } else {
        total(s.drop_last()) + s.last()
    }
}

/// The mean of the values, rounded down; zero for no values.
pub open spec fn mean(s: Seq<u32>) -> int {
    if s.len() == 0 {
        0
    } else {
        total(s) / (s.len() as int)
    }
}

/// The least of the values; for no values, no particular number.
pub open spec fn least(s: Seq<u32>) -> int
    decreases s.len(),
{
    if s.len() <= 1 {
        s[0] as int
    } else if least(s.drop_last()) <= s.last() {
        least(s.drop_last())
    } else {
        s.last() as int
    }
}

/// The greatest of the values; for no values, no particular number.
pub open spec fn greatest(s: Seq<u32>) -> int
    decreases s.len(),
{
    if s.len() <= 1 {
        s[0] as int
    } else if greatest(s.drop_last()) >= s.last() {
        greatest(s.drop_last())
    } else {
        s.last() as int
    }
}

/// The sum of the squared distances of the values from `center`.
pub open spec fn squared_deviations(s: Seq<u32>, center: int) -> int
    decreases s.len(),
{
    if s.len() == 0 {
        0
    } else {
        squared_deviations(s.drop_last(), center) + (s.last() - center) * (s.last() - center)
    }
}

/// The population variance of values in millionths, itself in millionths and rounded
/// down: the mean squared distance from the mean. Zero for no values.
pub open spec fn variance(s: Seq<u32>) -> int {
    if s.len() == 0 {
        0
    } else {
        squared_deviations(s, mean(s)) / (s.len() as int) / 1_000_000
    }
}

/// A sum lies between zero and the number of values times the greatest value a `u32`
/// can hold.
pub proof fn lemma_total_bounds(s: Seq<u32>)
    ensures
        0 <= total(s) <= s.len() * 0xFFFF_FFFF,
    decreases s.len(),
{
    if s.len() > 0 {
        lemma_total_bounds(s.drop_last());
        assert(s.len() * 0xFFFF_FFFF == s.drop_last().len() * 0xFFFF_FFFF + 0xFFFF_FFFF)
            by (nonlinear_arith)
            requires
                s.len() == s.drop_last().len() + 1,
        ;
    }
}

/// The mean of values lies between zero and the greatest value a `u32` can hold.
pub proof fn lemma_mean_bounds(s: Seq<u32>)
    ensures
        0 <= mean(s) <= 0xFFFF_FFFF,
{
    lemma_total_bounds(s);
    if s.len() > 0 {
        let n = s.len() as int;
        let t = total(s);
        assert(0 <= t / n <= 0xFFFF_FFFF) by (nonlinear_arith)
            requires
                0 <= t <= n * 0xFFFF_FFFF,
                n > 0,
        ;
    }
}

/// The least value is one of the values and none is below it; the greatest is one of
/// them and none is above it.
pub proof fn lemma_extremes(s: Seq<u32>)
    requires
        s.len() > 0,
    ensures
        forall|i: int| 0 <= i < s.len() ==> least(s) <= #[trigger] s[i] <= greatest(s),
        exists|i: int| 0 <= i < s.len() && s[i] == least(s),
        exists|i: int| 0 <= i < s.len() && s[i] == greatest(s),
    decreases s.len(),
{
    if s.len() > 1 {
        let front = s.drop_last();
        lemma_extremes(front);
        let lo = choose|i: int| 0 <= i < front.len() && front[i] == least(front);
        let hi = choose|i: int| 0 <= i < front.len() && front[i] == greatest(front);
        assert(s[lo] == front[lo]);
        assert(s[hi] == front[hi]);
        assert(s[s.len() - 1] == s.last());
        assert forall|i: int| 0 <= i < s.len() implies least(s) <= #[trigger] s[i] <= greatest(
            s,
        ) by {
            if i < front.len() {
                assert(s[i] == front[i]);
            }
        }
    } else {
        assert(s[0] == least(s));
    }
}

/// Computes `total(v)`.
pub fn sum_of(v: &Vec<u32>) -> (r: u128)
    ensures
        r == total(v@),
{
    let mut acc: u128 = 0;
    let mut i: usize = 0;
    while i < v.len()
        invariant
            i <= v.len(),
            acc == total(v@.take(i as int)),
            acc <= i * 0xFFFF_FFFF,
        decreases v.len() - i,
    {
        proof {
            assert(v@.take(i as int + 1).drop_last() == v@.take(i as int));
            assert((i + 1) * 0xFFFF_FFFF == i * 0xFFFF_FFFF + 0xFFFF_FFFF) by (nonlinear_arith);
            assert(i * 0xFFFF_FFFF <= 0xFFFF_FFFF_FFFF_FFFF * 0xFFFF_FFFF) by (nonlinear_arith)
                requires
                    i <= 0xFFFF_FFFF_FFFF_FFFF,
            ;
        }
        acc = acc + v[i] as u128;
        i = i + 1;
    }
    proof {
        assert(v@.take(v.len() as int) == v@);
    }
    acc
}

/// Computes `mean(v)`.
pub fn mean_of(v: &Vec<u32>) -> (r: u32)
    ensures
        r == mean(v@),
{
    if v.len() == 0 {
        return 0;
    }
    let sum: u128 = sum_of(v);
    proof {
        lemma_mean_bounds(v@);
    }
    (sum / v.len() as u128) as u32
}

/// Computes `least(v)`.
pub fn min_of(v: &Vec<u32>) -> (r: u32)
    requires
        v.len() > 0,
    ensures
        r == least(v@),
{
    let mut best: u32 = v[0];
    let mut i: usize = 1;
    proof {
        assert(v@.take(1).len() == 1);
    }
    while i < v.len()
        invariant
            1 <= i <= v.len(),
            best == least(v@.take(i as int)),
        decreases v.len() - i,
    {
        proof {
            assert(v@.take(i as int + 1).drop_last() == v@.take(i as int));
        }
        if v[i] < best {
            best = v[i];
        }
        i = i + 1;
    }
    proof {
        assert(v@.take(v.len() as int) == v@);
    }
    best
}

/// Computes `greatest(v)`.
pub fn max_of(v: &Vec<u32>) -> (r: u32)
    requires
        v.len() > 0,
    ensures
        r == greatest(v@),
{
    let mut best: u32 = v[0];
    let mut i: usize = 1;
    proof {
        assert(v@.take(1).len() == 1);
    }
    while i < v.len()
        invariant
            1 <= i <= v.len(),
            best == greatest(v@.take(i as int)),
        decreases v.len() - i,
    {
        proof {
            assert(v@.take(i as int + 1).drop_last() == v@.take(i as int));
        }
        if v[i] > best {
            best = v[i];
        }
        i = i + 1;
    }
    proof {
        assert(v@.take(v.len() as int) == v@);
    }
    best
}

/// Computes `variance(v)`.
pub fn variance_of(v: &Vec<u32>) -> (r: u64)
    ensures
        r == variance(v@),
{
    if v.len() == 0 {
        return 0;
    }
    let center: u32 = mean_of(v);
    let mut acc: u128 = 0;
    let mut i: usize = 0;
    while i < v.len()
        invariant
            i <= v.len(),
            acc == squared_deviations(v@.take(i as int), center as int),
            acc <= i * (0xFFFF_FFFF * 0xFFFF_FFFF),
        decreases v.len() - i,
    {
        let d: u64 = if v[i] >= center {
            (v[i] - center) as u64
        } else {
            (center - v[i]) as u64
        };
        proof {
            assert(v@.take(i as int + 1).drop_last() == v@.take(i as int));
            assert(d * d == (v[i as int] - center) * (v[i as int] - center)) by (nonlinear_arith)
                requires
                    d == v[i as int] - center || d == center - v[i as int],
            ;
            assert(d * d <= 0xFFFF_FFFF * 0xFFFF_FFFF) by (nonlinear_arith)
                requires
                    0 <= d <= 0xFFFF_FFFF,
            ;
            assert((i + 1) * (0xFFFF_FFFF * 0xFFFF_FFFF) == i * (0xFFFF_FFFF * 0xFFFF_FFFF)
                + 0xFFFF_FFFF * 0xFFFF_FFFF) by (nonlinear_arith);
            assert(i * (0xFFFF_FFFF * 0xFFFF_FFFF) <= 0xFFFF_FFFF_FFFF_FFFF * (0xFFFF_FFFF
                * 0xFFFF_FFFF)) by (nonlinear_arith)
                requires
                    i <= 0xFFFF_FFFF_FFFF_FFFF,
            ;
        }
        acc = acc + (d * d) as u128;
        i = i + 1;
    }
    proof {
        assert(v@.take(v.len() as int) == v@);
        let n = v.len() as int;
        let a = acc as int;
        assert(0 <= a / n <= 18446744065119617025) by (nonlinear_arith)
            requires
                0 <= a <= n * 18446744065119617025,
                n > 0,
        ;
    }
    let spread: u128 = acc / v.len() as u128;
    (spread / 1_000_000) as u64
}

} // verus!
