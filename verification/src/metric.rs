//! The distance between two colors: squared Euclidean, or Minkowski with any
//! positive exponent.

use crate::color::Color;
use crate::error::Error;
use crate::natural::Natural;
use vstd::arithmetic::power::{lemma_pow0, lemma_pow1, lemma_pow_increases, pow};
use vstd::prelude::*;

verus! {

/// The largest Minkowski exponent whose scores fit in 128 bits: the sum of
/// three `p`-th powers of 16-bit gaps does up to this exponent, and not
/// beyond it. Scores with larger exponents are computed as [`Natural`]s.
pub const WIDEST_FAST_EXPONENT: u32 = 7;

/// How the dissimilarity of two colors is scored.
#[derive(Clone, Copy, Debug, PartialEq, Eq, Structural)]
pub enum Metric {
    /// The sum over the channels of the squared gap.
    SquaredEuclidean,
    /// The Minkowski distance with the given exponent: 1 is the Manhattan
    /// distance, 2 the Euclidean distance, and larger exponents lean towards
    /// the largest gap alone, the Chebyshev distance.
    Minkowski(u32),
}

/// The absolute difference of two channel intensities.
pub open spec fn gap(x: u16, y: u16) -> nat {
    if x >= y {
        (x - y) as nat
    } else {
        (y - x) as nat
    }
}

/// The squared Euclidean distance of two colors.
pub open spec fn squared_euclidean(a: Color, b: Color) -> nat {
    gap(a.r, b.r) * gap(a.r, b.r) + gap(a.g, b.g) * gap(a.g, b.g) + gap(a.b, b.b) * gap(a.b, b.b)
}

/// The Minkowski distance of two colors, raised to its exponent `p`: the sum
/// over the channels of the `p`-th power of the gap. The distance itself is
/// the `p`-th root of this sum, an increasing function of it, so two sums
/// compare as the two distances do.
pub open spec fn minkowski_sum(a: Color, b: Color, p: nat) -> nat {
    (pow(gap(a.r, b.r) as int, p) + pow(gap(a.g, b.g) as int, p) + pow(
        gap(a.b, b.b) as int,
        p,
    )) as nat
}

/// The largest of the three channel gaps: the Chebyshev distance.
pub open spec fn largest_gap(a: Color, b: Color) -> nat {
    let r = gap(a.r, b.r);
    let g = gap(a.g, b.g);
    let b = gap(a.b, b.b);
    if r >= g && r >= b {
        r
    } else if g >= b {
        g
    } else {
        b
    }
}

impl Metric {
    /// Whether the metric is defined: a Minkowski distance is for every
    /// exponent but zero.
    pub open spec fn valid(self) -> bool {
        match self {
            Metric::SquaredEuclidean => true,
            Metric::Minkowski(p) => p >= 1,
        }
    }

    /// Whether every score of the metric fits in 128 bits.
    pub open spec fn fast(self) -> bool {
        match self {
            Metric::SquaredEuclidean => true,
            Metric::Minkowski(p) => p <= WIDEST_FAST_EXPONENT,
        }
    }

    /// The score that the metric gives to a pair of colors.
    pub open spec fn measure(self, a: Color, b: Color) -> nat {
        match self {
            Metric::SquaredEuclidean => squared_euclidean(a, b),
            Metric::Minkowski(p) => minkowski_sum(a, b, p as nat),
        }
    }

    /// Tells whether the metric is defined.
    pub fn is_valid(&self) -> (ok: bool)
        ensures
            ok == self.valid(),
    {
        match self {
            Metric::SquaredEuclidean => true,
            Metric::Minkowski(p) => *p >= 1,
        }
    }

    /// Tells whether every score of the metric fits in 128 bits.
    pub fn is_fast(&self) -> (ok: bool)
        ensures
            ok == self.fast(),
    {
        match self {
            Metric::SquaredEuclidean => true,
            Metric::Minkowski(p) => *p <= WIDEST_FAST_EXPONENT,
        }
    }

    /// Scores the dissimilarity of two colors.
    pub fn score(&self, a: &Color, b: &Color) -> (d: Natural)
        ensures
            d@ == self.measure(*a, *b),
    {
        match self {
            Metric::SquaredEuclidean => Natural::from_u128(distance(a, b) as u128),
            Metric::Minkowski(p) => {
                if *p <= WIDEST_FAST_EXPONENT {
                    Natural::from_u128(power_sum(a, b, *p))
                } else {
                    wide_power_sum(a, b, *p)
                }
            },
        }
    }

    /// Scores the dissimilarity of two colors in 128 bits.
    pub fn fast_score(&self, a: &Color, b: &Color) -> (d: u128)
        requires
            self.fast(),
        ensures
            d == self.measure(*a, *b),
    {
        match self {
            Metric::SquaredEuclidean => distance(a, b) as u128,
            Metric::Minkowski(p) => power_sum(a, b, *p),
        }
    }
}

fn channel_gap(x: u16, y: u16) -> (d: u16)
    ensures
        d == gap(x, y),
{
    if x >= y {
        x - y
    } else {
        y - x
    }
}

/// The `p`-th power of a gap stays below 2^112 up to the widest fast
/// exponent.
proof fn lemma_power_bound(x: nat, i: nat)
    requires
        x <= 65535,
        i <= WIDEST_FAST_EXPONENT,
    ensures
        0 <= pow(x as int, i) <= pow(65535, i) <= 0x1_0000_0000_0000_0000_0000_0000_0000,
    decreases i,
{
    reveal(pow);
    if i == 0 {
    } else {
        lemma_power_bound(x, (i - 1) as nat);
        let below = pow(x as int, (i - 1) as nat);
        let limit = pow(65535, (i - 1) as nat);
        assert(below * x <= limit * 65535) by (nonlinear_arith)
            requires
                0 <= below <= limit,
                0 <= x <= 65535,
        ;
        assert(0 <= x * below) by (nonlinear_arith)
            requires
                0 <= below,
                0 <= x,
        ;
        assert(x * below == below * x) by (nonlinear_arith);
        assert(pow(65535, i) == 65535 * limit);
        assert(limit * 65535 == 65535 * limit) by (nonlinear_arith);
        lemma_pow_increases(65535, i, 7);
        assert(pow(65535, 7) <= 0x1_0000_0000_0000_0000_0000_0000_0000) by {
            reveal_with_fuel(pow, 8);
        }
    }
}

fn power(x: u16, p: u32) -> (y: u128)
    requires
        p <= WIDEST_FAST_EXPONENT,
    ensures
        y == pow(x as int, p as nat),
        y <= 0x1_0000_0000_0000_0000_0000_0000_0000,
{
    let mut y: u128 = 1;
    let mut i: u32 = 0;
    proof {
        lemma_pow0(x as int);
    }
    while i < p
        invariant
            i <= p <= WIDEST_FAST_EXPONENT,
            y == pow(x as int, i as nat),
        decreases p - i,
    {
        proof {
            lemma_power_bound(x as nat, i as nat);
            lemma_power_bound(x as nat, (i + 1) as nat);
            reveal(pow);
            assert(pow(x as int, (i + 1) as nat) == x * pow(x as int, i as nat));
            assert(y * x == x * y) by (nonlinear_arith);
        }
        y = y * (x as u128);
        i = i + 1;
    }
    proof {
        lemma_power_bound(x as nat, p as nat);
    }
    y
}

fn power_sum(a: &Color, b: &Color, p: u32) -> (d: u128)
    requires
        p <= WIDEST_FAST_EXPONENT,
    ensures
        d == minkowski_sum(*a, *b, p as nat),
{
    let r = power(channel_gap(a.r, b.r), p);
    let g = power(channel_gap(a.g, b.g), p);
    let b = power(channel_gap(a.b, b.b), p);
    r + g + b
}

fn wide_power(x: u16, p: u32) -> (y: Natural)
    ensures
        y@ == pow(x as int, p as nat),
{
    let mut y = Natural::from_u128(1);
    let mut i: u32 = 0;
    proof {
        lemma_pow0(x as int);
    }
    while i < p
        invariant
            i <= p,
            y@ == pow(x as int, i as nat),
        decreases p - i,
    {
        proof {
            reveal(pow);
            assert(pow(x as int, (i + 1) as nat) == x * pow(x as int, i as nat));
            assert(y@ * x == x * y@) by (nonlinear_arith);
        }
        y = y.times(x as u32);
        i = i + 1;
    }
    y
}

fn wide_power_sum(a: &Color, b: &Color, p: u32) -> (d: Natural)
    ensures
        d@ == minkowski_sum(*a, *b, p as nat),
{
    let r = wide_power(channel_gap(a.r, b.r), p);
    let g = wide_power(channel_gap(a.g, b.g), p);
    let b = wide_power(channel_gap(a.b, b.b), p);
    r.plus(&g).plus(&b)
}

/// The squared Euclidean distance of two colors.
pub fn distance(to: &Color, from: &Color) -> (d: u64)
    ensures
        d == squared_euclidean(*to, *from),
{
    let r = channel_gap(to.r, from.r) as u64;
    let g = channel_gap(to.g, from.g) as u64;
    let b = channel_gap(to.b, from.b) as u64;
    assert(r * r <= 65535 * 65535 && g * g <= 65535 * 65535 && b * b <= 65535 * 65535)
        by (nonlinear_arith)
        requires
            r <= 65535,
            g <= 65535,
            b <= 65535,
    ;
    r * r + g * g + b * b
}

/// The Minkowski distance of two colors with exponent `p`, raised to `p`.
/// An exponent of zero is refused with `InvalidParameter`.
pub fn minkowski_distance(to: &Color, from: &Color, p: u32) -> (d: Result<Natural, Error>)
    ensures
        p == 0 ==> d is Err && d->Err_0 == Error::InvalidParameter,
        p >= 1 ==> d is Ok && d->Ok_0@ == minkowski_sum(*to, *from, p as nat),
{
    if p == 0 {
        return Err(Error::InvalidParameter);
    }
    Ok(Metric::Minkowski(p).score(to, from))
}

/// Every metric scores a color against itself as zero and is symmetric.
pub proof fn lemma_measure_metric(metric: Metric, a: Color, b: Color)
    requires
        metric.valid(),
    ensures
        metric.measure(a, a) == 0,
        metric.measure(a, b) == metric.measure(b, a),
{
    reveal(pow);
    assert(gap(a.r, a.r) == 0 && gap(a.g, a.g) == 0 && gap(a.b, a.b) == 0);
    match metric {
        Metric::SquaredEuclidean => {
            assert(0nat * 0nat == 0) by (nonlinear_arith);
        },
        Metric::Minkowski(p) => {
            assert(pow(0, p as nat) == 0);
        },
    }
}

/// With exponent 1 the Minkowski sum is the Manhattan distance, and with
/// exponent 2 it is the squared Euclidean distance.
pub proof fn lemma_minkowski_small_exponents(a: Color, b: Color)
    ensures
        minkowski_sum(a, b, 1) == gap(a.r, b.r) + gap(a.g, b.g) + gap(a.b, b.b),
        minkowski_sum(a, b, 2) == squared_euclidean(a, b),
{
    reveal_with_fuel(pow, 3);
    lemma_pow1(gap(a.r, b.r) as int);
    lemma_pow1(gap(a.g, b.g) as int);
    lemma_pow1(gap(a.b, b.b) as int);
    let r = gap(a.r, b.r) as int;
    let g = gap(a.g, b.g) as int;
    let bb = gap(a.b, b.b) as int;
    assert(pow(r, 2) == r * r) by {
        assert(r * (r * 1) == r * r) by (nonlinear_arith);
    }
    assert(pow(g, 2) == g * g) by {
        assert(g * (g * 1) == g * g) by (nonlinear_arith);
    }
    assert(pow(bb, 2) == bb * bb) by {
        assert(bb * (bb * 1) == bb * bb) by (nonlinear_arith);
    }
}

/// The Minkowski sum lies between the `p`-th power of the largest gap and
/// three times that power, so its `p`-th root is within a factor of the
/// `p`-th root of 3 of the Chebyshev distance.
pub proof fn lemma_minkowski_brackets_largest_gap(a: Color, b: Color, p: nat)
    ensures
        pow(largest_gap(a, b) as int, p) <= minkowski_sum(a, b, p) <= 3 * pow(
            largest_gap(a, b) as int,
            p,
        ),
{
    let r = gap(a.r, b.r);
    let g = gap(a.g, b.g);
    let bb = gap(a.b, b.b);
    let m = largest_gap(a, b);
    lemma_power_monotone(r, m, p);
    lemma_power_monotone(g, m, p);
    lemma_power_monotone(bb, m, p);
    lemma_power_monotone(0, r, p);
    lemma_power_monotone(0, g, p);
    lemma_power_monotone(0, bb, p);
    lemma_power_monotone(0, 0, p);
}

/// Raising to a power keeps the order of natural numbers.
proof fn lemma_power_monotone(x: nat, y: nat, p: nat)
    requires
        x <= y,
    ensures
        0 <= pow(x as int, p) <= pow(y as int, p),
    decreases p,
{
    reveal(pow);
    if p > 0 {
        lemma_power_monotone(x, y, (p - 1) as nat);
        let u = pow(x as int, (p - 1) as nat);
        let v = pow(y as int, (p - 1) as nat);
        assert(0 <= x * u <= y * v) by (nonlinear_arith)
            requires
                0 <= u <= v,
                0 <= x <= y,
        ;
    }
}

} // verus!
