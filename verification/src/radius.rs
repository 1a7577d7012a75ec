//! Mapping a cell's average brightness to a dot radius.
//!
//! The theoretical maximum radius for a cell of size `s` is the circle
//! circumscribing the square, `sqrt(2) * s / 2`; the configured minimum
//! and maximum fractions (in thousandths) scale it, and darker cells get
//! larger dots.  Radii are in thousandths of a pixel, computed with an
//! integer square root.

use vstd::prelude::*;
use vstd::arithmetic::div_mod::{
    lemma_div_is_ordered, lemma_div_multiples_vanish, lemma_fundamental_div_mod,
    lemma_fundamental_div_mod_converse, lemma_mod_bound,
};
use vstd::arithmetic::mul::{lemma_mul_inequality, lemma_mul_nonnegative};

verus! {

use crate::sample::Brightness;

/// The integer square root: the greatest `r` with `r * r <= x`.
pub open spec fn spec_isqrt(x: int) -> int
    decreases x,
{
    if x <= 0 {
        0
    } else {
        let r = spec_isqrt(x - 1);
        if (r + 1) * (r + 1) <= x {
            r + 1
        } else {
            r
        }
    }
}

/// `spec_isqrt(x)` squares to at most `x`, and is the greatest such value.
pub proof fn lemma_isqrt_bounds(x: int)
    requires
        0 <= x,
    ensures
        0 <= spec_isqrt(x),
        spec_isqrt(x) * spec_isqrt(x) <= x,
        x < (spec_isqrt(x) + 1) * (spec_isqrt(x) + 1),
    decreases x,
{
    if x > 0 {
        lemma_isqrt_bounds(x - 1);
        let r = spec_isqrt(x - 1);
        if (r + 1) * (r + 1) <= x {
            assert((r + 2) * (r + 2) > x) by (nonlinear_arith)
                requires
                    0 <= r,
                    x - 1 < (r + 1) * (r + 1);
        }
    }
}

/// Any `r` with `r * r <= x < (r + 1) * (r + 1)` is the integer square root.
pub proof fn lemma_isqrt_unique(x: int, r: int)
    requires
        0 <= r,
        r * r <= x,
        x < (r + 1) * (r + 1),
    ensures
        r == spec_isqrt(x),
{
    lemma_isqrt_bounds(x);
    let s = spec_isqrt(x);
    assert(r == s) by (nonlinear_arith)
        requires
            0 <= r,
            0 <= s,
            r * r <= x < (r + 1) * (r + 1),
            s * s <= x < (s + 1) * (s + 1);
}

/// If `k * k` exceeds `x`, the integer square root lies below `k`.
pub proof fn lemma_isqrt_below(x: int, k: int)
    requires
        0 <= x,
        0 <= k,
        x < k * k,
    ensures
        spec_isqrt(x) < k,
{
    lemma_isqrt_bounds(x);
    let s = spec_isqrt(x);
    assert(s < k) by (nonlinear_arith)
        requires
            0 <= s,
            0 <= k,
            s * s <= x < k * k;
}

/// The integer square root, by binary search.
pub fn isqrt(x: u64) -> (r: u64)
    ensures
        r == spec_isqrt(x as int),
        r < 0x1_0000_0000,
{
    let mut lo: u64 = 0;
    let mut hi: u64 = 0x1_0000_0000;
    proof {
        assert(hi as int * hi as int > x) by (nonlinear_arith)
            requires
                hi == 0x1_0000_0000,
                x <= u64::MAX;
    }
    while hi - lo > 1
        invariant
            lo < hi <= 0x1_0000_0000,
            lo as int * lo as int <= x,
            hi as int * hi as int > x,
        decreases hi - lo,
    {
        let mid = lo + (hi - lo) / 2;
        proof {
            assert((mid as int) * (mid as int) <= u128::MAX) by (nonlinear_arith)
                requires
                    mid <= 0x1_0000_0000;
        }
        let m2: u128 = (mid as u128) * (mid as u128);
        if m2 <= x as u128 {
            lo = mid;
        } else {
            hi = mid;
        }
    }
    proof {
        lemma_isqrt_unique(x as int, lo as int);
    }
    lo
}

/// Theoretical maximum dot radius for a cell of `square` thousandths of a
/// pixel: `sqrt(2 * square^2) / 2`, in thousandths of a pixel.
pub open spec fn spec_max_radius(square: int) -> int {
    spec_isqrt(2 * square * square) / 2
}

/// Theoretical maximum dot radius: the radius of the circle that exactly
/// circumscribes the sampling square.
pub fn max_radius(square_size: u64) -> (r: u64)
    requires
        square_size <= 3_000_000_000,
    ensures
        r == spec_max_radius(square_size as int),
        r <= square_size,
{
    proof {
        assert((square_size as int) * (square_size as int) <= 9_000_000_000_000_000_000)
            by (nonlinear_arith)
            requires
                square_size <= 3_000_000_000;
    }
    let squared: u64 = square_size * square_size;
    let doubled: u64 = 2 * squared;
    let root = isqrt(doubled);
    proof {
        vstd::arithmetic::mul::lemma_mul_is_associative(
            2,
            square_size as int,
            square_size as int,
        );
        assert((doubled as int) < (2 * (square_size as int) + 1) * (2 * (square_size as int) + 1))
            by (nonlinear_arith)
            requires
                doubled as int == 2 * ((square_size as int) * (square_size as int)),
                0 <= square_size;
        lemma_isqrt_below(doubled as int, 2 * (square_size as int) + 1);
        lemma_div_is_ordered(root as int, 2 * (square_size as int), 2);
        lemma_div_multiples_vanish(square_size as int, 2);
    }
    root / 2
}

/// A configured fraction (in thousandths) of the theoretical maximum
/// radius.
pub open spec fn spec_adjusted_radius(max_radius: int, fraction: int) -> int {
    (max_radius * fraction) / 1000
}

/// Scales the theoretical maximum radius by a fraction in thousandths.
pub fn adjusted_radius(max_radius: u64, fraction: u32) -> (r: u64)
    requires
        max_radius as int * fraction as int <= u64::MAX,
    ensures
        r == spec_adjusted_radius(max_radius as int, fraction as int),
        r <= max_radius as int * fraction as int,
{
    proof {
        lemma_mul_nonnegative(max_radius as int, fraction as int);
        vstd::arithmetic::div_mod::lemma_div_nonincreasing(
            max_radius as int * fraction as int,
            1000,
        );
    }
    (max_radius * fraction as u64) / 1000
}

/// A larger fraction of the same maximum gives no smaller a bound.
pub proof fn lemma_adjusted_monotonic(max_radius: int, f1: int, f2: int)
    requires
        0 <= max_radius,
        0 <= f1 <= f2,
    ensures
        spec_adjusted_radius(max_radius, f1) <= spec_adjusted_radius(max_radius, f2),
{
    lemma_mul_inequality(f1, f2, max_radius);
    vstd::arithmetic::mul::lemma_mul_is_commutative(f1, max_radius);
    vstd::arithmetic::mul::lemma_mul_is_commutative(f2, max_radius);
    lemma_div_is_ordered(max_radius * f1, max_radius * f2, 1000);
}

/// A fraction of at most one thousand thousandths never exceeds the
/// maximum itself.
pub proof fn lemma_adjusted_le_max(max_radius: int, fraction: int)
    requires
        0 <= max_radius,
        0 <= fraction <= 1000,
    ensures
        0 <= spec_adjusted_radius(max_radius, fraction) <= max_radius,
{
    lemma_mul_nonnegative(max_radius, fraction);
    vstd::arithmetic::div_mod::lemma_div_pos_is_pos(max_radius * fraction, 1000);
    lemma_mul_inequality(fraction, 1000, max_radius);
    vstd::arithmetic::mul::lemma_mul_is_commutative(fraction, max_radius);
    vstd::arithmetic::mul::lemma_mul_is_commutative(1000, max_radius);
    lemma_div_is_ordered(max_radius * fraction, max_radius * 1000, 1000);
    lemma_div_multiples_vanish(max_radius, 1000);
}

/// The dot radius for a cell of average brightness `luma_sum / (255_000 n)`:
/// `(1 - brightness) * adjusted_max`, floored, but never below
/// `adjusted_min` — darker cells get larger dots.
pub open spec fn spec_radius(luma_sum: int, n: int, adjusted_min: int, adjusted_max: int) -> int {
    let computed = ((255_000 * n - luma_sum) * adjusted_max) / (255_000 * n);
    if computed < adjusted_min {
        adjusted_min
    } else {
        computed
    }
}

/// Maps a cell's average brightness to its dot radius, in thousandths of
/// a pixel.
pub fn radius(average_brightness: Brightness, adjusted_min_radius: u64, adjusted_max_radius: u64) -> (r: u64)
    requires
        1 <= average_brightness.pixel_count,
        average_brightness.luma_sum <= 255_000 * average_brightness.pixel_count,
        255_000 * average_brightness.pixel_count <= u64::MAX,
    ensures
        r == spec_radius(
            average_brightness.luma_sum as int,
            average_brightness.pixel_count as int,
            adjusted_min_radius as int,
            adjusted_max_radius as int,
        ),
{
    let d: u64 = 255_000 * average_brightness.pixel_count;
    let rem: u64 = d - average_brightness.luma_sum;
    proof {
        assert((rem as int) * (adjusted_max_radius as int) <= u128::MAX) by (nonlinear_arith)
            requires
                rem <= u64::MAX,
                adjusted_max_radius <= u64::MAX;
    }
    let prod: u128 = (rem as u128) * (adjusted_max_radius as u128);
    let computed_wide: u128 = prod / (d as u128);
    proof {
        lemma_mul_inequality(rem as int, d as int, adjusted_max_radius as int);
        lemma_div_is_ordered(
            rem as int * adjusted_max_radius as int,
            d as int * adjusted_max_radius as int,
            d as int,
        );
        vstd::arithmetic::mul::lemma_mul_is_commutative(d as int, adjusted_max_radius as int);
        lemma_div_multiples_vanish(adjusted_max_radius as int, d as int);
    }
    let computed: u64 = computed_wide as u64;
    if computed < adjusted_min_radius {
        adjusted_min_radius
    } else {
        computed
    }
}

/// For any brightness, the dot radius lies between the given minimum and
/// maximum bounds, inclusive, whenever they are ordered.
pub proof fn lemma_radius_bounded(luma_sum: int, n: int, adjusted_min: int, adjusted_max: int)
    requires
        1 <= n,
        0 <= luma_sum <= 255_000 * n,
        0 <= adjusted_min <= adjusted_max,
    ensures
        adjusted_min <= spec_radius(luma_sum, n, adjusted_min, adjusted_max) <= adjusted_max,
{
    let d = 255_000 * n;
    lemma_mul_inequality(d - luma_sum, d, adjusted_max);
    lemma_div_is_ordered((d - luma_sum) * adjusted_max, d * adjusted_max, d);
    vstd::arithmetic::mul::lemma_mul_is_commutative(d, adjusted_max);
    lemma_div_multiples_vanish(adjusted_max, d);
}

/// For any brightness and fractions `min <= max` (each at most one), the
/// dot radius lies between the adjusted minimum and the adjusted maximum,
/// inclusive.
pub proof fn lemma_radius_in_bounds(
    luma_sum: int,
    n: int,
    max_radius: int,
    min_fraction: int,
    max_fraction: int,
)
    requires
        1 <= n,
        0 <= luma_sum <= 255_000 * n,
        0 <= max_radius,
        0 <= min_fraction <= max_fraction <= 1000,
    ensures
        ({
            let adj_min = spec_adjusted_radius(max_radius, min_fraction);
            let adj_max = spec_adjusted_radius(max_radius, max_fraction);
            adj_min <= spec_radius(luma_sum, n, adj_min, adj_max) <= adj_max
        }),
{
    let adj_min = spec_adjusted_radius(max_radius, min_fraction);
    let adj_max = spec_adjusted_radius(max_radius, max_fraction);
    lemma_adjusted_monotonic(max_radius, min_fraction, max_fraction);
    lemma_adjusted_le_max(max_radius, min_fraction);
    lemma_adjusted_le_max(max_radius, max_fraction);
    lemma_radius_bounded(luma_sum, n, adj_min, adj_max);
}

/// Dividing numerator and denominator by a shared positive factor leaves
/// the quotient unchanged.
proof fn lemma_div_cancel_common(k: int, a: int, b: int)
    requires
        1 <= k,
        0 <= a,
        1 <= b,
    ensures
        (k * a) / (k * b) == a / b,
{
    let q = a / b;
    let r = a % b;
    lemma_fundamental_div_mod(a, b);
    lemma_mod_bound(a, b);
    assert(k * a == q * (k * b) + k * r) by (nonlinear_arith)
        requires
            a == b * q + r;
    assert(0 <= k * r < k * b) by (nonlinear_arith)
        requires
            1 <= k,
            0 <= r < b;
    lemma_fundamental_div_mod_converse(k * a, k * b, q, k * r);
}

/// On a cell whose pixels all share one luma `l`, the dot radius is
/// exactly `max(adjusted_min, (255_000 - l) * adjusted_max / 255_000)`,
/// whatever the cell's pixel count.
pub proof fn lemma_uniform_radius(l: int, n: int, adjusted_min: int, adjusted_max: int)
    requires
        1 <= n,
        0 <= l <= 255_000,
        0 <= adjusted_max,
    ensures
        spec_radius(n * l, n, adjusted_min, adjusted_max) == ({
            let computed = ((255_000 - l) * adjusted_max) / 255_000;
            if computed < adjusted_min {
                adjusted_min
            } else {
                computed
            }
        }),
{
    assert((255_000 * n - n * l) * adjusted_max == n * ((255_000 - l) * adjusted_max))
        by (nonlinear_arith);
    assert(255_000 * n == n * 255_000) by (nonlinear_arith);
    lemma_mul_nonnegative(255_000 - l, adjusted_max);
    lemma_div_cancel_common(n, (255_000 - l) * adjusted_max, 255_000);
}

} // verus!
