use rat::radius::{adjusted_radius, isqrt, max_radius, radius};
use rat::sample::Brightness;

#[test]
fn isqrt_small_values() {
    assert_eq!(isqrt(0), 0);
    assert_eq!(isqrt(1), 1);
    assert_eq!(isqrt(2), 1);
    assert_eq!(isqrt(3), 1);
    assert_eq!(isqrt(4), 2);
    assert_eq!(isqrt(99), 9);
    assert_eq!(isqrt(100), 10);
}

#[test]
fn isqrt_large_values() {
    assert_eq!(isqrt(648_000_000), 25_455);
    assert_eq!(isqrt(u64::MAX), 4_294_967_295);
}

#[test]
fn max_radius_circumscribes_the_square() {
    // For an 18-pixel cell, sqrt(2) * 18 / 2 is about 12.728 pixels; in
    // thousandths the integer model gives 12727.
    assert_eq!(max_radius(18_000), 12_727);
    // A 2-pixel cell: sqrt(8) / 2 is about 1.414.
    assert_eq!(max_radius(2_000), 1_414);
}

#[test]
fn adjusted_radius_scales_by_thousandths() {
    assert_eq!(adjusted_radius(12_727, 1000), 12_727);
    assert_eq!(adjusted_radius(12_727, 0), 0);
    assert_eq!(adjusted_radius(12_727, 500), 6_363);
}

#[test]
fn radius_darkens_to_the_maximum() {
    // An all-black cell (zero luma) gets the full adjusted maximum.
    let black = Brightness { luma_sum: 0, pixel_count: 64 };
    assert_eq!(radius(black, 0, 12_727), 12_727);
}

#[test]
fn radius_whitens_to_zero() {
    // An all-white cell gets a zero radius when the minimum fraction is
    // zero.
    let white = Brightness { luma_sum: 64 * 255_000, pixel_count: 64 };
    assert_eq!(radius(white, 0, 12_727), 0);
}

#[test]
fn radius_half_gray_is_half_the_maximum() {
    // Average brightness exactly one half: one white and one black pixel.
    let gray = Brightness { luma_sum: 255_000, pixel_count: 2 };
    assert_eq!(radius(gray, 0, 12_727), 6_363);
}

#[test]
fn radius_respects_the_minimum_floor() {
    let white = Brightness { luma_sum: 255_000, pixel_count: 1 };
    assert_eq!(radius(white, 5_000, 12_727), 5_000);
    let gray = Brightness { luma_sum: 255_000, pixel_count: 2 };
    assert_eq!(radius(gray, 7_000, 12_727), 7_000);
}

#[test]
fn radius_stays_between_the_adjusted_bounds() {
    // Brightness 100000 / 255000 with bounds 2000 and 12727:
    // (155000 * 12727) / 255000 = 7736, inside the bounds.
    let b = Brightness { luma_sum: 100_000, pixel_count: 1 };
    let r = radius(b, 2_000, 12_727);
    assert_eq!(r, 7_736);
    assert!(2_000 <= r && r <= 12_727);
}
