//! Pixel storage and per-cell sampling: gathering a region's pixels and
//! averaging their brightness and color.
//!
//! Brightness is kept as an exact rational: the per-pixel luma numerator
//! `299 r + 587 g + 114 b` lies in `0 ..= 255_000`, so a cell's average
//! brightness is `luma_sum / (255_000 * pixel_count)`.

use vstd::prelude::*;
use vstd::arithmetic::div_mod::lemma_fundamental_div_mod_converse;
use vstd::arithmetic::mul::{lemma_mul_inequality, lemma_mul_nonnegative};

verus! {

use crate::geometry::{Region, region_within};

/// One RGBA pixel with 8-bit channels.
#[derive(Clone, Copy, Debug, PartialEq, Eq, Structural)]
pub struct Rgba8 {
    pub r: u8,
    pub g: u8,
    pub b: u8,
    pub a: u8,
}

/// An owned RGBA pixel grid, row-major.
pub struct Bitmap {
    pub width: u32,
    pub height: u32,
    pub pixels: Vec<Rgba8>,
}

impl Bitmap {
    /// The pixel vector holds exactly one pixel per grid slot.
    pub open spec fn wf(&self) -> bool {
        self.pixels@.len() == self.width as int * self.height as int
    }

    /// The pixel in column `x` of row `y`.
    pub open spec fn spec_pixel(&self, x: int, y: int) -> Rgba8 {
        spec_pixel_at(self.pixels@, self.width as int, x, y)
    }

    /// Builds a bitmap from a flat RGBA byte buffer, four bytes per pixel,
    /// row-major.
    pub fn from_rgba_bytes(width: u32, height: u32, bytes: &Vec<u8>) -> (r: Bitmap)
        requires
            bytes@.len() == 4 * (width as int * height as int),
        ensures
            r.wf(),
            r.width == width,
            r.height == height,
            r.pixels@ == spec_pixels_of_bytes(bytes@),
    {
        let total: usize = bytes.len();
        let n: usize = total / 4;
        proof {
            lemma_fundamental_div_mod_converse(
                bytes@.len() as int,
                4,
                width as int * height as int,
                0,
            );
            lemma_mul_nonnegative(width as int, height as int);
        }
        let mut pixels: Vec<Rgba8> = Vec::new();
        let mut k: usize = 0;
        while k < n
            invariant
                k <= n,
                n == width as int * height as int,
                bytes@.len() == total,
                bytes@.len() == 4 * n,
                pixels@.len() == k,
                forall|j: int|
                    0 <= j < k ==> #[trigger] pixels@[j] == (Rgba8 {
                        r: bytes@[4 * j],
                        g: bytes@[4 * j + 1],
                        b: bytes@[4 * j + 2],
                        a: bytes@[4 * j + 3],
                    }),
            decreases n - k,
        {
            let px = Rgba8 {
                r: bytes[4 * k],
                g: bytes[4 * k + 1],
                b: bytes[4 * k + 2],
                a: bytes[4 * k + 3],
            };
            pixels.push(px);
            k = k + 1;
        }
        proof {
            lemma_fundamental_div_mod_converse(
                bytes@.len() as int,
                4,
                width as int * height as int,
                0,
            );
            assert(pixels@ =~= spec_pixels_of_bytes(bytes@));
        }
        Bitmap { width, height, pixels }
    }
}

/// The pixel grid a flat RGBA byte buffer holds: four bytes per pixel.
pub open spec fn spec_pixels_of_bytes(bytes: Seq<u8>) -> Seq<Rgba8> {
    Seq::new(
        (bytes.len() / 4) as nat,
        |k: int|
            Rgba8 {
                r: bytes[4 * k],
                g: bytes[4 * k + 1],
                b: bytes[4 * k + 2],
                a: bytes[4 * k + 3],
            },
    )
}

/// The pixel in column `x` of row `y` of a row-major grid `width` wide.
pub open spec fn spec_pixel_at(pixels: Seq<Rgba8>, width: int, x: int, y: int) -> Rgba8 {
    pixels[y * width + x]
}

/// The pixels a region covers of a row-major grid `width` wide: element
/// `k` is the pixel at `(reg.x + k % reg.width, reg.y + k / reg.width)`.
pub open spec fn spec_region_pixels(pixels: Seq<Rgba8>, width: int, reg: Region) -> Seq<Rgba8> {
    Seq::new(
        (reg.width as int * reg.height as int) as nat,
        |k: int|
            spec_pixel_at(
                pixels,
                width,
                reg.x + k % (reg.width as int),
                reg.y + k / (reg.width as int),
            ),
    )
}

/// Gathers every pixel inside the region, top to bottom and left to right.
pub fn region_pixels(b: &Bitmap, reg: Region) -> (r: Vec<Rgba8>)
    requires
        b.wf(),
        region_within(reg, b.width as int, b.height as int),
    ensures
        r@ == spec_region_pixels(b.pixels@, b.width as int, reg),
        r@.len() == reg.width as int * reg.height as int,
{
    let mut out: Vec<Rgba8> = Vec::new();
    let npix: usize = b.pixels.len();
    let mut dy: u32 = 0;
    proof {
        lemma_mul_nonnegative(reg.width as int, reg.height as int);
    }
    while dy < reg.height
        invariant
            b.wf(),
            region_within(reg, b.width as int, b.height as int),
            npix == b.pixels@.len(),
            dy <= reg.height,
            out@.len() == dy as int * reg.width as int,
            forall|j: int|
                0 <= j < out@.len() ==> #[trigger] out@[j] == b.spec_pixel(
                    reg.x + j % (reg.width as int),
                    reg.y + j / (reg.width as int),
                ),
        decreases reg.height - dy,
    {
        let mut dx: u32 = 0;
        proof {
            lemma_mul_inequality(dy as int + 1, reg.height as int, reg.width as int);
            vstd::arithmetic::mul::lemma_mul_is_distributive_add_other_way(
                reg.width as int,
                dy as int,
                1,
            );
        }
        while dx < reg.width
            invariant
                b.wf(),
                region_within(reg, b.width as int, b.height as int),
                npix == b.pixels@.len(),
                dy < reg.height,
                dx <= reg.width,
                out@.len() == dy as int * reg.width as int + dx as int,
                out@.len() <= reg.height as int * reg.width as int,
                forall|j: int|
                    0 <= j < out@.len() ==> #[trigger] out@[j] == b.spec_pixel(
                        reg.x + j % (reg.width as int),
                        reg.y + j / (reg.width as int),
                    ),
            decreases reg.width - dx,
        {
            let x: u32 = reg.x + dx;
            let y: u32 = reg.y + dy;
            proof {
                lemma_mul_inequality(y as int + 1, b.height as int, b.width as int);
                vstd::arithmetic::mul::lemma_mul_is_distributive_add_other_way(
                    b.width as int,
                    y as int,
                    1,
                );
                lemma_mul_nonnegative(y as int, b.width as int);
            }
            let idx: usize = (y as usize) * (b.width as usize) + (x as usize);
            let px = b.pixels[idx];
            out.push(px);
            proof {
                let j = dy as int * reg.width as int + dx as int;
                lemma_fundamental_div_mod_converse(j, reg.width as int, dy as int, dx as int);
                assert(out@[j] == b.spec_pixel(reg.x + dx as int, reg.y + dy as int));
                lemma_mul_inequality(dy as int + 1, reg.height as int, reg.width as int);
                vstd::arithmetic::mul::lemma_mul_is_distributive_add_other_way(
                    reg.width as int,
                    dy as int,
                    1,
                );
            }
            dx = dx + 1;
        }
        dy = dy + 1;
        proof {
            vstd::arithmetic::mul::lemma_mul_is_distributive_add_other_way(
                reg.width as int,
                dy as int - 1,
                1,
            );
        }
    }
    proof {
        vstd::arithmetic::mul::lemma_mul_is_commutative(reg.height as int, reg.width as int);
        assert(out@ =~= spec_region_pixels(b.pixels@, b.width as int, reg));
    }
    out
}

/// Luma numerator of one pixel: `299 r + 587 g + 114 b`, the pixel's
/// brightness in units of `1 / 255_000`.
pub open spec fn spec_luma(p: Rgba8) -> int {
    299 * p.r + 587 * p.g + 114 * p.b
}

/// Luma numerator of one pixel; divide by `255_000` for the brightness
/// in `[0, 1]`.
pub fn brightness(pixel: Rgba8) -> (r: u32)
    ensures
        r == spec_luma(pixel),
        r <= 255_000,
{
    299 * (pixel.r as u32) + 587 * (pixel.g as u32) + 114 * (pixel.b as u32)
}

/// Sum of the luma numerators of a pixel sequence.
pub open spec fn spec_luma_sum(s: Seq<Rgba8>) -> int
    decreases s.len(),
{
    if s.len() == 0 {
        0
    } else {
        spec_luma_sum(s.drop_last()) + spec_luma(s.last())
    }
}

/// The luma sum of `n` pixels lies in `0 ..= 255_000 n`.
pub proof fn lemma_luma_sum_bounds(s: Seq<Rgba8>)
    ensures
        0 <= spec_luma_sum(s) <= 255_000 * s.len(),
    decreases s.len(),
{
    if s.len() > 0 {
        lemma_luma_sum_bounds(s.drop_last());
    }
}

/// On a uniform pixel sequence the luma sum is the pixel count times the
/// shared luma.
pub proof fn lemma_luma_sum_uniform(s: Seq<Rgba8>, p: Rgba8)
    requires
        forall|i: int| 0 <= i < s.len() ==> s[i] == p,
    ensures
        spec_luma_sum(s) == s.len() * spec_luma(p),
    decreases s.len(),
{
    if s.len() == 0 {
        assert(s.len() * spec_luma(p) == 0) by (nonlinear_arith)
            requires
                s.len() == 0;
    } else {
        assert forall|i: int| 0 <= i < s.drop_last().len() implies s.drop_last()[i] == p by {
            assert(s.drop_last()[i] == s[i]);
        }
        lemma_luma_sum_uniform(s.drop_last(), p);
        assert(s.last() == s[s.len() - 1]);
        assert((s.len() - 1) * spec_luma(p) + spec_luma(p) == s.len() * spec_luma(p))
            by (nonlinear_arith);
    }
}

/// A cell's average brightness as an exact rational:
/// `luma_sum / (255_000 * pixel_count)`.
#[derive(Clone, Copy, Debug, PartialEq, Eq, Structural)]
pub struct Brightness {
    pub luma_sum: u64,
    pub pixel_count: u64,
}

/// Averages the brightness of a non-empty pixel sequence, as the exact
/// rational `luma_sum / (255_000 * pixel_count)`.
pub fn average_brightness(pixels: &[Rgba8]) -> (r: Brightness)
    requires
        1 <= pixels@.len(),
        255_000 * pixels@.len() <= u64::MAX,
    ensures
        r.luma_sum == spec_luma_sum(pixels@),
        r.pixel_count == pixels@.len(),
{
    let n = pixels.len();
    let mut sum: u64 = 0;
    let mut i: usize = 0;
    while i < n
        invariant
            i <= n,
            n == pixels@.len(),
            255_000 * pixels@.len() <= u64::MAX,
            sum == spec_luma_sum(pixels@.take(i as int)),
            sum <= 255_000 * i,
        decreases n - i,
    {
        proof {
            lemma_luma_sum_bounds(pixels@.take(i as int));
        }
        let l = brightness(pixels[i]);
        proof {
            assert(pixels@.take(i as int + 1).drop_last() =~= pixels@.take(i as int));
            assert(pixels@.take(i as int + 1).last() == pixels@[i as int]);
        }
        sum = sum + l as u64;
        i = i + 1;
    }
    proof {
        assert(pixels@.take(n as int) =~= pixels@);
    }
    Brightness { luma_sum: sum, pixel_count: n as u64 }
}

/// Per-channel sums over a pixel sequence: `(r, g, b, a)`.
pub open spec fn spec_channel_sums(s: Seq<Rgba8>) -> (int, int, int, int)
    decreases s.len(),
{
    if s.len() == 0 {
        (0, 0, 0, 0)
    } else {
        let t = spec_channel_sums(s.drop_last());
        (t.0 + s.last().r, t.1 + s.last().g, t.2 + s.last().b, t.3 + s.last().a)
    }
}

/// Each channel sum of `n` pixels lies in `0 ..= 255 n`.
pub proof fn lemma_channel_sums_bounds(s: Seq<Rgba8>)
    ensures
        0 <= spec_channel_sums(s).0 <= 255 * s.len(),
        0 <= spec_channel_sums(s).1 <= 255 * s.len(),
        0 <= spec_channel_sums(s).2 <= 255 * s.len(),
        0 <= spec_channel_sums(s).3 <= 255 * s.len(),
    decreases s.len(),
{
    if s.len() > 0 {
        lemma_channel_sums_bounds(s.drop_last());
    }
}

/// The average color of a non-empty pixel sequence, as the sampler
/// computes it: the accumulator is seeded with the first pixel and then
/// sums over every pixel, so the first pixel is counted twice —
/// `(first + total) / n` per channel, truncated to a byte.  This mirrors
/// the sampler's long-standing averaging quirk rather than the true mean.
pub open spec fn spec_average_color(s: Seq<Rgba8>) -> Rgba8 {
    let sums = spec_channel_sums(s);
    let n = s.len() as int;
    Rgba8 {
        r: (((s[0].r + sums.0) / n) % 256) as u8,
        g: (((s[0].g + sums.1) / n) % 256) as u8,
        b: (((s[0].b + sums.2) / n) % 256) as u8,
        a: (((s[0].a + sums.3) / n) % 256) as u8,
    }
}

/// Averages the color of a non-empty pixel sequence, seeding the sums
/// with the first pixel (see `spec_average_color`).
pub fn average_color(pixels: &[Rgba8]) -> (r: Rgba8)
    requires
        1 <= pixels@.len(),
        255 * (pixels@.len() + 1) <= u64::MAX,
    ensures
        r == spec_average_color(pixels@),
{
    let n = pixels.len();
    let first = pixels[0];
    let mut sum_r: u64 = first.r as u64;
    let mut sum_g: u64 = first.g as u64;
    let mut sum_b: u64 = first.b as u64;
    let mut sum_a: u64 = first.a as u64;
    let mut i: usize = 0;
    while i < n
        invariant
            i <= n,
            n == pixels@.len(),
            255 * (pixels@.len() + 1) <= u64::MAX,
            first == pixels@[0],
            sum_r == first.r + spec_channel_sums(pixels@.take(i as int)).0,
            sum_g == first.g + spec_channel_sums(pixels@.take(i as int)).1,
            sum_b == first.b + spec_channel_sums(pixels@.take(i as int)).2,
            sum_a == first.a + spec_channel_sums(pixels@.take(i as int)).3,
        decreases n - i,
    {
        proof {
            lemma_channel_sums_bounds(pixels@.take(i as int));
            assert(pixels@.take(i as int + 1).drop_last() =~= pixels@.take(i as int));
            assert(pixels@.take(i as int + 1).last() == pixels@[i as int]);
        }
        let px = pixels[i];
        sum_r = sum_r + px.r as u64;
        sum_g = sum_g + px.g as u64;
        sum_b = sum_b + px.b as u64;
        sum_a = sum_a + px.a as u64;
        i = i + 1;
    }
    proof {
        assert(pixels@.take(n as int) =~= pixels@);
    }
    let nd = n as u64;
    Rgba8 {
        r: ((sum_r / nd) % 256) as u8,
        g: ((sum_g / nd) % 256) as u8,
        b: ((sum_b / nd) % 256) as u8,
        a: ((sum_a / nd) % 256) as u8,
    }
}

} // verus!
