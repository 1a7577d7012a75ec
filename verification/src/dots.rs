//! The shared dot generator: sampling a page's cells into halftone dots.
//!
//! Both renderers consume the dot sequence this module produces, so their
//! outputs can never diverge in geometry.

use vstd::prelude::*;
use vstd::arithmetic::div_mod::{
    lemma_div_is_ordered, lemma_fundamental_div_mod_converse, lemma_mod_bound,
};
use vstd::arithmetic::mul::{
    lemma_mul_inequality, lemma_mul_is_commutative, lemma_mul_strictly_positive,
};

verus! {

use crate::geometry::{
    Region, cell_regions, lemma_cells_within, region_ok, regions_ok, spec_cells,
    spec_cells_across, spec_half_square,
};
use crate::radius::{lemma_radius_bounded, lemma_uniform_radius, radius, spec_radius};
use crate::rasterize::ColorDepth;
use crate::sample::{
    Bitmap, Rgba8, average_brightness, average_color, lemma_luma_sum_bounds,
    lemma_luma_sum_uniform, region_pixels, spec_average_color, spec_luma, spec_luma_sum,
    spec_pixel_at, spec_region_pixels,
};

/// Opaque black: the dot color in grayscale mode.
pub open spec fn spec_black() -> Rgba8 {
    Rgba8 { r: 0, g: 0, b: 0, a: 255 }
}

/// One halftone dot: its center in page pixel coordinates, its radius in
/// thousandths of a pixel, and its fill color.  The triple is the contract
/// both renderers share.
#[derive(Clone, Copy, Debug, PartialEq, Eq, Structural)]
pub struct Dot {
    pub center_x: u64,
    pub center_y: u64,
    pub radius: u64,
    pub color: Rgba8,
}

/// The dot one surviving cell yields: centered half a cell in from the
/// cell's origin, its radius mapped from the cell's average brightness,
/// and colored by the cell's average color (RGB mode) or black
/// (grayscale mode).
pub open spec fn spec_dot(
    pixels: Seq<Rgba8>,
    page_width: int,
    cell: Region,
    square: int,
    adjusted_min: int,
    adjusted_max: int,
    depth: ColorDepth,
) -> Dot {
    let cell_pixels = spec_region_pixels(pixels, page_width, cell);
    Dot {
        center_x: (cell.x + spec_half_square(square)) as u64,
        center_y: (cell.y + spec_half_square(square)) as u64,
        radius: spec_radius(
            spec_luma_sum(cell_pixels),
            cell_pixels.len() as int,
            adjusted_min,
            adjusted_max,
        ) as u64,
        color: match depth {
            ColorDepth::Rgb => spec_average_color(cell_pixels),
            ColorDepth::Grayscale => spec_black(),
        },
    }
}

/// Every dot of one page: one per surviving cell, row-major.
pub open spec fn spec_page_dots(
    pixels: Seq<Rgba8>,
    pw: int,
    ph: int,
    square: int,
    adjusted_min: int,
    adjusted_max: int,
    depth: ColorDepth,
) -> Seq<Dot> {
    spec_cells(pw, ph, square).map_values(
        |c: Region| spec_dot(pixels, pw, c, square, adjusted_min, adjusted_max, depth),
    )
}

/// Every dot of a page stays within rendering bounds: its center at most
/// half a cell beyond the page's edge, and its radius at most the
/// adjusted maximum.
pub proof fn lemma_page_dots_bounded(
    pixels: Seq<Rgba8>,
    pw: int,
    ph: int,
    square: int,
    adjusted_min: int,
    adjusted_max: int,
    depth: ColorDepth,
)
    requires
        1 <= square,
        0 <= pw <= u32::MAX,
        0 <= ph <= u32::MAX,
        0 <= adjusted_min <= adjusted_max <= u64::MAX,
    ensures
        forall|j: int|
            0 <= j < spec_page_dots(pixels, pw, ph, square, adjusted_min, adjusted_max, depth).len()
                ==> {
                let d = #[trigger] spec_page_dots(
                    pixels,
                    pw,
                    ph,
                    square,
                    adjusted_min,
                    adjusted_max,
                    depth,
                )[j];
                d.center_x <= pw + square / 2000 && d.center_y <= ph + square / 2000
                    && adjusted_min <= d.radius <= adjusted_max
            },
{
    let cells = spec_cells(pw, ph, square);
    lemma_cells_within(spec_cells_across(ph, square), spec_cells_across(pw, square), square, pw, ph);
    assert forall|j: int|
        0 <= j < spec_page_dots(pixels, pw, ph, square, adjusted_min, adjusted_max, depth).len()
            implies {
        let d = #[trigger] spec_page_dots(
            pixels,
            pw,
            ph,
            square,
            adjusted_min,
            adjusted_max,
            depth,
        )[j];
        d.center_x <= pw + square / 2000 && d.center_y <= ph + square / 2000
            && adjusted_min <= d.radius <= adjusted_max
    } by {
        assert(region_ok(cells[j], pw, ph, square / 1000, square / 1000));
        let c = cells[j];
        let cp = spec_region_pixels(pixels, pw, c);
        lemma_mul_strictly_positive(c.width as int, c.height as int);
        lemma_luma_sum_bounds(cp);
        lemma_radius_bounded(
            spec_luma_sum(cp),
            cp.len() as int,
            adjusted_min,
            adjusted_max,
        );
    }
}

/// On a page filled with one color, every dot's radius is exactly
/// `max(adjusted_min, (255_000 - luma) * adjusted_max / 255_000)`: the
/// uniform brightness determines it, whatever each cell's size.
pub proof fn lemma_uniform_page_dot_radius(
    pixels: Seq<Rgba8>,
    pw: int,
    ph: int,
    square: int,
    adjusted_min: int,
    adjusted_max: int,
    depth: ColorDepth,
    p: Rgba8,
)
    requires
        1 <= square,
        0 <= pw <= u32::MAX,
        0 <= ph <= u32::MAX,
        pixels.len() == pw * ph,
        forall|i: int| 0 <= i < pixels.len() ==> pixels[i] == p,
        0 <= adjusted_min <= adjusted_max <= u64::MAX,
    ensures
        forall|j: int|
            0 <= j < spec_page_dots(pixels, pw, ph, square, adjusted_min, adjusted_max, depth).len()
                ==> (#[trigger] spec_page_dots(
                pixels,
                pw,
                ph,
                square,
                adjusted_min,
                adjusted_max,
                depth,
            )[j]).radius == ({
                let computed = ((255_000 - spec_luma(p)) * adjusted_max) / 255_000;
                (if computed < adjusted_min {
                    adjusted_min
                } else {
                    computed
                }) as u64
            }),
{
    let cells = spec_cells(pw, ph, square);
    lemma_cells_within(spec_cells_across(ph, square), spec_cells_across(pw, square), square, pw, ph);
    assert forall|j: int|
        0 <= j < spec_page_dots(pixels, pw, ph, square, adjusted_min, adjusted_max, depth).len()
            implies (#[trigger] spec_page_dots(
        pixels,
        pw,
        ph,
        square,
        adjusted_min,
        adjusted_max,
        depth,
    )[j]).radius == ({
        let computed = ((255_000 - spec_luma(p)) * adjusted_max) / 255_000;
        (if computed < adjusted_min {
            adjusted_min
        } else {
            computed
        }) as u64
    }) by {
        assert(region_ok(cells[j], pw, ph, square / 1000, square / 1000));
        let c = cells[j];
        let w = c.width as int;
        let h = c.height as int;
        let cp = spec_region_pixels(pixels, pw, c);
        lemma_mul_strictly_positive(w, h);
        assert forall|k: int| 0 <= k < cp.len() implies cp[k] == p by {
            lemma_mod_bound(k, w);
            lemma_div_is_ordered(k, w * h - 1, w);
            assert(w * h - 1 == (h - 1) * w + (w - 1)) by (nonlinear_arith);
            lemma_fundamental_div_mod_converse(w * h - 1, w, h - 1, w - 1);
            let x = c.x + k % w;
            let y = c.y + k / w;
            vstd::arithmetic::div_mod::lemma_div_pos_is_pos(k, w);
            assert(0 <= y * pw + x < pw * ph) by (nonlinear_arith)
                requires
                    0 <= x < pw,
                    0 <= y < ph;
            assert(cp[k] == spec_pixel_at(pixels, pw, x, y));
            assert(pixels[y * pw + x] == p);
        }
        lemma_luma_sum_uniform(cp, p);
        lemma_uniform_radius(spec_luma(p), cp.len() as int, adjusted_min, adjusted_max);
    }
}

/// Samples every surviving cell of a page into its dot, row-major.
pub fn sample_page(
    page: &Bitmap,
    square_size: u64,
    adjusted_min_radius: u64,
    adjusted_max_radius: u64,
    color_depth: ColorDepth,
) -> (r: Vec<Dot>)
    requires
        page.wf(),
        1 <= square_size <= 3_000_000_000,
    ensures
        r@ == spec_page_dots(
            page.pixels@,
            page.width as int,
            page.height as int,
            square_size as int,
            adjusted_min_radius as int,
            adjusted_max_radius as int,
            color_depth,
        ),
{
    let ghost pw = page.width as int;
    let ghost ph = page.height as int;
    let ghost sq = square_size as int;
    let cells = cell_regions(page.width, page.height, square_size);
    proof {
        lemma_cells_within(spec_cells_across(ph, sq), spec_cells_across(pw, sq), sq, pw, ph);
        lemma_div_is_ordered(sq, 3_000_000_000, 1000);
    }
    let half = square_size / 2000;
    let n = cells.len();
    let mut dots: Vec<Dot> = Vec::new();
    let mut i: usize = 0;
    while i < n
        invariant
            i <= n,
            page.wf(),
            1 <= square_size <= 3_000_000_000,
            pw == page.width as int,
            ph == page.height as int,
            sq == square_size as int,
            half == spec_half_square(sq),
            cells@ == spec_cells(pw, ph, sq),
            regions_ok(cells@, pw, ph, sq / 1000, sq / 1000),
            n == cells@.len(),
            dots@.len() == i,
            forall|j: int|
                0 <= j < i ==> #[trigger] dots@[j] == spec_dot(
                    page.pixels@,
                    pw,
                    cells@[j],
                    sq,
                    adjusted_min_radius as int,
                    adjusted_max_radius as int,
                    color_depth,
                ),
        decreases n - i,
    {
        let c = cells[i];
        proof {
            assert(region_ok(cells@[i as int], pw, ph, sq / 1000, sq / 1000));
            lemma_mul_strictly_positive(c.width as int, c.height as int);
            lemma_mul_inequality(c.width as int, sq / 1000, c.height as int);
            lemma_mul_is_commutative(sq / 1000, c.height as int);
            lemma_mul_inequality(c.height as int, sq / 1000, sq / 1000);
            lemma_div_is_ordered(sq, 3_000_000_000, 1000);
            assert(c.width as int * c.height as int <= 3_000_000 * 3_000_000) by {
                lemma_mul_inequality(sq / 1000, 3_000_000, sq / 1000);
                lemma_mul_is_commutative(3_000_000, sq / 1000);
                lemma_mul_inequality(sq / 1000, 3_000_000, 3_000_000);
            }
        }
        let pixels = region_pixels(page, c);
        let color = match color_depth {
            ColorDepth::Rgb => average_color(pixels.as_slice()),
            ColorDepth::Grayscale => Rgba8 { r: 0, g: 0, b: 0, a: 255 },
        };
        let bright = average_brightness(pixels.as_slice());
        proof {
            lemma_luma_sum_bounds(pixels@);
        }
        let rad = radius(bright, adjusted_min_radius, adjusted_max_radius);
        dots.push(
            Dot {
                center_x: c.x as u64 + half,
                center_y: c.y as u64 + half,
                radius: rad,
                color,
            },
        );
        i = i + 1;
    }
    proof {
        assert(dots@ =~= spec_page_dots(
            page.pixels@,
            pw,
            ph,
            sq,
            adjusted_min_radius as int,
            adjusted_max_radius as int,
            color_depth,
        ));
    }
    dots
}

} // verus!
