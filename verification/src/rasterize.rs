//! The halftone engine: scaling the source image over a grid of pages,
//! sampling each page into dots, and rendering the dots twice — once to
//! pixel buffers, once to vector documents.
//!
//! Both renderers fold over the one dot layout that `dot_pages` produces,
//! so their outputs describe congruent dot geometry by construction.

use vstd::prelude::*;
use vstd::arithmetic::div_mod::{lemma_div_is_ordered, lemma_fundamental_div_mod};

verus! {

use crate::dots::{Dot, lemma_page_dots_bounded, sample_page, spec_page_dots};
use crate::geometry::{
    Region, lemma_pages_len, lemma_pages_row_major, lemma_pages_within, lex_before, page_regions,
    region_ok, regions_ok, spec_pages,
};
use crate::radius::{
    adjusted_radius, lemma_adjusted_le_max, lemma_adjusted_monotonic, max_radius,
    spec_adjusted_radius, spec_max_radius,
};
use crate::sample::{Bitmap, region_pixels, spec_pixels_of_bytes, spec_region_pixels};
use crate::shims::{
    PageBuffer, buf_dims, doc_circles, doc_view_box, draw_filled_circle, image_dimensions,
    image_rgba_bytes, img_view, new_page_buffer, resize_to_fit, scaled_view, svg_add_circle,
    svg_new_document, svg_set_view_box,
};

/// Whether a dot keeps its cell's sampled average color or is painted
/// opaque black.
#[derive(Clone, Copy, Debug, PartialEq, Eq, Structural)]
pub enum ColorDepth {
    Rgb,
    Grayscale,
}

impl ColorDepth {
    /// The display name of the color mode.
    pub fn label(self) -> (r: &'static str)
        ensures
            self == ColorDepth::Rgb ==> r@ == "RGB"@,
            self == ColorDepth::Grayscale ==> r@ == "Grayscale"@,
    {
        match self {
            ColorDepth::Rgb => "RGB",
            ColorDepth::Grayscale => "Grayscale",
        }
    }
}

/// One rasterization request.  Fractional quantities are fixed point:
/// paper dimensions and the cell size in thousandths of a pixel, the two
/// radius fractions in thousandths of the theoretical maximum radius.
pub struct RasterizeArgs<'a> {
    pub image: &'a image::DynamicImage,
    pub paper_width_pixels: u64,
    pub paper_height_pixels: u64,
    pub pages_width: u32,
    pub pages_height: u32,
    pub square_size: u64,
    pub min_radius_percentage: u32,
    pub max_radius_percentage: u32,
    pub color_depth: ColorDepth,
}

impl<'a> RasterizeArgs<'a> {
    /// What the engine asks of its caller: a non-empty image, a page grid
    /// and cell size of at least one, ordered radius fractions of at most
    /// one thousand thousandths, and dimensions small enough that every
    /// pixel buffer's byte length fits a 32-bit machine word (at most
    /// 32,000 output pixels on each axis).
    pub open spec fn valid(&self) -> bool {
        &&& 1 <= self.pages_width
        &&& 1 <= self.pages_height
        &&& 1 <= self.paper_width_pixels
        &&& 1 <= self.paper_height_pixels
        &&& self.pages_width as int * self.paper_width_pixels as int <= 32_000_000
        &&& self.pages_height as int * self.paper_height_pixels as int <= 32_000_000
        &&& 1 <= self.square_size <= 32_000_000
        &&& self.min_radius_percentage <= self.max_radius_percentage <= 1000
        &&& 1 <= img_view(*self.image).0
        &&& 1 <= img_view(*self.image).1
    }
}

/// Width in pixels of the box the page grid covers: the ceiling of
/// `pages_width * paper_width`.
pub open spec fn spec_bounding_width(a: RasterizeArgs) -> int {
    (a.pages_width as int * a.paper_width_pixels as int + 999) / 1000
}

/// Height in pixels of the box the page grid covers.
pub open spec fn spec_bounding_height(a: RasterizeArgs) -> int {
    (a.pages_height as int * a.paper_height_pixels as int + 999) / 1000
}

/// The scaled source image: what resizing the input to fit the bounding
/// box yields — its width, height, and RGBA bytes.
pub open spec fn spec_scaled(a: RasterizeArgs) -> (nat, nat, Seq<u8>) {
    scaled_view(*a.image, spec_bounding_width(a) as u32, spec_bounding_height(a) as u32)
}

/// The surviving pages of the request, row-major.
pub open spec fn spec_layout_regions(a: RasterizeArgs) -> Seq<Region> {
    spec_pages(
        a.pages_width as int,
        a.pages_height as int,
        a.paper_width_pixels as int,
        a.paper_height_pixels as int,
        spec_scaled(a).0 as int,
        spec_scaled(a).1 as int,
    )
}

/// The configured lower radius bound, in thousandths of a pixel.
pub open spec fn spec_adjusted_min(a: RasterizeArgs) -> int {
    spec_adjusted_radius(spec_max_radius(a.square_size as int), a.min_radius_percentage as int)
}

/// The configured upper radius bound, in thousandths of a pixel.
pub open spec fn spec_adjusted_max(a: RasterizeArgs) -> int {
    spec_adjusted_radius(spec_max_radius(a.square_size as int), a.max_radius_percentage as int)
}

/// The dots of the request's `k`-th surviving page.
pub open spec fn spec_layout_page_dots(a: RasterizeArgs, k: int) -> Seq<Dot> {
    let reg = spec_layout_regions(a)[k];
    spec_page_dots(
        spec_region_pixels(spec_pixels_of_bytes(spec_scaled(a).2), spec_scaled(a).0 as int, reg),
        reg.width as int,
        reg.height as int,
        a.square_size as int,
        spec_adjusted_min(a),
        spec_adjusted_max(a),
        a.color_depth,
    )
}

/// The circle a vector document carries for a dot: its center and its
/// radius split into whole pixels and thousandths.
pub open spec fn spec_circle_of_dot(d: Dot) -> (int, int, int, int) {
    (d.center_x as int, d.center_y as int, d.radius as int / 1000, d.radius as int % 1000)
}

/// Pixel span of the box that `count` pages of `step` thousandths of a
/// pixel cover, rounded up.
fn bounding_pixels(count: u32, step: u64) -> (r: u32)
    requires
        1 <= count,
        1 <= step,
        count as int * step as int <= 32_000_000,
    ensures
        r == (count as int * step as int + 999) / 1000,
        1 <= r <= 32_000,
{
    proof {
        vstd::arithmetic::mul::lemma_mul_strictly_positive(count as int, step as int);
    }
    let total: u64 = count as u64 * step;
    let r = (total + 999) / 1000;
    proof {
        lemma_div_is_ordered(1000, total as int + 999, 1000);
        lemma_div_is_ordered(total as int + 999, 32_000_999, 1000);
    }
    r as u32
}

/// Scales the source image to fit the page grid's bounding box (aspect
/// ratio preserved, nearest-neighbor) and gathers its pixels.
fn scale_image(args: &RasterizeArgs) -> (r: Bitmap)
    requires
        args.valid(),
    ensures
        r.wf(),
        r.width == spec_scaled(*args).0,
        r.height == spec_scaled(*args).1,
        r.pixels@ == spec_pixels_of_bytes(spec_scaled(*args).2),
        1 <= r.width <= 32_000,
        1 <= r.height <= 32_000,
{
    let bw = bounding_pixels(args.pages_width, args.paper_width_pixels);
    let bh = bounding_pixels(args.pages_height, args.paper_height_pixels);
    let scaled = resize_to_fit(args.image, bw, bh);
    let (sw, sh) = image_dimensions(&scaled);
    let bytes = image_rgba_bytes(&scaled);
    proof {
        assert(img_view(scaled) == spec_scaled(*args));
        assert(bytes@.len() == 4 * (sw as int * sh as int));
    }
    Bitmap::from_rgba_bytes(sw, sh, &bytes)
}

/// One page of the shared dot layout: the page's pixel dimensions and its
/// dots, in cell order.
pub struct DotPage {
    pub width: u32,
    pub height: u32,
    pub dots: Vec<Dot>,
}

/// The shared geometry generator: scales the image, tiles it into pages,
/// and samples every page's cells into dots.  Both renderers fold over
/// this sequence.
pub fn dot_pages(args: &RasterizeArgs) -> (r: Vec<DotPage>)
    requires
        args.valid(),
    ensures
        r@.len() == spec_layout_regions(*args).len(),
        forall|k: int|
            0 <= k < r@.len() ==> {
                &&& (#[trigger] r@[k]).width == spec_layout_regions(*args)[k].width
                &&& r@[k].height == spec_layout_regions(*args)[k].height
                &&& r@[k].dots@ == spec_layout_page_dots(*args, k)
                &&& 1 <= r@[k].width <= 32_000
                &&& 1 <= r@[k].height <= 32_000
            },
        forall|k: int, j: int|
            #![trigger r@[k].dots@[j]]
            0 <= k < r@.len() && 0 <= j < r@[k].dots@.len() ==> r@[k].dots@[j].center_x <= 48_000
                && r@[k].dots@[j].center_y <= 48_000 && r@[k].dots@[j].radius <= 32_000_000,
{
    let ghost a = *args;
    let scaled = scale_image(args);
    let regions = page_regions(
        args.pages_width,
        args.pages_height,
        args.paper_width_pixels,
        args.paper_height_pixels,
        scaled.width,
        scaled.height,
    );
    proof {
        assert(regions@ == spec_layout_regions(a));
        lemma_pages_within(
            a.pages_width as int,
            a.pages_height as int,
            a.paper_width_pixels as int,
            a.paper_height_pixels as int,
            spec_scaled(a).0 as int,
            spec_scaled(a).1 as int,
        );
        vstd::arithmetic::mul::lemma_mul_inequality(1, a.pages_width as int, a.paper_width_pixels as int);
        vstd::arithmetic::mul::lemma_mul_inequality(1, a.pages_height as int, a.paper_height_pixels as int);
        lemma_div_is_ordered(a.paper_width_pixels as int, 32_000_000, 1000);
        lemma_div_is_ordered(a.paper_height_pixels as int, 32_000_000, 1000);
    }
    let mr = max_radius(args.square_size);
    proof {
        vstd::arithmetic::mul::lemma_mul_inequality(
            mr as int,
            32_000_000,
            args.min_radius_percentage as int,
        );
        vstd::arithmetic::mul::lemma_mul_inequality(
            args.min_radius_percentage as int,
            1000,
            32_000_000,
        );
        vstd::arithmetic::mul::lemma_mul_inequality(
            mr as int,
            32_000_000,
            args.max_radius_percentage as int,
        );
        vstd::arithmetic::mul::lemma_mul_inequality(
            args.max_radius_percentage as int,
            1000,
            32_000_000,
        );
        vstd::arithmetic::mul::lemma_mul_is_commutative(mr as int, args.min_radius_percentage as int);
        vstd::arithmetic::mul::lemma_mul_is_commutative(mr as int, args.max_radius_percentage as int);
        vstd::arithmetic::mul::lemma_mul_is_commutative(32_000_000, args.min_radius_percentage as int);
        vstd::arithmetic::mul::lemma_mul_is_commutative(32_000_000, args.max_radius_percentage as int);
    }
    let amin = adjusted_radius(mr, args.min_radius_percentage);
    let amax = adjusted_radius(mr, args.max_radius_percentage);
    proof {
        lemma_adjusted_monotonic(
            spec_max_radius(a.square_size as int),
            a.min_radius_percentage as int,
            a.max_radius_percentage as int,
        );
        lemma_adjusted_le_max(spec_max_radius(a.square_size as int), a.max_radius_percentage as int);
    }
    let n = regions.len();
    let mut out: Vec<DotPage> = Vec::new();
    let mut k: usize = 0;
    while k < n
        invariant
            k <= n,
            a == *args,
            args.valid(),
            scaled.wf(),
            scaled.width == spec_scaled(a).0,
            scaled.height == spec_scaled(a).1,
            scaled.pixels@ == spec_pixels_of_bytes(spec_scaled(a).2),
            regions@ == spec_layout_regions(a),
            regions_ok(
                regions@,
                scaled.width as int,
                scaled.height as int,
                a.paper_width_pixels as int / 1000,
                a.paper_height_pixels as int / 1000,
            ),
            a.paper_width_pixels as int / 1000 <= 32_000,
            a.paper_height_pixels as int / 1000 <= 32_000,
            n == regions@.len(),
            mr == spec_max_radius(a.square_size as int),
            mr <= a.square_size,
            amin == spec_adjusted_min(a),
            amax == spec_adjusted_max(a),
            amin <= amax <= mr,
            out@.len() == k,
            forall|i: int|
                0 <= i < k ==> {
                    &&& (#[trigger] out@[i]).width == spec_layout_regions(a)[i].width
                    &&& out@[i].height == spec_layout_regions(a)[i].height
                    &&& out@[i].dots@ == spec_layout_page_dots(a, i)
                    &&& 1 <= out@[i].width <= 32_000
                    &&& 1 <= out@[i].height <= 32_000
                },
            forall|i: int, j: int|
                #![trigger out@[i].dots@[j]]
                0 <= i < k && 0 <= j < out@[i].dots@.len() ==> out@[i].dots@[j].center_x <= 48_000
                    && out@[i].dots@[j].center_y <= 48_000 && out@[i].dots@[j].radius
                    <= 32_000_000,
        decreases n - k,
    {
        let reg = regions[k];
        proof {
            assert(region_ok(
                regions@[k as int],
                scaled.width as int,
                scaled.height as int,
                a.paper_width_pixels as int / 1000,
                a.paper_height_pixels as int / 1000,
            ));
        }
        let page_pixels = region_pixels(&scaled, reg);
        let page = Bitmap { width: reg.width, height: reg.height, pixels: page_pixels };
        let dots = sample_page(&page, args.square_size, amin, amax, args.color_depth);
        proof {
            assert(dots@ == spec_layout_page_dots(a, k as int));
            lemma_page_dots_bounded(
                page.pixels@,
                page.width as int,
                page.height as int,
                a.square_size as int,
                amin as int,
                amax as int,
                a.color_depth,
            );
            lemma_div_is_ordered(a.square_size as int, 32_000_000, 2000);
        }
        out.push(DotPage { width: reg.width, height: reg.height, dots });
        k = k + 1;
    }
    out
}

/// Renders the request to one RGBA pixel buffer per surviving page, in
/// page order: a blank buffer of the page's dimensions with one filled
/// circle painted per dot.
pub fn rasterize_image(args: RasterizeArgs) -> (r: Vec<PageBuffer>)
    requires
        args.valid(),
    ensures
        r@.len() == spec_layout_regions(args).len(),
        forall|k: int|
            0 <= k < r@.len() ==> #[trigger] buf_dims(r@[k]) == (
                spec_layout_regions(args)[k].width as nat,
                spec_layout_regions(args)[k].height as nat,
            ),
{
    let pages = dot_pages(&args);
    let n = pages.len();
    let mut out: Vec<PageBuffer> = Vec::new();
    let mut k: usize = 0;
    while k < n
        invariant
            k <= n,
            n == pages@.len(),
            pages@.len() == spec_layout_regions(args).len(),
            forall|i: int|
                0 <= i < n ==> {
                    &&& (#[trigger] pages@[i]).width == spec_layout_regions(args)[i].width
                    &&& pages@[i].height == spec_layout_regions(args)[i].height
                    &&& pages@[i].dots@ == spec_layout_page_dots(args, i)
                    &&& 1 <= pages@[i].width <= 32_000
                    &&& 1 <= pages@[i].height <= 32_000
                },
            forall|i: int, j: int|
                #![trigger pages@[i].dots@[j]]
                0 <= i < n && 0 <= j < pages@[i].dots@.len() ==> pages@[i].dots@[j].center_x
                    <= 48_000 && pages@[i].dots@[j].center_y <= 48_000
                    && pages@[i].dots@[j].radius <= 32_000_000,
            out@.len() == k,
            forall|i: int|
                0 <= i < k ==> #[trigger] buf_dims(out@[i]) == (
                    spec_layout_regions(args)[i].width as nat,
                    spec_layout_regions(args)[i].height as nat,
                ),
        decreases n - k,
    {
        let page = &pages[k];
        proof {
            vstd::arithmetic::mul::lemma_mul_inequality(
                page.width as int,
                32_000,
                page.height as int,
            );
            vstd::arithmetic::mul::lemma_mul_is_commutative(32_000, page.height as int);
            vstd::arithmetic::mul::lemma_mul_inequality(page.height as int, 32_000, 32_000);
        }
        let mut buf = new_page_buffer(page.width, page.height);
        let nd = page.dots.len();
        let mut j: usize = 0;
        while j < nd
            invariant
                j <= nd,
                k < pages@.len(),
                nd == pages@[k as int].dots@.len(),
                page == &pages@[k as int],
                forall|i: int, jj: int|
                    #![trigger pages@[i].dots@[jj]]
                    0 <= i < pages@.len() && 0 <= jj < pages@[i].dots@.len()
                        ==> pages@[i].dots@[jj].center_x <= 48_000
                        && pages@[i].dots@[jj].center_y <= 48_000
                        && pages@[i].dots@[jj].radius <= 32_000_000,
                buf_dims(buf) == (page.width as nat, page.height as nat),
            decreases nd - j,
        {
            let dot = &page.dots[j];
            let color = (dot.color.r, dot.color.g, dot.color.b, dot.color.a);
            draw_filled_circle(
                &mut buf,
                dot.center_x as i32,
                dot.center_y as i32,
                (dot.radius / 1000) as i32,
                color,
            );
            j = j + 1;
        }
        out.push(buf);
        k = k + 1;
    }
    out
}

/// Renders the request to one vector document per surviving page, in page
/// order: a document with a view box of the page's dimensions and one
/// circle per dot, carrying the dot's center and its radius as
/// `whole.thousandths` pixels.  No fill color is attached: the average
/// color sampled for the raster path is not propagated to the vector
/// path.
pub fn rasterize_svg(args: RasterizeArgs) -> (r: Vec<svg::Document>)
    requires
        args.valid(),
    ensures
        r@.len() == spec_layout_regions(args).len(),
        forall|k: int|
            0 <= k < r@.len() ==> #[trigger] doc_view_box(r@[k]) == (
                0int,
                0int,
                spec_layout_regions(args)[k].width as int,
                spec_layout_regions(args)[k].height as int,
            ),
        forall|k: int|
            0 <= k < r@.len() ==> #[trigger] doc_circles(r@[k]) == spec_layout_page_dots(
                args,
                k,
            ).map_values(|d: Dot| spec_circle_of_dot(d)),
{
    let pages = dot_pages(&args);
    let n = pages.len();
    let mut out: Vec<svg::Document> = Vec::new();
    let mut k: usize = 0;
    while k < n
        invariant
            k <= n,
            n == pages@.len(),
            pages@.len() == spec_layout_regions(args).len(),
            forall|i: int|
                0 <= i < n ==> {
                    &&& (#[trigger] pages@[i]).width == spec_layout_regions(args)[i].width
                    &&& pages@[i].height == spec_layout_regions(args)[i].height
                    &&& pages@[i].dots@ == spec_layout_page_dots(args, i)
                    &&& 1 <= pages@[i].width <= 32_000
                    &&& 1 <= pages@[i].height <= 32_000
                },
            forall|i: int, j: int|
                #![trigger pages@[i].dots@[j]]
                0 <= i < n && 0 <= j < pages@[i].dots@.len() ==> pages@[i].dots@[j].center_x
                    <= 48_000 && pages@[i].dots@[j].center_y <= 48_000
                    && pages@[i].dots@[j].radius <= 32_000_000,
            out@.len() == k,
            forall|i: int|
                0 <= i < k ==> #[trigger] doc_view_box(out@[i]) == (
                    0int,
                    0int,
                    spec_layout_regions(args)[i].width as int,
                    spec_layout_regions(args)[i].height as int,
                ),
            forall|i: int|
                0 <= i < k ==> #[trigger] doc_circles(out@[i]) == spec_layout_page_dots(
                    args,
                    i,
                ).map_values(|d: Dot| spec_circle_of_dot(d)),
        decreases n - k,
    {
        let page = &pages[k];
        let mut doc = svg_new_document();
        doc = svg_set_view_box(doc, page.width, page.height);
        let nd = page.dots.len();
        let mut j: usize = 0;
        while j < nd
            invariant
                j <= nd,
                k < pages@.len(),
                nd == pages@[k as int].dots@.len(),
                page == &pages@[k as int],
                forall|i: int, jj: int|
                    #![trigger pages@[i].dots@[jj]]
                    0 <= i < pages@.len() && 0 <= jj < pages@[i].dots@.len()
                        ==> pages@[i].dots@[jj].center_x <= 48_000
                        && pages@[i].dots@[jj].center_y <= 48_000
                        && pages@[i].dots@[jj].radius <= 32_000_000,
                doc_view_box(doc) == (
                    0int,
                    0int,
                    page.width as int,
                    page.height as int,
                ),
                doc_circles(doc).len() == j,
                forall|jj: int|
                    0 <= jj < j ==> #[trigger] doc_circles(doc)[jj] == spec_circle_of_dot(
                        page.dots@[jj],
                    ),
            decreases nd - j,
        {
            let dot = &page.dots[j];
            doc = svg_add_circle(
                doc,
                dot.center_x as i32,
                dot.center_y as i32,
                dot.radius / 1000,
                dot.radius % 1000,
            );
            j = j + 1;
        }
        proof {
            assert(doc_circles(doc) =~= spec_layout_page_dots(args, k as int).map_values(
                |d: Dot| spec_circle_of_dot(d),
            ));
        }
        out.push(doc);
        k = k + 1;
    }
    out
}

/// Tiling emits at most one page per grid slot: never more than
/// `pages_width * pages_height` pages.
pub proof fn lemma_tiling_page_count(a: RasterizeArgs)
    requires
        a.valid(),
    ensures
        spec_layout_regions(a).len() <= a.pages_width as int * a.pages_height as int,
{
    lemma_pages_len(
        a.pages_width as int,
        a.pages_height as int,
        a.paper_width_pixels as int,
        a.paper_height_pixels as int,
        spec_scaled(a).0 as int,
        spec_scaled(a).1 as int,
    );
    vstd::arithmetic::mul::lemma_mul_is_commutative(a.pages_width as int, a.pages_height as int);
}

/// Tiling preserves row-major order: of any two pages the request
/// produces, the earlier one lies on a strictly earlier row of the page
/// grid, or further left on the same row.
pub proof fn lemma_tiling_row_major(a: RasterizeArgs)
    requires
        spec_scaled(a).0 <= u32::MAX,
        spec_scaled(a).1 <= u32::MAX,
    ensures
        forall|i: int, j: int|
            #![trigger spec_layout_regions(a)[i], spec_layout_regions(a)[j]]
            0 <= i < j < spec_layout_regions(a).len() ==> lex_before(
                spec_layout_regions(a)[i],
                spec_layout_regions(a)[j],
            ),
{
    lemma_pages_row_major(
        a.pages_width as int,
        a.pages_height as int,
        a.paper_width_pixels as int,
        a.paper_height_pixels as int,
        spec_scaled(a).0 as int,
        spec_scaled(a).1 as int,
    );
}

/// The raster and vector backends are driven by one dot layout, and both
/// contracts are stated against it: `rasterize_image` returns one buffer
/// per layout page with the page's dimensions, and `rasterize_svg` one
/// document per layout page whose view box is those dimensions and whose
/// circles are the layout's dots.  This law pins the remaining step: per
/// page, the vector circles correspond one to one to the dots, carrying
/// the same centers, and radius parts that recombine to exactly the dot's
/// radius.
pub proof fn lemma_backends_share_geometry(a: RasterizeArgs, k: int)
    requires
        0 <= k < spec_layout_regions(a).len(),
    ensures
        ({
            let dots = spec_layout_page_dots(a, k);
            let circles = dots.map_values(|d: Dot| spec_circle_of_dot(d));
            &&& circles.len() == dots.len()
            &&& forall|j: int|
                0 <= j < dots.len() ==> (#[trigger] circles[j]).0 == dots[j].center_x && circles[
                    j
                ].1 == dots[j].center_y && circles[j].2 * 1000 + circles[j].3 == dots[j].radius
        }),
{
    let dots = spec_layout_page_dots(a, k);
    let circles = dots.map_values(|d: Dot| spec_circle_of_dot(d));
    assert forall|j: int|
        0 <= j < dots.len() implies (#[trigger] circles[j]).0 == dots[j].center_x && circles[j].1
        == dots[j].center_y && circles[j].2 * 1000 + circles[j].3 == dots[j].radius by {
        lemma_fundamental_div_mod(dots[j].radius as int, 1000);
    }
}

} // verus!
