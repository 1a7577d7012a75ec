//! Pixel geometry of the halftone screen: slicing the scaled source image
//! into pages, and slicing a page into square sampling cells.
//!
//! Fractional lengths (paper dimensions, the cell size) are held in
//! thousandths of a pixel, so every floor and ceiling below is exact
//! integer arithmetic.

use vstd::prelude::*;
use vstd::arithmetic::div_mod::{
    lemma_fundamental_div_mod, lemma_fundamental_div_mod_converse, lemma_div_is_ordered,
    lemma_mod_bound,
};
use vstd::arithmetic::mul::{lemma_mul_inequality, lemma_mul_nonnegative};

verus! {

/// A rectangular pixel region: a page of the scaled source image, or a
/// sampling cell of a page.
#[derive(Clone, Copy, Debug, PartialEq, Eq, Structural)]
pub struct Region {
    pub x: u32,
    pub y: u32,
    pub width: u32,
    pub height: u32,
}

/// Pixel origin of the `index`-th slot along one axis, for a step of
/// `step` thousandths of a pixel: the floor of `index * step` pixels.
pub open spec fn spec_origin(index: int, step: int) -> int {
    (index * step) / 1000
}

/// How many pixels of a slot starting at `origin` survive before `limit`:
/// the full span if it fits strictly, the remainder up to `limit` if the
/// origin still lies inside, and nothing otherwise.
pub open spec fn spec_span(origin: int, full: int, limit: int) -> int {
    if origin + full < limit {
        full
    } else if origin < limit {
        limit - origin
    } else {
        0
    }
}

/// The region both of whose spans are positive survives; the others are
/// omitted from the output.
pub open spec fn spec_survives(ox: int, oy: int, fw: int, fh: int, w: int, h: int) -> bool {
    spec_span(ox, fw, w) > 0 && spec_span(oy, fh, h) > 0
}

pub open spec fn spec_region(ox: int, oy: int, fw: int, fh: int, w: int, h: int) -> Region {
    Region {
        x: ox as u32,
        y: oy as u32,
        width: spec_span(ox, fw, w) as u32,
        height: spec_span(oy, fh, h) as u32,
    }
}

// ---------------------------------------------------------------------------
// Pages
// ---------------------------------------------------------------------------

/// Origin of the page at grid column `px`, for paper `paper_w` thousandths
/// of a pixel wide.
pub open spec fn spec_page_origin_x(px: int, paper_w: int) -> int {
    spec_origin(px, paper_w)
}

pub open spec fn spec_page_origin_y(py: int, paper_h: int) -> int {
    spec_origin(py, paper_h)
}

pub open spec fn spec_page_survives(px: int, py: int, paper_w: int, paper_h: int, sw: int, sh: int) -> bool {
    spec_survives(
        spec_page_origin_x(px, paper_w),
        spec_page_origin_y(py, paper_h),
        paper_w / 1000,
        paper_h / 1000,
        sw,
        sh,
    )
}

pub open spec fn spec_page_region(px: int, py: int, paper_w: int, paper_h: int, sw: int, sh: int) -> Region {
    spec_region(
        spec_page_origin_x(px, paper_w),
        spec_page_origin_y(py, paper_h),
        paper_w / 1000,
        paper_h / 1000,
        sw,
        sh,
    )
}

/// The surviving pages of the first `ncols` grid columns of row `py`,
/// left to right.
pub open spec fn spec_page_row_prefix(py: int, ncols: int, paper_w: int, paper_h: int, sw: int, sh: int) -> Seq<Region>
    decreases ncols,
{
    if ncols <= 0 {
        Seq::empty()
    } else {
        let rest = spec_page_row_prefix(py, ncols - 1, paper_w, paper_h, sw, sh);
        if spec_page_survives(ncols - 1, py, paper_w, paper_h, sw, sh) {
            rest.push(spec_page_region(ncols - 1, py, paper_w, paper_h, sw, sh))
        } else {
            rest
        }
    }
}

/// The surviving pages of the first `nrows` grid rows, row-major.
pub open spec fn spec_pages_prefix(nrows: int, cols: int, paper_w: int, paper_h: int, sw: int, sh: int) -> Seq<Region>
    decreases nrows,
{
    if nrows <= 0 {
        Seq::empty()
    } else {
        spec_pages_prefix(nrows - 1, cols, paper_w, paper_h, sw, sh)
            + spec_page_row_prefix(nrows - 1, cols, paper_w, paper_h, sw, sh)
    }
}

/// All surviving pages of a `cols` x `rows` page grid over a scaled image
/// of `sw` x `sh` pixels, in row-major order.
pub open spec fn spec_pages(cols: int, rows: int, paper_w: int, paper_h: int, sw: int, sh: int) -> Seq<Region> {
    spec_pages_prefix(rows, cols, paper_w, paper_h, sw, sh)
}

/// Pixel origin of the `index`-th slot along one axis.
fn origin_of(index: u64, step: u64) -> (r: u64)
    requires
        index * step <= u64::MAX,
    ensures
        r == spec_origin(index as int, step as int),
{
    (index * step) / 1000
}

/// The span of a slot, clipped to `limit`; zero means the slot is omitted.
fn span_at(origin: u64, full: u64, limit: u64) -> (r: u64)
    ensures
        r == spec_span(origin as int, full as int, limit as int),
{
    if origin < limit {
        if full < limit - origin {
            full
        } else {
            limit - origin
        }
    } else {
        0
    }
}

/// Slices the scaled source image into one region per surviving page of
/// the `pages_width` x `pages_height` grid, row-major.  A page whose
/// origin lies at or beyond the scaled image's edge on either axis, or
/// whose clipped span is empty on either axis, is omitted.
pub fn page_regions(
    pages_width: u32,
    pages_height: u32,
    paper_width: u64,
    paper_height: u64,
    scaled_width: u32,
    scaled_height: u32,
) -> (r: Vec<Region>)
    requires
        pages_width as int * paper_width as int <= u64::MAX,
        pages_height as int * paper_height as int <= u64::MAX,
    ensures
        r@ == spec_pages(
            pages_width as int,
            pages_height as int,
            paper_width as int,
            paper_height as int,
            scaled_width as int,
            scaled_height as int,
        ),
{
    let full_w = paper_width / 1000;
    let full_h = paper_height / 1000;
    let mut result: Vec<Region> = Vec::new();
    let mut py: u32 = 0;
    while py < pages_height
        invariant
            py <= pages_height,
            pages_width as int * paper_width as int <= u64::MAX,
            pages_height as int * paper_height as int <= u64::MAX,
            full_w == paper_width as int / 1000,
            full_h == paper_height as int / 1000,
            result@ == spec_pages_prefix(
                py as int,
                pages_width as int,
                paper_width as int,
                paper_height as int,
                scaled_width as int,
                scaled_height as int,
            ),
        decreases pages_height - py,
    {
        proof {
            lemma_mul_inequality(py as int, pages_height as int, paper_height as int);
        }
        let oy = origin_of(py as u64, paper_height);
        let y_span = span_at(oy, full_h, scaled_height as u64);
        let mut px: u32 = 0;
        while px < pages_width
            invariant
                px <= pages_width,
                py < pages_height,
                pages_width as int * paper_width as int <= u64::MAX,
                full_w == paper_width as int / 1000,
                full_h == paper_height as int / 1000,
                oy == spec_page_origin_y(py as int, paper_height as int),
                y_span == spec_span(oy as int, full_h as int, scaled_height as int),
                result@ == spec_pages_prefix(
                    py as int,
                    pages_width as int,
                    paper_width as int,
                    paper_height as int,
                    scaled_width as int,
                    scaled_height as int,
                ) + spec_page_row_prefix(
                    py as int,
                    px as int,
                    paper_width as int,
                    paper_height as int,
                    scaled_width as int,
                    scaled_height as int,
                ),
            decreases pages_width - px,
        {
            proof {
                lemma_mul_inequality(px as int, pages_width as int, paper_width as int);
            }
            let ox = origin_of(px as u64, paper_width);
            let x_span = span_at(ox, full_w, scaled_width as u64);
            if x_span > 0 && y_span > 0 {
                result.push(Region {
                    x: ox as u32,
                    y: oy as u32,
                    width: x_span as u32,
                    height: y_span as u32,
                });
            }
            px = px + 1;
        }
        py = py + 1;
        proof {
            assert(result@ =~= spec_pages_prefix(
                py as int,
                pages_width as int,
                paper_width as int,
                paper_height as int,
                scaled_width as int,
                scaled_height as int,
            ));
        }
    }
    result
}

/// Tiling emits at most one page per grid slot: a row contributes at most
/// `ncols` pages.
proof fn lemma_page_row_len(py: int, ncols: int, paper_w: int, paper_h: int, sw: int, sh: int)
    requires
        ncols >= 0,
    ensures
        spec_page_row_prefix(py, ncols, paper_w, paper_h, sw, sh).len() <= ncols,
    decreases ncols,
{
    if ncols > 0 {
        lemma_page_row_len(py, ncols - 1, paper_w, paper_h, sw, sh);
    }
}

/// Tiling produces at most `cols * rows` pages.
pub proof fn lemma_pages_len(cols: int, rows: int, paper_w: int, paper_h: int, sw: int, sh: int)
    requires
        cols >= 0,
        rows >= 0,
    ensures
        spec_pages(cols, rows, paper_w, paper_h, sw, sh).len() <= cols * rows,
    decreases rows,
{
    if rows > 0 {
        lemma_pages_len(cols, rows - 1, paper_w, paper_h, sw, sh);
        lemma_page_row_len(rows - 1, cols, paper_w, paper_h, sw, sh);
        assert(cols * (rows - 1) + cols == cols * rows) by (nonlinear_arith);
    }
}

/// A region lies inside a `w` x `h` canvas and has positive spans.
pub open spec fn region_within(r: Region, w: int, h: int) -> bool {
    &&& 0 < r.width
    &&& 0 < r.height
    &&& r.x + r.width <= w
    &&& r.y + r.height <= h
}

/// A region lies inside a `w` x `h` canvas, has positive spans, and spans
/// no more than `fw` x `fh`.
pub open spec fn region_ok(r: Region, w: int, h: int, fw: int, fh: int) -> bool {
    region_within(r, w, h) && r.width <= fw && r.height <= fh
}

/// Every region of the sequence satisfies `region_ok`.
pub open spec fn regions_ok(s: Seq<Region>, w: int, h: int, fw: int, fh: int) -> bool {
    forall|k: int| 0 <= k < s.len() ==> region_ok(#[trigger] s[k], w, h, fw, fh)
}

/// A surviving slot's clipped region lies inside the canvas, spans no more
/// than the full slot size, and the casts to pixel coordinates are exact.
proof fn lemma_surviving_region(ox: int, oy: int, fw: int, fh: int, w: int, h: int)
    requires
        0 <= ox,
        0 <= oy,
        0 <= fw,
        0 <= fh,
        0 <= w <= u32::MAX,
        0 <= h <= u32::MAX,
        spec_survives(ox, oy, fw, fh, w, h),
    ensures
        region_ok(spec_region(ox, oy, fw, fh, w, h), w, h, fw, fh),
        spec_region(ox, oy, fw, fh, w, h).x == ox,
        spec_region(ox, oy, fw, fh, w, h).y == oy,
        spec_region(ox, oy, fw, fh, w, h).width == spec_span(ox, fw, w),
        spec_region(ox, oy, fw, fh, w, h).height == spec_span(oy, fh, h),
{
}

/// Every page the tiler emits lies inside the scaled image and spans at
/// most the configured paper dimensions on each axis.
proof fn lemma_page_row_within(py: int, ncols: int, paper_w: int, paper_h: int, sw: int, sh: int)
    requires
        0 <= py,
        0 <= paper_w,
        0 <= paper_h,
        0 <= sw <= u32::MAX,
        0 <= sh <= u32::MAX,
    ensures
        regions_ok(
            spec_page_row_prefix(py, ncols, paper_w, paper_h, sw, sh),
            sw,
            sh,
            paper_w / 1000,
            paper_h / 1000,
        ),
    decreases ncols,
{
    if ncols > 0 {
        lemma_page_row_within(py, ncols - 1, paper_w, paper_h, sw, sh);
        let rest = spec_page_row_prefix(py, ncols - 1, paper_w, paper_h, sw, sh);
        let cur = spec_page_row_prefix(py, ncols, paper_w, paper_h, sw, sh);
        if spec_page_survives(ncols - 1, py, paper_w, paper_h, sw, sh) {
            vstd::arithmetic::mul::lemma_mul_nonnegative(ncols - 1, paper_w);
            vstd::arithmetic::mul::lemma_mul_nonnegative(py, paper_h);
            lemma_surviving_region(
                spec_page_origin_x(ncols - 1, paper_w),
                spec_page_origin_y(py, paper_h),
                paper_w / 1000,
                paper_h / 1000,
                sw,
                sh,
            );
            assert forall|k: int| 0 <= k < cur.len() implies region_ok(
                #[trigger] cur[k],
                sw,
                sh,
                paper_w / 1000,
                paper_h / 1000,
            ) by {
                if k < rest.len() {
                    assert(cur[k] == rest[k]);
                }
            }
        } else {
            assert(cur =~= rest);
        }
    }
}

/// As `lemma_page_row_within`, over whole rows.
pub proof fn lemma_pages_within(cols: int, rows: int, paper_w: int, paper_h: int, sw: int, sh: int)
    requires
        0 <= paper_w,
        0 <= paper_h,
        0 <= sw <= u32::MAX,
        0 <= sh <= u32::MAX,
    ensures
        regions_ok(
            spec_pages_prefix(rows, cols, paper_w, paper_h, sw, sh),
            sw,
            sh,
            paper_w / 1000,
            paper_h / 1000,
        ),
    decreases rows,
{
    if rows > 0 {
        lemma_pages_within(cols, rows - 1, paper_w, paper_h, sw, sh);
        lemma_page_row_within(rows - 1, cols, paper_w, paper_h, sw, sh);
        let a = spec_pages_prefix(rows - 1, cols, paper_w, paper_h, sw, sh);
        let b = spec_page_row_prefix(rows - 1, cols, paper_w, paper_h, sw, sh);
        let cur = spec_pages_prefix(rows, cols, paper_w, paper_h, sw, sh);
        assert forall|k: int| 0 <= k < cur.len() implies region_ok(
            #[trigger] cur[k],
            sw,
            sh,
            paper_w / 1000,
            paper_h / 1000,
        ) by {
            if k < a.len() {
                assert(cur[k] == a[k]);
            } else {
                assert(cur[k] == b[k - a.len()]);
            }
        }
    }
}

/// `r1` lies strictly before `r2` in row-major order: on an earlier row,
/// or on the same row further left.
pub open spec fn lex_before(r1: Region, r2: Region) -> bool {
    r1.y < r2.y || (r1.y == r2.y && r1.x < r2.x)
}

/// Origins grow with the slot index: stepping one slot moves the origin
/// forward by at least the floored step.
proof fn lemma_origin_step(i: int, step: int)
    requires
        0 <= i,
        0 <= step,
    ensures
        spec_origin(i, step) <= spec_origin(i + 1, step),
        spec_origin(i, step) + step / 1000 <= spec_origin(i + 1, step),
{
    let a = i * step;
    lemma_mul_nonnegative(i, step);
    vstd::arithmetic::mul::lemma_mul_is_distributive_add_other_way(step, i, 1);
    lemma_fundamental_div_mod(a, 1000);
    lemma_mod_bound(a, 1000);
    lemma_fundamental_div_mod(step, 1000);
    lemma_mod_bound(step, 1000);
    let qa = a / 1000;
    let ra = a % 1000;
    let qb = step / 1000;
    let rb = step % 1000;
    if ra + rb < 1000 {
        lemma_fundamental_div_mod_converse(a + step, 1000, qa + qb, ra + rb);
    } else {
        lemma_fundamental_div_mod_converse(a + step, 1000, qa + qb + 1, ra + rb - 1000);
    }
}

/// Within one row, surviving pages keep strictly increasing origins, all
/// of them on the row's common vertical origin.
proof fn lemma_page_row_ordered(py: int, ncols: int, paper_w: int, paper_h: int, sw: int, sh: int)
    requires
        0 <= py,
        0 <= paper_w,
        0 <= paper_h,
        0 <= sw <= u32::MAX,
        0 <= sh <= u32::MAX,
    ensures
        ({
            let row = spec_page_row_prefix(py, ncols, paper_w, paper_h, sw, sh);
            &&& forall|a: int|
                0 <= a < row.len() ==> (#[trigger] row[a]).y == spec_page_origin_y(py, paper_h)
            &&& forall|a: int|
                0 <= a < row.len() ==> (#[trigger] row[a]).x <= spec_page_origin_x(
                    ncols - 1,
                    paper_w,
                )
            &&& forall|a: int, b: int|
                #![trigger row[a], row[b]]
                0 <= a < b < row.len() ==> row[a].x < row[b].x
        }),
    decreases ncols,
{
    if ncols > 0 {
        lemma_page_row_ordered(py, ncols - 1, paper_w, paper_h, sw, sh);
        let rest = spec_page_row_prefix(py, ncols - 1, paper_w, paper_h, sw, sh);
        let row = spec_page_row_prefix(py, ncols, paper_w, paper_h, sw, sh);
        lemma_mul_nonnegative(ncols - 1, paper_w);
        lemma_mul_nonnegative(py, paper_h);
        if ncols >= 2 {
            lemma_origin_step(ncols - 2, paper_w);
        }
        if spec_page_survives(ncols - 1, py, paper_w, paper_h, sw, sh) {
            lemma_surviving_region(
                spec_page_origin_x(ncols - 1, paper_w),
                spec_page_origin_y(py, paper_h),
                paper_w / 1000,
                paper_h / 1000,
                sw,
                sh,
            );
            // A surviving slot's full span is at least one pixel, so the
            // origin moved strictly past every earlier survivor.
            assert(paper_w / 1000 >= 1);
            assert(forall|a: int| 0 <= a < rest.len() ==> (#[trigger] row[a]) == rest[a]);
        } else {
            assert(row =~= rest);
        }
    }
}

/// A non-empty row of survivors means the floored paper height is at
/// least one pixel.
proof fn lemma_page_row_full_span(py: int, ncols: int, paper_w: int, paper_h: int, sw: int, sh: int)
    requires
        0 <= paper_h,
        spec_page_row_prefix(py, ncols, paper_w, paper_h, sw, sh).len() > 0,
    ensures
        paper_h / 1000 >= 1,
    decreases ncols,
{
    if ncols > 0 {
        if spec_page_survives(ncols - 1, py, paper_w, paper_h, sw, sh) {
        } else {
            lemma_page_row_full_span(py, ncols - 1, paper_w, paper_h, sw, sh);
        }
    }
}

/// Across rows, a later row's surviving pages sit strictly below every
/// earlier survivor.
proof fn lemma_pages_prefix_ordered(nrows: int, cols: int, paper_w: int, paper_h: int, sw: int, sh: int)
    requires
        0 <= paper_w,
        0 <= paper_h,
        0 <= sw <= u32::MAX,
        0 <= sh <= u32::MAX,
    ensures
        ({
            let pages = spec_pages_prefix(nrows, cols, paper_w, paper_h, sw, sh);
            &&& forall|a: int|
                0 <= a < pages.len() ==> (#[trigger] pages[a]).y <= spec_page_origin_y(
                    nrows - 1,
                    paper_h,
                )
            &&& forall|a: int, b: int|
                #![trigger pages[a], pages[b]]
                0 <= a < b < pages.len() ==> lex_before(pages[a], pages[b])
        }),
    decreases nrows,
{
    if nrows > 0 {
        lemma_pages_prefix_ordered(nrows - 1, cols, paper_w, paper_h, sw, sh);
        lemma_page_row_ordered(nrows - 1, cols, paper_w, paper_h, sw, sh);
        let old_pages = spec_pages_prefix(nrows - 1, cols, paper_w, paper_h, sw, sh);
        let row = spec_page_row_prefix(nrows - 1, cols, paper_w, paper_h, sw, sh);
        let pages = spec_pages_prefix(nrows, cols, paper_w, paper_h, sw, sh);
        lemma_mul_nonnegative(nrows - 1, paper_h);
        if nrows >= 2 {
            lemma_origin_step(nrows - 2, paper_h);
        }
        if row.len() > 0 {
            // The row has a survivor, so the paper is at least one pixel
            // tall and this row's origin lies strictly below every
            // earlier row's.
            lemma_page_row_full_span(nrows - 1, cols, paper_w, paper_h, sw, sh);
        }
        assert(forall|a: int| 0 <= a < old_pages.len() ==> (#[trigger] pages[a]) == old_pages[a]);
        assert(forall|a: int|
            0 <= a < row.len() ==> (#[trigger] pages[old_pages.len() + a]) == row[a]);
        assert forall|a: int, b: int|
            #![trigger pages[a], pages[b]]
            0 <= a < b < pages.len() implies lex_before(pages[a], pages[b]) by {
            if a < old_pages.len() && b >= old_pages.len() {
                assert(pages[a] == old_pages[a]);
                assert(pages[b] == row[b - old_pages.len()]);
            }
        }
    }
}

/// Tiling preserves row-major order: of any two surviving pages, the
/// earlier one lies on a strictly earlier row, or further left on the
/// same row.
pub proof fn lemma_pages_row_major(cols: int, rows: int, paper_w: int, paper_h: int, sw: int, sh: int)
    requires
        0 <= paper_w,
        0 <= paper_h,
        0 <= sw <= u32::MAX,
        0 <= sh <= u32::MAX,
    ensures
        forall|a: int, b: int|
            #![trigger spec_pages(cols, rows, paper_w, paper_h, sw, sh)[a], spec_pages(cols, rows, paper_w, paper_h, sw, sh)[b]]
            0 <= a < b < spec_pages(cols, rows, paper_w, paper_h, sw, sh).len() ==> lex_before(
                spec_pages(cols, rows, paper_w, paper_h, sw, sh)[a],
                spec_pages(cols, rows, paper_w, paper_h, sw, sh)[b],
            ),
{
    lemma_pages_prefix_ordered(rows, cols, paper_w, paper_h, sw, sh);
}

// ---------------------------------------------------------------------------
// Cells
// ---------------------------------------------------------------------------

/// Number of cell slots along one axis: the ceiling of `len / square`
/// where `len` is in pixels and `square` in thousandths of a pixel.
pub open spec fn spec_cells_across(len: int, square: int) -> int {
    (len * 1000 + square - 1) / square
}

/// Horizontal shift of odd-numbered cell rows: half the cell size,
/// floored to whole pixels — the brick offset of the halftone screen.
pub open spec fn spec_half_square(square: int) -> int {
    square / 2000
}

/// Origin of the cell in column `sx` of row `sy`: odd rows are shifted
/// right by the brick offset.
pub open spec fn spec_cell_origin_x(sx: int, sy: int, square: int) -> int {
    spec_origin(sx, square) + if sy % 2 == 1 {
        spec_half_square(square)
    } else {
        0
    }
}

pub open spec fn spec_cell_origin_y(sy: int, square: int) -> int {
    spec_origin(sy, square)
}

pub open spec fn spec_cell_survives(sx: int, sy: int, square: int, pw: int, ph: int) -> bool {
    spec_survives(
        spec_cell_origin_x(sx, sy, square),
        spec_cell_origin_y(sy, square),
        square / 1000,
        square / 1000,
        pw,
        ph,
    )
}

pub open spec fn spec_cell_region(sx: int, sy: int, square: int, pw: int, ph: int) -> Region {
    spec_region(
        spec_cell_origin_x(sx, sy, square),
        spec_cell_origin_y(sy, square),
        square / 1000,
        square / 1000,
        pw,
        ph,
    )
}

/// The surviving cells of the first `ncols` columns of cell row `sy`.
pub open spec fn spec_cell_row_prefix(sy: int, ncols: int, square: int, pw: int, ph: int) -> Seq<Region>
    decreases ncols,
{
    if ncols <= 0 {
        Seq::empty()
    } else {
        let rest = spec_cell_row_prefix(sy, ncols - 1, square, pw, ph);
        if spec_cell_survives(ncols - 1, sy, square, pw, ph) {
            rest.push(spec_cell_region(ncols - 1, sy, square, pw, ph))
        } else {
            rest
        }
    }
}

/// The surviving cells of the first `nrows` cell rows, row-major.
pub open spec fn spec_cells_prefix(nrows: int, cols: int, square: int, pw: int, ph: int) -> Seq<Region>
    decreases nrows,
{
    if nrows <= 0 {
        Seq::empty()
    } else {
        spec_cells_prefix(nrows - 1, cols, square, pw, ph)
            + spec_cell_row_prefix(nrows - 1, cols, square, pw, ph)
    }
}

/// All surviving sampling cells of a `pw` x `ph` page for a cell size of
/// `square` thousandths of a pixel, row-major.
pub open spec fn spec_cells(pw: int, ph: int, square: int) -> Seq<Region> {
    spec_cells_prefix(
        spec_cells_across(ph, square),
        spec_cells_across(pw, square),
        square,
        pw,
        ph,
    )
}

/// Number of cell slots along one axis, as executable arithmetic.
fn cells_across(len: u32, square: u64) -> (r: u64)
    requires
        1 <= square,
        len as int * 1000 + square as int <= u64::MAX,
    ensures
        r == spec_cells_across(len as int, square as int),
{
    (len as u64 * 1000 + (square - 1)) / square
}

/// Slices a `page_width` x `page_height` page into its surviving sampling
/// cells, row-major, with odd rows shifted right by half a cell (the
/// brick offset).  A cell whose clipped span is empty on either axis is
/// omitted.
pub fn cell_regions(page_width: u32, page_height: u32, square: u64) -> (r: Vec<Region>)
    requires
        1 <= square,
        page_width as int * 1000 + square as int <= u64::MAX,
        page_height as int * 1000 + square as int <= u64::MAX,
    ensures
        r@ == spec_cells(page_width as int, page_height as int, square as int),
{
    let full = square / 1000;
    let half = square / 2000;
    let cols = cells_across(page_width, square);
    let rows = cells_across(page_height, square);
    let mut result: Vec<Region> = Vec::new();
    let mut sy: u64 = 0;
    while sy < rows
        invariant
            sy <= rows,
            1 <= square,
            full == square as int / 1000,
            half == spec_half_square(square as int),
            cols == spec_cells_across(page_width as int, square as int),
            rows == spec_cells_across(page_height as int, square as int),
            result@ == spec_cells_prefix(
                sy as int,
                cols as int,
                square as int,
                page_width as int,
                page_height as int,
            ),
        decreases rows - sy,
    {
        proof {
            lemma_cell_mul_in_range(sy as int, rows as int, page_height as int, square as int);
        }
        let oy = origin_of(sy, square);
        let y_span = span_at(oy, full, page_height as u64);
        let mut sx: u64 = 0;
        while sx < cols
            invariant
                sx <= cols,
                sy < rows,
                1 <= square,
                full == square as int / 1000,
                half == spec_half_square(square as int),
                cols == spec_cells_across(page_width as int, square as int),
                oy == spec_cell_origin_y(sy as int, square as int),
                y_span == spec_span(oy as int, full as int, page_height as int),
                result@ == spec_cells_prefix(
                    sy as int,
                    cols as int,
                    square as int,
                    page_width as int,
                    page_height as int,
                ) + spec_cell_row_prefix(
                    sy as int,
                    sx as int,
                    square as int,
                    page_width as int,
                    page_height as int,
                ),
            decreases cols - sx,
        {
            proof {
                lemma_cell_mul_in_range(sx as int, cols as int, page_width as int, square as int);
            }
            let base = origin_of(sx, square);
            let ox = if sy % 2 == 0 {
                base
            } else {
                base + half
            };
            proof {
                assert(ox == spec_cell_origin_x(sx as int, sy as int, square as int));
            }
            let x_span = span_at(ox, full, page_width as u64);
            if x_span > 0 && y_span > 0 {
                result.push(Region {
                    x: ox as u32,
                    y: oy as u32,
                    width: x_span as u32,
                    height: y_span as u32,
                });
            }
            sx = sx + 1;
        }
        sy = sy + 1;
        proof {
            assert(result@ =~= spec_cells_prefix(
                sy as int,
                cols as int,
                square as int,
                page_width as int,
                page_height as int,
            ));
        }
    }
    result
}

/// An index below `ceil(len * 1000 / square)` keeps `idx * square` below
/// `len * 1000`, so the cell origin lies strictly inside the page.
proof fn lemma_cell_mul_in_range(idx: int, count: int, len: int, square: int)
    requires
        1 <= square,
        0 <= idx < count,
        0 <= len,
        count == spec_cells_across(len, square),
    ensures
        idx * square < len * 1000,
        (idx * square) / 1000 < len,
{
    let a = len * 1000 + square - 1;
    lemma_fundamental_div_mod(a, square);
    lemma_mod_bound(a, square);
    assert(square * count <= a);
    assert(idx * square < len * 1000) by (nonlinear_arith)
        requires
            1 <= square,
            0 <= idx <= count - 1,
            square * count <= len * 1000 + square - 1;
    lemma_mul_nonnegative(idx, square);
    lemma_div_is_ordered(idx * square, len * 1000 - 1, 1000);
    lemma_fundamental_div_mod_converse(len * 1000 - 1, 1000, len - 1, 999);
}

/// Every cell the sampler visits lies inside its page and spans at most
/// the floored cell size on each axis.
proof fn lemma_cell_row_within(sy: int, ncols: int, square: int, pw: int, ph: int)
    requires
        0 <= sy,
        1 <= square,
        0 <= pw <= u32::MAX,
        0 <= ph <= u32::MAX,
    ensures
        regions_ok(
            spec_cell_row_prefix(sy, ncols, square, pw, ph),
            pw,
            ph,
            square / 1000,
            square / 1000,
        ),
    decreases ncols,
{
    if ncols > 0 {
        lemma_cell_row_within(sy, ncols - 1, square, pw, ph);
        let rest = spec_cell_row_prefix(sy, ncols - 1, square, pw, ph);
        let cur = spec_cell_row_prefix(sy, ncols, square, pw, ph);
        if spec_cell_survives(ncols - 1, sy, square, pw, ph) {
            vstd::arithmetic::mul::lemma_mul_nonnegative(ncols - 1, square);
            vstd::arithmetic::mul::lemma_mul_nonnegative(sy, square);
            lemma_surviving_region(
                spec_cell_origin_x(ncols - 1, sy, square),
                spec_cell_origin_y(sy, square),
                square / 1000,
                square / 1000,
                pw,
                ph,
            );
            assert forall|k: int| 0 <= k < cur.len() implies region_ok(
                #[trigger] cur[k],
                pw,
                ph,
                square / 1000,
                square / 1000,
            ) by {
                if k < rest.len() {
                    assert(cur[k] == rest[k]);
                }
            }
        } else {
            assert(cur =~= rest);
        }
    }
}

/// As `lemma_cell_row_within`, over whole cell rows.
pub proof fn lemma_cells_within(nrows: int, cols: int, square: int, pw: int, ph: int)
    requires
        1 <= square,
        0 <= pw <= u32::MAX,
        0 <= ph <= u32::MAX,
    ensures
        regions_ok(
            spec_cells_prefix(nrows, cols, square, pw, ph),
            pw,
            ph,
            square / 1000,
            square / 1000,
        ),
    decreases nrows,
{
    if nrows > 0 {
        lemma_cells_within(nrows - 1, cols, square, pw, ph);
        lemma_cell_row_within(nrows - 1, cols, square, pw, ph);
        let a = spec_cells_prefix(nrows - 1, cols, square, pw, ph);
        let b = spec_cell_row_prefix(nrows - 1, cols, square, pw, ph);
        let cur = spec_cells_prefix(nrows, cols, square, pw, ph);
        assert forall|k: int| 0 <= k < cur.len() implies region_ok(
            #[trigger] cur[k],
            pw,
            ph,
            square / 1000,
            square / 1000,
        ) by {
            if k < a.len() {
                assert(cur[k] == a[k]);
            } else {
                assert(cur[k] == b[k - a.len()]);
            }
        }
    }
}

} // verus!
