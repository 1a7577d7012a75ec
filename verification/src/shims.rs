//! The crate's trusted boundary: declarations and thin wrappers for the
//! outside image, drawing, and vector-document crates.
//!
//! Everything else in the crate is verified against the contracts stated
//! here; each wrapper's doc comment names the outside function it relies
//! on and what its source shows.

use vstd::prelude::*;

verus! {

#[verifier::external_type_specification]
#[verifier::external_body]
pub struct ExDynamicImage(image::DynamicImage);

#[verifier::external_type_specification]
#[verifier::external_body]
#[verifier::reject_recursive_types(T)]
pub struct ExRgba<T>(image::Rgba<T>);

/// A rendered page: an owned RGBA pixel buffer of the page's dimensions.
/// Holds an `image::ImageBuffer`, whose declaration Verus refuses for its
/// trait-bounded type parameter, so the whole struct is opaque and spoken
/// of through `buf_dims`.
#[verifier::external_body]
pub struct PageBuffer {
    inner: image::ImageBuffer<image::Rgba<u8>, Vec<u8>>,
}

#[verifier::external_type_specification]
#[verifier::external_body]
pub struct ExSvgDocument(svg::node::element::SVG);

/// What a decoded image holds: its width, its height, and its flat RGBA
/// bytes (four per pixel, row-major).
pub uninterp spec fn img_view(i: image::DynamicImage) -> (nat, nat, Seq<u8>);

/// What `DynamicImage::resize` yields for an image and bounds: the result
/// depends on the image and the bounds alone.
pub uninterp spec fn scaled_view(i: image::DynamicImage, nwidth: u32, nheight: u32) -> (nat, nat, Seq<u8>);

/// Pixel width and height of a page buffer.
pub uninterp spec fn buf_dims(b: PageBuffer) -> (nat, nat);

/// The circle children of a vector document, in insertion order:
/// `(cx, cy, radius whole pixels, radius thousandths)`.
pub uninterp spec fn doc_circles(d: svg::node::element::SVG) -> Seq<(int, int, int, int)>;

/// The document's view box attribute: `(min x, min y, width, height)`.
pub uninterp spec fn doc_view_box(d: svg::node::element::SVG) -> (int, int, int, int);

/// Relies on `image::DynamicImage::resize`: scales the image to the
/// maximum size that fits within the bounds, preserving aspect ratio,
/// here with the nearest-neighbor filter.  Its source returns the clone
/// when the bounds equal the image's size, and otherwise dimensions of at
/// least one pixel that fit within the bounds.
#[verifier::external_body]
pub(crate) fn resize_to_fit(img: &image::DynamicImage, nwidth: u32, nheight: u32) -> (r: image::DynamicImage)
    requires
        1 <= img_view(*img).0,
        1 <= img_view(*img).1,
        1 <= nwidth,
        1 <= nheight,
    ensures
        img_view(r) == scaled_view(*img, nwidth, nheight),
        1 <= img_view(r).0 <= nwidth,
        1 <= img_view(r).1 <= nheight,
{
    img.resize(nwidth, nheight, image::imageops::FilterType::Nearest)
}

/// Relies on `GenericImageView::dimensions` for `DynamicImage`: the
/// image's pixel width and height.
#[verifier::external_body]
pub(crate) fn image_dimensions(img: &image::DynamicImage) -> (r: (u32, u32))
    ensures
        r.0 == img_view(*img).0,
        r.1 == img_view(*img).1,
{
    image::GenericImageView::dimensions(img)
}

/// Relies on `DynamicImage::to_rgba8` and `ImageBuffer::into_raw`: the
/// image's flat RGBA bytes, four per pixel, row-major.
#[verifier::external_body]
pub(crate) fn image_rgba_bytes(img: &image::DynamicImage) -> (r: Vec<u8>)
    ensures
        r@ == img_view(*img).2,
        r@.len() == 4 * (img_view(*img).0 * img_view(*img).1),
{
    img.to_rgba8().into_raw()
}

/// Relies on `ImageBuffer::new`: a buffer of the given dimensions with
/// every channel zero.  Its source panics if the byte length
/// `4 * width * height` overflows a machine word, so that is required.
#[verifier::external_body]
pub(crate) fn new_page_buffer(width: u32, height: u32) -> (r: PageBuffer)
    requires
        4 * (width as int * height as int) <= usize::MAX,
    ensures
        buf_dims(r) == (width as nat, height as nat),
{
    PageBuffer { inner: image::ImageBuffer::new(width, height) }
}

/// Relies on `imageproc::drawing::draw_filled_circle_mut`: paints a
/// filled circle of the given center, radius, and RGBA color, silently
/// clipping pixels outside the buffer and leaving the buffer's
/// dimensions unchanged.  The coordinate bounds keep its midpoint
/// arithmetic within `i32`.
#[verifier::external_body]
pub(crate) fn draw_filled_circle(
    buf: &mut PageBuffer,
    center_x: i32,
    center_y: i32,
    radius: i32,
    color: (u8, u8, u8, u8),
)
    requires
        0 <= radius <= 0x1000_0000,
        -0x1000_0000 <= center_x <= 0x1000_0000,
        -0x1000_0000 <= center_y <= 0x1000_0000,
    ensures
        buf_dims(*final(buf)) == buf_dims(*old(buf)),
{
    imageproc::drawing::draw_filled_circle_mut(
        &mut buf.inner,
        (center_x, center_y),
        radius,
        image::Rgba([color.0, color.1, color.2, color.3]),
    );
}

impl PageBuffer {
    /// Relies on `ImageBuffer::dimensions`: the buffer's pixel width and
    /// height.
    #[verifier::external_body]
    pub fn dimensions(&self) -> (r: (u32, u32))
        ensures
            r.0 == buf_dims(*self).0,
            r.1 == buf_dims(*self).1,
    {
        self.inner.dimensions()
    }

    /// Relies on `ImageBuffer::dimensions` and `ImageBuffer::into_raw`:
    /// the buffer's width, height, and flat RGBA bytes, four per pixel.
    #[verifier::external_body]
    pub fn into_raw_parts(self) -> (r: (u32, u32, Vec<u8>))
        ensures
            r.0 == buf_dims(self).0,
            r.1 == buf_dims(self).1,
            r.2@.len() == 4 * (buf_dims(self).0 * buf_dims(self).1),
    {
        let (w, h) = self.inner.dimensions();
        (w, h, self.inner.into_raw())
    }
}

/// Relies on `svg::Document::new`: a document with no child nodes.
#[verifier::external_body]
pub(crate) fn svg_new_document() -> (r: svg::Document)
    ensures
        doc_circles(r) == Seq::<(int, int, int, int)>::empty(),
{
    svg::Document::new()
}

/// Relies on `Document::set`: assigns the `viewBox` attribute and leaves
/// the child nodes unchanged.
#[verifier::external_body]
pub(crate) fn svg_set_view_box(doc: svg::Document, width: u32, height: u32) -> (r: svg::Document)
    ensures
        doc_circles(r) == doc_circles(doc),
        doc_view_box(r) == (0int, 0int, width as int, height as int),
{
    doc.set("viewBox", (0u32, 0u32, width, height))
}

/// Relies on `Circle::new`, `Circle::set`, and `Document::add`: appends
/// one circle child with the given center and a radius attribute of
/// `whole.thousandths` pixels, leaving earlier children and the view box
/// unchanged.
#[verifier::external_body]
pub(crate) fn svg_add_circle(
    doc: svg::Document,
    cx: i32,
    cy: i32,
    radius_whole: u64,
    radius_thousandths: u64,
) -> (r: svg::Document)
    ensures
        doc_circles(r) == doc_circles(doc).push(
            (cx as int, cy as int, radius_whole as int, radius_thousandths as int),
        ),
        doc_view_box(r) == doc_view_box(doc),
{
    let circle = svg::node::element::Circle::new()
        .set("cx", cx)
        .set("cy", cy)
        .set("r", format!("{}.{:03}", radius_whole, radius_thousandths));
    doc.add(circle)
}

} // verus!
