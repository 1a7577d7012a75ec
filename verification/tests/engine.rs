use image::{DynamicImage, ImageBuffer, Rgba};
use rat::rasterize::{rasterize_image, rasterize_svg, ColorDepth, RasterizeArgs};

fn uniform_image(width: u32, height: u32, channels: [u8; 4]) -> DynamicImage {
    DynamicImage::ImageRgba8(ImageBuffer::from_pixel(width, height, Rgba(channels)))
}

fn args<'a>(
    image: &'a DynamicImage,
    paper_width_pixels: u64,
    paper_height_pixels: u64,
    pages_width: u32,
    pages_height: u32,
    square_size: u64,
) -> RasterizeArgs<'a> {
    RasterizeArgs {
        image,
        paper_width_pixels,
        paper_height_pixels,
        pages_width,
        pages_height,
        square_size,
        min_radius_percentage: 0,
        max_radius_percentage: 1000,
        color_depth: ColorDepth::Grayscale,
    }
}

fn svg_to_string(doc: &svg::Document) -> String {
    let mut out: Vec<u8> = Vec::new();
    svg::write(&mut out, doc).unwrap();
    String::from_utf8(out).unwrap()
}

#[test]
fn white_image_rasterizes_to_empty_circles() {
    // A 144 x 144 white image on one 144 x 144 page with 18-pixel cells:
    // 64 circles, all of radius zero.
    let img = uniform_image(144, 144, [255, 255, 255, 255]);
    let docs = rasterize_svg(args(&img, 144_000, 144_000, 1, 1, 18_000));
    assert_eq!(docs.len(), 1);
    let text = svg_to_string(&docs[0]);
    assert_eq!(text.matches("<circle").count(), 64);
    assert_eq!(text.matches("r=\"0.000\"").count(), 64);
    assert!(text.contains("viewBox=\"0 0 144 144\""));
}

#[test]
fn black_image_rasterizes_to_full_circles() {
    let img = uniform_image(144, 144, [0, 0, 0, 255]);
    let docs = rasterize_svg(args(&img, 144_000, 144_000, 1, 1, 18_000));
    assert_eq!(docs.len(), 1);
    let text = svg_to_string(&docs[0]);
    assert_eq!(text.matches("r=\"12.727\"").count(), 64);
    assert!(text.contains("cx=\"9\""));
    assert!(text.contains("cy=\"9\""));
}

#[test]
fn raster_backend_emits_one_buffer_per_page() {
    let img = uniform_image(144, 144, [0, 0, 0, 255]);
    let buffers = rasterize_image(args(&img, 144_000, 144_000, 1, 1, 18_000));
    assert_eq!(buffers.len(), 1);
    assert_eq!(buffers[0].dimensions(), (144, 144));
}

#[test]
fn raster_buffers_take_the_clipped_page_dimensions() {
    // A 150 x 100 image scaled to fit a 100 x 100 box becomes 100 x 67,
    // so the single page's buffer is 100 x 67 — not the full paper size.
    let img = uniform_image(150, 100, [0, 0, 0, 255]);
    let buffers = rasterize_image(args(&img, 100_000, 100_000, 1, 1, 10_000));
    assert_eq!(buffers.len(), 1);
    assert_eq!(buffers[0].dimensions(), (100, 67));
}

#[test]
fn both_backends_agree_on_pages_and_dot_counts() {
    // A wide image over a 2 x 1 page grid: both backends emit the same
    // two pages, and the vector circles per page match the raster page's
    // cell count.
    let img = uniform_image(240, 100, [0, 0, 0, 255]);
    let buffers = rasterize_image(args(&img, 100_000, 100_000, 2, 1, 10_000));
    let docs = rasterize_svg(args(&img, 100_000, 100_000, 2, 1, 10_000));
    assert_eq!(buffers.len(), 2);
    assert_eq!(docs.len(), 2);
    for (buffer, doc) in buffers.iter().zip(docs.iter()) {
        let (w, h) = buffer.dimensions();
        let text = svg_to_string(doc);
        assert!(text.contains(&format!("viewBox=\"0 0 {} {}\"", w, h)));
        // 10-pixel cells over a w x h page: ceil(w/10) columns on even
        // rows, and the shifted odd rows keep the same column count here.
        let cols = (w as usize).div_ceil(10);
        let rows = (h as usize).div_ceil(10);
        assert_eq!(text.matches("<circle").count(), cols * rows);
    }
}

#[test]
fn second_page_is_clipped_to_the_scaled_image() {
    // The scaled image is 200 x 83; the second page starts at pixel 100
    // and gets only the remaining 100 pixels.
    let img = uniform_image(240, 100, [128, 128, 128, 255]);
    let buffers = rasterize_image(args(&img, 100_000, 100_000, 2, 1, 10_000));
    assert_eq!(buffers[0].dimensions(), (100, 83));
    assert_eq!(buffers[1].dimensions(), (100, 83));
}

#[test]
fn pages_beyond_the_scaled_image_are_omitted() {
    // A 2 x 1 aspect image over a 2 x 2 grid of 100-pixel pages scales to
    // 200 x 100: it covers only the top row, so the bottom row's pages
    // start at the scaled image's lower edge and are omitted.
    let img = uniform_image(200, 100, [0, 0, 0, 255]);
    let buffers = rasterize_image(args(&img, 100_000, 100_000, 2, 2, 10_000));
    assert_eq!(buffers.len(), 2);
    assert_eq!(buffers[0].dimensions(), (100, 100));
    assert_eq!(buffers[1].dimensions(), (100, 100));
}

#[test]
fn raster_page_pixels_are_painted() {
    // An all-black page gets full-radius dots, so each cell's center is
    // painted while the page corner stays blank.
    let img = uniform_image(36, 36, [0, 0, 0, 255]);
    let buffers = rasterize_image(args(&img, 36_000, 36_000, 1, 1, 18_000));
    let (w, h, bytes) = buffers.into_iter().next().unwrap().into_raw_parts();
    assert_eq!((w, h), (36, 36));
    assert_eq!(bytes.len(), 36 * 36 * 4);
    // The dot center itself is painted opaque black.
    let center = ((9 * 36 + 9) * 4) as usize;
    assert_eq!(&bytes[center..center + 4], &[0, 0, 0, 255]);
    // The page corner lies outside every circle and stays blank.
    assert_eq!(&bytes[..4], &[0, 0, 0, 0]);
}
