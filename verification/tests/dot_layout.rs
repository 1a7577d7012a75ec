use rat::dots::sample_page;
use rat::radius::{adjusted_radius, max_radius};
use rat::rasterize::ColorDepth;
use rat::sample::{Bitmap, Rgba8};

fn uniform_page(width: u32, height: u32, p: Rgba8) -> Bitmap {
    Bitmap { width, height, pixels: vec![p; (width * height) as usize] }
}

fn checkerboard_page(width: u32, height: u32) -> Bitmap {
    let mut pixels = Vec::new();
    for y in 0..height {
        for x in 0..width {
            if (x + y) % 2 == 0 {
                pixels.push(Rgba8 { r: 255, g: 255, b: 255, a: 255 });
            } else {
                pixels.push(Rgba8 { r: 0, g: 0, b: 0, a: 255 });
            }
        }
    }
    Bitmap { width, height, pixels }
}

const WHITE: Rgba8 = Rgba8 { r: 255, g: 255, b: 255, a: 255 };
const BLACK_OPAQUE: Rgba8 = Rgba8 { r: 0, g: 0, b: 0, a: 255 };

#[test]
fn white_page_yields_zero_radius_dots() {
    // 144 x 144 page, 18-pixel cells, fractions 0 and 1: an all-white
    // page yields 8 x 8 dots of radius zero.
    let page = uniform_page(144, 144, WHITE);
    let mr = max_radius(18_000);
    let amin = adjusted_radius(mr, 0);
    let amax = adjusted_radius(mr, 1000);
    let dots = sample_page(&page, 18_000, amin, amax, ColorDepth::Grayscale);
    assert_eq!(dots.len(), 64);
    assert!(dots.iter().all(|d| d.radius == 0));
}

#[test]
fn black_page_yields_maximum_radius_dots() {
    let page = uniform_page(144, 144, Rgba8 { r: 0, g: 0, b: 0, a: 255 });
    let mr = max_radius(18_000);
    let dots = sample_page(&page, 18_000, 0, mr, ColorDepth::Grayscale);
    assert_eq!(dots.len(), 64);
    assert!(dots.iter().all(|d| d.radius == 12_727));
}

#[test]
fn half_gray_page_yields_half_radius_dots() {
    // A one-pixel checkerboard averages to brightness one half in every
    // cell, clipped cells included, so every dot has half the maximum
    // radius (floored).
    let page = checkerboard_page(144, 144);
    let dots = sample_page(&page, 18_000, 0, 12_727, ColorDepth::Grayscale);
    assert_eq!(dots.len(), 64);
    assert!(dots.iter().all(|d| d.radius == 6_363));
}

#[test]
fn dot_centers_follow_the_brick_pattern() {
    let page = uniform_page(144, 144, WHITE);
    let dots = sample_page(&page, 18_000, 0, 12_727, ColorDepth::Grayscale);
    // Row 0 is unshifted: centers at x = 9, 27, ...; row 1 is shifted
    // right by half a cell: centers at x = 18, 36, ...
    assert_eq!((dots[0].center_x, dots[0].center_y), (9, 9));
    assert_eq!((dots[1].center_x, dots[1].center_y), (27, 9));
    assert_eq!((dots[8].center_x, dots[8].center_y), (18, 27));
    assert_eq!((dots[9].center_x, dots[9].center_y), (36, 27));
}

#[test]
fn grayscale_dots_are_black() {
    let page = uniform_page(36, 36, WHITE);
    let dots = sample_page(&page, 18_000, 0, 12_727, ColorDepth::Grayscale);
    assert_eq!(dots.len(), 4);
    assert!(dots.iter().all(|d| d.color == BLACK_OPAQUE));
}

#[test]
fn rgb_dots_carry_the_sampled_average_color() {
    // A single full cell of 324 pixels of one color survives the seeded
    // averaging unchanged: (c + 324 c) / 324 = c for c <= 254.
    let page = uniform_page(18, 18, Rgba8 { r: 200, g: 3, b: 77, a: 255 });
    let dots = sample_page(&page, 18_000, 0, 12_727, ColorDepth::Rgb);
    assert_eq!(dots.len(), 1);
    assert_eq!(dots[0].color, Rgba8 { r: 200, g: 3, b: 77, a: 255 });
}

#[test]
fn rgb_clipped_cells_show_the_seeded_averaging_quirk() {
    // A 36 x 36 page has a clipped 9 x 18 cell on its shifted row: there
    // the 162-pixel average (c + 162 c) / 162 rounds red up to 201 and
    // wraps alpha 255 to zero, as the seeded accumulator dictates.
    let page = uniform_page(36, 36, Rgba8 { r: 200, g: 3, b: 77, a: 255 });
    let dots = sample_page(&page, 18_000, 0, 12_727, ColorDepth::Rgb);
    assert_eq!(dots.len(), 4);
    assert_eq!(dots[0].color, Rgba8 { r: 200, g: 3, b: 77, a: 255 });
    assert_eq!(dots[3].color, Rgba8 { r: 201, g: 3, b: 77, a: 0 });
}

#[test]
fn minimum_fraction_floors_every_dot() {
    // With a minimum floor of half the maximum, a white page still gets
    // visible dots.
    let page = uniform_page(36, 36, WHITE);
    let dots = sample_page(&page, 18_000, 6_363, 12_727, ColorDepth::Grayscale);
    assert!(dots.iter().all(|d| d.radius == 6_363));
}
