use rat::geometry::Region;
use rat::sample::{average_brightness, average_color, brightness, Bitmap, Rgba8};

fn px(r: u8, g: u8, b: u8, a: u8) -> Rgba8 {
    Rgba8 { r, g, b, a }
}

#[test]
fn bitmap_from_bytes_splits_pixels() {
    let bytes = vec![1, 2, 3, 4, 10, 20, 30, 40];
    let bitmap = Bitmap::from_rgba_bytes(2, 1, &bytes);
    assert_eq!(bitmap.width, 2);
    assert_eq!(bitmap.height, 1);
    assert_eq!(bitmap.pixels, vec![px(1, 2, 3, 4), px(10, 20, 30, 40)]);
}

#[test]
fn region_pixels_gathers_row_major() {
    // A 3 x 3 bitmap whose pixel at (x, y) has red channel 10 x + y.
    let mut bytes = Vec::new();
    for y in 0..3u8 {
        for x in 0..3u8 {
            bytes.extend_from_slice(&[10 * x + y, 0, 0, 255]);
        }
    }
    let bitmap = Bitmap::from_rgba_bytes(3, 3, &bytes);
    let reg = Region { x: 1, y: 1, width: 2, height: 2 };
    let pixels = rat::sample::region_pixels(&bitmap, reg);
    let reds: Vec<u8> = pixels.iter().map(|p| p.r).collect();
    assert_eq!(reds, vec![11, 21, 12, 22]);
}

#[test]
fn brightness_weights_the_channels() {
    // Luma numerator is 299 r + 587 g + 114 b, in units of 1/255000.
    assert_eq!(brightness(px(255, 255, 255, 255)), 255_000);
    assert_eq!(brightness(px(0, 0, 0, 255)), 0);
    assert_eq!(brightness(px(255, 0, 0, 0)), 76_245);
    assert_eq!(brightness(px(0, 255, 0, 0)), 149_685);
    assert_eq!(brightness(px(0, 0, 255, 0)), 29_070);
    assert_eq!(brightness(px(1, 2, 3, 0)), 299 + 2 * 587 + 3 * 114);
}

#[test]
fn average_brightness_sums_lumas() {
    let pixels = vec![px(255, 255, 255, 255), px(0, 0, 0, 255), px(255, 0, 0, 255)];
    let b = average_brightness(&pixels);
    assert_eq!(b.luma_sum, 255_000 + 0 + 76_245);
    assert_eq!(b.pixel_count, 3);
}

#[test]
fn average_color_counts_the_first_pixel_twice() {
    // The accumulator is seeded with the first pixel and then sums over
    // every pixel, so two pixels of 10 and 30 average to (10 + 40) / 2,
    // not 20.
    let pixels = vec![px(10, 40, 100, 0), px(30, 80, 200, 255)];
    let avg = average_color(&pixels);
    assert_eq!(avg, px(25, 80, 200, 127));
}

#[test]
fn average_color_of_single_pixel_doubles_it() {
    // One pixel: (p + p) / 1 = 2 p, truncated to a byte.
    let avg = average_color(&vec![px(100, 127, 128, 255)]);
    assert_eq!(avg, px(200, 254, 0, 254));
}

#[test]
fn average_color_wraps_like_a_byte() {
    // Two white pixels: (255 + 510) / 2 = 382, which wraps to 126 when
    // stored in a byte.
    let avg = average_color(&vec![px(255, 255, 255, 255), px(255, 255, 255, 255)]);
    assert_eq!(avg, px(126, 126, 126, 126));
}

#[test]
fn average_color_on_many_pixels_is_unbiased_when_uniform() {
    // 324 pixels of one color: (c + 324 c) / 324 = c for c <= 254.
    let pixels = vec![px(200, 3, 77, 255); 324];
    let avg = average_color(&pixels);
    assert_eq!(avg, px(200, 3, 77, 255));
}
