use rat::paper::{Orientation, PaperSize};
use rat::rasterize::ColorDepth;

#[test]
fn from_string_recognizes_the_three_sizes() {
    assert_eq!(PaperSize::from_string("US Letter"), Some(PaperSize::USLetter));
    assert_eq!(PaperSize::from_string("A4"), Some(PaperSize::A4));
    assert_eq!(PaperSize::from_string("A3"), Some(PaperSize::A3));
}

#[test]
fn from_string_rejects_unknown_names() {
    assert_eq!(PaperSize::from_string(""), None);
    assert_eq!(PaperSize::from_string("a4"), None);
    assert_eq!(PaperSize::from_string("US Letter "), None);
    assert_eq!(PaperSize::from_string("Tabloid"), None);
}

#[test]
fn sizes_lists_every_paper_size() {
    let sizes = PaperSize::sizes();
    assert_eq!(sizes, vec![PaperSize::USLetter, PaperSize::A4, PaperSize::A3]);
}

#[test]
fn us_letter_portrait_dimensions() {
    let p = PaperSize::USLetter;
    assert_eq!(p.width_inches(Orientation::Portrait), 8_500);
    assert_eq!(p.height_inches(Orientation::Portrait), 11_000);
    assert_eq!(p.width_pixels(Orientation::Portrait), 612_000);
    assert_eq!(p.height_pixels(Orientation::Portrait), 792_000);
}

#[test]
fn landscape_swaps_width_and_height() {
    let p = PaperSize::USLetter;
    assert_eq!(p.width_inches(Orientation::Landscape), 11_000);
    assert_eq!(p.height_inches(Orientation::Landscape), 8_500);
    assert_eq!(p.width_pixels(Orientation::Landscape), 792_000);
    assert_eq!(p.height_pixels(Orientation::Landscape), 612_000);
}

#[test]
fn a4_and_a3_pixel_dimensions() {
    assert_eq!(PaperSize::A4.width_pixels(Orientation::Portrait), 597_600);
    assert_eq!(PaperSize::A4.height_pixels(Orientation::Portrait), 842_400);
    assert_eq!(PaperSize::A3.width_pixels(Orientation::Portrait), 842_400);
    assert_eq!(PaperSize::A3.height_pixels(Orientation::Portrait), 1_188_000);
}

#[test]
fn labels_match_display_names() {
    assert_eq!(PaperSize::USLetter.label(), "US Letter");
    assert_eq!(PaperSize::A4.label(), "A4");
    assert_eq!(PaperSize::A3.label(), "A3");
    assert_eq!(Orientation::Portrait.label(), "Portrait");
    assert_eq!(Orientation::Landscape.label(), "Landscape");
    assert_eq!(ColorDepth::Rgb.label(), "RGB");
    assert_eq!(ColorDepth::Grayscale.label(), "Grayscale");
}
