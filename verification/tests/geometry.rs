use rat::geometry::{cell_regions, page_regions, Region};

fn region(x: u32, y: u32, width: u32, height: u32) -> Region {
    Region { x, y, width, height }
}

#[test]
fn two_pages_clip_the_second_to_the_scaled_edge() {
    // Two pages across, paper 100 pixels wide, scaled image 120 pixels
    // wide: the first page spans pixels [0, 100), the second only the
    // remaining [100, 120).
    let pages = page_regions(2, 1, 100_000, 100_000, 120, 100);
    assert_eq!(pages, vec![region(0, 0, 100, 100), region(100, 0, 20, 100)]);
}

#[test]
fn pages_at_or_beyond_the_edge_are_omitted() {
    // The second column's origin (pixel 100) lies at the scaled image's
    // right edge, so only the first column survives; the second row's
    // origin (pixel 100) lies beyond the bottom edge (height 90).
    let pages = page_regions(2, 2, 100_000, 100_000, 100, 90);
    assert_eq!(pages, vec![region(0, 0, 100, 90)]);
}

#[test]
fn surviving_pages_keep_row_major_order() {
    // A 2 x 2 grid over an image the full grid covers: four pages,
    // left to right, then top to bottom.
    let pages = page_regions(2, 2, 50_000, 40_000, 100, 80);
    assert_eq!(
        pages,
        vec![
            region(0, 0, 50, 40),
            region(50, 0, 50, 40),
            region(0, 40, 50, 40),
            region(50, 40, 50, 40),
        ]
    );
    assert!(pages.len() <= 4);
}

#[test]
fn fractional_paper_width_floors_page_origins() {
    // Paper 99.5 pixels wide: origins floor to 0 and 99, and each page
    // spans the floored paper width of 99 pixels.
    let pages = page_regions(2, 1, 99_500, 100_000, 199, 100);
    assert_eq!(pages, vec![region(0, 0, 99, 100), region(99, 0, 99, 100)]);
}

#[test]
fn cells_tile_a_page_with_brick_offset() {
    // A 144 x 144 page with 18-pixel cells: an 8 x 8 grid.  Odd rows are
    // shifted right by 9 pixels, so their last cell is clipped to 9
    // pixels wide.
    let cells = cell_regions(144, 144, 18_000);
    assert_eq!(cells.len(), 64);
    assert_eq!(cells[0], region(0, 0, 18, 18));
    assert_eq!(cells[7], region(126, 0, 18, 18));
    assert_eq!(cells[8], region(9, 18, 18, 18));
    assert_eq!(cells[15], region(135, 18, 9, 18));
    assert_eq!(cells[16], region(0, 36, 18, 18));
    assert_eq!(cells[63], region(135, 126, 9, 18));
}

#[test]
fn cells_clip_to_the_page_edge() {
    // A 40 x 25 page with 18-pixel cells: three columns (the last 4
    // pixels wide on even rows) and two rows (the second 7 pixels tall).
    let cells = cell_regions(40, 25, 18_000);
    assert_eq!(
        cells,
        vec![
            region(0, 0, 18, 18),
            region(18, 0, 18, 18),
            region(36, 0, 4, 18),
            region(9, 18, 18, 7),
            region(27, 18, 13, 7),
        ]
    );
}

#[test]
fn sub_pixel_cells_yield_no_regions() {
    // A cell size under one pixel floors to a zero span: every cell is
    // omitted.
    let cells = cell_regions(10, 10, 500);
    assert_eq!(cells, vec![]);
}
