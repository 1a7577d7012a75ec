//! A verified halftone engine: it scales a source image over a grid of
//! physical pages, tiles each page into square sampling cells, and
//! replaces each cell by one dot whose radius encodes the cell's average
//! brightness — rendered once to pixel buffers and once to vector
//! documents, both from one dot layout.
//!
//! Fractional quantities are fixed point throughout: lengths in
//! thousandths of a pixel (or inch), fractions in thousandths.

use vstd::prelude::*;

pub mod dots;
pub mod geometry;
pub mod paper;
pub mod radius;
pub mod rasterize;
pub mod sample;
pub mod shims;

verus! {

/// Number of output pixels that one inch of paper maps to.
pub const PIXELS_PER_INCH: u64 = 72;

} // verus!
