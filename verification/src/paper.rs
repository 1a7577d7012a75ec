//! Paper sizes and orientations, and their physical and pixel dimensions.
//!
//! Lengths are held in fixed point: a value of `n` stands for `n / 1000`
//! inches (or pixels), so that fractional paper sizes such as 8.5 inches
//! are exact integers.

use vstd::prelude::*;
use vstd::string::StrSliceExecFns;

verus! {

use crate::PIXELS_PER_INCH;

/// Which way a sheet of paper is turned.
#[derive(Clone, Copy, Debug, PartialEq, Eq, Structural)]
pub enum Orientation {
    Portrait,
    Landscape,
}

/// The closed set of supported paper sizes.
#[derive(Clone, Copy, Debug, PartialEq, Eq, Structural)]
pub enum PaperSize {
    USLetter,
    A4,
    A3,
}

/// A paper size's width and height, in thousandths of an inch and of a pixel.
struct Size {
    width_inches: u64,
    height_inches: u64,
    width_pixels: u64,
    height_pixels: u64,
}

impl Size {
    fn new(width_inches: u64, height_inches: u64, pixels_per_inch: u64) -> (r: Size)
        requires
            width_inches * pixels_per_inch <= u64::MAX,
            height_inches * pixels_per_inch <= u64::MAX,
        ensures
            r.width_inches == width_inches,
            r.height_inches == height_inches,
            r.width_pixels == width_inches * pixels_per_inch,
            r.height_pixels == height_inches * pixels_per_inch,
    {
        Size {
            width_inches,
            height_inches,
            width_pixels: width_inches * pixels_per_inch,
            height_pixels: height_inches * pixels_per_inch,
        }
    }
}

/// Nominal width of a sheet in thousandths of an inch, before orientation.
pub open spec fn spec_nominal_width_inches(p: PaperSize) -> int {
    match p {
        PaperSize::USLetter => 8500,
        PaperSize::A4 => 8300,
        PaperSize::A3 => 11700,
    }
}

/// Nominal height of a sheet in thousandths of an inch, before orientation.
pub open spec fn spec_nominal_height_inches(p: PaperSize) -> int {
    match p {
        PaperSize::USLetter => 11000,
        PaperSize::A4 => 11700,
        PaperSize::A3 => 16500,
    }
}

/// Width in thousandths of an inch once the sheet is turned:
/// landscape swaps width and height.
pub open spec fn spec_width_inches(p: PaperSize, o: Orientation) -> int {
    match o {
        Orientation::Portrait => spec_nominal_width_inches(p),
        Orientation::Landscape => spec_nominal_height_inches(p),
    }
}

/// Height in thousandths of an inch once the sheet is turned.
pub open spec fn spec_height_inches(p: PaperSize, o: Orientation) -> int {
    match o {
        Orientation::Portrait => spec_nominal_height_inches(p),
        Orientation::Landscape => spec_nominal_width_inches(p),
    }
}

impl PaperSize {
    /// Width of the turned sheet in thousandths of an inch.
    pub fn width_inches(self, orientation: Orientation) -> (r: u64)
        ensures
            r == spec_width_inches(self, orientation),
    {
        self.dimensions_inches(orientation).width_inches
    }

    /// Height of the turned sheet in thousandths of an inch.
    pub fn height_inches(self, orientation: Orientation) -> (r: u64)
        ensures
            r == spec_height_inches(self, orientation),
    {
        self.dimensions_inches(orientation).height_inches
    }

    /// Width of the turned sheet in thousandths of a pixel.
    pub fn width_pixels(self, orientation: Orientation) -> (r: u64)
        ensures
            r == spec_width_inches(self, orientation) * PIXELS_PER_INCH,
    {
        self.dimensions_inches(orientation).width_pixels
    }

    /// Height of the turned sheet in thousandths of a pixel.
    pub fn height_pixels(self, orientation: Orientation) -> (r: u64)
        ensures
            r == spec_height_inches(self, orientation) * PIXELS_PER_INCH,
    {
        self.dimensions_inches(orientation).height_pixels
    }

    /// Looks a paper size up by its display name; an unrecognized name is
    /// no match rather than an error.
    pub fn from_string(s: &str) -> (r: Option<PaperSize>)
        ensures
            r == (if s@ == "US Letter"@ {
                Some(PaperSize::USLetter)
            } else if s@ == "A4"@ {
                Some(PaperSize::A4)
            } else if s@ == "A3"@ {
                Some(PaperSize::A3)
            } else {
                None::<PaperSize>
            }),
    {
        if str_eq(s, "US Letter") {
            Some(PaperSize::USLetter)
        } else if str_eq(s, "A4") {
            Some(PaperSize::A4)
        } else if str_eq(s, "A3") {
            Some(PaperSize::A3)
        } else {
            None
        }
    }

    /// Every supported paper size, for populating choice lists.
    pub fn sizes() -> (r: Vec<PaperSize>)
        ensures
            r@ == seq![PaperSize::USLetter, PaperSize::A4, PaperSize::A3],
    {
        let mut v: Vec<PaperSize> = Vec::new();
        v.push(PaperSize::USLetter);
        v.push(PaperSize::A4);
        v.push(PaperSize::A3);
        proof {
            assert(v@ =~= seq![PaperSize::USLetter, PaperSize::A4, PaperSize::A3]);
        }
        v
    }

    /// The display name of the paper size.
    pub fn label(self) -> (r: &'static str)
        ensures
            self == PaperSize::USLetter ==> r@ == "US Letter"@,
            self == PaperSize::A4 ==> r@ == "A4"@,
            self == PaperSize::A3 ==> r@ == "A3"@,
    {
        match self {
            PaperSize::USLetter => "US Letter",
            PaperSize::A4 => "A4",
            PaperSize::A3 => "A3",
        }
    }

    fn dimensions_inches(self, orientation: Orientation) -> (r: Size)
        ensures
            r.width_inches == spec_width_inches(self, orientation),
            r.height_inches == spec_height_inches(self, orientation),
            r.width_pixels == spec_width_inches(self, orientation) * PIXELS_PER_INCH,
            r.height_pixels == spec_height_inches(self, orientation) * PIXELS_PER_INCH,
    {
        match self {
            PaperSize::USLetter => {
                if orientation == Orientation::Portrait {
                    Size::new(8500, 11000, PIXELS_PER_INCH)
                } else {
                    Size::new(11000, 8500, PIXELS_PER_INCH)
                }
            },
            PaperSize::A4 => {
                if orientation == Orientation::Portrait {
                    Size::new(8300, 11700, PIXELS_PER_INCH)
                } else {
                    Size::new(11700, 8300, PIXELS_PER_INCH)
                }
            },
            PaperSize::A3 => {
                if orientation == Orientation::Portrait {
                    Size::new(11700, 16500, PIXELS_PER_INCH)
                } else {
                    Size::new(16500, 11700, PIXELS_PER_INCH)
                }
            },
        }
    }
}

impl Orientation {
    /// The display name of the orientation.
    pub fn label(self) -> (r: &'static str)
        ensures
            self == Orientation::Portrait ==> r@ == "Portrait"@,
            self == Orientation::Landscape ==> r@ == "Landscape"@,
    {
        match self {
            Orientation::Portrait => "Portrait",
            Orientation::Landscape => "Landscape",
        }
    }
}

/// Character-for-character equality of two strings.
fn str_eq(a: &str, b: &str) -> (r: bool)
    ensures
        r == (a@ == b@),
{
    let n = a.unicode_len();
    let m = b.unicode_len();
    if n != m {
        return false;
    }
    let mut i: usize = 0;
    while i < n
        invariant
            n == a@.len(),
            n == b@.len(),
            i <= n,
            forall|j: int| 0 <= j < i ==> a@[j] == b@[j],
        decreases n - i,
    {
        if a.get_char(i) != b.get_char(i) {
            return false;
        }
        i = i + 1;
    }
    proof {
        assert(a@ =~= b@);
    }
    true
}

} // verus!
