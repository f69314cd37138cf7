//! Document root structure (Document.xml) and page sizes.

use vstd::prelude::*;
use crate::types::StBox;

verus! {

/// Default pixels-per-millimetre ratio, as ofdrw converts pixel dimensions
/// to millimetres (`pixels / 5`); 5 px/mm is about 127 DPI.
pub const PPM_DEFAULT: u32 = 5;

/// Page size; both lengths in ten-thousandths of a millimetre.
#[derive(Debug, Clone, Copy, PartialEq, Eq, Structural)]
pub struct PageSize {
    pub width: u64,
    pub height: u64,
}

/// `a / b` rounded to the nearest integer, an exact half to the even
/// neighbour (as `{:.4}` rounds a value that lies exactly halfway).
pub open spec fn round_div(a: nat, b: nat) -> nat {
    let q = a / b;
    let r = a % b;
    if 2 * r > b || (2 * r == b && q % 2 == 1) {
        q + 1
    } else {
        q
    }
}

/// Length of `px` pixels at `dpi` dots per inch: `px * 25.4 / dpi` mm,
/// computed exactly and rounded to the nearest ten-thousandth of a
/// millimetre. (A computation in `f64` first rounds `25.4` and each
/// product to binary, so near a halfway point it may round the other way.)
pub open spec fn length_at_dpi(px: nat, dpi: nat) -> nat {
    round_div(px * 254000, dpi)
}

/// Length of `px` pixels at `ppm` pixels per millimetre: `px / ppm` mm,
/// rounded to the nearest ten-thousandth of a millimetre.
pub open spec fn length_at_ppm(px: nat, ppm: nat) -> nat {
    round_div(px * 10000, ppm)
}

fn pixels_to_length(px: u32, numerator: u64, per: u32) -> (len: u64)
    requires
        per > 0,
        numerator <= 254000,
    ensures
        len == round_div((px * numerator) as nat, per as nat),
{
    assert(px * numerator <= 0xFFFF_FFFF * 254000) by (nonlinear_arith)
        requires
            px <= 0xFFFF_FFFF,
            numerator <= 254000,
    ;
    let a: u64 = (px as u64) * numerator;
    let q: u64 = a / (per as u64);
    let r: u64 = a % (per as u64);
    if 2 * r > per as u64 || (2 * r == per as u64 && q % 2 == 1) {
        q + 1
    } else {
        q
    }
}

impl PageSize {
    /// Page size from lengths in ten-thousandths of a millimetre.
    pub fn new(width: u64, height: u64) -> (p: Self)
        ensures
            p == (PageSize { width, height }),
    {
        PageSize { width, height }
    }

    /// Page size from pixel dimensions and DPI.
    pub fn from_pixels(width_px: u32, height_px: u32, dpi: u32) -> (p: Self)
        requires
            dpi > 0,
        ensures
            p.width == length_at_dpi(width_px as nat, dpi as nat),
            p.height == length_at_dpi(height_px as nat, dpi as nat),
    {
        PageSize {
            width: pixels_to_length(width_px, 254000, dpi),
            height: pixels_to_length(height_px, 254000, dpi),
        }
    }

    /// Page size from pixel dimensions and a pixels-per-mm ratio
    /// (`mm = pixels / ppm`, as ofdrw converts); see [`PPM_DEFAULT`].
    pub fn from_pixels_ppm(width_px: u32, height_px: u32, ppm: u32) -> (p: Self)
        requires
            ppm > 0,
        ensures
            p.width == length_at_ppm(width_px as nat, ppm as nat),
            p.height == length_at_ppm(height_px as nat, ppm as nat),
    {
        PageSize {
            width: pixels_to_length(width_px, 10000, ppm),
            height: pixels_to_length(height_px, 10000, ppm),
        }
    }

    /// Convert to StBox (origin at 0,0).
    pub fn to_box(&self) -> (b: StBox)
        ensures
            b == page_box(*self),
    {
        StBox::page(self.width, self.height)
    }
}

/// The box of a page: origin at 0,0, the page's width and height.
pub open spec fn page_box(p: PageSize) -> StBox {
    StBox { x: 0, y: 0, w: p.width, h: p.height }
}

/// Internal page definition used during document assembly.
#[derive(Debug)]
pub struct PageDef {
    pub page_id: u32,
    pub base_loc: String,
}

impl View for PageDef {
    type V = (u32, Seq<char>);

    open spec fn view(&self) -> (u32, Seq<char>) {
        (self.page_id, self.base_loc@)
    }
}

} // verus!
