//! Basic data types defined in GB/T 33190-2016 Section 7.3.
//!
//! Lengths are fixed-point numbers: one unit is a ten-thousandth of a
//! millimetre, the precision with which OFD coordinates are written.

use vstd::prelude::*;
use crate::text::{fixed4, push_fixed4, push_char};

verus! {

/// Length units per millimetre (lengths count ten-thousandths of a mm).
pub const UNITS_PER_MM: u64 = 10000;

/// ST_Box: rectangle area "x y w h"; every field in ten-thousandths of a mm.
#[derive(Debug, Clone, Copy, PartialEq, Eq, Structural)]
pub struct StBox {
    pub x: u64,
    pub y: u64,
    pub w: u64,
    pub h: u64,
}

/// The text of a box: its four fields with four decimals, space separated.
pub open spec fn box_text(b: StBox) -> Seq<char> {
    fixed4(b.x as nat) + seq![' '] + fixed4(b.y as nat) + seq![' '] + fixed4(b.w as nat) + seq![' ']
        + fixed4(b.h as nat)
}

impl StBox {
    pub fn new(x: u64, y: u64, w: u64, h: u64) -> (b: Self)
        ensures
            b == (StBox { x, y, w, h }),
    {
        StBox { x, y, w, h }
    }

    /// Full-page box starting at origin.
    pub fn page(w: u64, h: u64) -> (b: Self)
        ensures
            b == (StBox { x: 0, y: 0, w, h }),
    {
        StBox { x: 0, y: 0, w, h }
    }

    /// Appends the text of this box.
    pub fn push_text(&self, s: &mut String)
        ensures
            final(s)@ == old(s)@ + box_text(*self),
    {
        push_fixed4(s, self.x);
        push_char(s, ' ');
        push_fixed4(s, self.y);
        push_char(s, ' ');
        push_fixed4(s, self.w);
        push_char(s, ' ');
        push_fixed4(s, self.h);
        assert(old(s)@ + box_text(*self) =~= s@);
    }

    /// The text of this box, "x y w h" with four decimals each.
    pub fn to_text(&self) -> (t: String)
        ensures
            t@ == box_text(*self),
    {
        let mut s = String::new();
        self.push_text(&mut s);
        assert(s@ =~= box_text(*self));
        s
    }
}

/// ST_Pos: point coordinate "x y"; both in ten-thousandths of a mm.
#[derive(Debug, Clone, Copy, PartialEq, Eq, Structural)]
pub struct StPos {
    pub x: u64,
    pub y: u64,
}

/// The text of a point: both coordinates with four decimals.
pub open spec fn pos_text(p: StPos) -> Seq<char> {
    fixed4(p.x as nat) + seq![' '] + fixed4(p.y as nat)
}

impl StPos {
    /// The text of this point, "x y" with four decimals each.
    pub fn to_text(&self) -> (t: String)
        ensures
            t@ == pos_text(*self),
    {
        let mut s = String::new();
        push_fixed4(&mut s, self.x);
        push_char(&mut s, ' ');
        push_fixed4(&mut s, self.y);
        assert(s@ =~= pos_text(*self));
        s
    }
}

/// ST_ID: Unsigned integer identifier, unique within a document.
pub type StId = u32;

/// ST_RefID: Reference to an existing ST_ID.
pub type StRefId = u32;

/// OFD namespace URI (GB/T 33190-2016 Section 7.1).
pub const OFD_NAMESPACE: &'static str = "http://www.ofdspec.org/2016";

} // verus!
