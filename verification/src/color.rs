//! The color value type, histogram entries, and the error type shared by the
//! whole library.

use vstd::prelude::*;

verus! {

/// One pixel: four 8-bit channels. Equality is exact channel match.
#[derive(Clone, Copy, PartialEq, Eq, Structural, Debug, Hash)]
pub struct Color {
    /// Red channel.
    pub r: u8,
    /// Green channel.
    pub g: u8,
    /// Blue channel.
    pub b: u8,
    /// Alpha channel; 0 is fully transparent, 255 fully opaque.
    pub a: u8,
}

impl Color {
    /// Builds a color from its four channels.
    pub fn new(r: u8, g: u8, b: u8, a: u8) -> (c: Color)
        ensures
            c == (Color { r, g, b, a }),
    {
        Color { r, g, b, a }
    }

    /// Whether the color is fully transparent.
    pub open spec fn is_transparent(self) -> bool {
        self.a == 0
    }
}

/// Squared distance between two colors: the sum of the squared channel
/// differences. Zero exactly when the colors are equal.
pub open spec fn dist2(x: Color, y: Color) -> int {
    (x.r - y.r) * (x.r - y.r) + (x.g - y.g) * (x.g - y.g) + (x.b - y.b) * (x.b - y.b) + (x.a
        - y.a) * (x.a - y.a)
}

/// Number of pixels in a given color.
///
/// Used when building a histogram from data that was counted elsewhere;
/// otherwise see `Histogram::add_image`.
#[derive(Clone, Copy, PartialEq, Eq, Structural, Debug)]
pub struct HistogramEntry {
    /// The color being counted.
    pub color: Color,
    /// How many pixels have that color.
    pub count: u32,
}

/// Every failure the library reports.
#[derive(Clone, Copy, PartialEq, Eq, Structural, Debug)]
pub enum LiqError {
    /// The operation succeeded; returned by setters in place of a result type.
    LiqOk,
    /// The engine could not reach the requested minimum quality.
    QualityTooLow,
    /// A parameter was outside its documented domain; nothing was changed.
    ValueOutOfRange,
    /// An allocation failed.
    OutOfMemory,
    /// A supplied pixel, map, or output buffer cannot hold the declared
    /// dimensions, or more than 256 fixed colors were reserved.
    BufferTooSmall,
    /// An internal handle was absent where one was required.
    InvalidPointer,
    /// The combination of arguments is not supported.
    Unsupported,
}

/// Proved: the squared color distance is zero exactly for equal colors, and
/// never negative. This is what makes a remap with zero reported error a
/// lossless one.
pub proof fn lemma_dist2_zero_iff_eq(x: Color, y: Color)
    ensures
        dist2(x, y) >= 0,
        dist2(x, y) == 0 <==> x == y,
{
    let dr = x.r - y.r;
    let dg = x.g - y.g;
    let db = x.b - y.b;
    let da = x.a - y.a;
    assert(dr * dr >= 0 && (dr * dr == 0 <==> dr == 0)) by (nonlinear_arith);
    assert(dg * dg >= 0 && (dg * dg == 0 <==> dg == 0)) by (nonlinear_arith);
    assert(db * db >= 0 && (db * db == 0 <==> db == 0)) by (nonlinear_arith);
    assert(da * da >= 0 && (da * da == 0 <==> da == 0)) by (nonlinear_arith);
}

} // verus!
