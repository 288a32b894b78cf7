//! Reduces full-color RGBA raster images to an indexed-color form: a palette
//! of at most 256 colors plus a one-byte-per-pixel index map.
//!
//! Start from [`Attributes`], describe pixels with [`Image`], optionally
//! aggregate several images in a [`Histogram`], and obtain a
//! [`QuantizationResult`] whose palette and remap operations produce the
//! indexed output.

use vstd::prelude::*;

pub mod attr;
pub mod color;
pub mod engine;
pub mod histogram;
pub mod image;
pub mod quant;

pub use crate::attr::Attributes;
pub use crate::attr::AttrV;
pub use crate::attr::GAMMA_SCALE;
pub use crate::color::Color;
pub use crate::color::HistogramEntry;
pub use crate::color::LiqError;
pub use crate::engine::HEntry;
pub use crate::histogram::HistV;
pub use crate::histogram::Histogram;
pub use crate::quant::QRV;
pub use crate::quant::QuantizationResult;
pub use crate::quant::SRGB_GAMMA;
pub use crate::image::Image;
pub use crate::image::ImgV;
pub use crate::image::extract_rows;
pub use crate::image::needed_len;
pub use crate::image::valid_stride_desc;

verus! {

/// 8-bit RGBA. This is the only color format used by the library.
pub type RGBA = Color;

/// Start here: creates a new handle for library configuration.
pub fn new() -> (r: Attributes)
    ensures
        r@ == crate::attr::AttrV::default_config(),
        r@.wf(),
{
    Attributes::new()
}

} // verus!
