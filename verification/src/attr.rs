//! Settings for the conversion process. Start here.

use vstd::prelude::*;

use crate::color::LiqError;

verus! {

/// Gamma values and dithering levels are carried as parts-per-million, so that
/// the unit interval is the integer range `[0, GAMMA_SCALE]`.
pub const GAMMA_SCALE: u32 = 1_000_000;

/// The logical content of an [`Attributes`] handle.
pub struct AttrV {
    /// Largest palette the engine may produce, in `[1, 256]`.
    pub max_colors: u32,
    /// Lowest acceptable quality, in `[0, 100]`; quantization fails below it.
    pub quality_min: u32,
    /// Upper end of the requested quality range, in `[quality_min, 100]`.
    pub quality_max: u32,
    /// Speed/quality trade-off, in `[1, 10]`.
    pub speed: u32,
    /// Number of least significant bits of color precision to ignore, in `[0, 4]`.
    pub min_posterization: u32,
    /// Whether a fully transparent palette entry goes last instead of first.
    pub last_index_transparent: bool,
}

/// Settings for the conversion process. Start here.
///
/// Each handle is an independent value: copying it copies the whole
/// configuration, and no handle shares state with another.
#[derive(Clone, Copy, PartialEq, Eq, Structural, Debug)]
pub struct Attributes {
    max_colors: u32,
    quality_min: u32,
    quality_max: u32,
    speed: u32,
    min_posterization: u32,
    last_index_transparent: bool,
}

impl View for Attributes {
    type V = AttrV;

    closed spec fn view(&self) -> AttrV {
        AttrV {
            max_colors: self.max_colors,
            quality_min: self.quality_min,
            quality_max: self.quality_max,
            speed: self.speed,
            min_posterization: self.min_posterization,
            last_index_transparent: self.last_index_transparent,
        }
    }
}

impl AttrV {
    /// Every parameter sits in its documented domain.
    pub open spec fn wf(self) -> bool {
        &&& 1 <= self.max_colors <= 256
        &&& self.quality_min <= self.quality_max
        &&& self.quality_max <= 100
        &&& 1 <= self.speed <= 10
        &&& self.min_posterization <= 4
    }

    /// The configuration a fresh handle starts from.
    pub open spec fn default_config() -> AttrV {
        AttrV {
            max_colors: 256,
            quality_min: 0,
            quality_max: 100,
            speed: 4,
            min_posterization: 0,
            last_index_transparent: false,
        }
    }
}

impl Attributes {
    /// New handle for library configuration.
    ///
    /// See also `new_image()`.
    pub fn new() -> (r: Self)
        ensures
            r@ == AttrV::default_config(),
            r@.wf(),
    {
        Attributes {
            max_colors: 256,
            quality_min: 0,
            quality_max: 100,
            speed: 4,
            min_posterization: 0,
            last_index_transparent: false,
        }
    }

    /// It's better to use `set_quality()`.
    ///
    /// Accepts `[1, 256]`; anything else is rejected without changing the
    /// handle.
    pub fn set_max_colors(&mut self, value: i32) -> (r: LiqError)
        ensures
            1 <= value <= 256 ==> r == LiqError::LiqOk && final (self)@ == (AttrV {
                max_colors: value as u32,
                ..old(self)@
            }),
            !(1 <= value <= 256) ==> r == LiqError::ValueOutOfRange && final (self)@ == old(
                self,
            )@,
    {
        if 1 <= value && value <= 256 {
            self.max_colors = value as u32;
            LiqError::LiqOk
        } else {
            LiqError::ValueOutOfRange
        }
    }

    /// Number of least significant bits to ignore.
    ///
    /// Useful for generating palettes for VGA, 15-bit textures, or other retro
    /// platforms. Accepts `[0, 4]`; anything else is rejected without changing
    /// the handle.
    pub fn set_min_posterization(&mut self, value: i32) -> (r: LiqError)
        ensures
            0 <= value <= 4 ==> r == LiqError::LiqOk && final (self)@ == (AttrV {
                min_posterization: value as u32,
                ..old(self)@
            }),
            !(0 <= value <= 4) ==> r == LiqError::ValueOutOfRange && final (self)@ == old(self)@,
    {
        if 0 <= value && value <= 4 {
            self.min_posterization = value as u32;
            LiqError::LiqOk
        } else {
            LiqError::ValueOutOfRange
        }
    }

    /// Returns the number of bits of precision to be truncated.
    pub fn min_posterization(&mut self) -> (r: i32)
        ensures
            *final (self) == *old(self),
            r == old(self)@.min_posterization as i32,
    {
        self.min_posterization as i32
    }

    /// Range 0-100, roughly like JPEG.
    ///
    /// If the minimum quality can't be met, quantization will fail.
    ///
    /// Default is min 0, max 100. Rejects `min > max` or `max > 100` without
    /// changing the handle.
    pub fn set_quality(&mut self, min: u32, max: u32) -> (r: LiqError)
        ensures
            min <= max <= 100 ==> r == LiqError::LiqOk && final (self)@ == (AttrV {
                quality_min: min,
                quality_max: max,
                ..old(self)@
            }),
            !(min <= max <= 100) ==> r == LiqError::ValueOutOfRange && final (self)@ == old(
                self,
            )@,
    {
        if min <= max && max <= 100 {
            self.quality_min = min;
            self.quality_max = max;
            LiqError::LiqOk
        } else {
            LiqError::ValueOutOfRange
        }
    }

    /// Reads the values set with `set_quality`.
    pub fn quality(&mut self) -> (r: (u32, u32))
        ensures
            *final (self) == *old(self),
            r == (old(self)@.quality_min, old(self)@.quality_max),
    {
        (self.quality_min, self.quality_max)
    }

    /// 1-10.
    ///
    /// Faster speeds generate images of lower quality, but may be useful for
    /// real-time generation of images. Accepts `[1, 10]`; anything else is
    /// rejected without changing the handle.
    pub fn set_speed(&mut self, value: i32) -> (r: LiqError)
        ensures
            1 <= value <= 10 ==> r == LiqError::LiqOk && final (self)@ == (AttrV {
                speed: value as u32,
                ..old(self)@
            }),
            !(1 <= value <= 10) ==> r == LiqError::ValueOutOfRange && final (self)@ == old(
                self,
            )@,
    {
        if 1 <= value && value <= 10 {
            self.speed = value as u32;
            LiqError::LiqOk
        } else {
            LiqError::ValueOutOfRange
        }
    }

    /// Move the transparent color to the last entry in the palette.
    ///
    /// This is less efficient for PNG, but is required by some broken software.
    pub fn set_last_index_transparent(&mut self, value: bool)
        ensures
            final (self)@ == (AttrV { last_index_transparent: value, ..old(self)@ }),
    {
        self.last_index_transparent = value;
    }

    /// Returns the currently set speed/quality trade-off setting.
    pub fn speed(&mut self) -> (r: i32)
        ensures
            *final (self) == *old(self),
            r == old(self)@.speed as i32,
    {
        self.speed as i32
    }

    /// Returns the maximum number of palette colors set.
    pub fn max_colors(&mut self) -> (r: i32)
        ensures
            *final (self) == *old(self),
            r == old(self)@.max_colors as i32,
    {
        self.max_colors as i32
    }
}

impl Attributes {
    /// The palette-size cap, for internal readers that hold `&self`.
    pub(crate) fn cfg_max_colors(&self) -> (r: u32)
        ensures
            r == self@.max_colors,
    {
        self.max_colors
    }

    /// The minimum acceptable quality, for internal readers.
    pub(crate) fn cfg_quality_min(&self) -> (r: u32)
        ensures
            r == self@.quality_min,
    {
        self.quality_min
    }

    /// The posterization depth, for internal readers.
    pub(crate) fn cfg_min_posterization(&self) -> (r: u32)
        ensures
            r == self@.min_posterization,
    {
        self.min_posterization
    }

    /// The transparent-entry placement flag, for internal readers.
    pub(crate) fn cfg_last_index_transparent(&self) -> (r: bool)
        ensures
            r == self@.last_index_transparent,
    {
        self.last_index_transparent
    }
}

impl Default for Attributes {
    /// Same as `Attributes::new()`.
    fn default() -> (r: Self)
        ensures
            r@ == AttrV::default_config(),
    {
        Attributes::new()
    }
}

} // verus!
