//! The quantization result: the derived palette and the remap operations that
//! turn an image into one index byte per pixel.

use vstd::prelude::*;

use crate::attr::AttrV;
use crate::attr::Attributes;
use crate::attr::GAMMA_SCALE;
use crate::color::Color;
use crate::color::LiqError;
use crate::engine::HEntry;
use crate::engine::image_entries;
use crate::engine::mse_spec;
use crate::engine::mse_u64;
use crate::engine::palette_spec;
use crate::engine::quality_of;
use crate::engine::quantize_entries;
use crate::engine::remap_bytes;
use crate::engine::remap_push;
use crate::image::Image;

verus! {

/// The output gamma tag of a fresh result, in parts-per-million: roughly the
/// sRGB transfer exponent 1/2.2.
pub const SRGB_GAMMA: u32 = 454_545;

/// The gamma tag a result starts from: the statistics' own tag, or the sRGB
/// default when none was supplied.
pub open spec fn output_gamma_of(gamma: u32) -> u32 {
    if gamma == 0 {
        SRGB_GAMMA
    } else {
        gamma
    }
}

/// The logical content of a [`QuantizationResult`].
pub struct QRV {
    /// The derived palette, in order; entry order is meaningful.
    pub palette: Seq<Color>,
    /// Dithering level for remaps, in parts-per-million of full strength.
    pub dithering: u32,
    /// Output gamma tag, in parts-per-million.
    pub output_gamma: u32,
    /// Quality score in `[0, 100]`; 100 means the palette loses nothing.
    pub quality: u32,
    /// Mean squared error per unit of weight.
    pub mse: u64,
}

impl QRV {
    /// The result the engine derives from an aggregate: the selected palette,
    /// full dithering, the statistics' gamma tag, and the palette's error
    /// metrics.
    pub open spec fn derived(
        entries: Seq<HEntry>,
        fixed: Seq<Color>,
        a: AttrV,
        gamma: u32,
    ) -> QRV {
        let pal = palette_spec(entries, fixed, a);
        let m = mse_spec(entries, pal);
        QRV {
            palette: pal,
            dithering: GAMMA_SCALE,
            output_gamma: output_gamma_of(gamma),
            quality: quality_of(m),
            mse: mse_u64(m),
        }
    }
}

/// What a result's well-formedness guarantees, for readers outside this
/// module: the palette fits in a byte-indexed map.
pub proof fn lemma_result_wf_view(res: &QuantizationResult)
    requires
        res.wf(),
    ensures
        res@.palette.len() <= 256,
{
}

/// Palette inside.
///
/// Holds the palette derived by the engine together with the dithering level
/// and gamma tag carried for remaps; reusable across several remap calls.
pub struct QuantizationResult {
    palette: Vec<Color>,
    dithering: u32,
    output_gamma: u32,
    quality: u32,
    mse: u64,
}

impl View for QuantizationResult {
    type V = QRV;

    closed spec fn view(&self) -> QRV {
        QRV {
            palette: self.palette@,
            dithering: self.dithering,
            output_gamma: self.output_gamma,
            quality: self.quality,
            mse: self.mse,
        }
    }
}

impl QuantizationResult {
    /// A usable result: the palette fits in a byte-indexed map.
    pub closed spec fn wf(&self) -> bool {
        self@.palette.len() <= 256
    }

    /// Runs the engine over an aggregate and packages the outcome.
    ///
    /// Fails exactly when the derived palette's quality score is below the
    /// configured minimum.
    pub(crate) fn derive(
        entries: &Vec<HEntry>,
        fixed: &Vec<Color>,
        attr: &Attributes,
        gamma: u32,
    ) -> (r: Result<QuantizationResult, LiqError>)
        requires
            attr@.wf(),
        ensures
            match r {
                Ok(res) => res@ == QRV::derived(entries@, fixed@, attr@, gamma) && res.wf()
                    && res@.quality >= attr@.quality_min,
                Err(e) => e == LiqError::QualityTooLow,
            },
            r is Err <==> quality_of(mse_spec(entries@, palette_spec(entries@, fixed@, attr@)))
                < attr@.quality_min,
    {
        match quantize_entries(entries, fixed, attr) {
            Ok((palette, quality, mse)) => {
                let output_gamma = if gamma == 0 {
                    SRGB_GAMMA
                } else {
                    gamma
                };
                Ok(
                    QuantizationResult {
                        palette,
                        dithering: GAMMA_SCALE,
                        output_gamma,
                        quality,
                        mse,
                    },
                )
            },
            Err(e) => Err(e),
        }
    }

    /// Set to full strength (`GAMMA_SCALE`) to get a nice smooth image.
    ///
    /// Levels above full strength are rejected as `ValueOutOfRange` without
    /// changing the handle. The built-in remap picks exact nearest entries and
    /// diffuses no error, so the stored level does not change the index bytes
    /// it produces; the level is kept and reported for consumers of the
    /// result.
    pub fn set_dithering_level(&mut self, value: u32) -> (r: LiqError)
        ensures
            value <= GAMMA_SCALE ==> r == LiqError::LiqOk && final (self)@ == (QRV {
                dithering: value,
                ..old(self)@
            }),
            value > GAMMA_SCALE ==> r == LiqError::ValueOutOfRange && final (self)@ == old(self)@,
            final (self).wf() == old(self).wf(),
    {
        if value <= GAMMA_SCALE {
            self.dithering = value;
            LiqError::LiqOk
        } else {
            LiqError::ValueOutOfRange
        }
    }

    /// Sets the output gamma tag; the default is the sRGB exponent
    /// (~1/2.2, as parts-per-million).
    ///
    /// Accepts only the open unit range: 0 and anything at or above 1.0 are
    /// rejected as `ValueOutOfRange` without changing the handle.
    pub fn set_output_gamma(&mut self, value: u32) -> (r: LiqError)
        ensures
            0 < value < GAMMA_SCALE ==> r == LiqError::LiqOk && final (self)@ == (QRV {
                output_gamma: value,
                ..old(self)@
            }),
            !(0 < value < GAMMA_SCALE) ==> r == LiqError::ValueOutOfRange && final (self)@ == old(
                self,
            )@,
            final (self).wf() == old(self).wf(),
    {
        if 0 < value && value < GAMMA_SCALE {
            self.output_gamma = value;
            LiqError::LiqOk
        } else {
            LiqError::ValueOutOfRange
        }
    }

    /// The gamma tag the output colors are converted to.
    pub fn output_gamma(&mut self) -> (r: u32)
        ensures
            *final (self) == *old(self),
            r == old(self)@.output_gamma,
    {
        self.output_gamma
    }

    /// A number 0-100 guessing how nice the input will look when remapped to
    /// this palette.
    pub fn quantization_quality(&self) -> (r: i32)
        ensures
            r == self@.quality as i32,
    {
        self.quality as i32
    }

    /// The mean squared error of the palette against the statistics it was
    /// derived from.
    pub fn quantization_error(&self) -> (r: Option<u64>)
        ensures
            r == Some(self@.mse),
    {
        Some(self.mse)
    }

    /// The final palette, as an owned copy.
    pub fn palette(&mut self) -> (r: Vec<Color>)
        ensures
            *final (self) == *old(self),
            r@ == old(self)@.palette,
    {
        let n = self.palette.len();
        let mut out: Vec<Color> = Vec::new();
        let mut i: usize = 0;
        while i < n
            invariant
                i <= n,
                n == self@.palette.len(),
                out@ == self@.palette.take(i as int),
                *self == *old(self),
            decreases n - i,
        {
            out.push(self.palette[i]);
            i += 1;
        }
        proof {
            assert(self@.palette.take(n as int) =~= self@.palette);
        }
        out
    }

    /// The final palette, as a temporary slice.
    ///
    /// Use when ownership of the palette colors is not needed.
    pub fn palette_ref(&mut self) -> (r: &[Color])
        ensures
            *final (self) == *old(self),
            r@ == old(self)@.palette,
    {
        self.palette.as_slice()
    }

    /// Remaps the image into a fresh `Vec`.
    ///
    /// Returns the palette and a one-byte-per-pixel uncompressed index map.
    /// Fails only when the buffer allocation fails.
    pub fn remapped(&mut self, image: &mut Image<'_>) -> (r: Result<(Vec<Color>, Vec<u8>), LiqError>)
        requires
            old(self).wf(),
            old(image).wf(),
        ensures
            *final (self) == *old(self),
            *final (image) == *old(image),
            match r {
                Ok((pal, buf)) => pal@ == old(self)@.palette && buf@ == remap_bytes(
                    old(self)@.palette,
                    old(image)@,
                ) && (old(self)@.palette.len() > 0 ==> forall|k: int|
                    0 <= k < buf@.len() ==> (#[trigger] buf@[k]) < old(self)@.palette.len()),
                Err(e) => e == LiqError::OutOfMemory,
            },
    {
        proof {
            if self@.palette.len() > 0 {
                crate::engine::lemma_remap_bytes_in_range(self@.palette, image@);
            }
        }
        proof {
            crate::image::lemma_wf_view(image);
        }
        let len: usize = image.width() * image.height();
        let mut buf: Vec<u8> = match try_byte_buffer(len) {
            Ok(b) => b,
            Err(e) => {
                return Err(e);
            },
        };
        remap_push(&self.palette, image, &mut buf);
        proof {
            assert(Seq::<u8>::empty() + remap_bytes(self@.palette, image@) =~= remap_bytes(
                self@.palette,
                image@,
            ));
        }
        let pal = self.palette();
        Ok((pal, buf))
    }

    /// Remaps the image into an existing buffer.
    ///
    /// This is a low-level call for when existing memory has to be reused; use
    /// `remapped()` if possible. It writes one index byte per pixel into the
    /// front of the buffer and leaves the rest of the buffer as it was. A
    /// buffer smaller than `width * height` fails with `BufferTooSmall` and is
    /// not touched at all.
    pub fn remap_into(&mut self, image: &mut Image<'_>, output_buf: &mut Vec<u8>) -> (r: Result<
        (),
        LiqError,
    >)
        requires
            old(self).wf(),
            old(image).wf(),
        ensures
            *final (self) == *old(self),
            *final (image) == *old(image),
            match r {
                Ok(()) => old(output_buf)@.len() >= old(image)@.width * old(image)@.height && final (
                output_buf)@ == remap_bytes(old(self)@.palette, old(image)@) + old(
                    output_buf,
                )@.skip(old(image)@.width * old(image)@.height) && (old(self)@.palette.len() > 0
                    ==> forall|k: int|
                    0 <= k < old(image)@.width * old(image)@.height
                        ==> (#[trigger] final (output_buf)@[k]) < old(self)@.palette.len()),
                Err(e) => e == LiqError::BufferTooSmall && old(output_buf)@.len() < old(
                    image,
                )@.width * old(image)@.height && final (output_buf)@ == old(output_buf)@,
            },
            r is Ok <==> old(output_buf)@.len() >= old(image)@.width * old(image)@.height,
    {
        proof {
            crate::image::lemma_wf_view(image);
            if self@.palette.len() > 0 {
                crate::engine::lemma_remap_bytes_in_range(self@.palette, image@);
            }
        }
        let need: usize = image.width() * image.height();
        if output_buf.len() < need {
            return Err(LiqError::BufferTooSmall);
        }
        let mut bytes: Vec<u8> = Vec::new();
        remap_push(&self.palette, image, &mut bytes);
        proof {
            assert(Seq::<u8>::empty() + remap_bytes(self@.palette, image@) =~= remap_bytes(
                self@.palette,
                image@,
            ));
            assert(bytes@.len() == need);
        }
        let ghost orig = output_buf@;
        let mut j: usize = 0;
        while j < need
            invariant
                j <= need,
                need <= output_buf@.len(),
                output_buf@.len() == orig.len(),
                bytes@.len() == need,
                forall|k: int| 0 <= k < j ==> output_buf@[k] == bytes@[k],
                forall|k: int| j <= k < orig.len() ==> output_buf@[k] == orig[k],
            decreases need - j,
        {
            let b = bytes[j];
            output_buf[j] = b;
            j += 1;
        }
        proof {
            assert(output_buf@ =~= bytes@ + orig.skip(need as int));
        }
        Ok(())
    }
}

/// Relies on `fallible_collections::FallibleVec::try_with_capacity` for
/// `Vec<u8>`: on success it hands back an empty vector (`Vec::new` followed by
/// `try_reserve`), and on failure an allocation error, reported here as
/// `OutOfMemory`.
#[verifier::external_body]
fn try_byte_buffer(capacity: usize) -> (r: Result<Vec<u8>, LiqError>)
    ensures
        r matches Ok(v) ==> v@.len() == 0,
        r matches Err(e) ==> e == LiqError::OutOfMemory,
{
    match fallible_collections::FallibleVec::try_with_capacity(capacity) {
        Ok(v) => Ok(v),
        Err(_) => Err(LiqError::OutOfMemory),
    }
}

impl Attributes {
    /// Generates a palette for one image, without an explicit histogram.
    ///
    /// The image's pixels, importance map, and fixed colors feed the engine
    /// directly. Fails exactly when the derived palette's quality score is
    /// below the configured minimum.
    pub fn quantize(&mut self, image: &Image<'_>) -> (r: Result<QuantizationResult, LiqError>)
        requires
            old(self)@.wf(),
            image.wf(),
        ensures
            *final (self) == *old(self),
            match r {
                Ok(res) => res@ == QRV::derived(
                    image_entries(image@, old(self)@.min_posterization),
                    image@.fixed,
                    old(self)@,
                    image@.gamma,
                ) && res.wf() && res@.quality >= old(self)@.quality_min,
                Err(e) => e == LiqError::QualityTooLow,
            },
            r is Err <==> quality_of(
                mse_spec(
                    image_entries(image@, old(self)@.min_posterization),
                    palette_spec(
                        image_entries(image@, old(self)@.min_posterization),
                        image@.fixed,
                        old(self)@,
                    ),
                ),
            ) < old(self)@.quality_min,
    {
        let mut entries: Vec<HEntry> = Vec::new();
        let bits = self.cfg_min_posterization();
        crate::engine::accumulate_image(&mut entries, image, bits);
        let gamma = image.gamma_value();
        proof {
            crate::image::lemma_wf_view(image);
        }
        QuantizationResult::derive(&entries, image.fixed_ref(), self, gamma)
    }
}


/// Copy-constructed images are independent of their source buffer.
///
/// Proved: the outcome of quantizing an image is a function of its logical
/// content alone, and a copied image's content is the rectangle its source
/// buffer held at the moment of construction. So two copies taken from
/// buffers that agree on that rectangle — for instance one buffer before and
/// after it was mutated anywhere outside the rectangle, or any other buffer
/// and stride holding the same pixels — quantize to exactly the same result.
pub proof fn lemma_copied_image_independent(
    a: AttrV,
    b1: Seq<Color>,
    s1: int,
    b2: Seq<Color>,
    s2: int,
    width: usize,
    height: usize,
    gamma: u32,
)
    requires
        crate::image::extract_rows(b1, width as int, height as int, s1)
            == crate::image::extract_rows(b2, width as int, height as int, s2),
    ensures
        QRV::derived(
            image_entries(
                crate::image::ImgV::fresh(
                    width,
                    height,
                    gamma,
                    crate::image::extract_rows(b1, width as int, height as int, s1),
                ),
                a.min_posterization,
            ),
            Seq::<Color>::empty(),
            a,
            gamma,
        ) == QRV::derived(
            image_entries(
                crate::image::ImgV::fresh(
                    width,
                    height,
                    gamma,
                    crate::image::extract_rows(b2, width as int, height as int, s2),
                ),
                a.min_posterization,
            ),
            Seq::<Color>::empty(),
            a,
            gamma,
        ),
{
}

} // verus!
