//! The image abstraction: a rectangular RGBA pixel source backed by a borrowed
//! buffer, an owned copy, or rows produced by a caller-supplied generator.

use vstd::prelude::*;

use crate::attr::Attributes;
use crate::attr::GAMMA_SCALE;
use crate::color::Color;
use crate::color::LiqError;

verus! {

/// Where an image's pixels live.
enum PixelSource<'a> {
    /// A caller-owned flat buffer, read in place; rows start `stride` pixels
    /// apart. The buffer must outlive the image.
    Borrowed { buf: &'a [Color], stride: usize },
    /// Pixel rows owned by the image itself, one vector per row.
    Owned { rows: Vec<Vec<Color>> },
}

/// The logical content of an [`Image`].
pub struct ImgV {
    /// Width in pixels.
    pub width: usize,
    /// Height in pixels.
    pub height: usize,
    /// Gamma tag in parts-per-million of 1.0; 0 means "treat as sRGB".
    pub gamma: u32,
    /// The pixel grid: `height` rows of `width` colors.
    pub rows: Seq<Seq<Color>>,
    /// Colors reserved for the final palette, in reservation order.
    pub fixed: Seq<Color>,
    /// Per-pixel weights in row-major order, if a map was set.
    pub importance: Option<Seq<u8>>,
    /// The pixel grid of the attached background image, if one was attached.
    pub bg_rows: Option<Seq<Seq<Color>>>,
}

/// Whether `row` is a result the generator `f` can return for row index `y`.
pub open spec fn row_generated<F: Fn(usize) -> Vec<Color>>(f: F, row: Seq<Color>, y: usize) -> bool {
    exists|rv: Vec<Color>| #[trigger] call_ensures(f, (y,), rv) && rv@ == row
}

/// The rectangle a strided buffer describes: row `y` is the `width` pixels
/// starting `y * stride` into the buffer.
pub open spec fn extract_rows(buf: Seq<Color>, width: int, height: int, stride: int) -> Seq<
    Seq<Color>,
> {
    Seq::new(height as nat, |y: int| buf.subrange(y * stride, y * stride + width))
}

/// The dimensions a strided description must satisfy before the buffer length
/// is even considered.
pub open spec fn valid_stride_desc(width: int, height: int, stride: int, gamma: int) -> bool {
    &&& 1 <= width
    &&& 1 <= height
    &&& width <= stride
    &&& 0 <= gamma <= GAMMA_SCALE
}

/// How many pixels a `width`x`height` rectangle at `stride` needs from its
/// buffer: the last row starts at `stride * (height - 1)` and is `width` long.
pub open spec fn needed_len(width: int, height: int, stride: int) -> int {
    stride * (height - 1) + width
}

/// Describes image dimensions for the library.
///
/// An image borrows its pixels, owns a private copy of them, or owns rows that
/// a generator produced; in every case its logical content is the view
/// [`ImgV`].
pub struct Image<'a> {
    width: usize,
    height: usize,
    gamma: u32,
    source: PixelSource<'a>,
    fixed: Vec<Color>,
    importance: Option<Vec<u8>>,
    background: Option<Box<Image<'a>>>,
}

impl<'a> Image<'a> {
    /// The pixel rows the source denotes.
    closed spec fn src_rows(&self) -> Seq<Seq<Color>> {
        match self.source {
            PixelSource::Borrowed { buf, stride } => extract_rows(
                buf@,
                self.width as int,
                self.height as int,
                stride as int,
            ),
            PixelSource::Owned { rows } => Seq::new(rows@.len(), |y: int| rows@[y]@),
        }
    }

    /// The source is consistent with the declared dimensions.
    closed spec fn src_ok(&self) -> bool {
        match self.source {
            PixelSource::Borrowed { buf, stride } => self.width <= stride && needed_len(
                self.width as int,
                self.height as int,
                stride as int,
            ) <= buf@.len(),
            PixelSource::Owned { rows } => rows@.len() == self.height && (forall|y: int|
                0 <= y < self.height ==> #[trigger] rows@[y]@.len() == self.width),
        }
    }

    /// Everything but the background is consistent.
    closed spec fn core_wf(&self) -> bool {
        &&& 1 <= self.width
        &&& 1 <= self.height
        &&& self.width * self.height <= usize::MAX
        &&& self.gamma <= GAMMA_SCALE
        &&& self.src_ok()
        &&& self.fixed@.len() <= 256
        &&& match self.importance {
            Some(m) => m@.len() == self.width * self.height,
            None => true,
        }
    }

    /// A well-formed image: consistent on its own, and any attached background
    /// is itself consistent, has the same dimensions, and no background of its
    /// own.
    pub closed spec fn wf(&self) -> bool {
        &&& self.core_wf()
        &&& match self.background {
            Some(b) => b.core_wf() && b.background is None && b.width == self.width && b.height
                == self.height,
            None => true,
        }
    }
}

impl<'a> View for Image<'a> {
    type V = ImgV;

    closed spec fn view(&self) -> ImgV {
        ImgV {
            width: self.width,
            height: self.height,
            gamma: self.gamma,
            rows: self.src_rows(),
            fixed: self.fixed@,
            importance: match self.importance {
                Some(m) => Some(m@),
                None => None,
            },
            bg_rows: match self.background {
                Some(b) => Some(b.src_rows()),
                None => None,
            },
        }
    }
}

impl ImgV {
    /// The view a buffer construction yields before any fixed colors,
    /// importance map, or background are attached.
    pub open spec fn fresh(
        width: usize,
        height: usize,
        gamma: u32,
        rows: Seq<Seq<Color>>,
    ) -> ImgV {
        ImgV {
            width,
            height,
            gamma,
            rows,
            fixed: Seq::empty(),
            importance: None,
            bg_rows: None,
        }
    }

}

impl<'a> Image<'a> {
    /// Describe dimensions of a slice of RGBA pixels.
    ///
    /// Construction succeeds exactly when the dimensions are sensible and the
    /// buffer holds the whole rectangle; an undersized buffer is reported as
    /// `BufferTooSmall` and senseless dimensions as `ValueOutOfRange`.
    ///
    /// Use `0` for gamma if the image is sRGB (most images are).
    pub fn new(
        attr: &Attributes,
        bitmap: &'a [Color],
        width: usize,
        height: usize,
        gamma: u32,
    ) -> (r: Result<Self, LiqError>)
        ensures
            match r {
                Ok(img) => valid_stride_desc(width as int, height as int, width as int, gamma as int)
                    && needed_len(width as int, height as int, width as int) <= bitmap@.len()
                    && img.wf() && img@ == ImgV::fresh(
                    width,
                    height,
                    gamma,
                    extract_rows(bitmap@, width as int, height as int, width as int),
                ),
                Err(e) => {
                    &&& (e == LiqError::ValueOutOfRange <==> !valid_stride_desc(
                        width as int,
                        height as int,
                        width as int,
                        gamma as int,
                    ))
                    &&& (e == LiqError::BufferTooSmall <==> valid_stride_desc(
                        width as int,
                        height as int,
                        width as int,
                        gamma as int,
                    ) && bitmap@.len() < needed_len(width as int, height as int, width as int))
                },
            },
            r is Ok <==> valid_stride_desc(width as int, height as int, width as int, gamma as int)
                && needed_len(width as int, height as int, width as int) <= bitmap@.len(),
    {
        Self::new_stride(attr, bitmap, width, height, width, gamma)
    }

    /// Stride is in pixels. Allows defining regions of larger images or images
    /// with padding without copying.
    ///
    /// Construction succeeds exactly when the dimensions are sensible and the
    /// buffer holds the whole rectangle.
    pub fn new_stride(
        attr: &Attributes,
        bitmap: &'a [Color],
        width: usize,
        height: usize,
        stride: usize,
        gamma: u32,
    ) -> (r: Result<Self, LiqError>)
        ensures
            match r {
                Ok(img) => valid_stride_desc(
                    width as int,
                    height as int,
                    stride as int,
                    gamma as int,
                ) && needed_len(width as int, height as int, stride as int) <= bitmap@.len()
                    && img.wf() && img@ == ImgV::fresh(
                    width,
                    height,
                    gamma,
                    extract_rows(bitmap@, width as int, height as int, stride as int),
                ),
                Err(e) => {
                    &&& (e == LiqError::ValueOutOfRange <==> !valid_stride_desc(
                        width as int,
                        height as int,
                        stride as int,
                        gamma as int,
                    ))
                    &&& (e == LiqError::BufferTooSmall <==> valid_stride_desc(
                        width as int,
                        height as int,
                        stride as int,
                        gamma as int,
                    ) && bitmap@.len() < needed_len(width as int, height as int, stride as int))
                },
            },
            r is Ok <==> valid_stride_desc(width as int, height as int, stride as int, gamma as int)
                && needed_len(width as int, height as int, stride as int) <= bitmap@.len(),
    {
        let _ = attr;
        if width == 0 || height == 0 || stride < width || gamma > GAMMA_SCALE {
            return Err(LiqError::ValueOutOfRange);
        }
        let blen: usize = bitmap.len();
        let fits: bool = match stride.checked_mul(height - 1) {
            Some(p) => match p.checked_add(width) {
                Some(need) => need <= blen,
                None => false,
            },
            None => false,
        };
        if !fits {
            return Err(LiqError::BufferTooSmall);
        }
        proof {
            assert(width * height <= stride * (height - 1) + width) by (nonlinear_arith)
                requires
                    1 <= width,
                    1 <= height,
                    width <= stride,
            ;
        }
        Ok(
            Image {
                width,
                height,
                gamma,
                source: PixelSource::Borrowed { buf: bitmap, stride },
                fixed: Vec::new(),
                importance: None,
                background: None,
            },
        )
    }

    /// Create a new image by copying `bitmap` into an internal buffer, so that
    /// it makes a self-contained value with no lifetime dependency on the
    /// caller's buffer.
    ///
    /// The copied image's content is the rectangle the buffer held at the
    /// moment of the call; later changes to the caller's buffer cannot reach
    /// it.
    pub fn new_stride_copy(
        attr: &Attributes,
        bitmap: &[Color],
        width: usize,
        height: usize,
        stride: usize,
        gamma: u32,
    ) -> (r: Result<Image<'static>, LiqError>)
        ensures
            match r {
                Ok(img) => valid_stride_desc(
                    width as int,
                    height as int,
                    stride as int,
                    gamma as int,
                ) && needed_len(width as int, height as int, stride as int) <= bitmap@.len()
                    && img.wf() && img@ == ImgV::fresh(
                    width,
                    height,
                    gamma,
                    extract_rows(bitmap@, width as int, height as int, stride as int),
                ),
                Err(e) => {
                    &&& (e == LiqError::ValueOutOfRange <==> !valid_stride_desc(
                        width as int,
                        height as int,
                        stride as int,
                        gamma as int,
                    ))
                    &&& (e == LiqError::BufferTooSmall <==> valid_stride_desc(
                        width as int,
                        height as int,
                        stride as int,
                        gamma as int,
                    ) && bitmap@.len() < needed_len(width as int, height as int, stride as int))
                },
            },
            r is Ok <==> valid_stride_desc(width as int, height as int, stride as int, gamma as int)
                && needed_len(width as int, height as int, stride as int) <= bitmap@.len(),
    {
        let probe = Image::new_stride(attr, bitmap, width, height, stride, gamma);
        match probe {
            Err(e) => Err(e),
            Ok(_) => {
                let blen: usize = bitmap.len();
                let mut rows: Vec<Vec<Color>> = Vec::new();
                let mut y: usize = 0;
                while y < height
                    invariant
                        y <= height,
                        1 <= width <= stride,
                        1 <= height,
                        blen == bitmap@.len(),
                        needed_len(width as int, height as int, stride as int) <= bitmap@.len(),
                        rows@.len() == y,
                        forall|i: int| 0 <= i < y ==> #[trigger] rows@[i]@.len() == width,
                        forall|i: int| 0 <= i < y ==> #[trigger] rows@[i]@ == extract_rows(
                            bitmap@,
                            width as int,
                            height as int,
                            stride as int,
                        )[i],
                    decreases height - y,
                {
                    proof {
                        assert(y * stride + width <= stride * (height - 1) + width)
                            by (nonlinear_arith)
                            requires
                                y < height,
                                width <= stride,
                        ;
                    }
                    let start: usize = y * stride;
                    let mut row: Vec<Color> = Vec::new();
                    let mut x: usize = 0;
                    while x < width
                        invariant
                            x <= width,
                            start == y * stride,
                            blen == bitmap@.len(),
                            start + width <= blen,
                            row@.len() == x,
                            forall|j: int| 0 <= j < x ==> #[trigger] row@[j] == bitmap@[start
                                + j],
                        decreases width - x,
                    {
                        row.push(bitmap[start + x]);
                        x += 1;
                    }
                    proof {
                        assert(row@ =~= bitmap@.subrange(
                            y * stride,
                            y * stride + width,
                        ));
                        assert(extract_rows(
                            bitmap@,
                            width as int,
                            height as int,
                            stride as int,
                        )[y as int] == bitmap@.subrange(y * stride, y * stride + width));
                    }
                    rows.push(row);
                    y += 1;
                }
                proof {
                    assert(width * height <= stride * (height - 1) + width) by (nonlinear_arith)
                        requires
                            1 <= width,
                            1 <= height,
                            width <= stride,
                    ;
                }
                let img = Image {
                    width,
                    height,
                    gamma,
                    source: PixelSource::Owned { rows },
                    fixed: Vec::new(),
                    importance: None,
                    background: None,
                };
                proof {
                    assert(img.src_rows() =~= extract_rows(
                        bitmap@,
                        width as int,
                        height as int,
                        stride as int,
                    ));
                }
                Ok(img)
            },
        }
    }

    /// Generate rows with a callback, invoked once per row at construction.
    ///
    /// The callback receives a row index in `[0, height)` and must return that
    /// row's `width` pixels; a row of any other length is rejected as
    /// `Unsupported`. It may be called again for other images and must be
    /// callable in any order.
    pub fn new_fn<F: Fn(usize) -> Vec<Color>>(
        attr: &Attributes,
        f: F,
        width: usize,
        height: usize,
        gamma: u32,
    ) -> (r: Result<Image<'a>, LiqError>)
        requires
            forall|y: usize| y < height ==> call_requires(f, (y,)),
        ensures
            match r {
                Ok(img) => {
                    &&& 1 <= width
                    &&& 1 <= height
                    &&& gamma <= GAMMA_SCALE
                    &&& width * height <= usize::MAX
                    &&& img.wf()
                    &&& img@.width == width
                    &&& img@.height == height
                    &&& img@.gamma == gamma
                    &&& img@.rows.len() == height
                    &&& forall|y: int|
                        0 <= y < height ==> #[trigger] img@.rows[y].len() == width
                    &&& forall|y: int|
                        0 <= y < height ==> #[trigger] row_generated(f, img@.rows[y], y as usize)
                    &&& img@.fixed == Seq::<Color>::empty()
                    &&& img@.importance is None
                    &&& img@.bg_rows is None
                },
                Err(e) => e == LiqError::ValueOutOfRange || e == LiqError::Unsupported,
            },
            (r matches Err(e) && e == LiqError::ValueOutOfRange) <==> !(1 <= width && 1 <= height
                && gamma <= GAMMA_SCALE && width * height <= usize::MAX),
            (r matches Err(e) && e == LiqError::Unsupported) ==> exists|y: usize, rv: Vec<Color>|
                y < height && #[trigger] call_ensures(f, (y,), rv) && rv@.len() != width,
            (forall|y: usize, rv: Vec<Color>| #[trigger] call_ensures(f, (y,), rv) ==> rv@.len()
                == width) && 1 <= width && 1 <= height && gamma <= GAMMA_SCALE && width * height
                <= usize::MAX ==> r is Ok,
    {
        let _ = attr;
        if width == 0 || height == 0 || gamma > GAMMA_SCALE {
            return Err(LiqError::ValueOutOfRange);
        }
        if width.checked_mul(height).is_none() {
            return Err(LiqError::ValueOutOfRange);
        }
        let mut rows: Vec<Vec<Color>> = Vec::new();
        let mut y: usize = 0;
        while y < height
            invariant
                y <= height,
                1 <= width,
                1 <= height,
                gamma <= GAMMA_SCALE,
                width * height <= usize::MAX,
                forall|i: usize| i < height ==> call_requires(f, (i,)),
                rows@.len() == y,
                forall|i: int| 0 <= i < y ==> #[trigger] rows@[i]@.len() == width,
                forall|i: int|
                    0 <= i < y ==> #[trigger] row_generated(f, rows@[i]@, i as usize),
            decreases height - y,
        {
            let row = f(y);
            if row.len() != width {
                proof {
                    assert(exists|yy: usize, rv: Vec<Color>|
                        yy < height && #[trigger] call_ensures(f, (yy,), rv) && rv@.len()
                            != width) by {
                        assert(y < height && call_ensures(f, (y,), row) && row@.len() != width);
                    }
                }
                return Err(LiqError::Unsupported);
            }
            rows.push(row);
            y += 1;
        }
        Ok(
            Image {
                width,
                height,
                gamma,
                source: PixelSource::Owned { rows },
                fixed: Vec::new(),
                importance: None,
                background: None,
            },
        )
    }

    /// Width of the image in pixels.
    pub fn width(&self) -> (r: usize)
        ensures
            r == self@.width,
    {
        self.width
    }

    /// Height of the image in pixels.
    pub fn height(&self) -> (r: usize)
        ensures
            r == self@.height,
    {
        self.height
    }

    /// Reserves a color in the output palette created from this image. It
    /// behaves as if the given color was used in the image and was very
    /// important.
    ///
    /// RGB values are assumed to have the same gamma as the image.
    ///
    /// It must be called before the image is quantized.
    ///
    /// Returns `BufferTooSmall` once more than 256 colors are reserved; the
    /// reservation list is then left as it was. If the image is quantized to
    /// fewer colors than were reserved, the excess reservations are ignored.
    pub fn add_fixed_color(&mut self, color: Color) -> (r: LiqError)
        ensures
            old(self)@.fixed.len() < 256 ==> r == LiqError::LiqOk && final (self)@ == (ImgV {
                fixed: old(self)@.fixed.push(color),
                ..old(self)@
            }),
            old(self)@.fixed.len() >= 256 ==> r == LiqError::BufferTooSmall && final (self)@ == old(
                self,
            )@,
            old(self).wf() ==> final (self).wf(),
    {
        if self.fixed.len() < 256 {
            self.fixed.push(color);
            LiqError::LiqOk
        } else {
            LiqError::BufferTooSmall
        }
    }

    /// Remap pixels assuming they will be displayed on this background.
    ///
    /// Pixels that match the background color will be made transparent if
    /// there's a fully transparent color available in the palette.
    ///
    /// Attaching consumes the caller's handle to the background; the
    /// background must have the same dimensions as this image and no
    /// background of its own.
    pub fn set_background(&mut self, background: Image<'a>) -> (r: Result<(), LiqError>)
        ensures
            match r {
                Ok(()) => old(self)@.bg_rows is None && background@.bg_rows is None && background@.width
                    == old(self)@.width && background@.height == old(self)@.height && final (self)@
                    == (ImgV { bg_rows: Some(background@.rows), ..old(self)@ }),
                Err(e) => final (self)@ == old(self)@ && (e == LiqError::Unsupported <==> old(
                    self,
                )@.bg_rows is Some || background@.bg_rows is Some) && (e
                    == LiqError::BufferTooSmall <==> old(self)@.bg_rows is None
                    && background@.bg_rows is None && !(background@.width == old(self)@.width
                    && background@.height == old(self)@.height)),
            },
            r is Ok <==> old(self)@.bg_rows is None && background@.bg_rows is None
                && background@.width == old(self)@.width && background@.height == old(
            self,
            )@.height,
            old(self).wf() && background.wf() && r is Ok ==> final (self).wf(),
            old(self).wf() && r is Err ==> final (self).wf(),
    {
        if self.background.is_some() {
            return Err(LiqError::Unsupported);
        }
        if background.background.is_some() {
            return Err(LiqError::Unsupported);
        }
        if background.width != self.width || background.height != self.height {
            return Err(LiqError::BufferTooSmall);
        }
        self.background = Some(Box::new(background));
        Ok(())
    }

    /// Set which pixels are more important (and more likely to get a palette
    /// entry).
    ///
    /// The map must be exactly `width * height` bytes, one weight per pixel in
    /// row-major order; higher numbers mean more important. A copy is taken,
    /// independent of the map buffer's lifetime. A map of any other size is
    /// rejected as `BufferTooSmall`.
    pub fn set_importance_map(&mut self, map: &[u8]) -> (r: Result<(), LiqError>)
        requires
            old(self).wf(),
        ensures
            final (self).wf(),
            match r {
                Ok(()) => map@.len() == old(self)@.width * old(self)@.height && final (self)@ == (
                ImgV { importance: Some(map@), ..old(self)@ }),
                Err(e) => e == LiqError::BufferTooSmall && map@.len() != old(self)@.width * old(
                    self,
                )@.height && final (self)@ == old(self)@,
            },
    {
        proof {
            assert(self.width * self.height <= usize::MAX);
        }
        let need: usize = self.width * self.height;
        if map.len() != need {
            return Err(LiqError::BufferTooSmall);
        }
        let mut copy: Vec<u8> = Vec::new();
        let mut i: usize = 0;
        while i < map.len()
            invariant
                i <= map@.len(),
                copy@.len() == i,
                forall|j: int| 0 <= j < i ==> #[trigger] copy@[j] == map@[j],
            decreases map@.len() - i,
        {
            copy.push(map[i]);
            i += 1;
        }
        proof {
            assert(copy@ =~= map@);
        }
        self.importance = Some(copy);
        Ok(())
    }

    /// One row of pixels, read from whichever source backs the image.
    pub(crate) fn row_slice(&self, y: usize) -> (r: &[Color])
        requires
            self.wf(),
            y < self@.height,
        ensures
            r@ == self@.rows[y as int],
            r@.len() == self@.width,
    {
        match &self.source {
            PixelSource::Borrowed { buf, stride } => {
                let blen: usize = buf.len();
                proof {
                    assert(y * *stride + self.width <= *stride * (self.height - 1) + self.width)
                        by (nonlinear_arith)
                        requires
                            y < self.height,
                            self.width <= *stride,
                    ;
                }
                let start: usize = y * *stride;
                &buf[start..start + self.width]
            },
            PixelSource::Owned { rows } => {
                let row: &Vec<Color> = &rows[y];
                row.as_slice()
            },
        }
    }

    /// The importance map, if one was set.
    pub(crate) fn importance_ref(&self) -> (r: Option<&Vec<u8>>)
        ensures
            match r {
                Some(m) => self@.importance == Some(m@),
                None => self@.importance is None,
            },
    {
        match &self.importance {
            Some(m) => Some(m),
            None => None,
        }
    }

    /// The gamma tag, for internal readers.
    pub(crate) fn gamma_value(&self) -> (r: u32)
        ensures
            r == self@.gamma,
    {
        self.gamma
    }

    /// The colors reserved so far, in reservation order.
    pub(crate) fn fixed_ref(&self) -> (r: &Vec<Color>)
        ensures
            r@ == self@.fixed,
    {
        &self.fixed
    }

    /// One row of the attached background, if a background is attached.
    pub(crate) fn bg_row_slice(&self, y: usize) -> (r: Option<&[Color]>)
        requires
            self.wf(),
            y < self@.height,
        ensures
            match r {
                Some(s) => self@.bg_rows is Some && s@ == self@.bg_rows.unwrap()[y as int] && s@.len()
                    == self@.width,
                None => self@.bg_rows is None,
            },
    {
        match &self.background {
            Some(b) => Some(b.row_slice(y)),
            None => None,
        }
    }
}

/// What well-formedness guarantees about an image's view, for use outside
/// this module.
pub proof fn lemma_wf_view(img: &Image<'_>)
    requires
        img.wf(),
    ensures
        1 <= img@.width,
        1 <= img@.height,
        img@.width * img@.height <= usize::MAX,
        img@.gamma <= GAMMA_SCALE,
        img@.rows.len() == img@.height,
        forall|y: int| 0 <= y < img@.height ==> (#[trigger] img@.rows[y]).len() == img@.width,
        img@.fixed.len() <= 256,
        match img@.importance {
            Some(m) => m.len() == img@.width * img@.height,
            None => true,
        },
        match img@.bg_rows {
            Some(r) => r.len() == img@.height && forall|y: int|
                0 <= y < img@.height ==> (#[trigger] r[y]).len() == img@.width,
            None => true,
        },
{
    lemma_grid(img@.rows, img.width, img.height, &img.source);
    match img.background {
        Some(b) => {
            lemma_grid(img@.bg_rows.unwrap(), b.width, b.height, &b.source);
        },
        None => {},
    }
}

/// Rows drawn from a consistent source have the declared dimensions.
proof fn lemma_grid(rows: Seq<Seq<Color>>, width: usize, height: usize, source: &PixelSource<'_>)
    requires
        1 <= width,
        1 <= height,
        match *source {
            PixelSource::Borrowed { buf, stride } => width <= stride && needed_len(
                width as int,
                height as int,
                stride as int,
            ) <= buf@.len() && rows == extract_rows(
                buf@,
                width as int,
                height as int,
                stride as int,
            ),
            PixelSource::Owned { rows: ref rv } => rv@.len() == height && (forall|y: int|
                0 <= y < height ==> (#[trigger] rv@[y])@.len() == width) && rows == Seq::new(
                rv@.len(),
                |y: int| rv@[y]@,
            ),
        },
    ensures
        rows.len() == height,
        forall|y: int| 0 <= y < height ==> (#[trigger] rows[y]).len() == width,
{
    match *source {
        PixelSource::Borrowed { buf, stride } => {
            assert forall|y: int| 0 <= y < height implies (#[trigger] rows[y]).len()
                == width by {
                assert(y * stride + width <= stride * (height - 1) + width) by (nonlinear_arith)
                    requires
                        0 <= y < height,
                        width <= stride,
                ;
                assert(0 <= y * stride) by (nonlinear_arith)
                    requires
                        0 <= y,
                        0 <= stride,
                ;
                assert(rows[y] == buf@.subrange(y * stride, y * stride + width));
            }
        },
        PixelSource::Owned { rows: ref rv } => {
            assert forall|y: int| 0 <= y < height implies (#[trigger] rows[y]).len()
                == width by {
                assert(rows[y] == rv@[y]@);
            }
        },
    }
}

impl Attributes {
    /// Describe dimensions of a slice of RGBA pixels.
    ///
    /// Use `0` for gamma if the image is sRGB (most images are).
    pub fn new_image<'a>(
        &self,
        bitmap: &'a [Color],
        width: usize,
        height: usize,
        gamma: u32,
    ) -> (r: Result<Image<'a>, LiqError>)
        ensures
            match r {
                Ok(img) => valid_stride_desc(width as int, height as int, width as int, gamma as int)
                    && needed_len(width as int, height as int, width as int) <= bitmap@.len()
                    && img.wf() && img@ == ImgV::fresh(
                    width,
                    height,
                    gamma,
                    extract_rows(bitmap@, width as int, height as int, width as int),
                ),
                Err(e) => {
                    &&& (e == LiqError::ValueOutOfRange <==> !valid_stride_desc(
                        width as int,
                        height as int,
                        width as int,
                        gamma as int,
                    ))
                    &&& (e == LiqError::BufferTooSmall <==> valid_stride_desc(
                        width as int,
                        height as int,
                        width as int,
                        gamma as int,
                    ) && bitmap@.len() < needed_len(width as int, height as int, width as int))
                },
            },
            r is Ok <==> valid_stride_desc(width as int, height as int, width as int, gamma as int)
                && needed_len(width as int, height as int, width as int) <= bitmap@.len(),
    {
        Image::new(self, bitmap, width, height, gamma)
    }

    /// Stride is in pixels. Allows defining regions of larger images or images
    /// with padding without copying.
    pub fn new_image_stride<'a>(
        &self,
        bitmap: &'a [Color],
        width: usize,
        height: usize,
        stride: usize,
        gamma: u32,
    ) -> (r: Result<Image<'a>, LiqError>)
        ensures
            match r {
                Ok(img) => valid_stride_desc(
                    width as int,
                    height as int,
                    stride as int,
                    gamma as int,
                ) && needed_len(width as int, height as int, stride as int) <= bitmap@.len()
                    && img.wf() && img@ == ImgV::fresh(
                    width,
                    height,
                    gamma,
                    extract_rows(bitmap@, width as int, height as int, stride as int),
                ),
                Err(e) => {
                    &&& (e == LiqError::ValueOutOfRange <==> !valid_stride_desc(
                        width as int,
                        height as int,
                        stride as int,
                        gamma as int,
                    ))
                    &&& (e == LiqError::BufferTooSmall <==> valid_stride_desc(
                        width as int,
                        height as int,
                        stride as int,
                        gamma as int,
                    ) && bitmap@.len() < needed_len(width as int, height as int, stride as int))
                },
            },
            r is Ok <==> valid_stride_desc(width as int, height as int, stride as int, gamma as int)
                && needed_len(width as int, height as int, stride as int) <= bitmap@.len(),
    {
        Image::new_stride(self, bitmap, width, height, stride, gamma)
    }

    /// Like `new_image_stride`, but makes a copy of the pixels, so the image
    /// does not depend on the caller's buffer afterwards.
    pub fn new_image_stride_copy(
        &self,
        bitmap: &[Color],
        width: usize,
        height: usize,
        stride: usize,
        gamma: u32,
    ) -> (r: Result<Image<'static>, LiqError>)
        ensures
            match r {
                Ok(img) => valid_stride_desc(
                    width as int,
                    height as int,
                    stride as int,
                    gamma as int,
                ) && needed_len(width as int, height as int, stride as int) <= bitmap@.len()
                    && img.wf() && img@ == ImgV::fresh(
                    width,
                    height,
                    gamma,
                    extract_rows(bitmap@, width as int, height as int, stride as int),
                ),
                Err(e) => {
                    &&& (e == LiqError::ValueOutOfRange <==> !valid_stride_desc(
                        width as int,
                        height as int,
                        stride as int,
                        gamma as int,
                    ))
                    &&& (e == LiqError::BufferTooSmall <==> valid_stride_desc(
                        width as int,
                        height as int,
                        stride as int,
                        gamma as int,
                    ) && bitmap@.len() < needed_len(width as int, height as int, stride as int))
                },
            },
            r is Ok <==> valid_stride_desc(width as int, height as int, stride as int, gamma as int)
                && needed_len(width as int, height as int, stride as int) <= bitmap@.len(),
    {
        Image::new_stride_copy(self, bitmap, width, height, stride, gamma)
    }
}

} // verus!
