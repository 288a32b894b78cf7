//! Color-frequency aggregation across several images, for building one shared
//! palette.

use vstd::prelude::*;

use crate::attr::AttrV;
use crate::attr::Attributes;
use crate::attr::GAMMA_SCALE;
use crate::color::Color;
use crate::color::HistogramEntry;
use crate::color::LiqError;
use crate::engine::HEntry;
use crate::engine::accumulate;
use crate::engine::accumulate_image;
use crate::engine::bump_exec;
use crate::engine::flat_pixels;
use crate::engine::pixel_weights;
use crate::engine::FULL_WEIGHT;
use crate::image::Image;

verus! {

/// The logical content of a [`Histogram`].
pub struct HistV {
    /// The configuration the histogram was created from, frozen at creation.
    pub attr: AttrV,
    /// The running aggregate of weighted colors, in first-seen order.
    pub entries: Seq<HEntry>,
    /// The fixed colors gathered from contributing images, deduplicated, in
    /// arrival order.
    pub fixed: Seq<Color>,
    /// The gamma tag of the statistics: the last nonzero gamma supplied, or 0.
    pub gamma: u32,
}

/// What a histogram's well-formedness guarantees, for readers outside this
/// module: the frozen configuration is valid, the fixed-color list is within
/// the palette bound, and the gamma tag is a fraction.
pub proof fn lemma_histogram_wf_view(h: &Histogram)
    requires
        h.wf(),
    ensures
        h@.attr.wf(),
        h@.fixed.len() <= 256,
        h@.gamma <= crate::attr::GAMMA_SCALE,
{
}

/// Adding an image's fixed colors to the aggregate's: each color not yet
/// present is appended.
pub open spec fn merge_fixed(have: Seq<Color>, add: Seq<Color>) -> Seq<Color>
    decreases add.len(),
{
    if add.len() == 0 {
        have
    } else {
        let m = merge_fixed(have, add.drop_last());
        if m.contains(add.last()) {
            m
        } else {
            m.push(add.last())
        }
    }
}

/// The weight a directly supplied histogram entry carries: its pixel count at
/// full importance.
pub open spec fn entry_weight(e: HistogramEntry) -> u64 {
    (e.count * FULL_WEIGHT) as u64
}

/// The colors of directly supplied entries, in order, posterized to the
/// configured precision.
pub open spec fn supplied_colors(s: Seq<HistogramEntry>, bits: u32) -> Seq<Color> {
    s.map_values(|e: HistogramEntry| crate::engine::posterize_color(e.color, bits))
}

/// The weights of directly supplied entries, in order.
pub open spec fn supplied_weights(s: Seq<HistogramEntry>) -> Seq<u64> {
    s.map_values(|e: HistogramEntry| entry_weight(e))
}

/// Generate one shared palette for multiple images.
///
/// All options should be set on the `Attributes` before the histogram is
/// created: the histogram freezes its own copy of the configuration.
pub struct Histogram {
    attr: Attributes,
    entries: Vec<HEntry>,
    fixed: Vec<Color>,
    gamma: u32,
}

impl View for Histogram {
    type V = HistV;

    closed spec fn view(&self) -> HistV {
        HistV { attr: self.attr@, entries: self.entries@, fixed: self.fixed@, gamma: self.gamma }
    }
}

impl Histogram {
    /// A usable histogram: its frozen configuration is valid, its fixed-color
    /// list is within the palette bound, and its gamma tag is a fraction.
    pub closed spec fn wf(&self) -> bool {
        &&& self@.attr.wf()
        &&& self@.fixed.len() <= 256
        &&& self@.gamma <= GAMMA_SCALE
    }

    /// Creates a histogram that will collect color statistics from multiple
    /// images, against a frozen copy of `attr`'s configuration.
    pub fn new(attr: &Attributes) -> (r: Self)
        ensures
            r@ == (HistV {
                attr: attr@,
                entries: Seq::<HEntry>::empty(),
                fixed: Seq::<Color>::empty(),
                gamma: 0u32,
            }),
            attr@.wf() ==> r.wf(),
    {
        Histogram { attr: *attr, entries: Vec::new(), fixed: Vec::new(), gamma: 0 }
    }

    /// "Learns" colors from the image, which will later be used to generate
    /// the palette.
    ///
    /// Every pixel's color is added with its importance weight, and the
    /// image's fixed colors are also fixed in the histogram. If the total
    /// number of distinct fixed colors would exceed 256, nothing is added and
    /// the call fails with `BufferTooSmall`.
    pub fn add_image(&mut self, image: &mut Image<'_>) -> (r: LiqError)
        requires
            old(self).wf(),
            old(image).wf(),
        ensures
            *final (image) == *old(image),
            final (self).wf(),
            merge_fixed(old(self)@.fixed, old(image)@.fixed).len() <= 256 ==> r == LiqError::LiqOk
                && final (self)@ == (HistV {
                entries: accumulate(
                    old(self)@.entries,
                    crate::engine::posterized_pixels(
                        old(image)@.rows,
                        old(image)@.width as int,
                        old(self)@.attr.min_posterization,
                    ),
                    pixel_weights(old(image)@.importance, old(image)@.width as int * old(image)@.height as int),
                ),
                fixed: merge_fixed(old(self)@.fixed, old(image)@.fixed),
                gamma: if old(image)@.gamma != 0 {
                    old(image)@.gamma
                } else {
                    old(self)@.gamma
                },
                ..old(self)@
            }),
            merge_fixed(old(self)@.fixed, old(image)@.fixed).len() > 256 ==> r
                == LiqError::BufferTooSmall && final (self)@ == old(self)@,
    {
        proof {
            crate::image::lemma_wf_view(image);
        }
        let imgfixed = image.fixed_ref();
        let m = imgfixed.len();
        let mut merged: Vec<Color> = Vec::new();
        let mut i: usize = 0;
        let n = self.fixed.len();
        proof {
            assert(self@.fixed.take(0) =~= Seq::<Color>::empty());
        }
        while i < n
            invariant
                i <= n,
                n == self@.fixed.len(),
                merged@ == self@.fixed.take(i as int),
            decreases n - i,
        {
            merged.push(self.fixed[i]);
            i += 1;
        }
        proof {
            assert(self@.fixed.take(n as int) =~= self@.fixed);
            assert(imgfixed@.take(0) =~= Seq::<Color>::empty());
        }
        let mut j: usize = 0;
        while j < m
            invariant
                j <= m,
                m == imgfixed@.len(),
                imgfixed@ == image@.fixed,
                merged@ == merge_fixed(self@.fixed, imgfixed@.take(j as int)),
            decreases m - j,
        {
            proof {
                assert(imgfixed@.take(j as int + 1).drop_last() =~= imgfixed@.take(j as int));
                assert(imgfixed@.take(j as int + 1).last() == imgfixed@[j as int]);
            }
            if !crate::engine::contains_color(&merged, imgfixed[j]) {
                merged.push(imgfixed[j]);
            }
            j += 1;
        }
        proof {
            assert(imgfixed@.take(m as int) =~= imgfixed@);
        }
        if merged.len() > 256 {
            return LiqError::BufferTooSmall;
        }
        self.fixed = merged;
        let bits = self.attr.cfg_min_posterization();
        accumulate_image(&mut self.entries, image, bits);
        let g = image.gamma_value();
        if g != 0 {
            self.gamma = g;
        }
        LiqError::LiqOk
    }

    /// An alternative to `add_image`: instead of counting colors in an image,
    /// it directly takes an array of colors and their counts.
    ///
    /// Only useful for callers that already have a histogram of the image from
    /// another source. Each count is taken at full importance. A gamma tag
    /// above the unit range is rejected as `ValueOutOfRange` without changing
    /// anything; 0 keeps the current tag.
    pub fn add_colors(&mut self, colors: &[HistogramEntry], gamma: u32) -> (r: LiqError)
        requires
            old(self).wf(),
        ensures
            final (self).wf(),
            gamma <= GAMMA_SCALE ==> r == LiqError::LiqOk && final (self)@ == (HistV {
                entries: accumulate(
                    old(self)@.entries,
                    supplied_colors(colors@, old(self)@.attr.min_posterization),
                    supplied_weights(colors@),
                ),
                gamma: if gamma != 0 {
                    gamma
                } else {
                    old(self)@.gamma
                },
                ..old(self)@
            }),
            gamma > GAMMA_SCALE ==> r == LiqError::ValueOutOfRange && final (self)@ == old(self)@,
    {
        if gamma > GAMMA_SCALE {
            return LiqError::ValueOutOfRange;
        }
        let n = colors.len();
        let bits = self.attr.cfg_min_posterization();
        let ghost cs = supplied_colors(colors@, old(self)@.attr.min_posterization);
        let ghost ws = supplied_weights(colors@);
        let ghost start = self@.entries;
        proof {
            assert(cs.skip(0) =~= cs);
            assert(ws.skip(0) =~= ws);
        }
        let mut i: usize = 0;
        while i < n
            invariant
                i <= n,
                n == colors@.len(),
                bits <= 4,
                bits == old(self)@.attr.min_posterization,
                cs == supplied_colors(colors@, old(self)@.attr.min_posterization),
                ws == supplied_weights(colors@),
                accumulate(self@.entries, cs.skip(i as int), ws.skip(i as int)) == accumulate(
                    start,
                    cs,
                    ws,
                ),
                self@.attr == old(self)@.attr,
                self@.fixed == old(self)@.fixed,
                self@.gamma == old(self)@.gamma,
                self.wf(),
            decreases n - i,
        {
            let e = colors[i];
            let c = crate::engine::posterize_exec(e.color, bits);
            let w: u64 = (e.count as u64) * FULL_WEIGHT;
            proof {
                assert(w == entry_weight(e));
                assert(c == cs[i as int]);
                assert(cs.skip(i as int).drop_first() =~= cs.skip(i as int + 1));
                assert(ws.skip(i as int).drop_first() =~= ws.skip(i as int + 1));
                assert(cs.skip(i as int)[0] == cs[i as int]);
                assert(ws.skip(i as int)[0] == ws[i as int]);
            }
            bump_exec(&mut self.entries, c, w);
            i += 1;
        }
        proof {
            assert(cs.skip(n as int) =~= Seq::<Color>::empty());
            assert(ws.skip(n as int) =~= Seq::<u64>::empty());
        }
        if gamma != 0 {
            self.gamma = gamma;
        }
        LiqError::LiqOk
    }

    /// Generates a palette for all images and colors added so far.
    ///
    /// A palette generated this way is final: it is not refined during later
    /// remapping. Fails exactly when the palette's quality score is below the
    /// configured minimum.
    pub fn quantize(&mut self) -> (r: Result<crate::quant::QuantizationResult, LiqError>)
        requires
            old(self).wf(),
        ensures
            *final (self) == *old(self),
            match r {
                Ok(res) => res@ == crate::quant::QRV::derived(
                    old(self)@.entries,
                    old(self)@.fixed,
                    old(self)@.attr,
                    old(self)@.gamma,
                ) && res.wf() && res@.quality >= old(self)@.attr.quality_min,
                Err(e) => e == LiqError::QualityTooLow,
            },
            r is Err <==> crate::engine::quality_of(
                crate::engine::mse_spec(
                    old(self)@.entries,
                    crate::engine::palette_spec(old(self)@.entries, old(self)@.fixed, old(self)@.attr),
                ),
            ) < old(self)@.attr.quality_min,
    {
        crate::quant::QuantizationResult::derive(&self.entries, &self.fixed, &self.attr, self.gamma)
    }
}

impl Attributes {
    /// Creates a new histogram.
    ///
    /// Use it to make one palette suitable for many images.
    pub fn new_histogram(&self) -> (r: Histogram)
        ensures
            r@ == (HistV {
                attr: self@,
                entries: Seq::<HEntry>::empty(),
                fixed: Seq::<Color>::empty(),
                gamma: 0u32,
            }),
            self@.wf() ==> r.wf(),
    {
        Histogram::new(self)
    }
}

} // verus!
