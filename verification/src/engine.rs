//! The quantization engine: color aggregation, palette selection, error
//! metrics, and nearest-entry search, all specified over sequences of plain
//! values.

use vstd::prelude::*;
use vstd::arithmetic::div_mod::lemma_mod_bound;
use vstd::arithmetic::div_mod::lemma_multiply_divide_lt;

use crate::color::Color;
use crate::color::dist2;
use crate::image::Image;
use crate::image::ImgV;

verus! {

/// One aggregated histogram entry: a color and its accumulated weight.
///
/// Weights are in importance units: a pixel contributes its importance-map
/// value (255 when no map is set), and an externally counted pixel contributes
/// 255 per count.
#[derive(Clone, Copy, PartialEq, Eq, Structural, Debug)]
pub struct HEntry {
    /// The color being aggregated.
    pub color: Color,
    /// Total weight gathered for it so far; additions saturate at `u64::MAX`.
    pub weight: u64,
}

/// Weight each counted unit carries when no importance map scales it.
pub const FULL_WEIGHT: u64 = 255;

/// Addition on `u64` that stops at the largest value instead of wrapping.
pub open spec fn sat_add_u64(a: u64, b: u64) -> u64 {
    if a + b > u64::MAX {
        u64::MAX
    } else {
        (a + b) as u64
    }
}

/// Addition on `u128` that stops at the largest value instead of wrapping.
pub open spec fn sat_add_u128(a: u128, b: u128) -> u128 {
    if a + b > u128::MAX {
        u128::MAX
    } else {
        (a + b) as u128
    }
}

/// The first position holding color `c`, or -1 if the aggregate has no entry
/// for it yet.
pub open spec fn color_index(s: Seq<HEntry>, c: Color) -> int
    decreases s.len(),
{
    if s.len() == 0 {
        -1
    } else {
        let p = color_index(s.drop_last(), c);
        if p >= 0 {
            p
        } else if s.last().color == c {
            s.len() - 1
        } else {
            -1
        }
    }
}

/// Adding weight `w` of color `c` to an aggregate: the first entry of that
/// color grows (saturating), or a new entry is appended.
pub open spec fn bump(s: Seq<HEntry>, c: Color, w: u64) -> Seq<HEntry> {
    let i = color_index(s, c);
    if i >= 0 {
        s.update(i, HEntry { color: c, weight: sat_add_u64(s[i].weight, w) })
    } else {
        s.push(HEntry { color: c, weight: w })
    }
}

/// Folding a whole sequence of weighted colors into an aggregate, in order.
pub open spec fn accumulate(s: Seq<HEntry>, colors: Seq<Color>, weights: Seq<u64>) -> Seq<HEntry>
    decreases colors.len(),
{
    if colors.len() == 0 {
        s
    } else {
        accumulate(bump(s, colors[0], weights[0]), colors.drop_first(), weights.drop_first())
    }
}

/// An image's pixels as one row-major sequence.
pub open spec fn flat_pixels(rows: Seq<Seq<Color>>, width: int) -> Seq<Color> {
    Seq::new((rows.len() * width) as nat, |i: int| rows[i / width][i % width])
}

/// The weight of each pixel, in row-major order: its importance-map value, or
/// `FULL_WEIGHT` when no map is set.
pub open spec fn pixel_weights(importance: Option<Seq<u8>>, n: int) -> Seq<u64> {
    Seq::new(
        n as nat,
        |i: int|
            match importance {
                Some(m) => m[i] as u64,
                None => FULL_WEIGHT,
            },
    )
}

/// Everything one image contributes to an empty aggregate, posterized to the
/// configured precision.
pub open spec fn image_entries(v: ImgV, bits: u32) -> Seq<HEntry> {
    accumulate(
        Seq::empty(),
        posterized_pixels(v.rows, v.width as int, bits),
        pixel_weights(v.importance, v.width as int * v.height as int),
    )
}

/// `color_index` really is the first occurrence: nothing before it matches,
/// and -1 means nothing matches at all.
pub proof fn lemma_color_index_props(s: Seq<HEntry>, c: Color)
    ensures
        color_index(s, c) == -1 ==> forall|j: int| 0 <= j < s.len() ==> (#[trigger] s[j]).color != c,
        color_index(s, c) >= 0 ==> 0 <= color_index(s, c) < s.len() && s[color_index(s, c)].color
            == c && forall|j: int|
            0 <= j < color_index(s, c) ==> (#[trigger] s[j]).color != c,
    decreases s.len(),
{
    if s.len() > 0 {
        lemma_color_index_props(s.drop_last(), c);
        assert(forall|j: int|
            0 <= j < s.len() - 1 ==> s.drop_last()[j] == #[trigger] s[j]);
    }
}

/// The first occurrence determines `color_index`: if `k` matches and nothing
/// before it does, then `k` is it.
pub proof fn lemma_color_index_at(s: Seq<HEntry>, c: Color, k: int)
    requires
        0 <= k < s.len(),
        s[k].color == c,
        forall|j: int| 0 <= j < k ==> (#[trigger] s[j]).color != c,
    ensures
        color_index(s, c) == k,
    decreases s.len(),
{
    lemma_color_index_props(s, c);
    assert(forall|j: int| 0 <= j < s.len() - 1 ==> s.drop_last()[j] == #[trigger] s[j]);
    if s.len() - 1 > k {
        lemma_color_index_at(s.drop_last(), c, k);
    } else {
        lemma_color_index_props(s.drop_last(), c);
    }
}

/// Adds weight `w` of color `c` into the aggregate, exactly as [`bump`] says.
pub(crate) fn bump_exec(v: &mut Vec<HEntry>, c: Color, w: u64)
    ensures
        final (v)@ == bump(old(v)@, c, w),
{
    let n = v.len();
    let mut i: usize = 0;
    while i < n
        invariant
            i <= n,
            n == v@.len(),
            v@ == old(v)@,
            forall|j: int| 0 <= j < i ==> (#[trigger] v@[j]).color != c,
        decreases n - i,
    {
        if v[i].color == c {
            proof {
                lemma_color_index_at(v@, c, i as int);
            }
            let nw = v[i].weight.saturating_add(w);
            v[i] = HEntry { color: c, weight: nw };
            return ;
        }
        i += 1;
    }
    proof {
        lemma_color_index_props(v@, c);
        if color_index(v@, c) >= 0 {
            assert(v@[color_index(v@, c)].color == c);
        }
    }
    v.push(HEntry { color: c, weight: w });
}

/// The channel quantum that posterization to `bits` discarded bits keeps.
pub open spec fn posterize_step(bits: u32) -> u8 {
    if bits == 0 {
        1
    } else if bits == 1 {
        2
    } else if bits == 2 {
        4
    } else if bits == 3 {
        8
    } else {
        16
    }
}

/// A channel with its lowest `bits` bits discarded.
pub open spec fn posterize_channel(v: u8, bits: u32) -> u8 {
    (posterize_step(bits) * (v / posterize_step(bits))) as u8
}

/// A color with every channel posterized.
pub open spec fn posterize_color(c: Color, bits: u32) -> Color {
    Color {
        r: posterize_channel(c.r, bits),
        g: posterize_channel(c.g, bits),
        b: posterize_channel(c.b, bits),
        a: posterize_channel(c.a, bits),
    }
}

/// An image's pixels in row-major order, posterized as configured.
pub open spec fn posterized_pixels(rows: Seq<Seq<Color>>, width: int, bits: u32) -> Seq<Color> {
    flat_pixels(rows, width).map_values(|c: Color| posterize_color(c, bits))
}

/// One channel posterized, as [`posterize_channel`] says.
fn chan_posterize(v: u8, step: u8) -> (r: u8)
    requires
        1 <= step,
    ensures
        r == (step * (v / step)) as u8,
        r <= v,
{
    proof {
        vstd::arithmetic::div_mod::lemma_fundamental_div_mod(v as int, step as int);
        lemma_mod_bound(v as int, step as int);
    }
    step * (v / step)
}

/// One color posterized, as [`posterize_color`] says.
pub(crate) fn posterize_exec(c: Color, bits: u32) -> (r: Color)
    requires
        bits <= 4,
    ensures
        r == posterize_color(c, bits),
{
    let step: u8 = if bits == 0 {
        1
    } else if bits == 1 {
        2
    } else if bits == 2 {
        4
    } else if bits == 3 {
        8
    } else {
        16
    };
    Color {
        r: chan_posterize(c.r, step),
        g: chan_posterize(c.g, step),
        b: chan_posterize(c.b, step),
        a: chan_posterize(c.a, step),
    }
}

/// Folds every pixel of `image`, with its importance weight, into the
/// aggregate, row by row, posterized to the configured precision.
pub(crate) fn accumulate_image(v: &mut Vec<HEntry>, image: &Image<'_>, bits: u32)
    requires
        image.wf(),
        bits <= 4,
    ensures
        final (v)@ == accumulate(
            old(v)@,
            posterized_pixels(image@.rows, image@.width as int, bits),
            pixel_weights(image@.importance, image@.width as int * image@.height as int),
        ),
{
    proof {
        crate::image::lemma_wf_view(image);
    }
    let width = image.width();
    let height = image.height();
    let total: usize = width * height;
    let ghost colors = posterized_pixels(image@.rows, image@.width as int, bits);
    let ghost weights = pixel_weights(image@.importance, image@.width as int * image@.height as int);
    let ghost start = v@;
    proof {
        assert(image@.rows.len() * (image@.width as int) == (image@.width as int) * (
        image@.height as int)) by (nonlinear_arith)
            requires
                image@.rows.len() == image@.height,
        ;
        assert(colors.len() == total);
        assert(colors.skip(0) =~= colors);
        assert(weights.skip(0) =~= weights);
    }
    let mut i: usize = 0;
    while i < total
        invariant
            i <= total,
            total == width * height,
            width == image@.width,
            height == image@.height,
            image.wf(),
            bits <= 4,
            colors == posterized_pixels(image@.rows, image@.width as int, bits),
            weights == pixel_weights(image@.importance, image@.width as int * image@.height as int),
            colors.len() == total,
            weights.len() == total,
            accumulate(v@, colors.skip(i as int), weights.skip(i as int)) == accumulate(
                start,
                colors,
                weights,
            ),
        decreases total - i,
    {
        proof {
            crate::image::lemma_wf_view(image);
            lemma_multiply_divide_lt(i as int, width as int, height as int);
            lemma_mod_bound(i as int, width as int);
        }
        let y: usize = i / width;
        let x: usize = i % width;
        let row = image.row_slice(y);
        let c: Color = posterize_exec(row[x], bits);
        let w: u64 = match image.importance_ref() {
            Some(m) => m[i] as u64,
            None => FULL_WEIGHT,
        };
        proof {
            assert(flat_pixels(image@.rows, image@.width as int)[i as int] == image@.rows[i as int
                / width as int][i as int % width as int]);
            assert(colors[i as int] == posterize_color(
                flat_pixels(image@.rows, image@.width as int)[i as int],
                bits,
            ));
            assert(c == colors[i as int]);
            assert(w == weights[i as int]);
            assert(colors.skip(i as int).drop_first() =~= colors.skip(i as int + 1));
            assert(weights.skip(i as int).drop_first() =~= weights.skip(i as int + 1));
            assert(colors.skip(i as int)[0] == colors[i as int]);
            assert(weights.skip(i as int)[0] == weights[i as int]);
        }
        bump_exec(v, c, w);
        i += 1;
    }
    proof {
        assert(colors.skip(total as int) =~= Seq::<Color>::empty());
        assert(weights.skip(total as int) =~= Seq::<u64>::empty());
    }
}


/// The distinct colors of `s`, each kept at its first occurrence.
pub open spec fn dedup_colors(s: Seq<Color>) -> Seq<Color>
    decreases s.len(),
{
    if s.len() == 0 {
        Seq::empty()
    } else {
        let d = dedup_colors(s.drop_last());
        if d.contains(s.last()) {
            d
        } else {
            d.push(s.last())
        }
    }
}

/// Whether an aggregated entry competes for a palette slot: it gathered
/// weight, and its color is not already reserved.
pub open spec fn keep_cand(e: HEntry, fixed: Seq<Color>) -> bool {
    e.weight > 0 && !fixed.contains(e.color)
}

/// The competing entries, in aggregation order.
pub open spec fn cand_filter(s: Seq<HEntry>, fixed: Seq<Color>) -> Seq<HEntry>
    decreases s.len(),
{
    if s.len() == 0 {
        Seq::empty()
    } else {
        let r = cand_filter(s.drop_last(), fixed);
        if keep_cand(s.last(), fixed) {
            r.push(s.last())
        } else {
            r
        }
    }
}

/// The first position of greatest weight.
pub open spec fn max_idx(s: Seq<HEntry>) -> int
    decreases s.len(),
{
    if s.len() <= 1 {
        0
    } else {
        let p = max_idx(s.drop_last());
        if s.last().weight > s[p].weight {
            s.len() - 1
        } else {
            p
        }
    }
}

/// The colors of the up-to-`limit` heaviest candidates, heaviest first; ties
/// go to the earlier candidate.
pub open spec fn top_colors(cands: Seq<HEntry>, limit: nat) -> Seq<Color>
    decreases limit,
{
    if limit == 0 || cands.len() == 0 {
        Seq::empty()
    } else {
        let m = max_idx(cands);
        seq![cands[m].color] + top_colors(cands.remove(m), (limit - 1) as nat)
    }
}

/// The first fully transparent entry, or -1 if there is none.
pub open spec fn first_transparent(pal: Seq<Color>) -> int
    decreases pal.len(),
{
    if pal.len() == 0 {
        -1
    } else {
        let p = first_transparent(pal.drop_last());
        if p >= 0 {
            p
        } else if pal.last().is_transparent() {
            pal.len() - 1
        } else {
            -1
        }
    }
}

/// Moves the first fully transparent entry to the front (the default) or to
/// the back (`last` set); a palette without one is left alone.
pub open spec fn place_transparent(pal: Seq<Color>, last: bool) -> Seq<Color> {
    let i = first_transparent(pal);
    if i < 0 {
        pal
    } else if last {
        pal.remove(i).push(pal[i])
    } else {
        pal.remove(i).insert(0, pal[i])
    }
}

/// The first palette position at least as close to `c` as every other.
pub open spec fn nearest_idx(pal: Seq<Color>, c: Color) -> int
    decreases pal.len(),
{
    if pal.len() <= 1 {
        0
    } else {
        let p = nearest_idx(pal.drop_last(), c);
        if dist2(pal.last(), c) < dist2(pal[p], c) {
            pal.len() - 1
        } else {
            p
        }
    }
}

/// The palette the engine derives: reserved colors first (deduplicated,
/// capped), then the heaviest remaining candidates, with a fully transparent
/// entry moved to the front or back.
pub open spec fn palette_spec(entries: Seq<HEntry>, fixed: Seq<Color>, a: crate::attr::AttrV) -> Seq<
    Color,
> {
    let fd = dedup_colors(fixed);
    let fkeep = if fd.len() <= a.max_colors {
        fd
    } else {
        fd.take(a.max_colors as int)
    };
    let cands = cand_filter(entries, fd);
    let rest = top_colors(cands, (a.max_colors - fkeep.len()) as nat);
    place_transparent(fkeep + rest, a.last_index_transparent)
}

/// One entry's contribution to the total squared error: its weight times the
/// squared distance to its nearest palette entry.
pub open spec fn entry_err(e: HEntry, pal: Seq<Color>) -> int {
    if pal.len() == 0 {
        0
    } else {
        (e.weight as int) * dist2(e.color, pal[nearest_idx(pal, e.color)])
    }
}

/// Clamps a nonnegative mathematical value into `u128`.
pub open spec fn sat128(x: int) -> u128 {
    if x > u128::MAX {
        u128::MAX
    } else if x < 0 {
        0
    } else {
        x as u128
    }
}

/// Total weighted squared error of an aggregate against a palette,
/// saturating.
pub open spec fn err_total(entries: Seq<HEntry>, pal: Seq<Color>) -> u128
    decreases entries.len(),
{
    if entries.len() == 0 {
        0
    } else {
        sat_add_u128(err_total(entries.drop_last(), pal), sat128(entry_err(entries.last(), pal)))
    }
}

/// Total weight of an aggregate, saturating.
pub open spec fn weight_total(entries: Seq<HEntry>) -> u128
    decreases entries.len(),
{
    if entries.len() == 0 {
        0
    } else {
        sat_add_u128(weight_total(entries.drop_last()), entries.last().weight as u128)
    }
}

/// Mean squared error per unit of weight; 0 for an empty aggregate.
pub open spec fn mse_spec(entries: Seq<HEntry>, pal: Seq<Color>) -> u128 {
    if weight_total(entries) == 0 {
        0
    } else {
        err_total(entries, pal) / weight_total(entries)
    }
}

/// The mean squared error as reported to callers.
pub open spec fn mse_u64(m: u128) -> u64 {
    if m > u64::MAX {
        u64::MAX
    } else {
        m as u64
    }
}

/// Integer square root, rounded down.
pub open spec fn isqrt_spec(n: nat) -> nat
    decreases n,
{
    if n == 0 {
        0
    } else {
        let p = isqrt_spec((n - 1) as nat);
        if (p + 1) * (p + 1) <= n {
            p + 1
        } else {
            p
        }
    }
}

/// The quality score for a mean squared error: 100 for a lossless palette,
/// dropping by the error's square root, bottoming out at 0.
pub open spec fn quality_of(mse: u128) -> u32 {
    if mse >= 10000 {
        0
    } else {
        (100 - isqrt_spec(mse as nat)) as u32
    }
}

/// `isqrt_spec` really is the rounded-down square root.
pub proof fn lemma_isqrt_props(n: nat)
    ensures
        isqrt_spec(n) * isqrt_spec(n) <= n,
        n < (isqrt_spec(n) + 1) * (isqrt_spec(n) + 1),
    decreases n,
{
    if n > 0 {
        lemma_isqrt_props((n - 1) as nat);
        let p = isqrt_spec((n - 1) as nat);
        assert(p * p <= n - 1);
        assert(n - 1 < (p + 1) * (p + 1));
        if (p + 1) * (p + 1) <= n {
            assert(isqrt_spec(n) == p + 1);
            assert(n < ((p + 1) + 1) * ((p + 1) + 1)) by (nonlinear_arith)
                requires
                    n - 1 < (p + 1) * (p + 1),
                    1 <= n,
            ;
        } else {
            assert(isqrt_spec(n) == p);
            assert(p * p <= n);
            assert(n < (p + 1) * (p + 1));
        }
    } else {
        assert(isqrt_spec(n) == 0);
        assert(isqrt_spec(n) * isqrt_spec(n) <= n && n < (isqrt_spec(n) + 1) * (isqrt_spec(n)
            + 1)) by (nonlinear_arith)
            requires
                n == 0,
                isqrt_spec(n) == 0,
        ;
    }
}

/// Whether `v` holds `c`.
pub(crate) fn contains_color(v: &Vec<Color>, c: Color) -> (r: bool)
    ensures
        r == v@.contains(c),
{
    let n = v.len();
    let mut i: usize = 0;
    while i < n
        invariant
            i <= n,
            n == v@.len(),
            forall|j: int| 0 <= j < i ==> v@[j] != c,
        decreases n - i,
    {
        if v[i] == c {
            assert(v@.contains(c)) by {
                assert(v@[i as int] == c);
            }
            return true;
        }
        i += 1;
    }
    return false;
}

/// The distinct colors of `src`, first occurrences kept, as [`dedup_colors`]
/// says.
fn dedup_exec(src: &Vec<Color>) -> (r: Vec<Color>)
    ensures
        r@ == dedup_colors(src@),
{
    let n = src.len();
    let mut out: Vec<Color> = Vec::new();
    let mut i: usize = 0;
    proof {
        assert(src@.take(0) =~= Seq::<Color>::empty());
    }
    while i < n
        invariant
            i <= n,
            n == src@.len(),
            out@ == dedup_colors(src@.take(i as int)),
        decreases n - i,
    {
        proof {
            assert(src@.take(i as int + 1).drop_last() =~= src@.take(i as int));
            assert(src@.take(i as int + 1).last() == src@[i as int]);
        }
        if !contains_color(&out, src[i]) {
            out.push(src[i]);
        }
        i += 1;
    }
    proof {
        assert(src@.take(n as int) =~= src@);
    }
    out
}

/// The competing entries, as [`cand_filter`] says.
fn cand_filter_exec(entries: &Vec<HEntry>, fixed: &Vec<Color>) -> (r: Vec<HEntry>)
    ensures
        r@ == cand_filter(entries@, fixed@),
{
    let n = entries.len();
    let mut out: Vec<HEntry> = Vec::new();
    let mut i: usize = 0;
    proof {
        assert(entries@.take(0) =~= Seq::<HEntry>::empty());
    }
    while i < n
        invariant
            i <= n,
            n == entries@.len(),
            out@ == cand_filter(entries@.take(i as int), fixed@),
        decreases n - i,
    {
        proof {
            assert(entries@.take(i as int + 1).drop_last() =~= entries@.take(i as int));
            assert(entries@.take(i as int + 1).last() == entries@[i as int]);
        }
        let e = entries[i];
        if e.weight > 0 && !contains_color(fixed, e.color) {
            out.push(e);
        }
        i += 1;
    }
    proof {
        assert(entries@.take(n as int) =~= entries@);
    }
    out
}

/// The first position of greatest weight, as [`max_idx`] says.
fn max_idx_exec(v: &Vec<HEntry>) -> (r: usize)
    requires
        v@.len() > 0,
    ensures
        r as int == max_idx(v@),
        r < v@.len(),
    {
    let n = v.len();
    let mut best: usize = 0;
    let mut bw: u64 = v[0].weight;
    let mut i: usize = 1;
    while i < n
        invariant
            1 <= i <= n,
            n == v@.len(),
            best < i,
            best as int == max_idx(v@.take(i as int)),
            bw == v@[best as int].weight,
        decreases n - i,
    {
        proof {
            assert(v@.take(i as int + 1).drop_last() =~= v@.take(i as int));
            assert(v@.take(i as int + 1).last() == v@[i as int]);
        }
        if v[i].weight > bw {
            best = i;
            bw = v[i].weight;
        }
        i += 1;
    }
    proof {
        assert(v@.take(n as int) =~= v@);
    }
    best
}

/// Picks the up-to-`limit` heaviest candidates, as [`top_colors`] says.
fn top_select(cands: Vec<HEntry>, limit: usize) -> (r: Vec<Color>)
    ensures
        r@ == top_colors(cands@, limit as nat),
        r@.len() <= limit,
{
    let ghost orig = cands@;
    let mut remaining = cands;
    let mut out: Vec<Color> = Vec::new();
    proof {
        assert(Seq::<Color>::empty() + top_colors(orig, limit as nat) =~= top_colors(
            orig,
            limit as nat,
        ));
    }
    while out.len() < limit && remaining.len() > 0
        invariant
            out@.len() <= limit,
            top_colors(orig, limit as nat) == out@ + top_colors(
                remaining@,
                (limit - out@.len()) as nat,
            ),
        decreases remaining@.len(),
    {
        let m = max_idx_exec(&remaining);
        let ghost before = remaining@;
        let ghost k = (limit - out@.len()) as nat;
        let c = remaining[m].color;
        out.push(c);
        remaining.remove(m);
        proof {
            assert(top_colors(before, k) == seq![before[m as int].color] + top_colors(
                before.remove(m as int),
                (k - 1) as nat,
            ));
            assert(out@ =~= out@.drop_last() + seq![c]);
            assert(out@.drop_last() + (seq![c] + top_colors(remaining@, (k - 1) as nat)) =~= (
            out@.drop_last() + seq![c]) + top_colors(remaining@, (k - 1) as nat));
        }
    }
    proof {
        if out@.len() == limit {
            assert(top_colors(remaining@, 0) =~= Seq::<Color>::empty());
        }
        assert(out@ + Seq::<Color>::empty() =~= out@);
    }
    out
}

/// Finds the first fully transparent entry, as [`first_transparent`] says.
fn first_transparent_exec(pal: &Vec<Color>) -> (r: Option<usize>)
    ensures
        match r {
            Some(i) => first_transparent(pal@) == i && i < pal@.len(),
            None => first_transparent(pal@) == -1,
        },
{
    let n = pal.len();
    let mut found: Option<usize> = None;
    let mut i: usize = 0;
    proof {
        assert(pal@.take(0) =~= Seq::<Color>::empty());
    }
    while i < n
        invariant
            i <= n,
            n == pal@.len(),
            match found {
                Some(k) => first_transparent(pal@.take(i as int)) == k && k < i,
                None => first_transparent(pal@.take(i as int)) == -1,
            },
        decreases n - i,
    {
        proof {
            assert(pal@.take(i as int + 1).drop_last() =~= pal@.take(i as int));
            assert(pal@.take(i as int + 1).last() == pal@[i as int]);
        }
        if found.is_none() && pal[i].a == 0 {
            found = Some(i);
        }
        i += 1;
    }
    proof {
        assert(pal@.take(n as int) =~= pal@);
    }
    found
}

/// Repositions the first fully transparent entry, as [`place_transparent`]
/// says.
fn place_transparent_exec(pal: &mut Vec<Color>, last: bool)
    ensures
        final (pal)@ == place_transparent(old(pal)@, last),
        final (pal)@.len() == old(pal)@.len(),
{
    let found = first_transparent_exec(pal);
    match found {
        None => {},
        Some(i) => {
            let c = pal.remove(i);
            if last {
                pal.push(c);
            } else {
                pal.insert(0, c);
            }
        },
    }
}

/// One channel's squared difference.
fn chan_diff_sq(a: u8, b: u8) -> (r: u32)
    ensures
        r as int == (a - b) * (a - b),
        r <= 65025,
{
    let d: u32 = if a >= b {
        (a - b) as u32
    } else {
        (b - a) as u32
    };
    proof {
        assert(d * d == (a - b) * (a - b) && d * d <= 65025) by (nonlinear_arith)
            requires
                d == if a >= b {
                    a - b
                } else {
                    b - a
                },
                0 <= a <= 255,
                0 <= b <= 255,
        ;
    }
    d * d
}

/// The squared color distance, as [`dist2`] says.
fn dist2_exec(x: Color, y: Color) -> (r: u32)
    ensures
        r as int == dist2(x, y),
        r <= 260100,
{
    let dr = chan_diff_sq(x.r, y.r);
    let dg = chan_diff_sq(x.g, y.g);
    let db = chan_diff_sq(x.b, y.b);
    let da = chan_diff_sq(x.a, y.a);
    dr + dg + db + da
}

/// Finds the first nearest palette entry, as [`nearest_idx`] says.
pub(crate) fn nearest_exec(pal: &Vec<Color>, c: Color) -> (r: usize)
    requires
        pal@.len() > 0,
    ensures
        r as int == nearest_idx(pal@, c),
        r < pal@.len(),
{
    let n = pal.len();
    let mut best: usize = 0;
    let mut bd: u32 = dist2_exec(pal[0], c);
    let mut i: usize = 1;
    while i < n
        invariant
            1 <= i <= n,
            n == pal@.len(),
            best < i,
            best as int == nearest_idx(pal@.take(i as int), c),
            bd as int == dist2(pal@[best as int], c),
        decreases n - i,
    {
        proof {
            assert(pal@.take(i as int + 1).drop_last() =~= pal@.take(i as int));
            assert(pal@.take(i as int + 1).last() == pal@[i as int]);
        }
        let d = dist2_exec(pal[i], c);
        if d < bd {
            best = i;
            bd = d;
        }
        i += 1;
    }
    proof {
        assert(pal@.take(n as int) =~= pal@);
    }
    best
}

/// The mean squared error of an aggregate against a palette, as [`mse_spec`]
/// says.
fn mse_exec(entries: &Vec<HEntry>, pal: &Vec<Color>) -> (r: u128)
    ensures
        r == mse_spec(entries@, pal@),
{
    let n = entries.len();
    let mut num: u128 = 0;
    let mut den: u128 = 0;
    let mut i: usize = 0;
    proof {
        assert(entries@.take(0) =~= Seq::<HEntry>::empty());
    }
    while i < n
        invariant
            i <= n,
            n == entries@.len(),
            num == err_total(entries@.take(i as int), pal@),
            den == weight_total(entries@.take(i as int)),
        decreases n - i,
    {
        proof {
            assert(entries@.take(i as int + 1).drop_last() =~= entries@.take(i as int));
            assert(entries@.take(i as int + 1).last() == entries@[i as int]);
        }
        let e = entries[i];
        let piece: u128 = if pal.len() == 0 {
            0u128
        } else {
            let ni = nearest_exec(pal, e.color);
            let d = dist2_exec(e.color, pal[ni]);
            proof {
                assert((e.weight as u128) * (d as u128) <= u128::MAX && (e.weight as int) * (
                d as int) == ((e.weight as u128) * (d as u128)) as int) by (nonlinear_arith)
                    requires
                        d <= 260100,
                        e.weight <= u64::MAX,
                ;
            }
            (e.weight as u128) * (d as u128)
        };
        proof {
            assert(piece == sat128(entry_err(entries@[i as int], pal@)));
        }
        num = num.saturating_add(piece);
        den = den.saturating_add(e.weight as u128);
        i += 1;
    }
    proof {
        assert(entries@.take(n as int) =~= entries@);
    }
    if den == 0 {
        0
    } else {
        num / den
    }
}

/// Computes the quality score, as [`quality_of`] says.
fn quality_exec(mse: u128) -> (r: u32)
    ensures
        r == quality_of(mse),
{
    if mse >= 10000 {
        return 0;
    }
    let m: u32 = mse as u32;
    let mut r: u32 = 0;
    loop
        invariant_except_break
            m == mse,
            m < 10000,
            r <= 100,
            (r as nat) * (r as nat) <= mse,
        ensures
            m == mse,
            (r as nat) * (r as nat) <= mse,
            (mse as int) < (r as int + 1) * (r as int + 1),
        decreases 100 - r,
    {
        proof {
            assert((r as int + 1) * (r as int + 1) <= 10201) by (nonlinear_arith)
                requires
                    r <= 100,
            ;
        }
        let t: u32 = (r + 1) * (r + 1);
        if t > m {
            break ;
        }
        proof {
            assert(r < 100) by (nonlinear_arith)
                requires
                    (r as int + 1) * (r as int + 1) <= m,
                    m < 10000,
            ;
        }
        r = r + 1;
    }
    proof {
        lemma_isqrt_props(mse as nat);
        let s = isqrt_spec(mse as nat);
        assert(r == s) by (nonlinear_arith)
            requires
                (r as nat) * (r as nat) <= (mse as nat),
                (mse as nat) < (r as nat + 1) * (r as nat + 1),
                s * s <= (mse as nat),
                (mse as nat) < (s + 1) * (s + 1),
        ;
        assert(r <= 99) by (nonlinear_arith)
            requires
                (r as nat) * (r as nat) <= (mse as nat),
                (mse as nat) < 10000,
        ;
    }
    100 - r
}

/// Runs the whole palette derivation over an aggregate: selection, transparent
/// placement, error metric, and the quality gate.
///
/// Fails exactly when the derived palette's quality score is below the
/// configured minimum.
pub(crate) fn quantize_entries(
    entries: &Vec<HEntry>,
    fixed: &Vec<Color>,
    attr: &crate::attr::Attributes,
) -> (r: Result<(Vec<Color>, u32, u64), crate::color::LiqError>)
    requires
        attr@.wf(),
    ensures
        match r {
            Ok((pal, q, mse)) => {
                &&& pal@ == palette_spec(entries@, fixed@, attr@)
                &&& pal@.len() <= attr@.max_colors
                &&& q == quality_of(mse_spec(entries@, palette_spec(entries@, fixed@, attr@)))
                &&& mse == mse_u64(mse_spec(entries@, palette_spec(entries@, fixed@, attr@)))
                &&& q >= attr@.quality_min
            },
            Err(e) => e == crate::color::LiqError::QualityTooLow,
        },
        r is Err <==> quality_of(mse_spec(entries@, palette_spec(entries@, fixed@, attr@)))
            < attr@.quality_min,
{
    let maxc: u32 = attr.cfg_max_colors();
    let fd = dedup_exec(fixed);
    let cands = cand_filter_exec(entries, &fd);
    let mut fkeep = fd;
    if fkeep.len() > maxc as usize {
        fkeep.truncate(maxc as usize);
    }
    let limit: usize = maxc as usize - fkeep.len();
    let mut rest = top_select(cands, limit);
    let mut pal = fkeep;
    pal.append(&mut rest);
    place_transparent_exec(&mut pal, attr.cfg_last_index_transparent());
    let mse128 = mse_exec(entries, &pal);
    let q = quality_exec(mse128);
    let mse_out: u64 = if mse128 > u64::MAX as u128 {
        u64::MAX
    } else {
        mse128 as u64
    };
    proof {
        assert(pal@ == palette_spec(entries@, fixed@, attr@));
    }
    if q < attr.cfg_quality_min() {
        Err(crate::color::LiqError::QualityTooLow)
    } else {
        Ok((pal, q, mse_out))
    }
}


/// The background pixel under row-major position `i`, if a background is
/// attached.
pub open spec fn bg_at(v: ImgV, i: int) -> Option<Color> {
    match v.bg_rows {
        Some(r) => Some(r[i / v.width as int][i % v.width as int]),
        None => None,
    }
}

/// The palette position a pixel maps to: a pixel equal to its background
/// pixel becomes the transparent entry when the palette has one; every other
/// pixel goes to its nearest entry.
pub open spec fn remap_index(pal: Seq<Color>, c: Color, bg: Option<Color>) -> int {
    if bg == Some(c) && first_transparent(pal) >= 0 {
        first_transparent(pal)
    } else {
        nearest_idx(pal, c)
    }
}

/// One index byte per pixel, in row-major order.
pub open spec fn remap_bytes(pal: Seq<Color>, v: ImgV) -> Seq<u8> {
    Seq::new(
        (v.width as int * v.height as int) as nat,
        |i: int|
            remap_index(pal, flat_pixels(v.rows, v.width as int)[i], bg_at(v, i)) as u8,
    )
}

/// Appends the remapped index bytes of `image` to `out`, as [`remap_bytes`]
/// says.
pub(crate) fn remap_push(pal: &Vec<Color>, image: &Image<'_>, out: &mut Vec<u8>)
    requires
        image.wf(),
        pal@.len() <= 256,
    ensures
        final (out)@ == old(out)@ + remap_bytes(pal@, image@),
{
    proof {
        crate::image::lemma_wf_view(image);
    }
    let width = image.width();
    let height = image.height();
    let total: usize = width * height;
    let tidx = first_transparent_exec(pal);
    let ghost bytes = remap_bytes(pal@, image@);
    let ghost start = out@;
    proof {
        assert(start + bytes.take(0) =~= start);
    }
    let mut i: usize = 0;
    while i < total
        invariant
            i <= total,
            total == width * height,
            width == image@.width,
            height == image@.height,
            image.wf(),
            pal@.len() <= 256,
            bytes == remap_bytes(pal@, image@),
            bytes.len() == total,
            match tidx {
                Some(k) => first_transparent(pal@) == k && k < pal@.len(),
                None => first_transparent(pal@) == -1,
            },
            out@ == start + bytes.take(i as int),
        decreases total - i,
    {
        proof {
            crate::image::lemma_wf_view(image);
            lemma_multiply_divide_lt(i as int, width as int, height as int);
            lemma_mod_bound(i as int, width as int);
            assert(image@.rows.len() * (image@.width as int) == (image@.width as int) * (
            image@.height as int)) by (nonlinear_arith)
                requires
                    image@.rows.len() == image@.height,
            ;
        }
        let y: usize = i / width;
        let x: usize = i % width;
        let row = image.row_slice(y);
        let c: Color = row[x];
        let bg_match: bool = match image.bg_row_slice(y) {
            Some(b) => b[x] == c,
            None => false,
        };
        proof {
            assert(flat_pixels(image@.rows, image@.width as int)[i as int] == c);
            assert(bg_at(image@, i as int) == Some(c) <==> bg_match);
        }
        let idx: usize = if bg_match && tidx.is_some() {
            tidx.unwrap()
        } else if pal.len() == 0 {
            0
        } else {
            nearest_exec(pal, c)
        };
        proof {
            assert(idx as int == remap_index(pal@, c, bg_at(image@, i as int)));
            assert(idx < 256);
            assert(bytes[i as int] == idx as u8);
        }
        out.push(idx as u8);
        proof {
            assert(start + bytes.take(i as int + 1) =~= (start + bytes.take(i as int)).push(
                bytes[i as int],
            ));
        }
        i += 1;
    }
    proof {
        assert(bytes.take(total as int) =~= bytes);
    }
}


/// Proved: squared color distance is symmetric.
pub proof fn lemma_dist2_sym(x: Color, y: Color)
    ensures
        dist2(x, y) == dist2(y, x),
{
    assert(dist2(x, y) == dist2(y, x)) by (nonlinear_arith)
        requires
            dist2(x, y) == (x.r - y.r) * (x.r - y.r) + (x.g - y.g) * (x.g - y.g) + (x.b - y.b)
                * (x.b - y.b) + (x.a - y.a) * (x.a - y.a),
            dist2(y, x) == (y.r - x.r) * (y.r - x.r) + (y.g - x.g) * (y.g - x.g) + (y.b - x.b)
                * (y.b - x.b) + (y.a - x.a) * (y.a - x.a),
    ;
}

/// Proved: the entry `nearest_idx` picks really is nearest: no other entry is
/// strictly closer.
pub proof fn lemma_nearest_is_min(pal: Seq<Color>, c: Color)
    requires
        pal.len() > 0,
    ensures
        0 <= nearest_idx(pal, c) < pal.len(),
        forall|j: int|
            0 <= j < pal.len() ==> dist2(pal[nearest_idx(pal, c)], c) <= dist2(
                #[trigger] pal[j],
                c,
            ),
    decreases pal.len(),
{
    if pal.len() > 1 {
        lemma_nearest_is_min(pal.drop_last(), c);
        assert(forall|j: int|
            0 <= j < pal.len() - 1 ==> pal.drop_last()[j] == #[trigger] pal[j]);
    }
}

/// Proved: a palette that holds every aggregated color reproduces the
/// statistics losslessly — the total error is zero and the quality score is
/// the full 100. This is what entitles a caller to expect a perfect score
/// when the palette is large enough for every color in the input.
pub proof fn lemma_full_palette_is_lossless(entries: Seq<HEntry>, pal: Seq<Color>)
    requires
        pal.len() > 0,
        forall|i: int| 0 <= i < entries.len() ==> pal.contains((#[trigger] entries[i]).color),
    ensures
        err_total(entries, pal) == 0,
        mse_spec(entries, pal) == 0,
        quality_of(mse_spec(entries, pal)) == 100,
    decreases entries.len(),
{
    assert(isqrt_spec(0nat) == 0);
    if entries.len() > 0 {
        assert(forall|i: int|
            0 <= i < entries.len() - 1 ==> entries.drop_last()[i] == #[trigger] entries[i]);
        lemma_full_palette_is_lossless(entries.drop_last(), pal);
        let e = entries.last();
        let ni = nearest_idx(pal, e.color);
        lemma_nearest_is_min(pal, e.color);
        let j = choose|j: int| 0 <= j < pal.len() && pal[j] == e.color;
        crate::color::lemma_dist2_zero_iff_eq(pal[j], e.color);
        crate::color::lemma_dist2_zero_iff_eq(pal[ni], e.color);
        assert(dist2(pal[ni], e.color) == 0);
        lemma_dist2_sym(e.color, pal[ni]);
        assert(entry_err(e, pal) == (e.weight as int) * 0);
        assert(err_total(entries, pal) == 0);
    }
}


/// Proved: a found transparent entry is a real palette position, and it is
/// transparent.
pub proof fn lemma_first_transparent_range(pal: Seq<Color>)
    ensures
        first_transparent(pal) >= 0 ==> 0 <= first_transparent(pal) < pal.len() && pal[
        first_transparent(pal)].is_transparent(),
    decreases pal.len(),
{
    if pal.len() > 0 {
        lemma_first_transparent_range(pal.drop_last());
        assert(forall|j: int| 0 <= j < pal.len() - 1 ==> pal.drop_last()[j] == #[trigger] pal[j]);
    }
}

/// Proved: with a nonempty palette, every remapped index byte points at a
/// real palette entry.
pub proof fn lemma_remap_bytes_in_range(pal: Seq<Color>, v: ImgV)
    requires
        1 <= pal.len() <= 256,
    ensures
        forall|i: int|
            0 <= i < remap_bytes(pal, v).len() ==> (#[trigger] remap_bytes(pal, v)[i]) < pal.len(),
{
    lemma_first_transparent_range(pal);
    assert forall|i: int| 0 <= i < remap_bytes(pal, v).len() implies (#[trigger] remap_bytes(
        pal,
        v,
    )[i]) < pal.len() by {
        let c = flat_pixels(v.rows, v.width as int)[i];
        lemma_nearest_is_min(pal, c);
        assert(0 <= remap_index(pal, c, bg_at(v, i)) < pal.len());
        assert(remap_bytes(pal, v)[i] == remap_index(pal, c, bg_at(v, i)) as u8);
    }
}


/// The statistics an aggregate records: the total weight tallied for a color,
/// or 0 for a color it has never seen.
pub open spec fn stat_weight(s: Seq<HEntry>, c: Color) -> u64 {
    if color_index(s, c) >= 0 {
        s[color_index(s, c)].weight
    } else {
        0
    }
}

/// `color_index` reads colors alone: two aggregates with the same colors in
/// the same places agree on it.
proof fn lemma_color_index_same(s: Seq<HEntry>, t: Seq<HEntry>, c: Color)
    requires
        s.len() == t.len(),
        forall|j: int| 0 <= j < s.len() ==> s[j].color == (#[trigger] t[j]).color,
    ensures
        color_index(s, c) == color_index(t, c),
    decreases s.len(),
{
    if s.len() > 0 {
        assert(forall|j: int| 0 <= j < s.len() - 1 ==> s.drop_last()[j] == #[trigger] s[j]);
        assert(forall|j: int| 0 <= j < t.len() - 1 ==> t.drop_last()[j] == #[trigger] t[j]);
        lemma_color_index_same(s.drop_last(), t.drop_last(), c);
    }
}

/// Proved: one addition changes exactly one tally. Adding weight `w` of color
/// `c0` raises `c0`'s recorded weight by `w` (saturating) and leaves every
/// other color's weight as it was.
pub proof fn lemma_stat_weight_bump(s: Seq<HEntry>, c0: Color, w: u64, c: Color)
    ensures
        stat_weight(bump(s, c0, w), c) == if c == c0 {
            sat_add_u64(stat_weight(s, c), w)
        } else {
            stat_weight(s, c)
        },
{
    lemma_color_index_props(s, c0);
    lemma_color_index_props(s, c);
    let i = color_index(s, c0);
    if i >= 0 {
        let t = s.update(i, HEntry { color: c0, weight: sat_add_u64(s[i].weight, w) });
        assert(forall|j: int| 0 <= j < s.len() ==> s[j].color == (#[trigger] t[j]).color);
        lemma_color_index_same(s, t, c);
        lemma_color_index_props(t, c);
    } else {
        let t = s.push(HEntry { color: c0, weight: w });
        assert(t.drop_last() =~= s);
        lemma_color_index_props(t, c);
    }
}

/// Proved: aggregation is commutative at the level of the statistics. Two
/// additions, made in either order, leave every color with the same recorded
/// weight; since any reordering of a series of additions is a chain of such
/// swaps, the statistics an aggregate gathers do not depend on the order in
/// which images and colors were added. (Only the tie-breaking arrival order
/// of entries, which the engine uses for equal-weight candidates, is
/// order-sensitive.)
pub proof fn lemma_additions_commute(
    s: Seq<HEntry>,
    c1: Color,
    w1: u64,
    c2: Color,
    w2: u64,
    c: Color,
)
    ensures
        stat_weight(bump(bump(s, c1, w1), c2, w2), c) == stat_weight(
            bump(bump(s, c2, w2), c1, w1),
            c,
        ),
{
    lemma_stat_weight_bump(s, c1, w1, c);
    lemma_stat_weight_bump(s, c2, w2, c);
    lemma_stat_weight_bump(bump(s, c1, w1), c2, w2, c);
    lemma_stat_weight_bump(bump(s, c2, w2), c1, w1, c);
}


/// An element of a sequence with one position removed was in the original.
proof fn lemma_remove_keeps(s: Seq<Color>, i: int, x: Color)
    requires
        0 <= i < s.len(),
        s.remove(i).contains(x),
    ensures
        s.contains(x),
{
    let t = s.remove(i);
    let j = choose|j: int| 0 <= j < t.len() && t[j] == x;
    if j < i {
        assert(s[j] == x);
    } else {
        assert(s[j + 1] == x);
    }
}

/// An element of a sequence with one value inserted is that value or was
/// already there.
proof fn lemma_insert_from(s: Seq<Color>, i: int, v: Color, x: Color)
    requires
        0 <= i <= s.len(),
        s.insert(i, v).contains(x),
    ensures
        x == v || s.contains(x),
{
    let t = s.insert(i, v);
    let j = choose|j: int| 0 <= j < t.len() && t[j] == x;
    if j < i {
        assert(s[j] == x);
    } else if j == i {
        assert(x == v);
    } else {
        assert(s[j - 1] == x);
    }
}

/// An element of a concatenation came from one of its halves.
proof fn lemma_concat_from(a: Seq<Color>, b: Seq<Color>, x: Color)
    requires
        (a + b).contains(x),
    ensures
        a.contains(x) || b.contains(x),
{
    let j = choose|j: int| 0 <= j < (a + b).len() && (a + b)[j] == x;
    if j < a.len() {
        assert(a[j] == x);
    } else {
        assert(b[j - a.len()] == x);
    }
}

/// An element of a prefix was in the whole.
proof fn lemma_take_from(s: Seq<Color>, n: int, x: Color)
    requires
        0 <= n <= s.len(),
        s.take(n).contains(x),
    ensures
        s.contains(x),
{
    let j = choose|j: int| 0 <= j < s.take(n).len() && s.take(n)[j] == x;
    assert(s[j] == x);
}

/// A deduplicated color was among the originals.
proof fn lemma_dedup_from(s: Seq<Color>, x: Color)
    requires
        dedup_colors(s).contains(x),
    ensures
        s.contains(x),
    decreases s.len(),
{
    if s.len() > 0 {
        let d = dedup_colors(s.drop_last());
        if !d.contains(s.last()) && x == s.last() {
            assert(s[s.len() - 1] == x);
        } else {
            if dedup_colors(s) == d.push(s.last()) && x != s.last() {
                let j = choose|j: int| 0 <= j < d.push(s.last()).len() && d.push(s.last())[j]
                    == x;
                assert(d[j] == x);
            }
            lemma_dedup_from(s.drop_last(), x);
            let k = choose|k: int| 0 <= k < s.drop_last().len() && s.drop_last()[k] == x;
            assert(s[k] == x);
        }
    }
}

/// The heaviest position really is a position.
proof fn lemma_max_idx_range(s: Seq<HEntry>)
    requires
        s.len() > 0,
    ensures
        0 <= max_idx(s) < s.len(),
    decreases s.len(),
{
    if s.len() > 1 {
        lemma_max_idx_range(s.drop_last());
    }
}

/// A selected color belonged to some candidate.
proof fn lemma_top_colors_from(cands: Seq<HEntry>, limit: nat, x: Color)
    requires
        top_colors(cands, limit).contains(x),
    ensures
        exists|i: int| 0 <= i < cands.len() && (#[trigger] cands[i]).color == x,
    decreases limit,
{
    let m = max_idx(cands);
    lemma_max_idx_range(cands);
    let rest = top_colors(cands.remove(m), (limit - 1) as nat);
    let j = choose|j: int|
        0 <= j < (seq![cands[m].color] + rest).len() && (seq![cands[m].color] + rest)[j] == x;
    if j == 0 {
        assert(cands[m].color == x);
    } else {
        assert(rest[j - 1] == x);
        lemma_top_colors_from(cands.remove(m), (limit - 1) as nat, x);
        let i = choose|i: int|
            0 <= i < cands.remove(m).len() && (#[trigger] cands.remove(m)[i]).color == x;
        if i < m {
            assert(cands[i].color == x);
        } else {
            assert(cands[i + 1].color == x);
        }
    }
}

/// A surviving candidate came from the aggregate, with positive weight.
proof fn lemma_cand_filter_from(s: Seq<HEntry>, fixed: Seq<Color>, x: Color)
    requires
        exists|j: int|
            0 <= j < cand_filter(s, fixed).len() && (#[trigger] cand_filter(s, fixed)[j]).color
                == x,
    ensures
        exists|i: int|
            0 <= i < s.len() && (#[trigger] s[i]).color == x && s[i].weight > 0,
    decreases s.len(),
{
    let cf = cand_filter(s, fixed);
    let prev = cand_filter(s.drop_last(), fixed);
    let j = choose|j: int| 0 <= j < cf.len() && (#[trigger] cf[j]).color == x;
    if keep_cand(s.last(), fixed) && j == cf.len() - 1 {
        assert(s[s.len() - 1].color == x && s[s.len() - 1].weight > 0);
    } else {
        assert(0 <= j < prev.len() && prev[j].color == x);
        lemma_cand_filter_from(s.drop_last(), fixed, x);
        let i = choose|i: int|
            0 <= i < s.drop_last().len() && (#[trigger] s.drop_last()[i]).color == x
                && s.drop_last()[i].weight > 0;
        assert(s[i].color == x && s[i].weight > 0);
    }
}

/// Proved: every palette entry is accounted for. A color the engine put into
/// the palette is either one the caller reserved, or one that gathered
/// positive weight in the aggregate — so a color whose every occurrence had
/// importance zero, and which nobody reserved, never reaches the palette.
pub proof fn lemma_palette_colors_justified(
    entries: Seq<HEntry>,
    fixed: Seq<Color>,
    a: crate::attr::AttrV,
    c: Color,
)
    requires
        palette_spec(entries, fixed, a).contains(c),
    ensures
        fixed.contains(c) || exists|i: int|
            0 <= i < entries.len() && (#[trigger] entries[i]).color == c && entries[i].weight
                > 0,
{
    let fd = dedup_colors(fixed);
    let fkeep = if fd.len() <= a.max_colors {
        fd
    } else {
        fd.take(a.max_colors as int)
    };
    let cands = cand_filter(entries, fd);
    let rest = top_colors(cands, (a.max_colors - fkeep.len()) as nat);
    let pal0 = fkeep + rest;
    lemma_first_transparent_range(pal0);
    let ft = first_transparent(pal0);
    if ft >= 0 {
        if c == pal0[ft] {
            assert(pal0.contains(c));
        } else if a.last_index_transparent {
            let t = pal0.remove(ft).push(pal0[ft]);
            let j = choose|j: int| 0 <= j < t.len() && t[j] == c;
            assert(pal0.remove(ft)[j] == c);
            lemma_remove_keeps(pal0, ft, c);
        } else {
            lemma_insert_from(pal0.remove(ft), 0, pal0[ft], c);
            lemma_remove_keeps(pal0, ft, c);
        }
    }
    assert(pal0.contains(c));
    lemma_concat_from(fkeep, rest, c);
    if fkeep.contains(c) {
        if fd.len() > a.max_colors {
            lemma_take_from(fd, a.max_colors as int, c);
        }
        lemma_dedup_from(fixed, c);
    } else {
        lemma_top_colors_from(cands, (a.max_colors - fkeep.len()) as nat, c);
        lemma_cand_filter_from(entries, fd, c);
    }
}

} // verus!


