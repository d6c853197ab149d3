//! Edge-shadow detection. The brightness profile is kept as integer sums of
//! `1000 · luminance` over the sampled rows, so the thresholds on brightness
//! and on its gradient are exact.

use vstd::prelude::*;
use crate::marker::RgbImage;

verus! {

/// A page edge.
#[derive(Debug, Clone, Copy, PartialEq, Eq, Structural)]
pub enum Edge {
    Left,
    Right,
    Top,
    Bottom,
}

impl Edge {
    pub fn all() -> (r: [Edge; 4])
        ensures
            r@ == seq![Edge::Left, Edge::Right, Edge::Top, Edge::Bottom],
    {
        let r = [Edge::Left, Edge::Right, Edge::Top, Edge::Bottom];
        assert(r@ =~= seq![Edge::Left, Edge::Right, Edge::Top, Edge::Bottom]);
        r
    }

    /// The left and right edges, where book shadows fall.
    pub fn horizontal() -> (r: [Edge; 2])
        ensures
            r@ == seq![Edge::Left, Edge::Right],
    {
        let r = [Edge::Left, Edge::Right];
        assert(r@ =~= seq![Edge::Left, Edge::Right]);
        r
    }
}

/// How a detected shadow is treated.
#[derive(Debug, Clone, Copy, PartialEq, Eq, Structural)]
pub enum ShadowRemovalMethod {
    BrightnessEqualization,
    GradientCorrection,
    Crop,
}

impl Default for ShadowRemovalMethod {
    fn default() -> (r: ShadowRemovalMethod)
        ensures
            r == ShadowRemovalMethod::BrightnessEqualization,
    {
        ShadowRemovalMethod::BrightnessEqualization
    }
}

/// Samples before the current one over which the gradient is taken.
pub const SHADOW_WINDOW: usize = 5;

/// Samples past the last shadow sample after which the search stops.
pub const SHADOW_GAP: usize = 10;

/// Sample `i` is in shadow: its brightness `sums[i] / scale` is below
/// `max_value_percent` percent and the mean step over the preceding window,
/// `(sums[i-1] − sums[i-5]) / (5 · scale)`, exceeds one thousandth.
pub open spec fn in_shadow(sums: Seq<u64>, scale: int, max_value_percent: int, i: int) -> bool {
    100 * sums[i] < max_value_percent * scale && 1000 * (sums[i - 1] - sums[i - SHADOW_WINDOW]) > SHADOW_WINDOW
        * scale
}

/// The shadow width found after scanning samples `[5, k)`: the last sample
/// in shadow, or 0; the scan stops once more than ten samples past a shadow.
pub open spec fn shadow_end(sums: Seq<u64>, scale: int, max_value_percent: int, k: int) -> int
    decreases k,
{
    if k <= SHADOW_WINDOW {
        0
    } else {
        let prev = shadow_end(sums, scale, max_value_percent, k - 1);
        if stopped(sums, scale, max_value_percent, k - 1) {
            prev
        } else if in_shadow(sums, scale, max_value_percent, k - 1) {
            k - 1
        } else {
            prev
        }
    }
}

/// The scan has stopped before reaching sample `k`.
pub open spec fn stopped(sums: Seq<u64>, scale: int, max_value_percent: int, k: int) -> bool
    decreases k,
{
    if k <= SHADOW_WINDOW {
        false
    } else {
        stopped(sums, scale, max_value_percent, k - 1) || {
            let e = shadow_end(sums, scale, max_value_percent, k - 1);
            !in_shadow(sums, scale, max_value_percent, k - 1) && e > 0 && k - 1 > e + SHADOW_GAP
        }
    }
}

pub open spec fn min2(a: int, b: int) -> int {
    if a <= b { a } else { b }
}

pub open spec fn max2(a: int, b: int) -> int {
    if a >= b { a } else { b }
}

/// Rows sampled for the brightness profile, at most.
pub const SAMPLE_ROWS: u32 = 50;

/// `1000 · 255 ·` the ITU-R luminance in `[0, 1]` of pixel `k`.
pub open spec fn weighted(p: Seq<u8>, k: int) -> int {
    299 * p[3 * k] + 587 * p[3 * k + 1] + 114 * p[3 * k + 2]
}

/// The column read at profile position `i` from edge `e`.
pub open spec fn profile_column(e: Edge, w: int, i: int) -> int {
    match e {
        Edge::Left => i,
        Edge::Right => w - 1 - i,
        _ => if i < w - 1 { i } else { w - 1 },
    }
}

pub open spec fn sample_count(h: int) -> int {
    if h < SAMPLE_ROWS { h } else { SAMPLE_ROWS as int }
}

/// Row of the `r`-th sample.
pub open spec fn sample_row(h: int, r: int) -> int {
    let y = r * (h / sample_count(h));
    if y < h - 1 { y } else { h - 1 }
}

/// Sum over the first `r` sampled rows of the weighted luminance in
/// column `x`.
pub open spec fn column_sum(img: RgbImage, x: int, r: int) -> int
    decreases r,
{
    if r <= 0 {
        0
    } else {
        column_sum(img, x, r - 1) + weighted(img.pixels@, sample_row(img.height as int, r - 1) * img.width + x)
    }
}

/// Finds the width of the shadow at the start of a brightness profile.
pub struct ShadowDetector;

impl ShadowDetector {
    /// Profile positions sampled from an edge: `percent` of the image width,
    /// at least ten, and no more than the width.
    pub fn sample_width(image_width: u32, percent: u32) -> (r: u32)
        ensures
            r == min2(max2(image_width * percent / 100, 10), image_width as int),
    {
        assert((image_width as u64) * (percent as u64) <= 0xffff_ffff * 0xffff_ffff) by (nonlinear_arith)
            requires image_width <= 0xffff_ffffu32, percent <= 0xffff_ffffu32;
        let share = (image_width as u64) * (percent as u64) / 100;
        let w = if share > 10 { share } else { 10 };
        if w < image_width as u64 { w as u32 } else { image_width }
    }

    /// The divisor that turns a brightness sum of an image of `height`
    /// rows into a brightness in `[0, 1]`.
    pub fn profile_scale(height: u32) -> (r: u64)
        ensures
            r == sample_count(height as int) * 255000,
    {
        let cnt: u64 = if height < SAMPLE_ROWS { height as u64 } else { SAMPLE_ROWS as u64 };
        cnt * 255000
    }

    /// The brightness profile of `sample_width` positions from edge `e`,
    /// as sums over the sampled rows; a position's brightness is its sum
    /// over `sample_count · 255000`.
    pub fn brightness_sums(img: &RgbImage, e: Edge, sample_width: u32) -> (r: Vec<u64>)
        requires
            img.wf(),
            img.height > 0,
            sample_width <= img.width,
        ensures
            r@.len() == sample_width,
            forall|i: int| 0 <= i < sample_width ==> #[trigger] r@[i] == column_sum(
                *img,
                profile_column(e, img.width as int, i),
                sample_count(img.height as int),
            ),
            forall|i: int| 0 <= i < sample_width ==> #[trigger] r@[i] <= u32::MAX,
    {
        let w = img.width;
        let h = img.height;
        let cnt: u32 = if h < SAMPLE_ROWS { h } else { SAMPLE_ROWS };
        let step = h / cnt;
        let len = img.pixels.len();
        let mut out: Vec<u64> = Vec::new();
        let mut i: u32 = 0;
        while i < sample_width
            invariant
                img.wf(),
                w == img.width,
                h == img.height,
                h > 0,
                len == img.pixels@.len(),
                sample_width <= w,
                cnt == sample_count(h as int),
                step == h / cnt,
                i <= sample_width,
                out@.len() == i,
                forall|k: int| 0 <= k < i ==> #[trigger] out@[k] == column_sum(*img, profile_column(e, w as int, k), cnt as int),
                forall|k: int| 0 <= k < i ==> #[trigger] out@[k] <= u32::MAX,
            decreases sample_width - i,
        {
            let x: u32 = match e {
                Edge::Left => i,
                Edge::Right => w - 1 - i,
                _ => if i < w - 1 { i } else { w - 1 },
            };
            let mut sum: u64 = 0;
            let mut r: u32 = 0;
            while r < cnt
                invariant
                    img.wf(),
                    w == img.width,
                    h == img.height,
                    h > 0,
                    len == img.pixels@.len(),
                    x < w,
                    cnt == sample_count(h as int),
                    cnt <= SAMPLE_ROWS,
                    step == h / cnt,
                    r <= cnt,
                    sum == column_sum(*img, x as int, r as int),
                    sum <= r * 255000,
                decreases cnt - r,
            {
                assert(r * step <= 0xffff_ffff) by (nonlinear_arith)
                    requires r < cnt, step == h / cnt, cnt > 0, h <= 0xffff_ffff, r >= 0;
                let y0 = r * step;
                let y = if y0 < h - 1 { y0 } else { h - 1 };
                assert(y * w + x < w * h) by (nonlinear_arith)
                    requires y < h, x < w;
                assert(0 <= y * w) by (nonlinear_arith)
                    requires 0 <= y, 0 <= w;
                let k = (y as usize) * (w as usize) + (x as usize);
                let v = 299 * (img.pixels[3 * k] as u64) + 587 * (img.pixels[3 * k + 1] as u64) + 114 * (img.pixels[3 * k + 2] as u64);
                sum = sum + v;
                r = r + 1;
            }
            out.push(sum);
            i = i + 1;
        }
        out
    }

    /// The last in-shadow sample of a profile of brightness sums over
    /// `scale`; 0 for profiles of fewer than three samples.
    pub fn find_shadow_boundary(sums: &Vec<u64>, scale: u64, max_value_percent: u32) -> (r: usize)
        requires
            forall|i: int| 0 <= i < sums@.len() ==> sums@[i] <= u32::MAX,
            scale <= u32::MAX,
        ensures
            sums@.len() < 3 ==> r == 0,
            sums@.len() >= 3 ==> r == shadow_end(sums@, scale as int, max_value_percent as int, sums@.len() as int),
    {
        if sums.len() < 3 {
            return 0;
        }
        let mut end: usize = 0;
        let mut i: usize = SHADOW_WINDOW;
        if sums.len() <= SHADOW_WINDOW {
            return 0;
        }
        while i < sums.len()
            invariant
                SHADOW_WINDOW <= i <= sums@.len(),
                forall|k: int| 0 <= k < sums@.len() ==> sums@[k] <= u32::MAX,
                scale <= u32::MAX,
                end == shadow_end(sums@, scale as int, max_value_percent as int, i as int),
                !stopped(sums@, scale as int, max_value_percent as int, i as int),
                end < i,
            decreases sums.len() - i,
        {
            let a = sums[i - 1] as i128;
            let b = sums[i - SHADOW_WINDOW] as i128;
            assert((max_value_percent as i128) * (scale as i128) <= 0xffff_ffff * 0xffff_ffff) by (nonlinear_arith)
                requires max_value_percent <= 0xffff_ffffu32, scale <= 0xffff_ffffu64;
            let shadow = 100 * (sums[i] as i128) < (max_value_percent as i128) * (scale as i128)
                && 1000 * (a - b) > 5 * (scale as i128);
            if shadow {
                end = i;
            } else if end > 0 && i - end > SHADOW_GAP {
                proof {
                    lemma_stopped_stays(sums@, scale as int, max_value_percent as int, i as int + 1, sums@.len() as int);
                }
                return end;
            }
            i = i + 1;
        }
        end
    }
}

/// Profile position of column `x` in a strip of `width` columns along edge
/// `e` of a `w`-wide image; only left and right strips are corrected.
pub open spec fn strip_position(e: Edge, w: int, width: int, x: int) -> Option<int> {
    match e {
        Edge::Left => if x < width { Some(x) } else { None },
        Edge::Right => if w - 1 - x < width { Some(w - 1 - x) } else { None },
        _ => None,
    }
}

/// A channel brightened by `target / current` when the position is darker
/// than the target, capped at 255.
pub open spec fn equalized(c: u8, current: int, target: int) -> u8 {
    if 0 < current < target {
        let v = c * target / current;
        (if v > 255 { 255 } else { v }) as u8
    } else {
        c
    }
}

pub open spec fn profile_at(sums: Seq<u64>, target: u64, i: int) -> int {
    if i < sums.len() { sums[i] as int } else { target as int }
}

impl ShadowDetector {
    /// Brightness equalisation: in the shadow strip of `width` columns
    /// along `edge`, every channel is scaled by the target brightness over
    /// the brightness of its profile position.
    pub fn apply_brightness_equalization(image: &mut RgbImage, edge: Edge, width: u32, sums: &Vec<u64>, target: u64)
        requires
            old(image).wf(),
            old(image).width > 0,
        ensures
            final(image).width == old(image).width && final(image).height == old(image).height,
            final(image).wf(),
            final(image).pixels@.len() == old(image).pixels@.len(),
            forall|j: int| 0 <= j < old(image).pixels@.len() ==> #[trigger] final(image).pixels@[j] == match strip_position(
                edge,
                old(image).width as int,
                width as int,
                (j / 3) % (old(image).width as int),
            ) {
                Some(i) => equalized(old(image).pixels@[j], profile_at(sums@, target, i), target as int),
                None => old(image).pixels@[j],
            },
    {
        let w = image.width;
        let n = (image.width as usize) * (image.height as usize);
        let len = image.pixels.len();
        let ghost p = image.pixels@;
        let ghost w0 = image.width;
        let ghost h0 = image.height;
        let mut k: usize = 0;
        while k < n
            invariant
                image.wf(),
                image.width == w0 && image.height == h0,
                w == w0,
                w > 0,
                n == w0 * h0,
                len == 3 * n,
                p.len() == len,
                image.pixels@.len() == len,
                k <= n,
                forall|j: int| 0 <= j < 3 * k ==> #[trigger] image.pixels@[j] == match strip_position(edge, w as int, width as int, (j / 3) % (w as int)) {
                    Some(i) => equalized(p[j], profile_at(sums@, target, i), target as int),
                    None => p[j],
                },
                forall|j: int| 3 * k <= j < len ==> #[trigger] image.pixels@[j] == p[j],
            decreases n - k,
        {
            let x = (k % (w as usize)) as u32;
            let pos: Option<u32> = match edge {
                Edge::Left => if x < width { Some(x) } else { None },
                Edge::Right => if w - 1 - x < width { Some(w - 1 - x) } else { None },
                _ => None,
            };
            if let Some(i) = pos {
                let current: u64 = if (i as usize) < sums.len() { sums[i as usize] } else { target };
                if 0 < current && current < target {
                    let mut c: usize = 0;
                    while c < 3
                        invariant
                            image.wf(),
                            image.width == w0 && image.height == h0,
                            image.pixels@.len() == len,
                            len == 3 * n,
                            k < n,
                            c <= 3,
                            0 < current < target,
                            forall|j: int| 0 <= j < 3 * k ==> #[trigger] image.pixels@[j] == match strip_position(edge, w as int, width as int, (j / 3) % (w as int)) {
                                Some(i) => equalized(p[j], profile_at(sums@, target, i), target as int),
                                None => p[j],
                            },
                            forall|j: int| 3 * k <= j < 3 * k + c ==> #[trigger] image.pixels@[j] == equalized(p[j], current as int, target as int),
                            forall|j: int| 3 * k + c <= j < len ==> #[trigger] image.pixels@[j] == p[j],
                        decreases 3 - c,
                    {
                        let old_c = image.pixels[3 * k + c];
                        assert((old_c as u128) * (target as u128) <= 0xff * 0xffff_ffff_ffff_ffff) by (nonlinear_arith)
                            requires old_c <= 0xffu8, target <= 0xffff_ffff_ffff_ffffu64;
                        let v: u128 = (old_c as u128) * (target as u128) / (current as u128);
                        let nv: u8 = if v > 255 { 255 } else { v as u8 };
                        image.pixels.set(3 * k + c, nv);
                        c = c + 1;
                    }
                    assert forall|j: int| 0 <= j < 3 * (k + 1) implies #[trigger] image.pixels@[j] == match strip_position(edge, w as int, width as int, (j / 3) % (w as int)) {
                        Some(i) => equalized(p[j], profile_at(sums@, target, i), target as int),
                        None => p[j],
                    } by {
                        if j >= 3 * k {
                            assert(j / 3 == k);
                        }
                    }
                } else {
                    assert forall|j: int| 0 <= j < 3 * (k + 1) implies #[trigger] image.pixels@[j] == match strip_position(edge, w as int, width as int, (j / 3) % (w as int)) {
                        Some(i) => equalized(p[j], profile_at(sums@, target, i), target as int),
                        None => p[j],
                    } by {
                        if j >= 3 * k {
                            assert(j / 3 == k);
                        }
                    }
                }
            } else {
                assert forall|j: int| 0 <= j < 3 * (k + 1) implies #[trigger] image.pixels@[j] == match strip_position(edge, w as int, width as int, (j / 3) % (w as int)) {
                    Some(i) => equalized(p[j], profile_at(sums@, target, i), target as int),
                    None => p[j],
                } by {
                    if j >= 3 * k {
                        assert(j / 3 == k);
                    }
                }
            }
            k = k + 1;
        }
    }
}

/// A shadow found along one edge: its width in profile positions and the
/// darkest and reference brightness sums.
#[derive(Debug, Clone, Copy, PartialEq, Eq)]
pub struct ShadowSpan {
    pub edge: Edge,
    pub width: usize,
    pub min_sum: u64,
    pub max_sum: u64,
}

/// Least of the first `k` sums.
pub open spec fn min_prefix(sums: Seq<u64>, k: int) -> int
    decreases k,
{
    if k <= 1 {
        sums[0] as int
    } else {
        let m = min_prefix(sums, k - 1);
        if (sums[k - 1] as int) < m { sums[k - 1] as int } else { m }
    }
}

/// The shadow along `edge` from its brightness sums, as
/// `detect_edge_shadow` finds it.
pub open spec fn edge_shadow(edge: Edge, sums: Seq<u64>, scale: int, mv: int, min_width: int) -> Option<ShadowSpan> {
    let wd = if sums.len() < 3 { 0 } else { shadow_end(sums, scale, mv, sums.len() as int) };
    if wd < min_width || wd == 0 {
        None
    } else {
        Some(ShadowSpan {
            edge,
            width: wd as usize,
            min_sum: min_prefix(sums, wd) as u64,
            max_sum: if wd < sums.len() { sums[wd] } else { sums[sums.len() - 1] },
        })
    }
}

impl ShadowDetector {
    /// The shadow along `edge` from its brightness sums: none when the
    /// shadow is narrower than `min_width` (or empty); else its width, the
    /// least sum inside it, and the sum just past it (the last sum when the
    /// shadow reaches the end).
    pub fn detect_edge_shadow(edge: Edge, sums: &Vec<u64>, scale: u64, max_value_percent: u32, min_width: usize) -> (r: Option<ShadowSpan>)
        requires
            forall|i: int| 0 <= i < sums@.len() ==> sums@[i] <= u32::MAX,
            scale <= u32::MAX,
        ensures
            r == edge_shadow(edge, sums@, scale as int, max_value_percent as int, min_width as int),
    {
        let wd = Self::find_shadow_boundary(sums, scale, max_value_percent);
        if wd < min_width || wd == 0 {
            return None;
        }
        proof {
            lemma_end_below(sums@, scale as int, max_value_percent as int, sums@.len() as int);
        }
        let mut m = sums[0];
        let mut i: usize = 1;
        while i < wd
            invariant
                1 <= i <= wd,
                wd < sums@.len(),
                m == min_prefix(sums@, i as int),
            decreases wd - i,
        {
            if sums[i] < m {
                m = sums[i];
            }
            i = i + 1;
        }
        let mx = if wd < sums.len() { sums[wd] } else { sums[sums.len() - 1] };
        Some(ShadowSpan { edge, width: wd, min_sum: m, max_sum: mx })
    }
}

/// Gradient correction of channel `c` at profile position `i` of a shadow
/// `width` wide: the factor `1 + (1 − i/width)·(max/max(min, 0.1) − 1)`,
/// capped at 2, with brightness `sum / scale`; the result rounded down and
/// capped at 255.
pub open spec fn gradient_corrected(c: u8, i: int, width: int, min_sum: int, max_sum: int, scale: int) -> u8 {
    let d = if 10 * min_sum >= scale { 10 * min_sum } else { scale };
    let num = width * d + (width - i) * (10 * max_sum - d);
    let capped = if num > 2 * (width * d) { 2 * (width * d) } else { num };
    let v = c * capped / (width * d);
    (if v > 255 { 255 } else if v < 0 { 0 } else { v }) as u8
}

impl ShadowDetector {
    /// Gradient correction of the shadow strip along `edge`: each channel
    /// scaled by a factor that falls from the full ratio at the edge to 1
    /// at the inner end of the strip.
    pub fn apply_gradient_correction(image: &mut RgbImage, edge: Edge, span: &ShadowSpan, scale: u64)
        requires
            old(image).wf(),
            old(image).width > 0,
            span.width > 0,
            span.width <= u32::MAX,
            span.min_sum <= u32::MAX,
            span.max_sum <= u32::MAX,
            0 < scale <= u32::MAX,
        ensures
            final(image).width == old(image).width && final(image).height == old(image).height,
            final(image).wf(),
            forall|j: int| 0 <= j < old(image).pixels@.len() ==> #[trigger] final(image).pixels@[j] == match strip_position(
                edge,
                old(image).width as int,
                span.width as int,
                (j / 3) % (old(image).width as int),
            ) {
                Some(i) => gradient_corrected(old(image).pixels@[j], i, span.width as int, span.min_sum as int, span.max_sum as int, scale as int),
                None => old(image).pixels@[j],
            },
    {
        let w = image.width;
        let n = (image.width as usize) * (image.height as usize);
        let len = image.pixels.len();
        let ghost p = image.pixels@;
        let ghost w0 = image.width;
        let ghost h0 = image.height;
        let width = span.width as i128;
        let d: i128 = if 10 * (span.min_sum as i128) >= scale as i128 { 10 * (span.min_sum as i128) } else { scale as i128 };
        let mut k: usize = 0;
        while k < n
            invariant
                image.wf(),
                image.width == w0 && image.height == h0,
                w == w0,
                w > 0,
                n == w0 * h0,
                len == 3 * n,
                p.len() == len,
                image.pixels@.len() == len,
                k <= n,
                width == span.width,
                0 < width <= u32::MAX,
                d == (if 10 * span.min_sum >= scale { 10 * span.min_sum } else { scale as int }),
                0 < d <= 10 * 0xffff_ffffi128,
                span.max_sum <= u32::MAX,
                forall|j: int| 0 <= j < 3 * k ==> #[trigger] image.pixels@[j] == match strip_position(edge, w as int, span.width as int, (j / 3) % (w as int)) {
                    Some(i) => gradient_corrected(p[j], i, span.width as int, span.min_sum as int, span.max_sum as int, scale as int),
                    None => p[j],
                },
                forall|j: int| 3 * k <= j < len ==> #[trigger] image.pixels@[j] == p[j],
            decreases n - k,
        {
            let x = (k % (w as usize)) as u32;
            let sw = span.width as u64;
            let pos: Option<u64> = match edge {
                Edge::Left => if (x as u64) < sw { Some(x as u64) } else { None },
                Edge::Right => if ((w - 1 - x) as u64) < sw { Some((w - 1 - x) as u64) } else { None },
                _ => None,
            };
            if let Some(i) = pos {
                let ii = i as i128;
                assert(0 < width * d <= 0xffff_ffff * (10 * 0xffff_ffffi128)) by (nonlinear_arith)
                    requires 0 < width <= 0xffff_ffff, 0 < d <= 10 * 0xffff_ffffi128;
                let wd = width * d;
                assert(-(0xffff_ffff * (10 * 0xffff_ffffi128)) <= (width - ii) * (10 * (span.max_sum as i128) - d) <= 0xffff_ffff * (10 * 0xffff_ffffi128)) by (nonlinear_arith)
                    requires 0 < width <= 0xffff_ffff, 0 <= ii < width, 0 < d <= 10 * 0xffff_ffffi128, 0 <= span.max_sum <= 0xffff_ffff;
                let num = wd + (width - ii) * (10 * (span.max_sum as i128) - d);
                let capped = if num > 2 * wd { 2 * wd } else { num };
                let mut c: usize = 0;
                while c < 3
                    invariant
                        image.wf(),
                        image.width == w0 && image.height == h0,
                        image.pixels@.len() == len,
                        len == 3 * n,
                        k < n,
                        c <= 3,
                        wd == width * d,
                        0 < wd <= 0xffff_ffff * (10 * 0xffff_ffffi128),
                        -(3 * 0xffff_ffff * (10 * 0xffff_ffffi128)) <= capped <= 2 * wd,
                        forall|j: int| 0 <= j < 3 * k ==> #[trigger] image.pixels@[j] == match strip_position(edge, w as int, span.width as int, (j / 3) % (w as int)) {
                            Some(i) => gradient_corrected(p[j], i, span.width as int, span.min_sum as int, span.max_sum as int, scale as int),
                            None => p[j],
                        },
                        forall|j: int| 3 * k <= j < 3 * k + c ==> #[trigger] image.pixels@[j] == {
                            let v = p[j] * (capped as int) / (wd as int);
                            (if v > 255 { 255 } else if v < 0 { 0 } else { v }) as u8
                        },
                        forall|j: int| 3 * k + c <= j < len ==> #[trigger] image.pixels@[j] == p[j],
                    decreases 3 - c,
                {
                    let old_c = image.pixels[3 * k + c] as i128;
                    assert(-(255 * (3 * 0xffff_ffff * (10 * 0xffff_ffffi128))) <= old_c * capped <= 255 * (2 * (0xffff_ffff * (10 * 0xffff_ffffi128)))) by (nonlinear_arith)
                        requires 0 <= old_c <= 255, -(3 * 0xffff_ffff * (10 * 0xffff_ffffi128)) <= capped <= 2 * wd, wd <= 0xffff_ffff * (10 * 0xffff_ffffi128);
                    let prod = old_c * capped;
                    let v = if prod >= 0 { prod / wd } else { -1 };
                    assert(prod < 0 ==> (prod as int) / (wd as int) < 0) by (nonlinear_arith)
                        requires wd > 0;
                    let nv: u8 = if v > 255 { 255 } else if v < 0 { 0 } else { v as u8 };
                    image.pixels.set(3 * k + c, nv);
                    c = c + 1;
                }
                assert forall|j: int| 0 <= j < 3 * (k + 1) implies #[trigger] image.pixels@[j] == match strip_position(edge, w as int, span.width as int, (j / 3) % (w as int)) {
                    Some(i) => gradient_corrected(p[j], i, span.width as int, span.min_sum as int, span.max_sum as int, scale as int),
                    None => p[j],
                } by {
                    if j >= 3 * k {
                        assert(j / 3 == k);
                        assert(strip_position(edge, w as int, span.width as int, (j / 3) % (w as int)) == Some(ii as int));
                        let dd = if 10 * span.min_sum >= scale { 10 * span.min_sum } else { scale as int };
                        assert(dd == d);
                        let num_s = (span.width as int) * dd + (span.width as int - ii) * (10 * span.max_sum - dd);
                        assert(num_s == num);
                        assert((span.width as int) * dd == wd);
                        let cap_s = if num_s > 2 * ((span.width as int) * dd) { 2 * ((span.width as int) * dd) } else { num_s };
                        assert(cap_s == capped);
                        assert(image.pixels@[j] == {
                            let v = p[j] * (capped as int) / (wd as int);
                            (if v > 255 { 255 } else if v < 0 { 0 } else { v }) as u8
                        });
                    }
                }
            } else {
                assert forall|j: int| 0 <= j < 3 * (k + 1) implies #[trigger] image.pixels@[j] == match strip_position(edge, w as int, span.width as int, (j / 3) % (w as int)) {
                    Some(i) => gradient_corrected(p[j], i, span.width as int, span.min_sum as int, span.max_sum as int, scale as int),
                    None => p[j],
                } by {
                    if j >= 3 * k {
                        assert(j / 3 == k);
                    }
                }
            }
            k = k + 1;
        }
    }
}

/// Settings of shadow handling: the edges looked at, the brightness
/// ceiling of a shadow in percent, the sampled share of the width in
/// percent, the narrowest shadow kept, and the treatment.
#[derive(Debug, Clone)]
pub struct ShadowRemovalOptions {
    pub edges: Vec<Edge>,
    pub max_value_percent: u32,
    pub sample_width_percent: u32,
    pub min_shadow_width: usize,
    pub method: ShadowRemovalMethod,
}

impl Default for ShadowRemovalOptions {
    fn default() -> (r: ShadowRemovalOptions)
        ensures
            r.edges@ == seq![Edge::Left, Edge::Right],
            r.max_value_percent == 85,
            r.sample_width_percent == 15,
            r.min_shadow_width == 10,
            r.method == ShadowRemovalMethod::BrightnessEqualization,
    {
        let edges = vec![Edge::Left, Edge::Right];
        assert(edges@ =~= seq![Edge::Left, Edge::Right]);
        ShadowRemovalOptions {
            edges,
            max_value_percent: 85,
            sample_width_percent: 15,
            min_shadow_width: 10,
            method: ShadowRemovalMethod::BrightnessEqualization,
        }
    }
}

/// The brightness profile along edge `e`: the column sums at each of the
/// first `sample_width` positions.
pub open spec fn profile(img: RgbImage, e: Edge, sample_width: int) -> Seq<u64> {
    Seq::new(
        sample_width as nat,
        |i: int| column_sum(img, profile_column(e, img.width as int, i), sample_count(img.height as int)) as u64,
    )
}

/// Profile positions sampled along an edge under `o`.
pub open spec fn shadow_sample_width(img: RgbImage, o: ShadowRemovalOptions) -> int {
    min2(max2(img.width * o.sample_width_percent / 100, 10), img.width as int)
}

/// The shadows along `edges`, in order: each edge's shadow, if it has one.
pub open spec fn shadows_of(img: RgbImage, edges: Seq<Edge>, o: ShadowRemovalOptions) -> Seq<ShadowSpan>
    decreases edges.len(),
{
    if edges.len() == 0 {
        Seq::empty()
    } else {
        let prev = shadows_of(img, edges.drop_last(), o);
        match edge_shadow(
            edges.last(),
            profile(img, edges.last(), shadow_sample_width(img, o)),
            sample_count(img.height as int) * 255000,
            o.max_value_percent as int,
            o.min_shadow_width as int,
        ) {
            Some(sp) => prev.push(sp),
            None => prev,
        }
    }
}

impl ShadowDetector {
    /// The shadows along the requested edges, in the order the edges are
    /// listed: for each edge, the shadow its brightness profile shows, if
    /// any.
    pub fn detect_from_image(img: &RgbImage, options: &ShadowRemovalOptions) -> (r: Vec<ShadowSpan>)
        requires
            img.wf(),
            img.height > 0,
            img.width > 0,
        ensures
            r@ == shadows_of(*img, options.edges@, *options),
    {
        let sw = Self::sample_width(img.width, options.sample_width_percent);
        let scale = Self::profile_scale(img.height);
        let mut out: Vec<ShadowSpan> = Vec::new();
        let mut k: usize = 0;
        while k < options.edges.len()
            invariant
                img.wf(),
                img.height > 0,
                sw == shadow_sample_width(*img, *options),
                scale == sample_count(img.height as int) * 255000,
                k <= options.edges@.len(),
                out@ == shadows_of(*img, options.edges@.take(k as int), *options),
            decreases options.edges.len() - k,
        {
            proof {
                assert(options.edges@.take(k as int + 1).drop_last() =~= options.edges@.take(k as int));
            }
            let e = options.edges[k];
            let sums = Self::brightness_sums(img, e, sw);
            assert(sums@ =~= profile(*img, e, sw as int));
            if let Some(span) = Self::detect_edge_shadow(e, &sums, scale, options.max_value_percent, options.min_shadow_width) {
                out.push(span);
            }
            k = k + 1;
        }
        assert(options.edges@.take(options.edges@.len() as int) =~= options.edges@);
        out
    }
}

proof fn lemma_end_below(sums: Seq<u64>, scale: int, mv: int, k: int)
    requires
        k <= sums.len(),
    ensures
        shadow_end(sums, scale, mv, k) < k || shadow_end(sums, scale, mv, k) == 0,
    decreases k,
{
    if k > SHADOW_WINDOW {
        lemma_end_below(sums, scale, mv, k - 1);
    }
}

proof fn lemma_stopped_stays(sums: Seq<u64>, scale: int, mv: int, k: int, n: int)
    requires
        SHADOW_WINDOW < k <= n,
        stopped(sums, scale, mv, k),
    ensures
        stopped(sums, scale, mv, n),
        shadow_end(sums, scale, mv, n) == shadow_end(sums, scale, mv, k),
    decreases n - k,
{
    if k < n {
        lemma_stopped_stays(sums, scale, mv, k, n - 1);
    }
}

} // verus!
