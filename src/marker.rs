//! Highlighter-marker removal: the colours looked for, the detection
//! summary, and the integer parts of the pixel work (luminance and the fade
//! to white). Strength is given in thousandths.

use vstd::prelude::*;
use crate::content::GrayImage;
use crate::filters::{sobel_magnitude, sobel_value_ok};

verus! {

/// A highlighter colour; `Custom` gives its own hue range in degrees and
/// saturation and value ranges in percent.
#[derive(Debug, Clone, Copy, PartialEq, Eq)]
pub enum HighlighterColor {
    Yellow,
    Pink,
    Green,
    Blue,
    Orange,
    Custom { hue_min: u16, hue_max: u16, sat_min: u8, sat_max: u8, val_min: u8, val_max: u8 },
}

impl HighlighterColor {
    /// The five standard colours, in the order they are tested.
    pub fn all() -> (r: Vec<HighlighterColor>)
        ensures
            r@ == seq![
                HighlighterColor::Yellow,
                HighlighterColor::Pink,
                HighlighterColor::Green,
                HighlighterColor::Blue,
                HighlighterColor::Orange,
            ],
    {
        let r = vec![
            HighlighterColor::Yellow,
            HighlighterColor::Pink,
            HighlighterColor::Green,
            HighlighterColor::Blue,
            HighlighterColor::Orange,
        ];
        assert(r@ =~= seq![
            HighlighterColor::Yellow,
            HighlighterColor::Pink,
            HighlighterColor::Green,
            HighlighterColor::Blue,
            HighlighterColor::Orange,
        ]);
        r
    }
}

/// What a detection pass found: marker pixels per colour and in all.
#[derive(Debug)]
pub struct MarkerDetectionResult {
    pub detected_pixels: Vec<(HighlighterColor, u32)>,
    pub total_marker_pixels: u32,
    pub total_pixels: u32,
    pub image_size: (u32, u32),
}

impl MarkerDetectionResult {
    pub fn has_markers(&self) -> (r: bool)
        ensures
            r == (self.total_marker_pixels > 0),
    {
        self.total_marker_pixels > 0
    }
}

/// Full strength: every faded channel becomes white.
pub const FULL_STRENGTH: u32 = 1000;

/// ITU-R BT.601 luminance, rounded half up.
pub open spec fn luma(r: u8, g: u8, b: u8) -> int {
    (299 * r + 587 * g + 114 * b + 500) / 1000
}

/// One channel moved toward white by `strength` thousandths of the way,
/// rounded down.
pub open spec fn fade(v: u8, strength: int) -> int {
    v + (255 - v) * strength / 1000
}

/// Removes highlighter marks from page images.
pub struct MarkerRemover;

impl MarkerRemover {
    pub fn luminance(r: u8, g: u8, b: u8) -> (l: u8)
        ensures
            l == luma(r, g, b),
    {
        ((299 * (r as u32) + 587 * (g as u32) + 114 * (b as u32) + 500) / 1000) as u8
    }

    /// A channel faded toward white; strengths above full count as full.
    pub fn fade_channel(v: u8, strength: u32) -> (r: u8)
        ensures
            r == fade(v, if strength > FULL_STRENGTH { FULL_STRENGTH as int } else { strength as int }),
    {
        let s: u32 = if strength > FULL_STRENGTH { FULL_STRENGTH } else { strength };
        let d = (255 - v) as u32;
        assert(d * s <= 255 * 1000) by (nonlinear_arith)
            requires d <= 255, s <= 1000;
        assert(d * s / 1000 <= d) by (nonlinear_arith)
            requires d <= 255, s <= 1000;
        (v as u32 + d * s / 1000) as u8
    }

    /// Each channel of a pixel faded toward white.
    pub fn fade_to_white(pixel: [u8; 3], strength: u32) -> (r: [u8; 3])
        ensures
            forall|c: int| 0 <= c < 3 ==> r@[c] == fade(
                pixel@[c],
                if strength > FULL_STRENGTH { FULL_STRENGTH as int } else { strength as int },
            ),
    {
        [
            Self::fade_channel(pixel[0], strength),
            Self::fade_channel(pixel[1], strength),
            Self::fade_channel(pixel[2], strength),
        ]
    }
}

/// Hue, saturation and value ranges; hue in degrees, the others in percent.
/// A hue range whose minimum exceeds its maximum wraps through 0.
#[derive(Debug, Clone, Copy, PartialEq, Eq)]
pub struct HsvRange {
    pub hue_min: u16,
    pub hue_max: u16,
    pub sat_min: u8,
    pub sat_max: u8,
    pub val_min: u8,
    pub val_max: u8,
}

pub open spec fn range_of(c: HighlighterColor) -> HsvRange {
    match c {
        HighlighterColor::Yellow => HsvRange { hue_min: 50, hue_max: 70, sat_min: 30, sat_max: 100, val_min: 70, val_max: 100 },
        HighlighterColor::Pink => HsvRange { hue_min: 300, hue_max: 345, sat_min: 25, sat_max: 80, val_min: 70, val_max: 100 },
        HighlighterColor::Green => HsvRange { hue_min: 80, hue_max: 140, sat_min: 30, sat_max: 90, val_min: 50, val_max: 100 },
        HighlighterColor::Blue => HsvRange { hue_min: 190, hue_max: 240, sat_min: 30, sat_max: 90, val_min: 50, val_max: 100 },
        HighlighterColor::Orange => HsvRange { hue_min: 15, hue_max: 45, sat_min: 40, sat_max: 100, val_min: 70, val_max: 100 },
        HighlighterColor::Custom { hue_min, hue_max, sat_min, sat_max, val_min, val_max } => HsvRange {
            hue_min,
            hue_max,
            sat_min,
            sat_max,
            val_min,
            val_max,
        },
    }
}

impl HighlighterColor {
    /// The HSV range of the colour.
    pub fn hsv_range(&self) -> (r: HsvRange)
        ensures
            r == range_of(*self),
    {
        match self {
            HighlighterColor::Yellow => HsvRange { hue_min: 50, hue_max: 70, sat_min: 30, sat_max: 100, val_min: 70, val_max: 100 },
            HighlighterColor::Pink => HsvRange { hue_min: 300, hue_max: 345, sat_min: 25, sat_max: 80, val_min: 70, val_max: 100 },
            HighlighterColor::Green => HsvRange { hue_min: 80, hue_max: 140, sat_min: 30, sat_max: 90, val_min: 50, val_max: 100 },
            HighlighterColor::Blue => HsvRange { hue_min: 190, hue_max: 240, sat_min: 30, sat_max: 90, val_min: 50, val_max: 100 },
            HighlighterColor::Orange => HsvRange { hue_min: 15, hue_max: 45, sat_min: 40, sat_max: 100, val_min: 70, val_max: 100 },
            HighlighterColor::Custom { hue_min, hue_max, sat_min, sat_max, val_min, val_max } => HsvRange {
                hue_min: *hue_min,
                hue_max: *hue_max,
                sat_min: *sat_min,
                sat_max: *sat_max,
                val_min: *val_min,
                val_max: *val_max,
            },
        }
    }
}

/// An exact HSV value: hue `hue_num / hue_den` degrees, saturation
/// `sat_num / sat_den`, value `val / 255`.
#[derive(Debug, Clone, Copy, PartialEq, Eq)]
pub struct Hsv {
    pub hue_num: u32,
    pub hue_den: u32,
    pub sat_num: u32,
    pub sat_den: u32,
    pub val: u8,
}

pub open spec fn max3(r: int, g: int, b: int) -> int {
    if r >= g && r >= b { r } else if g >= b { g } else { b }
}

pub open spec fn min3(r: int, g: int, b: int) -> int {
    if r <= g && r <= b { r } else if g <= b { g } else { b }
}

/// The HSV value of an RGB colour. The hue follows the channel holding the
/// maximum (red first, then green): `60·((g − b)/d)` taken into `[0, 360)`,
/// `60·((b − r)/d + 2)` or `60·((r − g)/d + 4)`, with `d` the spread; grey has
/// hue 0.
pub open spec fn hsv_of(r: u8, g: u8, b: u8) -> Hsv {
    let mx = max3(r as int, g as int, b as int);
    let mn = min3(r as int, g as int, b as int);
    let d = mx - mn;
    let (hn, hd) = if d == 0 {
        (0int, 1int)
    } else if mx == r {
        let t = 60 * (g - b);
        if t >= 0 { (t, d) } else { (360 * d + t, d) }
    } else if mx == g {
        (60 * (b - r) + 120 * d, d)
    } else {
        (60 * (r - g) + 240 * d, d)
    };
    let (sn, sd) = if mx == 0 { (0int, 1int) } else { (d, mx) };
    Hsv { hue_num: hn as u32, hue_den: hd as u32, sat_num: sn as u32, sat_den: sd as u32, val: mx as u8 }
}

pub open spec fn in_range(rg: HsvRange, h: Hsv) -> bool {
    let hue_ok = if rg.hue_min > rg.hue_max {
        h.hue_num >= rg.hue_min * h.hue_den || h.hue_num <= rg.hue_max * h.hue_den
    } else {
        h.hue_num >= rg.hue_min * h.hue_den && h.hue_num <= rg.hue_max * h.hue_den
    };
    hue_ok && 100 * h.sat_num >= rg.sat_min * h.sat_den && 100 * h.sat_num <= rg.sat_max * h.sat_den && 100
        * h.val >= rg.val_min * 255 && 100 * h.val <= rg.val_max * 255
}

/// Exact HSV of an RGB colour.
pub fn rgb_to_hsv(r: u8, g: u8, b: u8) -> (h: Hsv)
    ensures
        h == hsv_of(r, g, b),
{
    let mx: u32 = if r >= g && r >= b { r as u32 } else if g >= b { g as u32 } else { b as u32 };
    let mn: u32 = if r <= g && r <= b { r as u32 } else if g <= b { g as u32 } else { b as u32 };
    let d = mx - mn;
    let (hn, hd): (u32, u32) = if d == 0 {
        (0, 1)
    } else if mx == r as u32 {
        if g >= b {
            (60 * (g as u32 - b as u32), d)
        } else {
            (360 * d - 60 * (b as u32 - g as u32), d)
        }
    } else if mx == g as u32 {
        ((60 * (b as u32) + 120 * d) - 60 * (r as u32), d)
    } else {
        ((60 * (r as u32) + 240 * d) - 60 * (g as u32), d)
    };
    let (sn, sd): (u32, u32) = if mx == 0 { (0, 1) } else { (d, mx) };
    Hsv { hue_num: hn, hue_den: hd, sat_num: sn, sat_den: sd, val: mx as u8 }
}

/// Every colour's hue lies in `[0, 360)`, its saturation and value in
/// `[0, 1]`; grey has saturation 0.
pub proof fn lemma_hsv_bounds(r: u8, g: u8, b: u8)
    ensures
        hsv_of(r, g, b).hue_den > 0,
        0 <= hsv_of(r, g, b).hue_num < 360 * hsv_of(r, g, b).hue_den,
        hsv_of(r, g, b).sat_den > 0,
        hsv_of(r, g, b).sat_num <= hsv_of(r, g, b).sat_den,
        hsv_of(r, g, b).val <= 255,
        r == g && g == b ==> hsv_of(r, g, b).sat_num == 0,
{
}

impl HsvRange {
    pub fn matches(&self, h: &Hsv) -> (r: bool)
        ensures
            r == in_range(*self, *h),
    {
        let hn = h.hue_num as u64;
        let hd = h.hue_den as u64;
        assert((self.hue_min as u64) * hd <= 0xffff_ffff_ffff && (self.hue_max as u64) * hd <= 0xffff_ffff_ffff) by (nonlinear_arith)
            requires self.hue_min <= 0xffff, self.hue_max <= 0xffff, hd <= 0xffff_ffff;
        let hue_ok = if self.hue_min > self.hue_max {
            hn >= (self.hue_min as u64) * hd || hn <= (self.hue_max as u64) * hd
        } else {
            hn >= (self.hue_min as u64) * hd && hn <= (self.hue_max as u64) * hd
        };
        let sn = h.sat_num as u64;
        let sd = h.sat_den as u64;
        assert((self.sat_min as u64) * sd <= 0xffff_ffff_ffff && (self.sat_max as u64) * sd <= 0xffff_ffff_ffff) by (nonlinear_arith)
            requires self.sat_min <= 0xff, self.sat_max <= 0xff, sd <= 0xffff_ffff;
        let v = h.val as u64;
        hue_ok && 100 * sn >= (self.sat_min as u64) * sd && 100 * sn <= (self.sat_max as u64) * sd && 100 * v
            >= (self.val_min as u64) * 255 && 100 * v <= (self.val_max as u64) * 255
    }
}

/// An 8-bit RGB image stored row by row, three bytes per pixel.
#[derive(Debug, Clone)]
pub struct RgbImage {
    pub width: u32,
    pub height: u32,
    pub pixels: Vec<u8>,
}

impl RgbImage {
    pub open spec fn wf(&self) -> bool {
        self.pixels@.len() == 3 * (self.width * self.height) && self.width * self.height <= u32::MAX
    }
}

/// Settings of marker removal; strength in thousandths.
#[derive(Debug, Clone)]
pub struct MarkerRemovalOptions {
    pub colors: Vec<HighlighterColor>,
    pub strength: u32,
    pub preserve_text_edges: bool,
    pub edge_threshold: u8,
}

impl Default for MarkerRemovalOptions {
    fn default() -> (r: MarkerRemovalOptions)
        ensures
            r.colors@ == seq![
                HighlighterColor::Yellow,
                HighlighterColor::Pink,
                HighlighterColor::Green,
                HighlighterColor::Blue,
                HighlighterColor::Orange,
            ],
            r.strength == FULL_STRENGTH,
            r.preserve_text_edges,
            r.edge_threshold == 50,
    {
        MarkerRemovalOptions {
            colors: HighlighterColor::all(),
            strength: FULL_STRENGTH,
            preserve_text_edges: true,
            edge_threshold: 50,
        }
    }
}

impl MarkerRemovalOptions {
    /// The defaults, looking for yellow only.
    pub fn yellow_only() -> (r: MarkerRemovalOptions)
        ensures
            r.colors@ == seq![HighlighterColor::Yellow],
            r.strength == FULL_STRENGTH,
            r.preserve_text_edges,
            r.edge_threshold == 50,
    {
        let mut r = MarkerRemovalOptions::default();
        r.colors = vec![HighlighterColor::Yellow];
        assert(r.colors@ =~= seq![HighlighterColor::Yellow]);
        r
    }

    /// The defaults with another strength, clamped to full strength.
    pub fn partial(strength: u32) -> (r: MarkerRemovalOptions)
        ensures
            r.strength == if strength > FULL_STRENGTH { FULL_STRENGTH } else { strength },
            r.colors@.len() == 5,
            r.preserve_text_edges,
            r.edge_threshold == 50,
    {
        let mut r = MarkerRemovalOptions::default();
        r.strength = if strength > FULL_STRENGTH { FULL_STRENGTH } else { strength };
        r
    }
}

/// Index of the first colour whose range holds `h`, from `k` on; -1 if none.
pub open spec fn first_match(colors: Seq<HighlighterColor>, h: Hsv, k: int) -> int
    decreases colors.len() - k,
{
    if k < 0 || k >= colors.len() {
        -1
    } else if in_range(range_of(colors[k]), h) {
        k
    } else {
        first_match(colors, h, k + 1)
    }
}

/// The colour index pixel `i` counts against, or -1 when it is an edge
/// pixel or matches no colour.
pub open spec fn marker_of(p: Seq<u8>, edges: Option<Seq<u8>>, colors: Seq<HighlighterColor>, threshold: u8, i: int) -> int {
    match edges {
        Some(e) => if e[i] >= threshold {
            -1
        } else {
            first_match(colors, hsv_of(p[3 * i], p[3 * i + 1], p[3 * i + 2]), 0)
        },
        None => first_match(colors, hsv_of(p[3 * i], p[3 * i + 1], p[3 * i + 2]), 0),
    }
}

/// Number of pixels among the first `n` that count against colour `k`.
pub open spec fn count_of(p: Seq<u8>, edges: Option<Seq<u8>>, colors: Seq<HighlighterColor>, threshold: u8, n: int, k: int) -> int
    decreases n,
{
    if n <= 0 {
        0
    } else {
        count_of(p, edges, colors, threshold, n - 1, k) + if marker_of(p, edges, colors, threshold, n - 1) == k {
            1int
        } else {
            0
        }
    }
}

pub open spec fn marked_total(p: Seq<u8>, edges: Option<Seq<u8>>, colors: Seq<HighlighterColor>, threshold: u8, n: int) -> int
    decreases n,
{
    if n <= 0 {
        0
    } else {
        marked_total(p, edges, colors, threshold, n - 1) + if marker_of(p, edges, colors, threshold, n - 1) >= 0 {
            1int
        } else {
            0
        }
    }
}

/// The pixels after removal: each marked pixel faded toward white, the
/// others unchanged.
pub open spec fn removal_result(p: Seq<u8>, q: Seq<u8>, edges: Option<Seq<u8>>, o: MarkerRemovalOptions, n: int) -> bool {
    &&& q.len() == p.len()
    &&& forall|j: int| 0 <= j < 3 * n ==> #[trigger] q[j] == if marker_of(p, edges, o.colors@, o.edge_threshold, j / 3) >= 0 {
        fade(p[j], if o.strength > FULL_STRENGTH { FULL_STRENGTH as int } else { o.strength as int }) as u8
    } else {
        p[j]
    }
}

/// The summary of a removal pass.
pub open spec fn removal_summary(r: MarkerDetectionResult, p: Seq<u8>, edges: Option<Seq<u8>>, o: MarkerRemovalOptions, w: int, h: int) -> bool {
    &&& r.detected_pixels@.len() == o.colors@.len()
    &&& forall|k: int| 0 <= k < o.colors@.len() ==> (#[trigger] r.detected_pixels@[k]).0 == o.colors@[k]
        && r.detected_pixels@[k].1 == count_of(p, edges, o.colors@, o.edge_threshold, w * h, k)
    &&& r.total_marker_pixels == marked_total(p, edges, o.colors@, o.edge_threshold, w * h)
    &&& r.total_pixels == w * h
    &&& r.image_size == (w as u32, h as u32)
}

/// `g` is the luminance image of `img`.
pub open spec fn is_luma_of(g: GrayImage, img: RgbImage) -> bool {
    &&& g.wf()
    &&& g.width == img.width
    &&& g.height == img.height
    &&& forall|i: int| 0 <= i < g.pixels@.len() ==> #[trigger] g.pixels@[i] == luma(
        img.pixels@[3 * i],
        img.pixels@[3 * i + 1],
        img.pixels@[3 * i + 2],
    )
}

impl MarkerRemover {
    /// The luminance image of an RGB image.
    pub fn to_luma(img: &RgbImage) -> (g: GrayImage)
        requires
            img.wf(),
        ensures
            is_luma_of(g, *img),
    {
        let n = (img.width as usize) * (img.height as usize);
        let len = img.pixels.len();
        let mut px: Vec<u8> = Vec::new();
        let mut i: usize = 0;
        while i < n
            invariant
                img.wf(),
                len == 3 * n,
                n == img.width * img.height,
                i <= n,
                px@.len() == i,
                forall|k: int| 0 <= k < i ==> #[trigger] px@[k] == luma(img.pixels@[3 * k], img.pixels@[3 * k + 1], img.pixels@[3 * k + 2]),
            decreases n - i,
        {
            px.push(Self::luminance(img.pixels[3 * i], img.pixels[3 * i + 1], img.pixels[3 * i + 2]));
            i = i + 1;
        }
        GrayImage { width: img.width, height: img.height, pixels: px }
    }

    /// The Sobel magnitude of the luminance, used to spare text edges.
    pub fn compute_edge_map(img: &RgbImage) -> (e: GrayImage)
        requires
            img.wf(),
        ensures
            e.wf(),
            e.width == img.width && e.height == img.height,
            exists|g: GrayImage| is_luma_of(g, *img) && forall|x: int, y: int|
                0 <= x < img.width && 0 <= y < img.height ==> #[trigger] sobel_value_ok(g, e.pixels@, x, y),
    {
        let g = Self::to_luma(img);
        let e = sobel_magnitude(&g);
        assert(is_luma_of(g, *img));
        e
    }

    fn first_matching_color(colors: &Vec<HighlighterColor>, h: &Hsv) -> (r: Option<usize>)
        ensures
            match r {
                Some(k) => k == first_match(colors@, *h, 0) && k < colors@.len(),
                None => first_match(colors@, *h, 0) == -1,
            },
    {
        let mut k: usize = 0;
        while k < colors.len()
            invariant
                k <= colors@.len(),
                first_match(colors@, *h, 0) == first_match(colors@, *h, k as int),
            decreases colors.len() - k,
        {
            if colors[k].hsv_range().matches(h) {
                return Some(k);
            }
            k = k + 1;
        }
        None
    }

    /// Fades every pixel that matches a colour, unless `edges` marks it as
    /// an edge (a value at or above the threshold), and counts the pixels
    /// per colour.
    pub fn remove_with_edges(image: &mut RgbImage, edges: Option<&GrayImage>, options: &MarkerRemovalOptions) -> (r:
        MarkerDetectionResult)
        requires
            old(image).wf(),
            edges matches Some(e) ==> e.pixels@.len() == old(image).width * old(image).height,
        ensures
            final(image).width == old(image).width && final(image).height == old(image).height,
            final(image).wf(),
            removal_result(
                old(image).pixels@,
                final(image).pixels@,
                match edges { Some(e) => Some(e.pixels@), None => None },
                *options,
                old(image).width * old(image).height,
            ),
            removal_summary(
                r,
                old(image).pixels@,
                match edges { Some(e) => Some(e.pixels@), None => None },
                *options,
                old(image).width as int,
                old(image).height as int,
            ),
    {
        let ghost p = image.pixels@;
        let ghost es: Option<Seq<u8>> = match edges { Some(e) => Some(e.pixels@), None => None };
        let ghost colors = options.colors@;
        let thr = options.edge_threshold;
        let n = (image.width as usize) * (image.height as usize);
        let len = image.pixels.len();
        let ghost w0 = image.width;
        let ghost h0 = image.height;
        let s: u32 = if options.strength > FULL_STRENGTH { FULL_STRENGTH } else { options.strength };
        let mut counts: Vec<u32> = Vec::new();
        let mut c: usize = 0;
        while c < options.colors.len()
            invariant
                c <= options.colors@.len(),
                counts@.len() == c,
                forall|k: int| 0 <= k < c ==> counts@[k] == 0,
            decreases options.colors.len() - c,
        {
            counts.push(0);
            c = c + 1;
        }
        let mut total: u32 = 0;
        let mut i: usize = 0;
        while i < n
            invariant
                image.wf(),
                image.width == w0 && image.height == h0,
                len == 3 * n,
                image.width * image.height == n,
                p.len() == 3 * n,
                image.pixels@.len() == p.len(),
                colors == options.colors@,
                thr == options.edge_threshold,
                es == match edges { Some(e) => Some(e.pixels@), None => None },
                edges matches Some(e) ==> e.pixels@.len() == n,
                s == if options.strength > FULL_STRENGTH { FULL_STRENGTH } else { options.strength },
                n <= u32::MAX,
                i <= n,
                counts@.len() == colors.len(),
                forall|k: int| 0 <= k < colors.len() ==> #[trigger] counts@[k] == count_of(p, es, colors, thr, i as int, k),
                forall|k: int| 0 <= k < colors.len() ==> #[trigger] counts@[k] <= i,
                total == marked_total(p, es, colors, thr, i as int),
                total <= i,
                forall|j: int| 0 <= j < 3 * i ==> #[trigger] image.pixels@[j] == if marker_of(p, es, colors, thr, j / 3) >= 0 {
                    fade(p[j], s as int) as u8
                } else {
                    p[j]
                },
                forall|j: int| 3 * i <= j < 3 * n ==> #[trigger] image.pixels@[j] == p[j],
            decreases n - i,
        {
            let skip = match edges {
                Some(e) => e.pixels[i] >= thr,
                None => false,
            };
            let m: Option<usize> = if skip {
                None
            } else {
                let hsv = rgb_to_hsv(image.pixels[3 * i], image.pixels[3 * i + 1], image.pixels[3 * i + 2]);
                Self::first_matching_color(&options.colors, &hsv)
            };
            assert(match m {
                Some(k) => k == marker_of(p, es, colors, thr, i as int),
                None => marker_of(p, es, colors, thr, i as int) == -1,
            });
            let ghost before = counts@;
            if let Some(k) = m {
                counts.set(k, counts[k] + 1);
                total = total + 1;
                let r0 = Self::fade_channel(image.pixels[3 * i], s);
                let r1 = Self::fade_channel(image.pixels[3 * i + 1], s);
                let r2 = Self::fade_channel(image.pixels[3 * i + 2], s);
                image.pixels.set(3 * i, r0);
                image.pixels.set(3 * i + 1, r1);
                image.pixels.set(3 * i + 2, r2);
            }
            assert forall|k: int| 0 <= k < colors.len() implies #[trigger] counts@[k] == count_of(p, es, colors, thr, i + 1, k) by {
                assert(before[k] == count_of(p, es, colors, thr, i as int, k));
            }
            assert forall|j: int| 0 <= j < 3 * (i + 1) implies #[trigger] image.pixels@[j] == if marker_of(p, es, colors, thr, j / 3) >= 0 {
                fade(p[j], s as int) as u8
            } else {
                p[j]
            } by {
                if j >= 3 * i {
                    assert(j / 3 == i);
                }
            }
            i = i + 1;
        }
        let mut detected: Vec<(HighlighterColor, u32)> = Vec::new();
        let mut k: usize = 0;
        while k < options.colors.len()
            invariant
                k <= colors.len(),
                colors == options.colors@,
                counts@.len() == colors.len(),
                detected@.len() == k,
                forall|q: int| 0 <= q < k ==> (#[trigger] detected@[q]).0 == colors[q] && detected@[q].1 == counts@[q],
            decreases options.colors.len() - k,
        {
            detected.push((options.colors[k], counts[k]));
            k = k + 1;
        }
        MarkerDetectionResult {
            detected_pixels: detected,
            total_marker_pixels: total,
            total_pixels: n as u32,
            image_size: (image.width, image.height),
        }
    }

    /// Counts the marker pixels of each colour without changing the image.
    pub fn detect_from_image(image: &RgbImage, options: &MarkerRemovalOptions) -> (r: MarkerDetectionResult)
        requires
            image.wf(),
        ensures
            removal_summary(r, image.pixels@, None, *options, image.width as int, image.height as int),
    {
        let mut px: Vec<u8> = Vec::new();
        let mut i: usize = 0;
        while i < image.pixels.len()
            invariant
                i <= image.pixels@.len(),
                px@ == image.pixels@.take(i as int),
            decreases image.pixels.len() - i,
        {
            px.push(image.pixels[i]);
            assert(image.pixels@.take(i as int + 1) =~= image.pixels@.take(i as int).push(image.pixels@[i as int]));
            i = i + 1;
        }
        assert(image.pixels@.take(image.pixels@.len() as int) =~= image.pixels@);
        let mut copy = RgbImage { width: image.width, height: image.height, pixels: px };
        Self::remove_with_edges(&mut copy, None, options)
    }

    /// Marker removal with the edge map computed from the image itself when
    /// text edges are to be spared.
    pub fn remove_in_place(image: &mut RgbImage, options: &MarkerRemovalOptions) -> (r: MarkerDetectionResult)
        requires
            old(image).wf(),
        ensures
            final(image).width == old(image).width && final(image).height == old(image).height,
            final(image).wf(),
            !options.preserve_text_edges ==> removal_result(
                old(image).pixels@,
                final(image).pixels@,
                None,
                *options,
                old(image).width * old(image).height,
            ) && removal_summary(r, old(image).pixels@, None, *options, old(image).width as int, old(image).height as int),
            options.preserve_text_edges ==> exists|e: GrayImage, g: GrayImage|
                is_luma_of(g, *old(image)) && e.width == old(image).width && e.height == old(image).height
                    && (forall|x: int, y: int|
                    0 <= x < old(image).width && 0 <= y < old(image).height ==> #[trigger] sobel_value_ok(g, e.pixels@, x, y))
                    && removal_result(
                    old(image).pixels@,
                    final(image).pixels@,
                    Some(e.pixels@),
                    *options,
                    old(image).width * old(image).height,
                ) && removal_summary(
                    r,
                    old(image).pixels@,
                    Some(e.pixels@),
                    *options,
                    old(image).width as int,
                    old(image).height as int,
                ),
    {
        if options.preserve_text_edges {
            let e = Self::compute_edge_map(image);
            let ghost g = choose|g: GrayImage| is_luma_of(g, *old(image)) && forall|x: int, y: int|
                0 <= x < old(image).width && 0 <= y < old(image).height ==> #[trigger] sobel_value_ok(g, e.pixels@, x, y);
            let r = Self::remove_with_edges(image, Some(&e), options);
            assert(is_luma_of(g, *old(image)));
            r
        } else {
            Self::remove_with_edges(image, None, options)
        }
    }
}

/// Fading is monotone in the strength, leaves a channel alone at zero
/// strength and turns it white at full strength.
pub proof fn lemma_fade_monotone(v: u8, s1: int, s2: int)
    requires
        0 <= s1 <= s2 <= FULL_STRENGTH,
    ensures
        fade(v, s1) <= fade(v, s2),
        fade(v, 0) == v,
        fade(v, FULL_STRENGTH as int) == 255,
        fade(v, s2) <= 255,
{
    let d = 255 - v;
    assert(d * s1 <= d * s2) by (nonlinear_arith)
        requires 0 <= d, s1 <= s2;
    assert(d * s1 / 1000 <= d * s2 / 1000) by (nonlinear_arith)
        requires d * s1 <= d * s2;
    assert(d * s2 / 1000 <= d) by (nonlinear_arith)
        requires 0 <= d, 0 <= s2 <= 1000;
    assert(d * 1000 / 1000 == d) by (nonlinear_arith)
        requires 0 <= d;
}

} // verus!
