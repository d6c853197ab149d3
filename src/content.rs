//! Content-aware boundary detection: binarise a page, gather its
//! 8-connected foreground components, keep those shaped like characters and
//! derive safe and aggressive trim positions for each edge.

use vstd::prelude::*;
use crate::geometry::{ContentRect, MarginError};

verus! {

/// An 8-bit grayscale image stored row by row.
#[derive(Debug, Clone)]
pub struct GrayImage {
    pub width: u32,
    pub height: u32,
    pub pixels: Vec<u8>,
}

impl GrayImage {
    pub open spec fn wf(&self) -> bool {
        self.pixels@.len() == self.width * self.height
    }

    /// The image of the given size and row-major pixels, if the sizes agree.
    pub fn from_pixels(width: u32, height: u32, pixels: Vec<u8>) -> (r: Option<GrayImage>)
        ensures
            (r is Some) == (pixels@.len() == width * height),
            r matches Some(img) ==> img.wf() && img.width == width && img.height == height && img.pixels
                == pixels,
    {
        assert((width as u128) * (height as u128) <= 0xffff_ffff_ffff_ffff_ffff_ffff) by (nonlinear_arith)
            requires width <= 0xffff_ffffu32, height <= 0xffff_ffffu32;
        if (pixels.len() as u128) == (width as u128) * (height as u128) {
            Some(GrayImage { width, height, pixels })
        } else {
            None
        }
    }

    /// An image of one value throughout.
    pub fn filled(width: u32, height: u32, value: u8) -> (r: GrayImage)
        requires
            width * height <= usize::MAX,
        ensures
            r.wf(),
            r.width == width && r.height == height,
            forall|i: int| 0 <= i < r.pixels@.len() ==> r.pixels@[i] == value,
    {
        let n = (width as usize) * (height as usize);
        let mut pixels: Vec<u8> = Vec::new();
        let mut i: usize = 0;
        while i < n
            invariant
                i <= n,
                pixels@.len() == i,
                forall|k: int| 0 <= k < i ==> pixels@[k] == value,
            decreases n - i,
        {
            pixels.push(value);
            i = i + 1;
        }
        GrayImage { width, height, pixels }
    }

    pub fn get(&self, x: u32, y: u32) -> (r: u8)
        requires
            self.wf(),
            x < self.width,
            y < self.height,
        ensures
            r == self.pixels@[y * self.width + x],
    {
        let n = self.pixels.len();
        proof {
            lemma_index_in_bounds(x as int, y as int, self.width as int, self.height as int);
        }
        self.pixels[(y as usize) * (self.width as usize) + (x as usize)]
    }
}

pub proof fn lemma_index_in_bounds(x: int, y: int, w: int, h: int)
    requires
        0 <= x < w,
        0 <= y < h,
    ensures
        0 <= y * w + x < w * h,
{
    assert(y * w + x < w * h) by (nonlinear_arith)
        requires 0 <= x < w, 0 <= y < h;
    assert(0 <= y * w) by (nonlinear_arith)
        requires 0 <= y, 0 <= w;
}

/// Sizes and margins for content detection. The safety buffer is given in
/// thousandths of the image dimension.
#[derive(Debug, Clone, Copy, PartialEq, Eq)]
pub struct ContentAwareOptions {
    pub min_char_size: u32,
    pub max_char_size: u32,
    pub safety_buffer_per_mille: u32,
    pub min_safety_buffer: u32,
    pub aggressive_trim: bool,
    pub custom_threshold: Option<u8>,
}

/// Largest safety buffer: ten percent of the dimension.
pub const MAX_SAFETY_BUFFER_PER_MILLE: u32 = 100;

pub open spec fn default_content_options() -> ContentAwareOptions {
    ContentAwareOptions {
        min_char_size: 6,
        max_char_size: 500,
        safety_buffer_per_mille: 5,
        min_safety_buffer: 10,
        aggressive_trim: false,
        custom_threshold: None,
    }
}

impl Default for ContentAwareOptions {
    fn default() -> (r: ContentAwareOptions)
        ensures
            r == default_content_options(),
    {
        ContentAwareOptions {
            min_char_size: 6,
            max_char_size: 500,
            safety_buffer_per_mille: 5,
            min_safety_buffer: 10,
            aggressive_trim: false,
            custom_threshold: None,
        }
    }
}

impl ContentAwareOptions {
    /// A thin buffer, trimming to the content itself.
    pub fn aggressive() -> (r: ContentAwareOptions)
        ensures
            r == (ContentAwareOptions {
                safety_buffer_per_mille: 1,
                min_safety_buffer: 2,
                aggressive_trim: true,
                ..default_content_options()
            }),
    {
        ContentAwareOptions {
            safety_buffer_per_mille: 1,
            min_safety_buffer: 2,
            aggressive_trim: true,
            ..ContentAwareOptions::default()
        }
    }

    /// A wide buffer.
    pub fn conservative() -> (r: ContentAwareOptions)
        ensures
            r == (ContentAwareOptions {
                safety_buffer_per_mille: 10,
                min_safety_buffer: 20,
                aggressive_trim: false,
                ..default_content_options()
            }),
    {
        ContentAwareOptions {
            safety_buffer_per_mille: 10,
            min_safety_buffer: 20,
            aggressive_trim: false,
            ..ContentAwareOptions::default()
        }
    }

    /// Sets the safety buffer, clamped to at most ten percent.
    pub fn with_safety_buffer_per_mille(self, per_mille: u32) -> (r: ContentAwareOptions)
        ensures
            r == (ContentAwareOptions {
                safety_buffer_per_mille: if per_mille > MAX_SAFETY_BUFFER_PER_MILLE {
                    MAX_SAFETY_BUFFER_PER_MILLE
                } else {
                    per_mille
                },
                ..self
            }),
    {
        let v = if per_mille > MAX_SAFETY_BUFFER_PER_MILLE { MAX_SAFETY_BUFFER_PER_MILLE } else { per_mille };
        ContentAwareOptions { safety_buffer_per_mille: v, ..self }
    }
}

/// The bounding box and size of one 8-connected foreground component.
#[derive(Debug, Clone, Copy, PartialEq, Eq)]
pub struct ConnectedComponent {
    pub min_x: u32,
    pub min_y: u32,
    pub max_x: u32,
    pub max_y: u32,
    pub pixel_count: u64,
}

impl ConnectedComponent {
    pub open spec fn box_ok(&self) -> bool {
        self.min_x <= self.max_x && self.min_y <= self.max_y
    }

    pub open spec fn holds(&self, x: int, y: int) -> bool {
        self.min_x <= x <= self.max_x && self.min_y <= y <= self.max_y
    }

    pub open spec fn spec_width(&self) -> int {
        self.max_x - self.min_x + 1
    }

    pub open spec fn spec_height(&self) -> int {
        self.max_y - self.min_y + 1
    }

    /// A component of the single pixel `(x, y)`.
    pub fn new(x: u32, y: u32) -> (r: ConnectedComponent)
        ensures
            r == (ConnectedComponent { min_x: x, min_y: y, max_x: x, max_y: y, pixel_count: 1 }),
    {
        ConnectedComponent { min_x: x, min_y: y, max_x: x, max_y: y, pixel_count: 1 }
    }

    /// Adds the pixel `(x, y)`.
    pub fn expand(&mut self, x: u32, y: u32)
        requires
            old(self).pixel_count < u64::MAX,
        ensures
            final(self).min_x == if x < old(self).min_x { x } else { old(self).min_x },
            final(self).min_y == if y < old(self).min_y { y } else { old(self).min_y },
            final(self).max_x == if x > old(self).max_x { x } else { old(self).max_x },
            final(self).max_y == if y > old(self).max_y { y } else { old(self).max_y },
            final(self).pixel_count == old(self).pixel_count + 1,
    {
        if x < self.min_x {
            self.min_x = x;
        }
        if y < self.min_y {
            self.min_y = y;
        }
        if x > self.max_x {
            self.max_x = x;
        }
        if y > self.max_y {
            self.max_y = y;
        }
        self.pixel_count = self.pixel_count + 1;
    }

    pub fn width(&self) -> (r: u32)
        requires
            self.box_ok(),
            self.max_x < u32::MAX,
        ensures
            r == self.spec_width(),
    {
        self.max_x - self.min_x + 1
    }

    pub fn height(&self) -> (r: u32)
        requires
            self.box_ok(),
            self.max_y < u32::MAX,
        ensures
            r == self.spec_height(),
    {
        self.max_y - self.min_y + 1
    }
}

/// A component shaped like a character: its shorter side at least
/// `min_char_size`, its longer side at most `max_char_size`, and the ratio of
/// the longer side to the shorter (at least one) within `[1/20, 20]`.
pub open spec fn component_valid(c: ConnectedComponent, o: ContentAwareOptions) -> bool {
    let w = c.spec_width();
    let h = c.spec_height();
    let lo = if w <= h { w } else { h };
    let hi = if w <= h { h } else { w };
    let lo1 = if lo < 1 { 1 } else { lo };
    lo >= o.min_char_size && hi <= o.max_char_size && 20 * hi >= lo1 && hi <= 20 * lo1
}

/// The foreground of content detection: pixels darker than the threshold.
pub open spec fn binarized(g: Seq<u8>, threshold: u8) -> Seq<u8> {
    g.map_values(|v: u8| if v < threshold { 255u8 } else { 0u8 })
}

/// Number of `true` entries.
pub open spec fn count_true(s: Seq<bool>) -> nat
    decreases s.len(),
{
    if s.len() == 0 {
        0
    } else {
        count_true(s.drop_last()) + if s.last() { 1nat } else { 0nat }
    }
}

proof fn lemma_count_true_bound(s: Seq<bool>)
    ensures
        count_true(s) <= s.len(),
    decreases s.len(),
{
    if s.len() > 0 {
        lemma_count_true_bound(s.drop_last());
    }
}

proof fn lemma_count_true_set(s: Seq<bool>, i: int)
    requires
        0 <= i < s.len(),
        !s[i],
    ensures
        count_true(s.update(i, true)) == count_true(s) + 1,
    decreases s.len(),
{
    let t = s.update(i, true);
    if i == s.len() - 1 {
        assert(t.drop_last() =~= s.drop_last());
    } else {
        assert(t.drop_last() =~= s.drop_last().update(i, true));
        lemma_count_true_set(s.drop_last(), i);
    }
}

/// Pixel index `i` of a `w`-wide image lies in the box of `c`.
pub open spec fn in_box(c: ConnectedComponent, i: int, w: int) -> bool {
    c.holds(i % w, i / w)
}

pub open spec fn box_inside(c: ConnectedComponent, w: int, h: int) -> bool {
    c.box_ok() && c.max_x < w && c.max_y < h && c.pixel_count >= 1
}

proof fn lemma_coords(x: int, y: int, w: int)
    requires
        0 <= x < w,
        0 <= y,
    ensures
        (y * w + x) % w == x,
        (y * w + x) / w == y,
{
    assert((y * w + x) % w == x && (y * w + x) / w == y) by (nonlinear_arith)
        requires 0 <= x < w, 0 <= y;
}

/// Column and row steps of direction `d` (0 to 7), clockwise from the
/// upper left, skipping the centre.
pub open spec fn step_x(d: int) -> int {
    if d == 0 || d == 3 || d == 5 { -1 } else if d == 1 || d == 6 { 0 } else { 1 }
}

pub open spec fn step_y(d: int) -> int {
    if d <= 2 { -1 } else if d <= 4 { 0 } else { 1 }
}

/// The neighbour of pixel `i` in direction `d` in a `w` by `h` image.
pub open spec fn nb(w: int, h: int, i: int, d: int) -> Option<int> {
    let x = i % w + step_x(d);
    let y = i / w + step_y(d);
    if 0 <= x < w && 0 <= y < h { Some(y * w + x) } else { None }
}

pub open spec fn abs_diff(a: int, b: int) -> int {
    if a >= b { a - b } else { b - a }
}

/// Distinct pixels of a `w` by `h` image that touch, sides or corners.
pub open spec fn adjacent(w: int, h: int, i: int, j: int) -> bool {
    &&& 0 <= i < w * h
    &&& 0 <= j < w * h
    &&& i != j
    &&& abs_diff(i % w, j % w) <= 1
    &&& abs_diff(i / w, j / w) <= 1
}

pub open spec fn fg(p: Seq<u8>, i: int) -> bool {
    p[i] > 0
}

/// `path` leads from `s` to `t` through foreground pixels, each touching
/// the next.
pub open spec fn is_path(p: Seq<u8>, w: int, h: int, s: int, t: int, path: Seq<int>) -> bool {
    &&& path.len() >= 1
    &&& path[0] == s
    &&& path.last() == t
    &&& forall|q: int| 0 <= q < path.len() ==> 0 <= #[trigger] path[q] < p.len() && fg(p, path[q])
    &&& forall|q: int| 0 <= q < path.len() - 1 ==> adjacent(w, h, #[trigger] path[q], path[q + 1])
}

pub open spec fn connected(p: Seq<u8>, w: int, h: int, s: int, t: int) -> bool {
    exists|path: Seq<int>| #[trigger] is_path(p, w, h, s, t, path)
}

/// The components of the image binarised below `t`: the one list that
/// `components_of` admits.
pub open spec fn page_components(gray: GrayImage, t: u8) -> Seq<ConnectedComponent> {
    choose|cs: Seq<ConnectedComponent>| components_of(binarized(gray.pixels@, t), gray.width as int, gray.height as int, cs)
}

/// The threshold used: the custom one if set, else the computed one.
pub open spec fn threshold_of(o: ContentAwareOptions, computed: u8) -> u8 {
    match o.custom_threshold {
        Some(t) => t,
        None => computed,
    }
}

/// The components shaped like characters, in order.
pub open spec fn valid_components(cs: Seq<ConnectedComponent>, o: ContentAwareOptions) -> Seq<ConnectedComponent> {
    cs.filter(|c: ConnectedComponent| component_valid(c, o))
}

/// Number of pixels labelled `k`.
pub open spec fn count_label(label: Seq<int>, k: int) -> nat
    decreases label.len(),
{
    if label.len() == 0 { 0 } else { count_label(label.drop_last(), k) + if label.last() == k { 1nat } else { 0nat } }
}

/// Component `k` of `label` is summarised by `c`: the smallest box holding
/// its pixels, and their number.
pub open spec fn summarises(c: ConnectedComponent, label: Seq<int>, k: int, w: int) -> bool {
    &&& forall|i: int| 0 <= i < label.len() && #[trigger] label[i] == k ==> in_box(c, i, w)
    &&& exists|i: int| 0 <= i < label.len() && label[i] == k && #[trigger] (i % w) == c.min_x
    &&& exists|i: int| 0 <= i < label.len() && label[i] == k && #[trigger] (i % w) == c.max_x
    &&& exists|i: int| 0 <= i < label.len() && label[i] == k && #[trigger] (i / w) == c.min_y
    &&& exists|i: int| 0 <= i < label.len() && label[i] == k && #[trigger] (i / w) == c.max_y
    &&& c.pixel_count == count_label(label, k)
}

/// `label` numbers the 8-connected foreground components of `p` in scan
/// order of their first pixels (`anchor`), and `cs` summarises them: every
/// foreground pixel has a label and no other pixel has one, touching
/// foreground pixels share a label, every labelled pixel is connected to
/// its component's first pixel, and the first pixels come in scan order.
pub open spec fn labelling(
    p: Seq<u8>,
    w: int,
    h: int,
    cs: Seq<ConnectedComponent>,
    label: Seq<int>,
    anchor: Seq<int>,
) -> bool {
    &&& p.len() == w * h
    &&& label.len() == p.len()
    &&& anchor.len() == cs.len()
    &&& forall|i: int| 0 <= i < p.len() ==> (fg(p, i) <==> 0 <= #[trigger] label[i] < cs.len())
    &&& forall|i: int| 0 <= i < p.len() && !fg(p, i) ==> #[trigger] label[i] == -1
    &&& forall|i: int, j: int| adjacent(w, h, i, j) && fg(p, i) && fg(p, j) ==> #[trigger] label[i] == #[trigger] label[j]
    &&& forall|i: int| 0 <= i < p.len() && 0 <= #[trigger] label[i] ==> connected(p, w, h, anchor[label[i]], i)
    &&& forall|k: int| 0 <= k < cs.len() ==> 0 <= #[trigger] anchor[k] < p.len() && label[anchor[k]] == k
    &&& forall|i: int| 0 <= i < p.len() && 0 <= #[trigger] label[i] ==> anchor[label[i]] <= i
    &&& forall|k1: int, k2: int| 0 <= k1 < k2 < cs.len() ==> #[trigger] anchor[k1] < #[trigger] anchor[k2]
    &&& forall|k: int| 0 <= k < cs.len() ==> #[trigger] summarises(cs[k], label, k, w)
}

/// `cs` are the 8-connected foreground components of `p`, in scan order of
/// their first pixels. Such a list is unique (`lemma_components_unique`).
pub open spec fn components_of(p: Seq<u8>, w: int, h: int, cs: Seq<ConnectedComponent>) -> bool {
    exists|label: Seq<int>, anchor: Seq<int>| #[trigger] labelling(p, w, h, cs, label, anchor)
}

proof fn lemma_direction(w: int, h: int, i: int, j: int)
    requires
        adjacent(w, h, i, j),
        w > 0,
    ensures
        exists|d: int| 0 <= d < 8 && #[trigger] nb(w, h, i, d) == Some(j),
{
    let x = i % w;
    let y = i / w;
    let dx = j % w - x;
    let dy = j / w - y;
    assert(j == (j / w) * w + j % w) by (nonlinear_arith)
        requires w > 0;
    assert(0 <= j % w < w) by (nonlinear_arith)
        requires w > 0;
    assert(0 <= j / w < h) by (nonlinear_arith)
        requires w > 0, 0 <= j < w * h;
    let d = if dy == -1 { if dx == -1 { 0 } else if dx == 0 { 1 } else { 2 } } else if dy == 0 {
        if dx == -1 { 3 } else { 4 }
    } else {
        if dx == -1 { 5 } else if dx == 0 { 6 } else { 7 }
    };
    if dy == 0 && dx == 0 {
        assert(i == y * w + x) by (nonlinear_arith)
            requires w > 0, x == i % w, y == i / w;
    }
    assert(nb(w, h, i, d) == Some(j));
}

/// One neighbour of `(x, y)` in direction `d` (0 to 7), if inside the image.
fn neighbour(x: u32, y: u32, d: u8, w: u32, h: u32) -> (r: Option<(u32, u32)>)
    requires
        x < w,
        y < h,
        d < 8,
    ensures
        r matches Some(q) ==> q.0 < w && q.1 < h && nb(w as int, h as int, y * w + x, d as int) == Some(q.1 * w + q.0),
        r is None ==> nb(w as int, h as int, y * w + x, d as int) is None,
{
    proof {
        lemma_coords(x as int, y as int, w as int);
    }
    let dx: i64 = if d == 0 || d == 3 || d == 5 { -1 } else if d == 1 || d == 6 { 0 } else { 1 };
    let dy: i64 = if d <= 2 { -1 } else if d <= 4 { 0 } else { 1 };
    let nx = x as i64 + dx;
    let ny = y as i64 + dy;
    if nx >= 0 && nx < w as i64 && ny >= 0 && ny < h as i64 {
        Some((nx as u32, ny as u32))
    } else {
        None
    }
}

impl ContentAwareBoundaryDetector {
    /// Pixels below `threshold` become foreground (255), the rest 0.
    pub fn binarize_for_content(gray: &GrayImage, threshold: u8) -> (r: GrayImage)
        requires
            gray.wf(),
        ensures
            r.wf(),
            r.width == gray.width && r.height == gray.height,
            r.pixels@ == binarized(gray.pixels@, threshold),
    {
        let mut out: Vec<u8> = Vec::new();
        let mut i: usize = 0;
        while i < gray.pixels.len()
            invariant
                i <= gray.pixels@.len(),
                out@ == binarized(gray.pixels@.take(i as int), threshold),
            decreases gray.pixels.len() - i,
        {
            out.push(if gray.pixels[i] < threshold { 255 } else { 0 });
            assert(binarized(gray.pixels@.take(i as int + 1), threshold) =~= binarized(
                gray.pixels@.take(i as int),
                threshold,
            ).push(if gray.pixels@[i as int] < threshold { 255u8 } else { 0u8 }));
            i = i + 1;
        }
        assert(gray.pixels@.take(gray.pixels@.len() as int) =~= gray.pixels@);
        GrayImage { width: gray.width, height: gray.height, pixels: out }
    }

    /// Whether a component is shaped like a character.
    pub fn is_valid_component(c: &ConnectedComponent, options: &ContentAwareOptions) -> (r: bool)
        requires
            c.box_ok(),
            c.max_x < u32::MAX && c.max_y < u32::MAX,
        ensures
            r == component_valid(*c, *options),
    {
        let w = c.width() as u64;
        let h = c.height() as u64;
        let lo = if w <= h { w } else { h };
        let hi = if w <= h { h } else { w };
        let lo1 = if lo < 1 { 1 } else { lo };
        lo >= options.min_char_size as u64 && hi <= options.max_char_size as u64 && 20 * hi >= lo1 && hi
            <= 20 * lo1
    }

    /// Trim positions from the valid components of a `width` by `height`
    /// page.
    pub fn calculate_boundaries(
        components: &[ConnectedComponent],
        width: u32,
        height: u32,
        options: &ContentAwareOptions,
        threshold: u8,
    ) -> (r: ContentBoundaries)
        requires
            forall|k: int| 0 <= k < components@.len() ==> box_inside(#[trigger] components@[k], width as int, height as int),
        ensures
            boundaries_match(r, components@, width as int, height as int, *options, threshold),
    {
        let mut min_x: u32 = width;
        let mut max_x: u32 = 0;
        let mut min_y: u32 = height;
        let mut max_y: u32 = 0;
        let mut counts: [usize; 4] = [0, 0, 0, 0];
        let ey = height / 4;
        let ex = width / 4;
        let mut i: usize = 0;
        while i < components.len()
            invariant
                i <= components@.len(),
                ey == height / 4,
                ex == width / 4,
                forall|k: int| 0 <= k < components@.len() ==> box_inside(#[trigger] components@[k], width as int, height as int),
                min_x == fold_min(components@.take(i as int), 0, width as int),
                max_x == fold_max(components@.take(i as int), 1, 0),
                min_y == fold_min(components@.take(i as int), 2, height as int),
                max_y == fold_max(components@.take(i as int), 3, 0),
                forall|e: int| 0 <= e < 4 ==> counts@[e] == edge_count(components@.take(i as int), e, width as int, height as int),
                forall|e: int| 0 <= e < 4 ==> counts@[e] <= i,
            decreases components.len() - i,
        {
            let c = components[i];
            proof {
                assert(components@.take(i as int + 1).drop_last() =~= components@.take(i as int));
                assert(box_inside(components@[i as int], width as int, height as int));
            }
            if c.min_x < min_x {
                min_x = c.min_x;
            }
            if c.max_x > max_x {
                max_x = c.max_x;
            }
            if c.min_y < min_y {
                min_y = c.min_y;
            }
            if c.max_y > max_y {
                max_y = c.max_y;
            }
            let ghost before = counts@;
            if c.min_y < ey {
                counts[0] = counts[0] + 1;
            }
            if c.max_y > height - ey {
                counts[1] = counts[1] + 1;
            }
            if c.min_x < ex {
                counts[2] = counts[2] + 1;
            }
            if c.max_x > width - ex {
                counts[3] = counts[3] + 1;
            }
            assert forall|e: int| 0 <= e < 4 implies counts@[e] == edge_count(components@.take(i as int + 1), e, width as int, height as int) by {
                assert(components@.take(i as int + 1).last() == c);
            }
            i = i + 1;
        }
        assert(components@.take(components@.len() as int) =~= components@);
        assert((width as u64) * (options.safety_buffer_per_mille as u64) <= 0xffff_ffff_ffff_ffffu64) by (nonlinear_arith)
            requires width <= 0xffff_ffffu32, options.safety_buffer_per_mille <= 0xffff_ffffu32;
        assert((height as u64) * (options.safety_buffer_per_mille as u64) <= 0xffff_ffff_ffff_ffffu64) by (nonlinear_arith)
            requires height <= 0xffff_ffffu32, options.safety_buffer_per_mille <= 0xffff_ffffu32;
        let bx_share = ((width as u64) * (options.safety_buffer_per_mille as u64) / 1000) as u64;
        let by_share = ((height as u64) * (options.safety_buffer_per_mille as u64) / 1000) as u64;
        let bx: u64 = if (options.min_safety_buffer as u64) >= bx_share { options.min_safety_buffer as u64 } else { bx_share };
        let by: u64 = if (options.min_safety_buffer as u64) >= by_share { options.min_safety_buffer as u64 } else { by_share };
        let safe_top: u32 = if (min_y as u64) >= by { (min_y as u64 - by) as u32 } else { 0 };
        let safe_left: u32 = if (min_x as u64) >= bx { (min_x as u64 - bx) as u32 } else { 0 };
        let safe_bottom: u32 = if (max_y as u64) + by <= height as u64 { ((max_y as u64) + by) as u32 } else { height };
        let safe_right: u32 = if (max_x as u64) + bx <= width as u64 { ((max_x as u64) + bx) as u32 } else { width };
        ContentBoundaries {
            top: ContentBoundary { safe_position: safe_top, aggressive_position: min_y, component_count: counts[0] },
            bottom: ContentBoundary { safe_position: safe_bottom, aggressive_position: max_y, component_count: counts[1] },
            left: ContentBoundary { safe_position: safe_left, aggressive_position: min_x, component_count: counts[2] },
            right: ContentBoundary { safe_position: safe_right, aggressive_position: max_x, component_count: counts[3] },
            image_size: (width, height),
            otsu_threshold: threshold,
            total_components: components.len(),
        }
    }

    /// Boundaries of the page content, binarised below the custom threshold
    /// of `options` or else below `computed_threshold`: taken from the
    /// character-shaped 8-connected components of the binarised page, and
    /// failing exactly when there are none.
    pub fn detect_from_image(gray: &GrayImage, options: &ContentAwareOptions, computed_threshold: u8) -> (r:
        Result<ContentBoundaries, MarginError>)
        requires
            gray.wf(),
        ensures
            (r is Err) <==> valid_components(page_components(*gray, threshold_of(*options, computed_threshold)), *options).len()
                == 0,
            r matches Err(e) ==> e == MarginError::NoContentDetected,
            r matches Ok(b) ==> boundaries_match(
                b,
                valid_components(page_components(*gray, threshold_of(*options, computed_threshold)), *options),
                gray.width as int,
                gray.height as int,
                *options,
                threshold_of(*options, computed_threshold),
            ),
    {
        let threshold = match options.custom_threshold {
            Some(t) => t,
            None => computed_threshold,
        };
        let binary = Self::binarize_for_content(gray, threshold);
        let components = Self::find_connected_components(&binary);
        let ghost cs = components@;
        let ghost pred = |c: ConnectedComponent| component_valid(c, *options);
        let mut valid: Vec<ConnectedComponent> = Vec::new();
        let mut i: usize = 0;
        while i < components.len()
            invariant
                i <= components@.len(),
                cs == components@,
                pred == (|c: ConnectedComponent| component_valid(c, *options)),
                forall|k: int| 0 <= k < components@.len() ==> box_inside(#[trigger] components@[k], gray.width as int, gray.height as int),
                valid@ == cs.take(i as int).filter(pred),
            decreases components.len() - i,
        {
            proof {
                assert(cs.take(i as int + 1).drop_last() =~= cs.take(i as int));
                reveal_with_fuel(Seq::filter, 1);
            }
            let c = components[i];
            assert(box_inside(components@[i as int], gray.width as int, gray.height as int));
            if Self::is_valid_component(&c, options) {
                valid.push(c);
            }
            i = i + 1;
        }
        proof {
            assert(cs.take(cs.len() as int) =~= cs);
            assert(valid@ == valid_components(cs, *options));
            assert forall|k: int| 0 <= k < valid@.len() implies box_inside(#[trigger] valid@[k], gray.width as int, gray.height as int) by {
                let x = valid@[k];
                assert(cs.filter(pred).contains(x));
                cs.lemma_filter_contains_rev(pred, x);
                let q = choose|q: int| 0 <= q < cs.len() && cs[q] == x;
                assert(box_inside(cs[q], gray.width as int, gray.height as int));
            }
        }
        proof {
            let bin = binarized(gray.pixels@, threshold);
            let wi = gray.width as int;
            let hi = gray.height as int;
            assert(components_of(bin, wi, hi, cs));
            let cs2 = page_components(*gray, threshold);
            assert(components_of(bin, wi, hi, cs2));
            let (l1, a1) = choose|l: Seq<int>, a: Seq<int>| #[trigger] labelling(bin, wi, hi, cs, l, a);
            let (l2, a2) = choose|l: Seq<int>, a: Seq<int>| #[trigger] labelling(bin, wi, hi, cs2, l, a);
            lemma_components_unique(bin, wi, hi, cs, l1, a1, cs2, l2, a2);
        }
        if valid.len() == 0 {
            return Err(MarginError::NoContentDetected);
        }
        let b = Self::calculate_boundaries(valid.as_slice(), gray.width, gray.height, options, threshold);
        Ok(b)
    }

    /// One region holding every page's safe box: the least top and left,
    /// the greatest bottom and right, for safe and aggressive positions
    /// alike. `None` for no pages.
    pub fn merge_boundaries(list: &[ContentBoundaries]) -> (r: Option<ContentBoundaries>)
        requires
            total_of(list@) <= usize::MAX,
        ensures
            (r is None) == (list@.len() == 0),
            r matches Some(m) ==> {
                &&& m.top == ContentBoundary {
                    safe_position: merged_position(list@, 0) as u32,
                    aggressive_position: merged_position(list@, 4) as u32,
                    component_count: 0,
                }
                &&& m.bottom == ContentBoundary {
                    safe_position: merged_position(list@, 1) as u32,
                    aggressive_position: merged_position(list@, 5) as u32,
                    component_count: 0,
                }
                &&& m.left == ContentBoundary {
                    safe_position: merged_position(list@, 2) as u32,
                    aggressive_position: merged_position(list@, 6) as u32,
                    component_count: 0,
                }
                &&& m.right == ContentBoundary {
                    safe_position: merged_position(list@, 3) as u32,
                    aggressive_position: merged_position(list@, 7) as u32,
                    component_count: 0,
                }
                &&& m.image_size == list@[0].image_size
                &&& m.otsu_threshold == 128
                &&& m.total_components == total_of(list@)
            },
    {
        if list.len() == 0 {
            return None;
        }
        let mut pos: [u32; 8] = [u32::MAX, 0, u32::MAX, 0, u32::MAX, 0, u32::MAX, 0];
        let mut total: usize = 0;
        let mut i: usize = 0;
        assert forall|k: int| 0 <= k < 8 implies pos@[k] == merged_position(list@.take(0), k) by {}
        while i < list.len()
            invariant
                i <= list@.len(),
                total_of(list@) <= usize::MAX,
                total == total_of(list@.take(i as int)),
                forall|k: int| 0 <= k < 8 ==> pos@[k] == merged_position(list@.take(i as int), k),
            decreases list.len() - i,
        {
            let b = &list[i];
            proof {
                assert(list@.take(i as int + 1).drop_last() =~= list@.take(i as int));
                lemma_total_prefix(list@, i as int + 1);
            }
            let vals: [u32; 8] = [
                b.top.safe_position,
                b.bottom.safe_position,
                b.left.safe_position,
                b.right.safe_position,
                b.top.aggressive_position,
                b.bottom.aggressive_position,
                b.left.aggressive_position,
                b.right.aggressive_position,
            ];
            let ghost before = pos@;
            let mut k: usize = 0;
            while k < 8
                invariant
                    k <= 8,
                    i < list@.len(),
                    forall|j: int| 0 <= j < 8 ==> vals@[j] == position(list@[i as int], j),
                    forall|j: int| 0 <= j < 8 ==> before[j] == merged_position(list@.take(i as int), j),
                    forall|j: int| 0 <= j < k ==> pos@[j] == merged_position(list@.take(i as int + 1), j),
                    forall|j: int| k <= j < 8 ==> pos@[j] == before[j],
                decreases 8 - k,
            {
                proof {
                    assert(list@.take(i as int + 1).drop_last() =~= list@.take(i as int));
                    assert(list@.take(i as int + 1).last() == list@[i as int]);
                }
                let ghost t = list@.take(i as int + 1);
                let ghost prev = merged_position(t.drop_last(), k as int);
                let ghost v = position(t.last(), k as int);
                assert(merged_position(t, k as int) == if (k as int) % 2 == 0 { min2(prev, v) } else { max2(prev, v) });
                assert(t.drop_last() =~= list@.take(i as int));
                assert(pos@[k as int] == before[k as int]);
                assert(before[k as int] == prev);
                assert(vals@[k as int] == v);
                if k % 2 == 0 {
                    if vals[k] < pos[k] {
                        pos[k] = vals[k];
                    }
                } else {
                    if vals[k] > pos[k] {
                        pos[k] = vals[k];
                    }
                }
                assert(pos@[k as int] == merged_position(t, k as int));
                k = k + 1;
            }
            total = total + b.total_components;
            i = i + 1;
        }
        assert(list@.take(list@.len() as int) =~= list@);
        Some(ContentBoundaries {
            top: ContentBoundary { safe_position: pos[0], aggressive_position: pos[4], component_count: 0 },
            bottom: ContentBoundary { safe_position: pos[1], aggressive_position: pos[5], component_count: 0 },
            left: ContentBoundary { safe_position: pos[2], aggressive_position: pos[6], component_count: 0 },
            right: ContentBoundary { safe_position: pos[3], aggressive_position: pos[7], component_count: 0 },
            image_size: list[0].image_size,
            otsu_threshold: 128,
            total_components: total,
        })
    }

    /// Fills the foreground component of `(sx, sy)`, labelling its pixels
    /// `k`. The pixels labelled are exactly those connected to the start:
    /// each is connected to it, and the labelled set is closed under
    /// touching foreground pixels.
    fn flood_fill(
        binary: &GrayImage,
        sx: u32,
        sy: u32,
        visited: &mut Vec<bool>,
        marked: &mut u64,
        label0: Ghost<Seq<int>>,
        k: Ghost<int>,
    ) -> (r: (ConnectedComponent, Ghost<Seq<int>>))
        requires
            binary.wf(),
            sx < binary.width,
            sy < binary.height,
            old(visited)@.len() == binary.pixels@.len(),
            !old(visited)@[sy * binary.width + sx],
            binary.pixels@[sy * binary.width + sx] > 0,
            *old(marked) == count_true(old(visited)@),
            k@ >= 0,
            label0@.len() == binary.pixels@.len(),
            forall|i: int| 0 <= i < label0@.len() ==> (#[trigger] old(visited)@[i] <==> label0@[i] >= 0),
            forall|i: int| 0 <= i < label0@.len() ==> -1 <= #[trigger] label0@[i] < k@,
            forall|i: int| 0 <= i < label0@.len() && 0 <= #[trigger] label0@[i] ==> fg(binary.pixels@, i),
            forall|i: int| 0 <= i < sy * binary.width + sx && fg(binary.pixels@, i) ==> 0 <= #[trigger] label0@[i],
            forall|i: int, j: int|
                adjacent(binary.width as int, binary.height as int, i, j) && fg(binary.pixels@, i) && fg(binary.pixels@, j)
                    && 0 <= label0@[i] ==> #[trigger] label0@[j] == #[trigger] label0@[i],
        ensures
            ({
                let (c, lab) = (r.0, r.1@);
                let w = binary.width as int;
                let h = binary.height as int;
                let s0 = sy * binary.width + sx;
                &&& final(visited)@.len() == old(visited)@.len()
                &&& *final(marked) == count_true(final(visited)@)
                &&& box_inside(c, w, h)
                &&& lab.len() == label0@.len()
                &&& forall|i: int| 0 <= i < lab.len() ==> (#[trigger] final(visited)@[i] <==> lab[i] >= 0)
                &&& forall|i: int| 0 <= i < lab.len() && 0 <= #[trigger] label0@[i] ==> lab[i] == label0@[i]
                &&& forall|i: int| 0 <= i < lab.len() && label0@[i] < 0 ==> #[trigger] lab[i] == -1 || lab[i] == k@
                &&& forall|i: int| 0 <= i < lab.len() && #[trigger] lab[i] == k@ ==> fg(binary.pixels@, i)
                    && connected(binary.pixels@, w, h, s0, i) && s0 <= i
                &&& lab[s0] == k@
                &&& forall|i: int, j: int| adjacent(w, h, i, j) && fg(binary.pixels@, i) && fg(binary.pixels@, j)
                    && 0 <= lab[i] ==> #[trigger] lab[j] == #[trigger] lab[i]
                &&& summarises(c, lab, k@, w)
            }),
    {
        let w = binary.width;
        let h = binary.height;
        let n_exec = binary.pixels.len();
        let ghost n = binary.pixels@.len();
        let ghost p = binary.pixels@;
        let ghost wi = w as int;
        let ghost hi = h as int;
        let ghost kk = k@;
        let ghost s0: int = sy * w + sx;
        proof {
            lemma_index_in_bounds(sx as int, sy as int, w as int, h as int);
            lemma_coords(sx as int, sy as int, w as int);
            lemma_count_true_set(visited@, sy * w + sx);
            lemma_count_true_bound(visited@.update(sy * w + sx, true));
            assert(!visited@[s0]);
            assert(label0@[s0] < 0);
            lemma_count_label_none(label0@, kk);
            lemma_count_label_set(label0@, s0, kk);
        }
        let ghost mut lab: Seq<int> = label0@.update(s0, kk);
        let ghost mut wx0: int = s0;
        let ghost mut wx1: int = s0;
        let ghost mut wy0: int = s0;
        let ghost mut wy1: int = s0;
        proof {
            assert(is_path(p, wi, hi, s0, s0, seq![s0]));
        }
        let mut comp = ConnectedComponent::new(sx, sy);
        let mut stack: Vec<(u32, u32)> = Vec::new();
        stack.push((sx, sy));
        let sidx = (sy as usize) * (w as usize) + (sx as usize);
        visited[sidx] = true;
        *marked = *marked + 1;
        proof {
            assert(on_stack(stack@, wi, s0)) by {
                assert(stack@[0].1 * w + stack@[0].0 == s0);
            }
            assert forall|i: int| 0 <= i < n && #[trigger] lab[i] == kk implies on_stack(stack@, wi, i) || closed_in(p, lab, wi, hi, i, kk) by {
                if i != s0 {
                    assert(lab[i] == label0@[i]);
                }
            }
        }
        while stack.len() > 0
            invariant
                binary.wf(),
                w == binary.width,
                h == binary.height,
                wi == w,
                hi == h,
                p == binary.pixels@,
                n == binary.pixels@.len(),
                n_exec == n,
                kk == k@,
                kk >= 0,
                visited@.len() == n,
                *marked == count_true(visited@),
                count_true(visited@) <= n,
                n <= u64::MAX,
                0 <= s0 < n,
                s0 == sy * w + sx,
                box_inside(comp, w as int, h as int),
                lab.len() == n,
                label0@.len() == n,
                forall|i: int| 0 <= i < n ==> (#[trigger] visited@[i] <==> lab[i] >= 0),
                forall|i: int| 0 <= i < n ==> -1 <= #[trigger] label0@[i] < kk,
                forall|i: int| 0 <= i < n && 0 <= #[trigger] label0@[i] ==> fg(p, i),
                forall|i: int| 0 <= i < s0 && fg(p, i) ==> 0 <= #[trigger] label0@[i],
                forall|i: int, j: int| adjacent(wi, hi, i, j) && fg(p, i) && fg(p, j) && 0 <= label0@[i]
                    ==> #[trigger] label0@[j] == #[trigger] label0@[i],
                forall|i: int| 0 <= i < n && 0 <= #[trigger] label0@[i] ==> lab[i] == label0@[i],
                forall|i: int| 0 <= i < n && label0@[i] < 0 ==> #[trigger] lab[i] == -1 || lab[i] == kk,
                forall|i: int| 0 <= i < n && #[trigger] lab[i] == kk ==> fg(p, i) && connected(p, wi, hi, s0, i)
                    && s0 <= i && in_box(comp, i, wi),
                lab[s0] == kk,
                0 <= wx0 < n && lab[wx0] == kk && wx0 % wi == comp.min_x,
                0 <= wx1 < n && lab[wx1] == kk && wx1 % wi == comp.max_x,
                0 <= wy0 < n && lab[wy0] == kk && wy0 / wi == comp.min_y,
                0 <= wy1 < n && lab[wy1] == kk && wy1 / wi == comp.max_y,
                comp.pixel_count == count_label(lab, kk),
                comp.pixel_count <= count_true(visited@),
                forall|q: int| 0 <= q < stack@.len() ==> (#[trigger] stack@[q]).0 < w && stack@[q].1 < h
                    && lab[stack@[q].1 * w + stack@[q].0] == kk,
                forall|i: int| 0 <= i < n && #[trigger] lab[i] == kk ==> on_stack(stack@, wi, i) || closed_in(p, lab, wi, hi, i, kk),
            decreases 2 * (n - count_true(visited@)) + stack@.len(),
        {
            let ghost m0 = 2 * (n - count_true(visited@)) + stack@.len();
            let ghost st0 = stack@;
            let (x, y) = stack.pop().unwrap();
            let ghost pi: int = y * w + x;
            proof {
                lemma_index_in_bounds(x as int, y as int, w as int, h as int);
                lemma_coords(x as int, y as int, w as int);
                assert(st0.last() == (x, y));
                assert(stack@ =~= st0.drop_last());
                assert forall|i: int| 0 <= i < n && #[trigger] lab[i] == kk implies on_stack(stack@, wi, i) || closed_in(p, lab, wi, hi, i, kk) || i == pi by {
                    if on_stack(st0, wi, i) {
                        let q = choose|q: int| 0 <= q < st0.len() && #[trigger] st0[q].1 * wi + st0[q].0 == i;
                        if q < st0.len() - 1 {
                            assert(stack@[q] == st0[q]);
                            assert(on_stack(stack@, wi, i));
                        }
                    }
                }
            }
            let mut d: u8 = 0;
            while d < 8
                invariant
                    binary.wf(),
                    w == binary.width,
                    h == binary.height,
                    wi == w,
                    hi == h,
                    p == binary.pixels@,
                    x < w,
                    y < h,
                    pi == y * w + x,
                    0 <= pi < n,
                    n_exec == n,
                    pi % wi == x && pi / wi == y,
                    n == binary.pixels@.len(),
                    kk == k@,
                    kk >= 0,
                    visited@.len() == n,
                    *marked == count_true(visited@),
                    count_true(visited@) <= n,
                    n <= u64::MAX,
                    0 <= s0 < n,
                    s0 == sy * w + sx,
                    box_inside(comp, w as int, h as int),
                    lab.len() == n,
                    label0@.len() == n,
                    forall|i: int| 0 <= i < n ==> (#[trigger] visited@[i] <==> lab[i] >= 0),
                    forall|i: int| 0 <= i < n ==> -1 <= #[trigger] label0@[i] < kk,
                    forall|i: int| 0 <= i < n && 0 <= #[trigger] label0@[i] ==> fg(p, i),
                    forall|i: int| 0 <= i < s0 && fg(p, i) ==> 0 <= #[trigger] label0@[i],
                    forall|i: int, j: int| adjacent(wi, hi, i, j) && fg(p, i) && fg(p, j) && 0 <= label0@[i]
                        ==> #[trigger] label0@[j] == #[trigger] label0@[i],
                    forall|i: int| 0 <= i < n && 0 <= #[trigger] label0@[i] ==> lab[i] == label0@[i],
                    forall|i: int| 0 <= i < n && label0@[i] < 0 ==> #[trigger] lab[i] == -1 || lab[i] == kk,
                    forall|i: int| 0 <= i < n && #[trigger] lab[i] == kk ==> fg(p, i) && connected(p, wi, hi, s0, i)
                        && s0 <= i && in_box(comp, i, wi),
                    lab[s0] == kk,
                    lab[pi] == kk,
                    0 <= wx0 < n && lab[wx0] == kk && wx0 % wi == comp.min_x,
                    0 <= wx1 < n && lab[wx1] == kk && wx1 % wi == comp.max_x,
                    0 <= wy0 < n && lab[wy0] == kk && wy0 / wi == comp.min_y,
                    0 <= wy1 < n && lab[wy1] == kk && wy1 / wi == comp.max_y,
                    comp.pixel_count == count_label(lab, kk),
                    comp.pixel_count <= count_true(visited@),
                    forall|q: int| 0 <= q < stack@.len() ==> (#[trigger] stack@[q]).0 < w && stack@[q].1 < h
                        && lab[stack@[q].1 * w + stack@[q].0] == kk,
                    forall|i: int| 0 <= i < n && #[trigger] lab[i] == kk ==> on_stack(stack@, wi, i) || closed_in(p, lab, wi, hi, i, kk) || i == pi,
                    forall|dd: int| 0 <= dd < d ==> match #[trigger] nb(wi, hi, pi, dd) {
                        Some(j) => fg(p, j) ==> lab[j] == kk,
                        None => true,
                    },
                    2 * (n - count_true(visited@)) + stack@.len() < m0,
                decreases 8 - d,
            {
                let ghost lab_d = lab;
                let nbr = neighbour(x, y, d, w, h);
                if let Some((nx, ny)) = nbr {
                    proof {
                        lemma_index_in_bounds(nx as int, ny as int, w as int, h as int);
                        lemma_coords(nx as int, ny as int, w as int);
                        lemma_nb_adjacent(wi, hi, pi, d as int);
                    }
                    let ghost j: int = ny * w + nx;
                    let idx = (ny as usize) * (w as usize) + (nx as usize);
                    if binary.pixels[idx] > 0 {
                        if !visited[idx] {
                            proof {
                                lemma_count_true_set(visited@, idx as int);
                                lemma_count_true_bound(visited@.update(idx as int, true));
                                lemma_count_label_set(lab, j, kk);
                                assert(label0@[j] < 0);
                                assert(s0 <= j) by {
                                    if j < s0 {
                                        assert(0 <= label0@[j]);
                                    }
                                }
                                assert(adjacent(wi, hi, pi, j));
                                assert(0 <= j < p.len() && fg(p, j));
                                lemma_link_step(p, wi, hi, s0, pi, j);
                                assert(connected(p, wi, hi, s0, j));
                            }
                            let ghost before = lab;
                            let ghost old_comp = comp;
                            proof {
                                lab = lab.update(j, kk);
                            }
                            visited[idx] = true;
                            *marked = *marked + 1;
                            if nx < comp.min_x {
                                proof { wx0 = j; }
                            }
                            if nx > comp.max_x {
                                proof { wx1 = j; }
                            }
                            if ny < comp.min_y {
                                proof { wy0 = j; }
                            }
                            if ny > comp.max_y {
                                proof { wy1 = j; }
                            }
                            comp.expand(nx, ny);
                            let ghost st1 = stack@;
                            stack.push((nx, ny));
                            proof {
                                assert(on_stack(stack@, wi, j)) by {
                                    assert(stack@[st1.len() as int] == (nx, ny));
                                }
                                assert forall|i: int| 0 <= i < n && #[trigger] lab[i] == kk implies fg(p, i) && connected(p, wi, hi, s0, i)
                                    && s0 <= i && in_box(comp, i, wi) by {
                                    if i != j {
                                        assert(before[i] == kk);
                                        assert(in_box(old_comp, i, wi));
                                    }
                                }
                                assert forall|i: int| 0 <= i < n && #[trigger] lab[i] == kk implies on_stack(stack@, wi, i) || closed_in(p, lab, wi, hi, i, kk) || i == pi by {
                                    if i != j {
                                        assert(before[i] == kk);
                                        if on_stack(st1, wi, i) {
                                            let q = choose|q: int| 0 <= q < st1.len() && #[trigger] st1[q].1 * wi + st1[q].0 == i;
                                            assert(stack@[q] == st1[q]);
                                        } else if closed_in(p, before, wi, hi, i, kk) {
                                            assert forall|jj: int| #[trigger] adjacent(wi, hi, i, jj) && fg(p, jj) implies lab[jj] == kk by {
                                                assert(before[jj] == kk);
                                            }
                                        }
                                    }
                                }
                                assert forall|q: int| 0 <= q < stack@.len() implies (#[trigger] stack@[q]).0 < w && stack@[q].1 < h
                                    && lab[stack@[q].1 * w + stack@[q].0] == kk by {
                                    if q < st1.len() {
                                        assert(stack@[q] == st1[q]);
                                        lemma_index_in_bounds(st1[q].0 as int, st1[q].1 as int, w as int, h as int);
                                        assert(st1[q].0 < w && st1[q].1 < h && before[st1[q].1 * w + st1[q].0] == kk);
                                    } else {
                                        assert(stack@[q] == (nx, ny));
                                    }
                                }
                            }
                        } else {
                            proof {
                                assert(lab[j] == kk) by {
                                    if lab[j] != kk {
                                        assert(label0@[j] >= 0);
                                        assert(adjacent(wi, hi, j, pi));
                                        assert(label0@[pi] == label0@[j]);
                                    }
                                }
                            }
                        }
                    }
                }
                proof {
                    assert(match nb(wi, hi, pi, d as int) {
                        Some(j) => fg(p, j) ==> lab[j] == kk,
                        None => true,
                    });
                    assert forall|i: int| 0 <= i < n && lab_d[i] == kk implies lab[i] == kk by {}
                    assert forall|dd: int| 0 <= dd < d + 1 implies match #[trigger] nb(wi, hi, pi, dd) {
                        Some(j) => fg(p, j) ==> lab[j] == kk,
                        None => true,
                    } by {
                        if dd < d {
                            lemma_nb_adjacent(wi, hi, pi, dd);
                            if let Some(j) = nb(wi, hi, pi, dd) {
                                if fg(p, j) {
                                    assert(lab_d[j] == kk);
                                }
                            }
                        }
                    }
                }
                d = d + 1;
            }
            proof {
                assert forall|jj: int| #[trigger] adjacent(wi, hi, pi, jj) && fg(p, jj) implies lab[jj] == kk by {
                    lemma_direction(wi, hi, pi, jj);
                    let dd = choose|dd: int| 0 <= dd < 8 && #[trigger] nb(wi, hi, pi, dd) == Some(jj);
                }
                assert(closed_in(p, lab, wi, hi, pi, kk));
            }
        }
        proof {
            assert forall|i: int, j: int| adjacent(wi, hi, i, j) && fg(p, i) && fg(p, j) && 0 <= lab[i]
                implies #[trigger] lab[j] == #[trigger] lab[i] by {
                if lab[i] == kk {
                    assert(closed_in(p, lab, wi, hi, i, kk));
                } else {
                    assert(label0@[i] >= 0);
                    assert(label0@[j] == label0@[i]);
                }
            }
            assert forall|i: int| 0 <= i < n && 0 <= #[trigger] label0@[i] implies lab[i] == label0@[i] by {}
        }
        (comp, Ghost(lab))
    }

    /// The 8-connected foreground components of a binary image, in scan
    /// order of their first pixels, each with its bounding box and size.
    pub fn find_connected_components(binary: &GrayImage) -> (r: Vec<ConnectedComponent>)
        requires
            binary.wf(),
        ensures
            forall|k: int| 0 <= k < r@.len() ==> box_inside(#[trigger] r@[k], binary.width as int, binary.height as int),
            components_of(binary.pixels@, binary.width as int, binary.height as int, r@),
    {
        let w = binary.width;
        let h = binary.height;
        let n = binary.pixels.len();
        let ghost p = binary.pixels@;
        let ghost wi = w as int;
        let ghost hi = h as int;
        let mut visited: Vec<bool> = Vec::new();
        let mut j: usize = 0;
        while j < n
            invariant
                j <= n,
                visited@.len() == j,
                forall|k: int| 0 <= k < j ==> !visited@[k],
            decreases n - j,
        {
            visited.push(false);
            j = j + 1;
        }
        proof {
            assert(count_true(visited@) == 0) by {
                lemma_count_false(visited@);
            }
        }
        let ghost mut label: Seq<int> = Seq::new(n as nat, |i: int| -1int);
        let ghost mut anchor: Seq<int> = Seq::empty();
        let mut marked: u64 = 0;
        let mut comps: Vec<ConnectedComponent> = Vec::new();
        let mut y: u32 = 0;
        while y < h
            invariant
                binary.wf(),
                w == binary.width,
                h == binary.height,
                wi == w,
                hi == h,
                p == binary.pixels@,
                n == binary.pixels@.len(),
                visited@.len() == n,
                y <= h,
                marked == count_true(visited@),
                forall|k: int| 0 <= k < comps@.len() ==> box_inside(#[trigger] comps@[k], w as int, h as int),
                scan_state(p, wi, hi, comps@, label, anchor, visited@, y * w),
            decreases h - y,
        {
            let mut x: u32 = 0;
            while x < w
                invariant
                    binary.wf(),
                    w == binary.width,
                    h == binary.height,
                    wi == w,
                    hi == h,
                    p == binary.pixels@,
                    n == binary.pixels@.len(),
                    visited@.len() == n,
                    y < h,
                    x <= w,
                    marked == count_true(visited@),
                    forall|k: int| 0 <= k < comps@.len() ==> box_inside(#[trigger] comps@[k], w as int, h as int),
                    scan_state(p, wi, hi, comps@, label, anchor, visited@, y * w + x),
                decreases w - x,
            {
                proof {
                    lemma_index_in_bounds(x as int, y as int, w as int, h as int);
                }
                let idx = (y as usize) * (w as usize) + (x as usize);
                let ghost pos: int = y * w + x;
                if !visited[idx] && binary.pixels[idx] > 0 {
                    let ghost old_comps = comps@;
                    let ghost kk: int = comps@.len() as int;
                    let (c, lab) = Self::flood_fill(binary, x, y, &mut visited, &mut marked, Ghost(label), Ghost(kk));
                    comps.push(c);
                    proof {
                        lemma_scan_step(p, wi, hi, old_comps, label, anchor, c, lab@, pos);
                        label = lab@;
                        anchor = anchor.push(pos);
                    }
                } else {
                    proof {
                        lemma_scan_skip(p, wi, hi, comps@, label, anchor, visited@, pos);
                    }
                }
                x = x + 1;
            }
            assert((y + 1) * w == y * w + w) by (nonlinear_arith);
            y = y + 1;
        }
        assert(y * w == n) by (nonlinear_arith)
            requires y == h, n == w * h;
        proof {
            assert(labelling(p, wi, hi, comps@, label, anchor));
        }
        comps
    }
}

pub open spec fn on_stack(st: Seq<(u32, u32)>, w: int, i: int) -> bool {
    exists|q: int| 0 <= q < st.len() && #[trigger] st[q].1 * w + st[q].0 == i
}

/// Every foreground pixel touching `i` is labelled `k`.
pub open spec fn closed_in(p: Seq<u8>, lab: Seq<int>, w: int, h: int, i: int, k: int) -> bool {
    forall|j: int| #[trigger] adjacent(w, h, i, j) && fg(p, j) ==> lab[j] == k
}

/// The labelling built while scanning, up to pixel `pos`.
pub open spec fn scan_state(
    p: Seq<u8>,
    w: int,
    h: int,
    cs: Seq<ConnectedComponent>,
    label: Seq<int>,
    anchor: Seq<int>,
    visited: Seq<bool>,
    pos: int,
) -> bool {
    &&& p.len() == w * h
    &&& label.len() == p.len()
    &&& anchor.len() == cs.len()
    &&& 0 <= pos <= p.len()
    &&& forall|i: int| 0 <= i < p.len() ==> (#[trigger] visited[i] <==> label[i] >= 0)
    &&& forall|i: int| 0 <= i < p.len() ==> -1 <= #[trigger] label[i] < cs.len()
    &&& forall|i: int| 0 <= i < p.len() && 0 <= #[trigger] label[i] ==> fg(p, i)
    &&& forall|i: int| 0 <= i < pos && fg(p, i) ==> 0 <= #[trigger] label[i]
    &&& forall|i: int, j: int| adjacent(w, h, i, j) && fg(p, i) && fg(p, j) && 0 <= label[i] ==> #[trigger] label[j] == #[trigger] label[i]
    &&& forall|i: int| 0 <= i < p.len() && 0 <= #[trigger] label[i] ==> connected(p, w, h, anchor[label[i]], i)
    &&& forall|k: int| 0 <= k < cs.len() ==> 0 <= #[trigger] anchor[k] < pos && label[anchor[k]] == k
    &&& forall|i: int| 0 <= i < p.len() && 0 <= #[trigger] label[i] ==> anchor[label[i]] <= i
    &&& forall|k1: int, k2: int| 0 <= k1 < k2 < cs.len() ==> #[trigger] anchor[k1] < #[trigger] anchor[k2]
    &&& forall|k: int| 0 <= k < cs.len() ==> #[trigger] summarises(cs[k], label, k, w)
}

proof fn lemma_path_same_label(p: Seq<u8>, w: int, h: int, label: Seq<int>, s: int, t: int, path: Seq<int>)
    requires
        is_path(p, w, h, s, t, path),
        forall|i: int, j: int| adjacent(w, h, i, j) && fg(p, i) && fg(p, j) ==> #[trigger] label[i] == #[trigger] label[j],
    ensures
        label[s] == label[t],
    decreases path.len(),
{
    if path.len() > 1 {
        let q = path.drop_last();
        assert(adjacent(w, h, path[path.len() - 2], path[path.len() - 1]));
        assert forall|k: int| 0 <= k < q.len() - 1 implies adjacent(w, h, #[trigger] q[k], q[k + 1]) by {
            assert(q[k] == path[k] && q[k + 1] == path[k + 1]);
        }
        assert forall|k: int| 0 <= k < q.len() implies 0 <= #[trigger] q[k] < p.len() && fg(p, q[k]) by {
            assert(q[k] == path[k]);
        }
        lemma_path_same_label(p, w, h, label, s, q.last(), q);
    }
}

proof fn lemma_path_reverse(p: Seq<u8>, w: int, h: int, s: int, t: int, path: Seq<int>)
    requires
        is_path(p, w, h, s, t, path),
    ensures
        connected(p, w, h, t, s),
{
    let n = path.len();
    let r = Seq::new(n, |k: int| path[n - 1 - k]);
    assert forall|k: int| 0 <= k < r.len() - 1 implies adjacent(w, h, #[trigger] r[k], r[k + 1]) by {
        assert(adjacent(w, h, path[n - 2 - k], path[n - 1 - k]));
    }
    assert forall|k: int| 0 <= k < r.len() implies 0 <= #[trigger] r[k] < p.len() && fg(p, r[k]) by {
        assert(r[k] == path[n - 1 - k]);
    }
    assert(is_path(p, w, h, t, s, r));
}

proof fn lemma_path_join(p: Seq<u8>, w: int, h: int, a: int, b: int, c: int, p1: Seq<int>, p2: Seq<int>)
    requires
        is_path(p, w, h, a, b, p1),
        is_path(p, w, h, b, c, p2),
    ensures
        connected(p, w, h, a, c),
{
    let j = p1 + p2.drop_first();
    assert forall|k: int| 0 <= k < j.len() implies 0 <= #[trigger] j[k] < p.len() && fg(p, j[k]) by {
        if k >= p1.len() {
            assert(j[k] == p2[k - p1.len() + 1]);
        }
    }
    assert forall|k: int| 0 <= k < j.len() - 1 implies adjacent(w, h, #[trigger] j[k], j[k + 1]) by {
        if k < p1.len() - 1 {
            assert(j[k] == p1[k] && j[k + 1] == p1[k + 1]);
        } else if k == p1.len() - 1 {
            assert(j[k] == b && p2[0] == b);
            assert(j[k + 1] == p2[1]);
            assert(adjacent(w, h, p2[0], p2[1]));
        } else {
            assert(j[k] == p2[k - p1.len() + 1] && j[k + 1] == p2[k - p1.len() + 2]);
        }
    }
    if p2.len() == 1 {
        assert(j =~= p1);
    } else {
        assert(j.last() == p2.last());
    }
    assert(is_path(p, w, h, a, c, j));
}

/// In a labelling, two foreground pixels share a label exactly when they
/// are 8-connected: each label is one whole component, and no component is
/// split.
pub proof fn lemma_components_are_maximal(
    p: Seq<u8>,
    w: int,
    h: int,
    cs: Seq<ConnectedComponent>,
    label: Seq<int>,
    anchor: Seq<int>,
    i: int,
    j: int,
)
    requires
        labelling(p, w, h, cs, label, anchor),
        0 <= i < p.len(),
        0 <= j < p.len(),
        fg(p, i),
        fg(p, j),
    ensures
        (label[i] == label[j]) <==> connected(p, w, h, i, j),
{
    if connected(p, w, h, i, j) {
        let path = choose|path: Seq<int>| #[trigger] is_path(p, w, h, i, j, path);
        lemma_path_same_label(p, w, h, label, i, j, path);
    }
    if label[i] == label[j] {
        let a = anchor[label[i]];
        assert(connected(p, w, h, a, i));
        assert(connected(p, w, h, a, j));
        let pi = choose|path: Seq<int>| #[trigger] is_path(p, w, h, a, i, path);
        let pj = choose|path: Seq<int>| #[trigger] is_path(p, w, h, a, j, path);
        lemma_path_reverse(p, w, h, a, i, pi);
        let ri = choose|path: Seq<int>| #[trigger] is_path(p, w, h, i, a, path);
        lemma_path_join(p, w, h, i, a, j, ri, pj);
    }
}

proof fn lemma_increasing_same_set(a: Seq<int>, b: Seq<int>)
    requires
        forall|k1: int, k2: int| 0 <= k1 < k2 < a.len() ==> #[trigger] a[k1] < #[trigger] a[k2],
        forall|k1: int, k2: int| 0 <= k1 < k2 < b.len() ==> #[trigger] b[k1] < #[trigger] b[k2],
        forall|k: int| 0 <= k < a.len() ==> b.contains(#[trigger] a[k]),
        forall|k: int| 0 <= k < b.len() ==> a.contains(#[trigger] b[k]),
    ensures
        a == b,
    decreases a.len() + b.len(),
{
    if a.len() > 0 && b.len() > 0 {
        let la = a.last();
        let lb = b.last();
        let qa = choose|q: int| 0 <= q < b.len() && b[q] == la;
        let qb = choose|q: int| 0 <= q < a.len() && a[q] == lb;
        if qa < b.len() - 1 {
            assert(b[qa] < b[b.len() - 1]);
        }
        if qb < a.len() - 1 {
            assert(a[qb] < a[a.len() - 1]);
        }
        assert(la == lb);
        let da = a.drop_last();
        let db = b.drop_last();
        assert forall|k: int| 0 <= k < da.len() implies db.contains(#[trigger] da[k]) by {
            let q = choose|q: int| 0 <= q < b.len() && b[q] == a[k];
            assert(a[k] < la);
            if q == b.len() - 1 {
                assert(false);
            }
            assert(db[q] == b[q]);
        }
        assert forall|k: int| 0 <= k < db.len() implies da.contains(#[trigger] db[k]) by {
            let q = choose|q: int| 0 <= q < a.len() && a[q] == b[k];
            assert(b[k] < lb);
            if q == a.len() - 1 {
                assert(false);
            }
            assert(da[q] == a[q]);
        }
        lemma_increasing_same_set(da, db);
        assert(a =~= da.push(la));
        assert(b =~= db.push(lb));
    } else if a.len() > 0 {
        assert(b.contains(a[0]));
    } else if b.len() > 0 {
        assert(a.contains(b[0]));
    } else {
        assert(a =~= b);
    }
}

/// A pixel that is the first of its component: foreground and connected
/// to no earlier pixel.
pub open spec fn first_of_component(p: Seq<u8>, w: int, h: int, m: int) -> bool {
    0 <= m < p.len() && fg(p, m) && forall|j: int| 0 <= j < m && fg(p, j) ==> !#[trigger] connected(p, w, h, j, m)
}

proof fn lemma_anchor_is_first(p: Seq<u8>, w: int, h: int, cs: Seq<ConnectedComponent>, label: Seq<int>, anchor: Seq<int>, m: int)
    requires
        labelling(p, w, h, cs, label, anchor),
        0 <= m < p.len(),
        fg(p, m),
    ensures
        first_of_component(p, w, h, m) <==> anchor.contains(m),
{
    let k = label[m];
    assert(0 <= k < cs.len());
    assert(0 <= anchor[k] < p.len() && label[anchor[k]] == k);
    lemma_components_are_maximal(p, w, h, cs, label, anchor, anchor[k], m);
    if first_of_component(p, w, h, m) {
        if anchor[k] < m {
            assert(!connected(p, w, h, anchor[k], m));
        }
        assert(anchor[k] <= m);
        assert(anchor[k] == m);
        assert(anchor.contains(m));
    }
    if anchor.contains(m) {
        let q = choose|q: int| 0 <= q < anchor.len() && anchor[q] == m;
        assert(label[anchor[q]] == q);
        assert forall|j: int| 0 <= j < m && fg(p, j) implies !#[trigger] connected(p, w, h, j, m) by {
            lemma_components_are_maximal(p, w, h, cs, label, anchor, j, m);
            if connected(p, w, h, j, m) {
                assert(label[j] == q);
                assert(anchor[label[j]] <= j);
            }
        }
    }
}

/// A labelling is unique: the components it lists are determined by the
/// image alone.
pub proof fn lemma_components_unique(
    p: Seq<u8>,
    w: int,
    h: int,
    cs1: Seq<ConnectedComponent>,
    l1: Seq<int>,
    a1: Seq<int>,
    cs2: Seq<ConnectedComponent>,
    l2: Seq<int>,
    a2: Seq<int>,
)
    requires
        labelling(p, w, h, cs1, l1, a1),
        labelling(p, w, h, cs2, l2, a2),
    ensures
        cs1 == cs2,
{
    assert forall|k: int| 0 <= k < a1.len() implies a2.contains(#[trigger] a1[k]) by {
        assert(0 <= a1[k] < p.len() && l1[a1[k]] == k);
        lemma_anchor_is_first(p, w, h, cs1, l1, a1, a1[k]);
        lemma_anchor_is_first(p, w, h, cs2, l2, a2, a1[k]);
    }
    assert forall|k: int| 0 <= k < a2.len() implies a1.contains(#[trigger] a2[k]) by {
        assert(0 <= a2[k] < p.len() && l2[a2[k]] == k);
        lemma_anchor_is_first(p, w, h, cs2, l2, a2, a2[k]);
        lemma_anchor_is_first(p, w, h, cs1, l1, a1, a2[k]);
    }
    lemma_increasing_same_set(a1, a2);
    assert forall|i: int| 0 <= i < p.len() implies #[trigger] l1[i] == l2[i] by {
        if fg(p, i) {
            let k = l1[i];
            let a = a1[k];
            assert(0 <= a < p.len() && l1[a] == k && l2[a] == k);
            lemma_components_are_maximal(p, w, h, cs1, l1, a1, a, i);
            lemma_components_are_maximal(p, w, h, cs2, l2, a2, a, i);
        }
    }
    assert(l1 =~= l2);
    assert forall|k: int| 0 <= k < cs1.len() implies #[trigger] cs1[k] == cs2[k] by {
        let c1 = cs1[k];
        let c2 = cs2[k];
        assert(summarises(c1, l1, k, w));
        assert(summarises(c2, l2, k, w));
        let i0 = choose|i: int| 0 <= i < l1.len() && l1[i] == k && #[trigger] (i % w) == c1.min_x;
        let j0 = choose|i: int| 0 <= i < l2.len() && l2[i] == k && #[trigger] (i % w) == c2.min_x;
        assert(in_box(c2, i0, w) && in_box(c1, j0, w));
        let i1 = choose|i: int| 0 <= i < l1.len() && l1[i] == k && #[trigger] (i % w) == c1.max_x;
        let j1 = choose|i: int| 0 <= i < l2.len() && l2[i] == k && #[trigger] (i % w) == c2.max_x;
        assert(in_box(c2, i1, w) && in_box(c1, j1, w));
        let i2 = choose|i: int| 0 <= i < l1.len() && l1[i] == k && #[trigger] (i / w) == c1.min_y;
        let j2 = choose|i: int| 0 <= i < l2.len() && l2[i] == k && #[trigger] (i / w) == c2.min_y;
        assert(in_box(c2, i2, w) && in_box(c1, j2, w));
        let i3 = choose|i: int| 0 <= i < l1.len() && l1[i] == k && #[trigger] (i / w) == c1.max_y;
        let j3 = choose|i: int| 0 <= i < l2.len() && l2[i] == k && #[trigger] (i / w) == c2.max_y;
        assert(in_box(c2, i3, w) && in_box(c1, j3, w));
    }
    assert(cs1 =~= cs2);
}

proof fn lemma_link_step(p: Seq<u8>, w: int, h: int, s: int, u: int, t: int)
    requires
        connected(p, w, h, s, u),
        adjacent(w, h, u, t),
        0 <= t < p.len(),
        fg(p, t),
    ensures
        connected(p, w, h, s, t),
{
    let path = choose|path: Seq<int>| #[trigger] is_path(p, w, h, s, u, path);
    let np = path.push(t);
    assert forall|q: int| 0 <= q < np.len() - 1 implies adjacent(w, h, #[trigger] np[q], np[q + 1]) by {
        if q < path.len() - 1 {
            assert(np[q] == path[q] && np[q + 1] == path[q + 1]);
        } else {
            assert(np[q] == u);
        }
    }
    assert forall|q: int| 0 <= q < np.len() implies 0 <= #[trigger] np[q] < p.len() && fg(p, np[q]) by {
        if q < path.len() {
            assert(np[q] == path[q]);
        }
    }
    assert(is_path(p, w, h, s, t, np));
}

proof fn lemma_nb_adjacent(w: int, h: int, i: int, d: int)
    requires
        w > 0,
        h > 0,
        0 <= i < w * h,
        0 <= d < 8,
    ensures
        nb(w, h, i, d) matches Some(j) ==> adjacent(w, h, i, j) && adjacent(w, h, j, i),
{
    if let Some(j) = nb(w, h, i, d) {
        let x = i % w + step_x(d);
        let y = i / w + step_y(d);
        lemma_coords(x, y, w);
        lemma_index_in_bounds(x, y, w, h);
        assert(0 <= i % w < w && 0 <= i / w) by (nonlinear_arith)
            requires w > 0, 0 <= i;
        assert(i == (i / w) * w + i % w) by (nonlinear_arith)
            requires w > 0;
    }
}

proof fn lemma_count_label_none(label: Seq<int>, k: int)
    requires
        forall|i: int| 0 <= i < label.len() ==> #[trigger] label[i] != k,
    ensures
        count_label(label, k) == 0,
    decreases label.len(),
{
    if label.len() > 0 {
        lemma_count_label_none(label.drop_last(), k);
    }
}

proof fn lemma_count_label_set(label: Seq<int>, i: int, k: int)
    requires
        0 <= i < label.len(),
        label[i] != k,
    ensures
        count_label(label.update(i, k), k) == count_label(label, k) + 1,
    decreases label.len(),
{
    let t = label.update(i, k);
    if i == label.len() - 1 {
        assert(t.drop_last() =~= label.drop_last());
    } else {
        assert(t.drop_last() =~= label.drop_last().update(i, k));
        lemma_count_label_set(label.drop_last(), i, k);
    }
}

proof fn lemma_count_label_same(a: Seq<int>, b: Seq<int>, k: int)
    requires
        a.len() == b.len(),
        forall|i: int| 0 <= i < a.len() ==> (#[trigger] a[i] == k <==> b[i] == k),
    ensures
        count_label(a, k) == count_label(b, k),
    decreases a.len(),
{
    if a.len() > 0 {
        lemma_count_label_same(a.drop_last(), b.drop_last(), k);
    }
}

proof fn lemma_scan_skip(
    p: Seq<u8>,
    w: int,
    h: int,
    cs: Seq<ConnectedComponent>,
    label: Seq<int>,
    anchor: Seq<int>,
    visited: Seq<bool>,
    pos: int,
)
    requires
        scan_state(p, w, h, cs, label, anchor, visited, pos),
        0 <= pos < p.len(),
        visited[pos] || !fg(p, pos),
    ensures
        scan_state(p, w, h, cs, label, anchor, visited, pos + 1),
{
    assert forall|i: int| 0 <= i < pos + 1 && fg(p, i) implies 0 <= #[trigger] label[i] by {
        if i == pos {
            assert(visited[pos]);
        }
    }
}

proof fn lemma_scan_step(
    p: Seq<u8>,
    w: int,
    h: int,
    cs: Seq<ConnectedComponent>,
    label: Seq<int>,
    anchor: Seq<int>,
    c: ConnectedComponent,
    lab: Seq<int>,
    pos: int,
)
    requires
        scan_state(p, w, h, cs, label, anchor, Seq::new(p.len(), |i: int| label[i] >= 0), pos),
        0 <= pos < p.len(),
        fg(p, pos),
        lab.len() == label.len(),
        forall|i: int| 0 <= i < lab.len() && 0 <= #[trigger] label[i] ==> lab[i] == label[i],
        forall|i: int| 0 <= i < lab.len() && label[i] < 0 ==> #[trigger] lab[i] == -1 || lab[i] == cs.len(),
        forall|i: int| 0 <= i < lab.len() && #[trigger] lab[i] == cs.len() ==> fg(p, i) && connected(p, w, h, pos, i) && pos <= i,
        lab[pos] == cs.len(),
        forall|i: int, j: int| adjacent(w, h, i, j) && fg(p, i) && fg(p, j) && 0 <= lab[i] ==> #[trigger] lab[j] == #[trigger] lab[i],
        summarises(c, lab, cs.len() as int, w),
    ensures
        scan_state(p, w, h, cs.push(c), lab, anchor.push(pos), Seq::new(p.len(), |i: int| lab[i] >= 0), pos + 1),
{
    let k = cs.len() as int;
    let cs2 = cs.push(c);
    let an2 = anchor.push(pos);
    assert forall|k2: int| 0 <= k2 < cs2.len() implies #[trigger] summarises(cs2[k2], lab, k2, w) by {
        if k2 < k {
            assert(summarises(cs[k2], label, k2, w));
            assert(cs2[k2] == cs[k2]);
            assert forall|i: int| 0 <= i < label.len() implies (#[trigger] label[i] == k2 <==> lab[i] == k2) by {}
            lemma_count_label_same(label, lab, k2);
            let i0 = choose|i: int| 0 <= i < label.len() && label[i] == k2 && #[trigger] (i % w) == cs[k2].min_x;
            let i1 = choose|i: int| 0 <= i < label.len() && label[i] == k2 && #[trigger] (i % w) == cs[k2].max_x;
            let i2 = choose|i: int| 0 <= i < label.len() && label[i] == k2 && #[trigger] (i / w) == cs[k2].min_y;
            let i3 = choose|i: int| 0 <= i < label.len() && label[i] == k2 && #[trigger] (i / w) == cs[k2].max_y;
            assert(lab[i0] == k2 && lab[i1] == k2 && lab[i2] == k2 && lab[i3] == k2);
        } else {
            assert(cs2[k2] == c);
        }
    }
    assert forall|i: int| 0 <= i < p.len() && 0 <= #[trigger] lab[i] implies connected(p, w, h, an2[lab[i]], i) by {
        if label[i] >= 0 {
            assert(lab[i] == label[i]);
        }
    }
    assert forall|i: int| 0 <= i < p.len() && 0 <= #[trigger] lab[i] implies an2[lab[i]] <= i by {
        if label[i] >= 0 {
            assert(lab[i] == label[i]);
        }
    }
    assert forall|i: int| 0 <= i < pos + 1 && fg(p, i) implies 0 <= #[trigger] lab[i] by {
        if i < pos {
            assert(0 <= label[i]);
        }
    }
    assert forall|k2: int| 0 <= k2 < cs2.len() implies 0 <= #[trigger] an2[k2] < pos + 1 && lab[an2[k2]] == k2 by {
        if k2 < k {
            assert(label[anchor[k2]] == k2);
        }
    }
}

proof fn lemma_count_false(s: Seq<bool>)
    requires
        forall|k: int| 0 <= k < s.len() ==> !s[k],
    ensures
        count_true(s) == 0,
    decreases s.len(),
{
    if s.len() > 0 {
        lemma_count_false(s.drop_last());
    }
}

/// The trim positions of one edge. `component_count` components lie near
/// that edge; the edge's confidence is that count over all components.
#[derive(Debug, Clone, Copy, PartialEq, Eq)]
pub struct ContentBoundary {
    pub safe_position: u32,
    pub aggressive_position: u32,
    pub component_count: usize,
}

impl Default for ContentBoundary {
    fn default() -> (r: ContentBoundary)
        ensures
            r == (ContentBoundary { safe_position: 0, aggressive_position: 0, component_count: 0 }),
    {
        ContentBoundary { safe_position: 0, aggressive_position: 0, component_count: 0 }
    }
}

/// The four edges of a page's content.
#[derive(Debug)]
pub struct ContentBoundaries {
    pub top: ContentBoundary,
    pub bottom: ContentBoundary,
    pub left: ContentBoundary,
    pub right: ContentBoundary,
    pub image_size: (u32, u32),
    pub otsu_threshold: u8,
    pub total_components: usize,
}

impl ContentBoundaries {
    /// The rectangle between the safe positions.
    pub fn safe_content_rect(&self) -> (r: ContentRect)
        ensures
            r.x == self.left.safe_position,
            r.y == self.top.safe_position,
            r.width == sat_sub(self.right.safe_position as int, self.left.safe_position as int),
            r.height == sat_sub(self.bottom.safe_position as int, self.top.safe_position as int),
    {
        ContentRect {
            x: self.left.safe_position,
            y: self.top.safe_position,
            width: self.right.safe_position.saturating_sub(self.left.safe_position),
            height: self.bottom.safe_position.saturating_sub(self.top.safe_position),
        }
    }

    /// The rectangle between the aggressive positions.
    pub fn aggressive_content_rect(&self) -> (r: ContentRect)
        ensures
            r.x == self.left.aggressive_position,
            r.y == self.top.aggressive_position,
            r.width == sat_sub(self.right.aggressive_position as int, self.left.aggressive_position as int),
            r.height == sat_sub(self.bottom.aggressive_position as int, self.top.aggressive_position as int),
    {
        ContentRect {
            x: self.left.aggressive_position,
            y: self.top.aggressive_position,
            width: self.right.aggressive_position.saturating_sub(self.left.aggressive_position),
            height: self.bottom.aggressive_position.saturating_sub(self.top.aggressive_position),
        }
    }
}

pub open spec fn sat_sub(a: int, b: int) -> int {
    if a >= b { a - b } else { 0 }
}

pub open spec fn min2(a: int, b: int) -> int {
    if a <= b { a } else { b }
}

pub open spec fn max2(a: int, b: int) -> int {
    if a >= b { a } else { b }
}

/// Coordinate `k` of a component: 0 `min_x`, 1 `max_x`, 2 `min_y`, 3 `max_y`.
pub open spec fn coord(c: ConnectedComponent, k: int) -> int {
    if k == 0 {
        c.min_x as int
    } else if k == 1 {
        c.max_x as int
    } else if k == 2 {
        c.min_y as int
    } else {
        c.max_y as int
    }
}

/// The least coordinate `k` over `cs`, or `init` if smaller.
pub open spec fn fold_min(cs: Seq<ConnectedComponent>, k: int, init: int) -> int
    decreases cs.len(),
{
    if cs.len() == 0 {
        init
    } else {
        min2(fold_min(cs.drop_last(), k, init), coord(cs.last(), k))
    }
}

pub open spec fn fold_max(cs: Seq<ConnectedComponent>, k: int, init: int) -> int
    decreases cs.len(),
{
    if cs.len() == 0 {
        init
    } else {
        max2(fold_max(cs.drop_last(), k, init), coord(cs.last(), k))
    }
}

/// The component lies near edge `e` (0 top, 1 bottom, 2 left, 3 right):
/// within a quarter of the dimension.
pub open spec fn near_edge(c: ConnectedComponent, e: int, w: int, h: int) -> bool {
    if e == 0 {
        c.min_y < h / 4
    } else if e == 1 {
        c.max_y > h - h / 4
    } else if e == 2 {
        c.min_x < w / 4
    } else {
        c.max_x > w - w / 4
    }
}

pub open spec fn edge_count(cs: Seq<ConnectedComponent>, e: int, w: int, h: int) -> int
    decreases cs.len(),
{
    if cs.len() == 0 {
        0
    } else {
        edge_count(cs.drop_last(), e, w, h) + if near_edge(cs.last(), e, w, h) { 1int } else { 0 }
    }
}

/// The safety buffer for a dimension: its share in thousandths, at least
/// the minimum.
pub open spec fn buffer_for(dim: int, o: ContentAwareOptions) -> int {
    max2(o.min_safety_buffer as int, dim * o.safety_buffer_per_mille / 1000)
}

/// The boundaries that the valid components `cs` of a `w` by `h` page give.
pub open spec fn boundaries_match(
    r: ContentBoundaries,
    cs: Seq<ConnectedComponent>,
    w: int,
    h: int,
    o: ContentAwareOptions,
    threshold: u8,
) -> bool {
    let min_x = fold_min(cs, 0, w);
    let max_x = fold_max(cs, 1, 0);
    let min_y = fold_min(cs, 2, h);
    let max_y = fold_max(cs, 3, 0);
    let bx = buffer_for(w, o);
    let by = buffer_for(h, o);
    &&& r.top == ContentBoundary {
        safe_position: sat_sub(min_y, by) as u32,
        aggressive_position: min_y as u32,
        component_count: edge_count(cs, 0, w, h) as usize,
    }
    &&& r.bottom == ContentBoundary {
        safe_position: min2(max_y + by, h) as u32,
        aggressive_position: max_y as u32,
        component_count: edge_count(cs, 1, w, h) as usize,
    }
    &&& r.left == ContentBoundary {
        safe_position: sat_sub(min_x, bx) as u32,
        aggressive_position: min_x as u32,
        component_count: edge_count(cs, 2, w, h) as usize,
    }
    &&& r.right == ContentBoundary {
        safe_position: min2(max_x + bx, w) as u32,
        aggressive_position: max_x as u32,
        component_count: edge_count(cs, 3, w, h) as usize,
    }
    &&& r.image_size == (w as u32, h as u32)
    &&& r.otsu_threshold == threshold
    &&& r.total_components == cs.len()
}

/// Position `k` of a page's boundaries: 0 to 3 the safe top, bottom, left
/// and right, 4 to 7 the aggressive ones.
pub open spec fn position(b: ContentBoundaries, k: int) -> int {
    if k == 0 {
        b.top.safe_position as int
    } else if k == 1 {
        b.bottom.safe_position as int
    } else if k == 2 {
        b.left.safe_position as int
    } else if k == 3 {
        b.right.safe_position as int
    } else if k == 4 {
        b.top.aggressive_position as int
    } else if k == 5 {
        b.bottom.aggressive_position as int
    } else if k == 6 {
        b.left.aggressive_position as int
    } else {
        b.right.aggressive_position as int
    }
}

/// Top and left positions merge by minimum, bottom and right by maximum.
pub open spec fn merged_position(bs: Seq<ContentBoundaries>, k: int) -> int
    decreases bs.len(),
{
    if bs.len() == 0 {
        if k % 2 == 0 { u32::MAX as int } else { 0 }
    } else {
        let prev = merged_position(bs.drop_last(), k);
        let v = position(bs.last(), k);
        if k % 2 == 0 { min2(prev, v) } else { max2(prev, v) }
    }
}

pub open spec fn total_of(bs: Seq<ContentBoundaries>) -> int
    decreases bs.len(),
{
    if bs.len() == 0 {
        0
    } else {
        total_of(bs.drop_last()) + bs.last().total_components
    }
}

proof fn lemma_total_prefix(bs: Seq<ContentBoundaries>, i: int)
    requires
        0 <= i <= bs.len(),
    ensures
        total_of(bs.take(i)) <= total_of(bs),
    decreases bs.len(),
{
    if i < bs.len() {
        assert(bs.drop_last().take(i) =~= bs.take(i));
        lemma_total_prefix(bs.drop_last(), i);
    } else {
        assert(bs.take(i) =~= bs);
    }
}

/// Detects where page content begins and ends.
pub struct ContentAwareBoundaryDetector;

} // verus!
