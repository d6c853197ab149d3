//! Group crop unification: Tukey-fence outlier rejection over per-page
//! content boxes, then the per-edge median of the pages that remain.
//!
//! Quartiles are carried as four times their value, so the linear
//! interpolation at `0.25·(n−1)` and `0.75·(n−1)` and the fence
//! `[Q1 − 1.5·IQR, Q3 + 1.5·IQR]` are exact integer arithmetic.

use vstd::prelude::*;
use crate::geometry::{ContentRect, MarginError};
use crate::content::GrayImage;
use crate::sorting::{sort_ascending, sorted_seq, lemma_sorted_ascending, lemma_sorted_len};

verus! {

/// The content box of one page, numbered from 1.
#[derive(Debug, Clone, Copy, PartialEq, Eq)]
pub struct PageBoundingBox {
    pub page_number: usize,
    pub bounding_box: ContentRect,
    pub is_odd: bool,
}

/// The unified crop rectangle of a group of pages.
#[derive(Debug, Clone, Copy, PartialEq, Eq)]
pub struct GroupCropRegion {
    pub left: u32,
    pub top: u32,
    pub width: u32,
    pub height: u32,
    pub inlier_count: usize,
    pub total_count: usize,
}

/// Separate crop rectangles for odd and even pages.
#[derive(Debug, Clone, Copy, PartialEq, Eq)]
pub struct UnifiedCropRegions {
    pub odd_region: GroupCropRegion,
    pub even_region: GroupCropRegion,
}

/// Decides crop rectangles across the pages of a book.
pub struct GroupCropAnalyzer;

pub open spec fn box_valid(b: PageBoundingBox) -> bool {
    b.bounding_box.width > 0 && b.bounding_box.height > 0
}

/// Edge `k` of a box: 0 left, 1 top, 2 right, 3 bottom.
pub open spec fn edge(b: PageBoundingBox, k: int) -> u32 {
    let r = b.bounding_box;
    if k == 0 {
        r.x
    } else if k == 1 {
        r.y
    } else if k == 2 {
        (r.x + r.width) as u32
    } else {
        (r.y + r.height) as u32
    }
}

pub open spec fn edges(bs: Seq<PageBoundingBox>, k: int) -> Seq<u32> {
    bs.map_values(|b: PageBoundingBox| edge(b, k))
}

pub open spec fn all_fit(bs: Seq<PageBoundingBox>) -> bool {
    forall|i: int| 0 <= i < bs.len() ==> (#[trigger] bs[i]).bounding_box.fits()
}

/// Four times the quartile at `p/4` of ascending `t`, linearly interpolated.
pub open spec fn quartile4(t: Seq<u32>, p: int) -> int {
    if t.len() == 0 {
        0
    } else {
        let pos = p * (t.len() - 1);
        let lo = pos / 4;
        let rem = pos % 4;
        if rem == 0 {
            4 * t[lo]
        } else {
            4 * t[lo] + (t[lo + 1] - t[lo]) * rem
        }
    }
}

/// Four times the interquartile range, at least one.
pub open spec fn iqr4(t: Seq<u32>) -> int {
    let d = quartile4(t, 3) - quartile4(t, 1);
    if d < 4 { 4 } else { d }
}

/// Eight times the lower and upper Tukey fences of ascending `t`.
pub open spec fn lower8(t: Seq<u32>) -> int {
    2 * quartile4(t, 1) - 3 * iqr4(t)
}

pub open spec fn upper8(t: Seq<u32>) -> int {
    2 * quartile4(t, 3) + 3 * iqr4(t)
}

pub open spec fn outside_fence(v: u32, t: Seq<u32>) -> bool {
    8 * v < lower8(t) || 8 * v > upper8(t)
}

/// Some edge of `b` lies outside the fence of that edge over the boxes `vs`.
pub open spec fn is_outlier_box(b: PageBoundingBox, vs: Seq<PageBoundingBox>) -> bool {
    outside_fence(edge(b, 0), sorted_seq(edges(vs, 0)))
        || outside_fence(edge(b, 1), sorted_seq(edges(vs, 1)))
        || outside_fence(edge(b, 2), sorted_seq(edges(vs, 2)))
        || outside_fence(edge(b, 3), sorted_seq(edges(vs, 3)))
}

pub open spec fn valid_boxes(bs: Seq<PageBoundingBox>) -> Seq<PageBoundingBox> {
    bs.filter(|b: PageBoundingBox| box_valid(b))
}

pub open spec fn inlier_boxes(bs: Seq<PageBoundingBox>) -> Seq<PageBoundingBox> {
    let v = valid_boxes(bs);
    v.filter(|b: PageBoundingBox| !is_outlier_box(b, v))
}

/// The inliers are used when there are at least three of them and they are
/// at least a third of the valid boxes; otherwise all valid boxes are.
pub open spec fn uses_inliers(bs: Seq<PageBoundingBox>) -> bool {
    inlier_boxes(bs).len() >= 3 && 3 * inlier_boxes(bs).len() >= valid_boxes(bs).len()
}

pub open spec fn chosen_boxes(bs: Seq<PageBoundingBox>) -> Seq<PageBoundingBox> {
    if uses_inliers(bs) { inlier_boxes(bs) } else { valid_boxes(bs) }
}

/// Median of ascending `t`; the mean of the two middle values, rounded down,
/// when the length is even.
pub open spec fn median(t: Seq<u32>) -> int {
    if t.len() == 0 {
        0
    } else if t.len() % 2 == 1 {
        t[(t.len() / 2) as int] as int
    } else {
        (t[(t.len() / 2 - 1) as int] + t[(t.len() / 2) as int]) / 2
    }
}

pub open spec fn sat_sub(a: int, b: int) -> int {
    if a >= b { a - b } else { 0 }
}

pub open spec fn empty_region() -> GroupCropRegion {
    GroupCropRegion { left: 0, top: 0, width: 0, height: 0, inlier_count: 0, total_count: 0 }
}

/// The crop region that the group of boxes `bs` decides.
pub open spec fn group_region(bs: Seq<PageBoundingBox>) -> GroupCropRegion {
    if valid_boxes(bs).len() == 0 {
        empty_region()
    } else {
        let c = chosen_boxes(bs);
        let left = median(sorted_seq(edges(c, 0)));
        let top = median(sorted_seq(edges(c, 1)));
        let right = median(sorted_seq(edges(c, 2)));
        let bottom = median(sorted_seq(edges(c, 3)));
        GroupCropRegion {
            left: left as u32,
            top: top as u32,
            width: sat_sub(right, left) as u32,
            height: sat_sub(bottom, top) as u32,
            inlier_count: c.len() as usize,
            total_count: bs.len() as usize,
        }
    }
}

pub open spec fn odd_boxes(bs: Seq<PageBoundingBox>) -> Seq<PageBoundingBox> {
    bs.filter(|b: PageBoundingBox| b.is_odd)
}

pub open spec fn even_boxes(bs: Seq<PageBoundingBox>) -> Seq<PageBoundingBox> {
    bs.filter(|b: PageBoundingBox| !b.is_odd)
}

impl PageBoundingBox {
    pub fn new(page_number: usize, bounding_box: ContentRect) -> (r: PageBoundingBox)
        ensures
            r.page_number == page_number,
            r.bounding_box == bounding_box,
            r.is_odd == (page_number % 2 == 1),
    {
        PageBoundingBox { page_number, bounding_box, is_odd: page_number % 2 == 1 }
    }

    pub fn is_valid(&self) -> (r: bool)
        ensures
            r == box_valid(*self),
    {
        self.bounding_box.width > 0 && self.bounding_box.height > 0
    }

    pub fn right(&self) -> (r: u32)
        requires
            self.bounding_box.fits(),
        ensures
            r == edge(*self, 2),
    {
        self.bounding_box.x + self.bounding_box.width
    }

    pub fn bottom(&self) -> (r: u32)
        requires
            self.bounding_box.fits(),
        ensures
            r == edge(*self, 3),
    {
        self.bounding_box.y + self.bounding_box.height
    }
}

impl GroupCropRegion {
    pub fn empty() -> (r: GroupCropRegion)
        ensures
            r == empty_region(),
    {
        GroupCropRegion { left: 0, top: 0, width: 0, height: 0, inlier_count: 0, total_count: 0 }
    }

    pub fn is_valid(&self) -> (r: bool)
        ensures
            r == (self.width > 0 && self.height > 0),
    {
        self.width > 0 && self.height > 0
    }

    pub fn right(&self) -> (r: u32)
        requires
            self.left + self.width <= u32::MAX,
        ensures
            r == self.left + self.width,
    {
        self.left + self.width
    }

    pub fn bottom(&self) -> (r: u32)
        requires
            self.top + self.height <= u32::MAX,
        ensures
            r == self.top + self.height,
    {
        self.top + self.height
    }

    pub fn to_content_rect(&self) -> (r: ContentRect)
        ensures
            r == (ContentRect { x: self.left, y: self.top, width: self.width, height: self.height }),
    {
        ContentRect { x: self.left, y: self.top, width: self.width, height: self.height }
    }
}

impl Default for GroupCropRegion {
    fn default() -> (r: GroupCropRegion)
        ensures
            r == empty_region(),
    {
        GroupCropRegion::empty()
    }
}

fn edge_of(b: &PageBoundingBox, k: u8) -> (r: u32)
    requires
        b.bounding_box.fits(),
        k < 4,
    ensures
        r == edge(*b, k as int),
{
    if k == 0 {
        b.bounding_box.x
    } else if k == 1 {
        b.bounding_box.y
    } else if k == 2 {
        b.right()
    } else {
        b.bottom()
    }
}

fn edge_values(bs: &Vec<PageBoundingBox>, k: u8) -> (r: Vec<u32>)
    requires
        all_fit(bs@),
        k < 4,
    ensures
        r@ == edges(bs@, k as int),
{
    let mut out: Vec<u32> = Vec::new();
    let mut i: usize = 0;
    while i < bs.len()
        invariant
            i <= bs.len(),
            all_fit(bs@),
            k < 4,
            out@.len() == i,
            forall|j: int| 0 <= j < i ==> out@[j] == edge(#[trigger] bs@[j], k as int),
        decreases bs.len() - i,
    {
        out.push(edge_of(&bs[i], k));
        i = i + 1;
    }
    assert(out@ =~= edges(bs@, k as int));
    out
}

fn quartile_x4(t: &Vec<u32>, p: u8) -> (r: i64)
    requires
        p == 1 || p == 3,
    ensures
        r == quartile4(t@, p as int),
        0 <= r <= 4 * 0xffff_ffffi64,
{
    let n = t.len();
    if n == 0 {
        return 0;
    }
    let pos: u128 = (p as u128) * ((n - 1) as u128);
    let lo = (pos / 4) as usize;
    let rem = (pos % 4) as i64;
    assert(lo < n) by (nonlinear_arith)
        requires pos == p * (n - 1), lo == pos / 4, p <= 3, n >= 1;
    if rem == 0 {
        4 * (t[lo] as i64)
    } else {
        assert(lo + 1 < n) by (nonlinear_arith)
            requires pos == p * (n - 1), lo == pos / 4, rem == pos % 4, rem != 0, p <= 3, n >= 1;
        let a = t[lo] as i64;
        let b = t[lo + 1] as i64;
        assert(0 <= 4 * a + (b - a) * rem <= 4 * 0xffff_ffffi64) by (nonlinear_arith)
            requires 0 <= a <= 0xffff_ffff, 0 <= b <= 0xffff_ffff, 0 < rem < 4;
        4 * a + (b - a) * rem
    }
}

/// Eight times the lower and upper fences of ascending `t`.
fn fences_x8(t: &Vec<u32>) -> (r: (i64, i64))
    ensures
        r.0 == lower8(t@),
        r.1 == upper8(t@),
{
    let q1 = quartile_x4(t, 1);
    let q3 = quartile_x4(t, 3);
    let d = q3 - q1;
    let iqr = if d < 4 { 4 } else { d };
    (2 * q1 - 3 * iqr, 2 * q3 + 3 * iqr)
}

fn outside(v: u32, f: (i64, i64)) -> (r: bool)
    ensures
        r == (8 * v < f.0 || 8 * v > f.1),
{
    let w = 8 * (v as i64);
    w < f.0 || w > f.1
}

fn median_of(t: &Vec<u32>) -> (r: u32)
    ensures
        r == median(t@),
{
    let n = t.len();
    if n == 0 {
        0
    } else if n % 2 == 1 {
        t[n / 2]
    } else {
        ((t[n / 2 - 1] as u64 + t[n / 2] as u64) / 2) as u32
    }
}

/// The ascending values of edge `k` over `bs`.
fn sorted_edges(bs: &Vec<PageBoundingBox>, k: u8) -> (r: Vec<u32>)
    requires
        all_fit(bs@),
        k < 4,
    ensures
        r@ == sorted_seq(edges(bs@, k as int)),
{
    let vals = edge_values(bs, k);
    sort_ascending(&vals)
}

proof fn lemma_filter_step<A>(s: Seq<A>, p: spec_fn(A) -> bool, i: int)
    requires
        0 <= i < s.len(),
    ensures
        s.take(i + 1).filter(p) == if p(s[i]) {
            s.take(i).filter(p).push(s[i])
        } else {
            s.take(i).filter(p)
        },
{
    assert(s.take(i + 1).drop_last() =~= s.take(i));
    reveal_with_fuel(Seq::filter, 1);
}

proof fn lemma_filter_fits(bs: Seq<PageBoundingBox>, p: spec_fn(PageBoundingBox) -> bool)
    requires
        all_fit(bs),
    ensures
        all_fit(bs.filter(p)),
{
    assert forall|i: int| 0 <= i < bs.filter(p).len() implies (#[trigger] bs.filter(p)[i]).bounding_box.fits() by {
        let x = bs.filter(p)[i];
        assert(bs.filter(p).contains(x));
        bs.lemma_filter_contains_rev(p, x);
        let j = choose|j: int| 0 <= j < bs.len() && bs[j] == x;
        assert(bs[j].bounding_box.fits());
    }
}

/// The boxes of `bs` with a non-empty rectangle, in order.
fn select_valid(bs: &[PageBoundingBox]) -> (r: Vec<PageBoundingBox>)
    ensures
        r@ == valid_boxes(bs@),
{
    let mut out: Vec<PageBoundingBox> = Vec::new();
    let mut i: usize = 0;
    while i < bs.len()
        invariant
            i <= bs.len(),
            out@ == bs@.take(i as int).filter(|b: PageBoundingBox| box_valid(b)),
        decreases bs.len() - i,
    {
        proof {
            lemma_filter_step(bs@, |b: PageBoundingBox| box_valid(b), i as int);
        }
        if bs[i].is_valid() {
            out.push(bs[i]);
        }
        i = i + 1;
    }
    assert(bs@.take(bs.len() as int) =~= bs@);
    out
}

fn select_parity(bs: &[PageBoundingBox], odd: bool) -> (r: Vec<PageBoundingBox>)
    ensures
        odd ==> r@ == odd_boxes(bs@),
        !odd ==> r@ == even_boxes(bs@),
{
    let ghost p = |b: PageBoundingBox| b.is_odd == odd;
    let mut out: Vec<PageBoundingBox> = Vec::new();
    let mut i: usize = 0;
    while i < bs.len()
        invariant
            i <= bs.len(),
            out@ == bs@.take(i as int).filter(p),
            p == (|b: PageBoundingBox| b.is_odd == odd),
        decreases bs.len() - i,
    {
        proof {
            lemma_filter_step(bs@, p, i as int);
        }
        if bs[i].is_odd == odd {
            out.push(bs[i]);
        }
        i = i + 1;
    }
    assert(bs@.take(bs.len() as int) =~= bs@);
    if odd {
        assert(p =~= (|b: PageBoundingBox| b.is_odd));
    } else {
        assert(p =~= (|b: PageBoundingBox| !b.is_odd));
    }
    out
}

/// Some pixel of the image is darker than `t`.
pub open spec fn has_dark(img: GrayImage, t: u8) -> bool {
    exists|x: int, y: int| 0 <= x < img.width && 0 <= y < img.height && #[trigger] img.pixels@[y * img.width + x] < t
}

/// `r` is the smallest rectangle holding every pixel darker than `t`.
pub open spec fn dark_box(img: GrayImage, t: u8, r: ContentRect) -> bool {
    &&& r.width >= 1 && r.height >= 1
    &&& r.x + r.width <= img.width && r.y + r.height <= img.height
    &&& forall|x: int, y: int| 0 <= x < img.width && 0 <= y < img.height && #[trigger] img.pixels@[y * img.width + x] < t
        ==> r.x <= x < r.x + r.width && r.y <= y < r.y + r.height
    &&& exists|y: int| 0 <= y < img.height && #[trigger] img.pixels@[y * img.width + r.x] < t
    &&& exists|y: int| 0 <= y < img.height && #[trigger] img.pixels@[y * img.width + (r.x + r.width - 1)] < t
    &&& exists|x: int| 0 <= x < img.width && #[trigger] img.pixels@[r.y * img.width + x] < t
    &&& exists|x: int| 0 <= x < img.width && #[trigger] img.pixels@[(r.y + r.height - 1) * img.width + x] < t
}

impl GroupCropAnalyzer {
    /// The crop region of a group: the per-edge medians of the inlier boxes,
    /// or of all valid boxes when too few inliers remain.
    pub fn decide_group_crop_region(bounding_boxes: &[PageBoundingBox]) -> (r: GroupCropRegion)
        requires
            all_fit(bounding_boxes@),
        ensures
            r == group_region(bounding_boxes@),
    {
        let valid = select_valid(bounding_boxes);
        proof {
            lemma_filter_fits(bounding_boxes@, |b: PageBoundingBox| box_valid(b));
        }
        if valid.len() == 0 {
            return GroupCropRegion::empty();
        }
        let f0 = fences_x8(&sorted_edges(&valid, 0));
        let f1 = fences_x8(&sorted_edges(&valid, 1));
        let f2 = fences_x8(&sorted_edges(&valid, 2));
        let f3 = fences_x8(&sorted_edges(&valid, 3));
        let ghost vs = valid@;
        let ghost p = |b: PageBoundingBox| !is_outlier_box(b, vs);
        let mut inliers: Vec<PageBoundingBox> = Vec::new();
        let mut i: usize = 0;
        while i < valid.len()
            invariant
                i <= valid.len(),
                vs == valid@,
                all_fit(vs),
                p == (|b: PageBoundingBox| !is_outlier_box(b, vs)),
                f0.0 == lower8(sorted_seq(edges(vs, 0))) && f0.1 == upper8(sorted_seq(edges(vs, 0))),
                f1.0 == lower8(sorted_seq(edges(vs, 1))) && f1.1 == upper8(sorted_seq(edges(vs, 1))),
                f2.0 == lower8(sorted_seq(edges(vs, 2))) && f2.1 == upper8(sorted_seq(edges(vs, 2))),
                f3.0 == lower8(sorted_seq(edges(vs, 3))) && f3.1 == upper8(sorted_seq(edges(vs, 3))),
                inliers@ == vs.take(i as int).filter(p),
            decreases valid.len() - i,
        {
            proof {
                lemma_filter_step(vs, p, i as int);
            }
            let b = &valid[i];
            let out = outside(edge_of(b, 0), f0) || outside(edge_of(b, 1), f1)
                || outside(edge_of(b, 2), f2) || outside(edge_of(b, 3), f3);
            if !out {
                inliers.push(*b);
            }
            i = i + 1;
        }
        assert(vs.take(vs.len() as int) =~= vs);
        assert(inliers@ == inlier_boxes(bounding_boxes@));
        proof {
            lemma_filter_fits(vs, p);
        }
        let n_in = inliers.len();
        let chosen = if n_in >= 3 && 3 * (n_in as u128) >= valid.len() as u128 {
            inliers
        } else {
            valid
        };
        let left = median_of(&sorted_edges(&chosen, 0));
        let top = median_of(&sorted_edges(&chosen, 1));
        let right = median_of(&sorted_edges(&chosen, 2));
        let bottom = median_of(&sorted_edges(&chosen, 3));
        GroupCropRegion {
            left,
            top,
            width: right.saturating_sub(left),
            height: bottom.saturating_sub(top),
            inlier_count: chosen.len(),
            total_count: bounding_boxes.len(),
        }
    }

    /// The bounding box of the pixels darker than the background
    /// threshold; fails when there are none.
    pub fn detect_text_bounding_box(gray: &GrayImage, background_threshold: u8) -> (r: Result<ContentRect, MarginError>)
        requires
            gray.wf(),
        ensures
            r matches Ok(b) ==> dark_box(*gray, background_threshold, b),
            r matches Err(e) ==> e == MarginError::NoContentDetected && !has_dark(*gray, background_threshold),
            r is Err <==> !has_dark(*gray, background_threshold),
    {
        let w = gray.width;
        let h = gray.height;
        let mut min_x: u32 = w;
        let mut max_x: u32 = 0;
        let mut min_y: u32 = h;
        let mut max_y: u32 = 0;
        let mut found = false;
        let ghost mut wx0: int = 0;
        let ghost mut wy0: int = 0;
        let ghost mut wx1: int = 0;
        let ghost mut wy1: int = 0;
        let ghost mut wxa: int = 0;
        let ghost mut wya: int = 0;
        let ghost mut wxb: int = 0;
        let ghost mut wyb: int = 0;
        let mut y: u32 = 0;
        while y < h
            invariant
                gray.wf(),
                w == gray.width,
                h == gray.height,
                y <= h,
                !found ==> min_x == w && min_y == h && max_x == 0 && max_y == 0,
                !found ==> forall|xx: int, yy: int| 0 <= xx < w && 0 <= yy < y ==> !(#[trigger] gray.pixels@[yy * w + xx] < background_threshold),
                found ==> min_x <= max_x < w && min_y <= max_y < h,
                found ==> forall|xx: int, yy: int| 0 <= xx < w && 0 <= yy < y && #[trigger] gray.pixels@[yy * w + xx] < background_threshold
                    ==> min_x <= xx <= max_x && min_y <= yy <= max_y,
                found ==> 0 <= wy0 < h && gray.pixels@[wy0 * w + min_x] < background_threshold,
                found ==> 0 <= wy1 < h && gray.pixels@[wy1 * w + max_x] < background_threshold,
                found ==> 0 <= wxa < w && gray.pixels@[min_y * w + wxa] < background_threshold,
                found ==> 0 <= wxb < w && gray.pixels@[max_y * w + wxb] < background_threshold,
            decreases h - y,
        {
            let mut x: u32 = 0;
            while x < w
                invariant
                    gray.wf(),
                    w == gray.width,
                    h == gray.height,
                    y < h,
                    x <= w,
                    !found ==> min_x == w && min_y == h && max_x == 0 && max_y == 0,
                    !found ==> forall|xx: int, yy: int| 0 <= xx < w && 0 <= yy < y ==> !(#[trigger] gray.pixels@[yy * w + xx] < background_threshold),
                    !found ==> forall|xx: int| 0 <= xx < x ==> !(#[trigger] gray.pixels@[y * w + xx] < background_threshold),
                    found ==> min_x <= max_x < w && min_y <= max_y < h,
                    found ==> forall|xx: int, yy: int| 0 <= xx < w && 0 <= yy < y && #[trigger] gray.pixels@[yy * w + xx] < background_threshold
                        ==> min_x <= xx <= max_x && min_y <= yy <= max_y,
                    found ==> forall|xx: int| 0 <= xx < x && #[trigger] gray.pixels@[y * w + xx] < background_threshold
                        ==> min_x <= xx <= max_x && min_y <= y <= max_y,
                    found ==> 0 <= wy0 < h && gray.pixels@[wy0 * w + min_x] < background_threshold,
                    found ==> 0 <= wy1 < h && gray.pixels@[wy1 * w + max_x] < background_threshold,
                    found ==> 0 <= wxa < w && gray.pixels@[min_y * w + wxa] < background_threshold,
                    found ==> 0 <= wxb < w && gray.pixels@[max_y * w + wxb] < background_threshold,
                decreases w - x,
            {
                if gray.get(x, y) < background_threshold {
                    if !found || x < min_x {
                        min_x = x;
                        proof { wy0 = y as int; }
                    }
                    if !found || x > max_x {
                        max_x = x;
                        proof { wy1 = y as int; }
                    }
                    if !found || y < min_y {
                        min_y = y;
                        proof { wxa = x as int; }
                    }
                    if !found || y > max_y {
                        max_y = y;
                        proof { wxb = x as int; }
                    }
                    found = true;
                }
                x = x + 1;
            }
            y = y + 1;
        }
        if !found {
            return Err(MarginError::NoContentDetected);
        }
        let r = ContentRect { x: min_x, y: min_y, width: max_x - min_x + 1, height: max_y - min_y + 1 };
        assert(gray.pixels@[wy0 * w + r.x] < background_threshold);
        assert(gray.pixels@[wy1 * w + (r.x + r.width - 1)] < background_threshold);
        assert(gray.pixels@[r.y * w + wxa] < background_threshold);
        assert(gray.pixels@[(r.y + r.height - 1) * w + wxb] < background_threshold);
        Ok(r)
    }

    /// Odd and even pages decided as two independent groups.
    pub fn unify_odd_even_regions(bounding_boxes: &[PageBoundingBox]) -> (r: UnifiedCropRegions)
        requires
            all_fit(bounding_boxes@),
        ensures
            r.odd_region == group_region(odd_boxes(bounding_boxes@)),
            r.even_region == group_region(even_boxes(bounding_boxes@)),
    {
        let odd = select_parity(bounding_boxes, true);
        let even = select_parity(bounding_boxes, false);
        proof {
            lemma_filter_fits(bounding_boxes@, |b: PageBoundingBox| b.is_odd);
            lemma_filter_fits(bounding_boxes@, |b: PageBoundingBox| !b.is_odd);
        }
        let odd_region = Self::decide_group_crop_region(odd.as_slice());
        let even_region = Self::decide_group_crop_region(even.as_slice());
        UnifiedCropRegions { odd_region, even_region }
    }
}


proof fn lemma_filter_all<A>(s: Seq<A>, p: spec_fn(A) -> bool)
    requires
        forall|i: int| 0 <= i < s.len() ==> p(#[trigger] s[i]),
    ensures
        s.filter(p) == s,
    decreases s.len(),
{
    reveal_with_fuel(Seq::filter, 1);
    if s.len() > 0 {
        lemma_filter_all(s.drop_last(), p);
        assert(s.drop_last().push(s.last()) =~= s);
    } else {
        assert(s.filter(p) =~= s);
    }
}

proof fn lemma_sorted_constant(s: Seq<u32>, c: u32)
    requires
        forall|i: int| 0 <= i < s.len() ==> #[trigger] s[i] == c,
    ensures
        sorted_seq(s).len() == s.len(),
        forall|i: int| 0 <= i < s.len() ==> #[trigger] sorted_seq(s)[i] == c,
{
    lemma_sorted_len(s);
    lemma_sorted_ascending(s);
    assert forall|i: int| 0 <= i < s.len() implies #[trigger] sorted_seq(s)[i] == c by {
        assert(s.contains(sorted_seq(s)[i]));
    }
}

proof fn lemma_constant_edges(bs: Seq<PageBoundingBox>, b: PageBoundingBox, k: int)
    requires
        bs.len() > 0,
        forall|i: int| 0 <= i < bs.len() ==> #[trigger] bs[i] == b,
    ensures
        sorted_seq(edges(bs, k)).len() == bs.len(),
        forall|i: int| 0 <= i < bs.len() ==> #[trigger] sorted_seq(edges(bs, k))[i] == edge(b, k),
        quartile4(sorted_seq(edges(bs, k)), 1) == 4 * edge(b, k),
        quartile4(sorted_seq(edges(bs, k)), 3) == 4 * edge(b, k),
        !outside_fence(edge(b, k), sorted_seq(edges(bs, k))),
        median(sorted_seq(edges(bs, k))) == edge(b, k),
{
    let e = edges(bs, k);
    lemma_sorted_constant(e, edge(b, k));
    let t = sorted_seq(e);
    let n: int = bs.len() as int;
    assert(0 <= (n - 1) / 4 < n && 0 <= 3 * (n - 1) / 4 < n) by (nonlinear_arith)
        requires n >= 1;
    assert(((n - 1) % 4 != 0) ==> (n - 1) / 4 + 1 < n) by (nonlinear_arith)
        requires n >= 1;
    assert((3 * (n - 1) % 4 != 0) ==> 3 * (n - 1) / 4 + 1 < n) by (nonlinear_arith)
        requires n >= 1;
    if (n - 1) % 4 != 0 {
        assert(t[(n - 1) / 4 + 1] == edge(b, k));
    }
    if 3 * (n - 1) % 4 != 0 {
        assert(t[3 * (n - 1) / 4 + 1] == edge(b, k));
    }
    assert(1 * (n - 1) == n - 1);
    assert(t.len() == n);
    assert(t[(n - 1) / 4] == edge(b, k));
    assert(t[3 * (n - 1) / 4] == edge(b, k));
    if n % 2 == 0 {
        assert(t[n / 2 - 1] == edge(b, k));
    }
    assert(t[n / 2] == edge(b, k));
}

/// Deciding a group of identical valid boxes gives back that same rectangle,
/// with every page counted as an inlier.
pub proof fn lemma_identical_boxes_unchanged(bs: Seq<PageBoundingBox>, b: PageBoundingBox)
    requires
        bs.len() > 0,
        forall|i: int| 0 <= i < bs.len() ==> #[trigger] bs[i] == b,
        box_valid(b),
        b.bounding_box.fits(),
    ensures
        group_region(bs) == (GroupCropRegion {
            left: b.bounding_box.x,
            top: b.bounding_box.y,
            width: b.bounding_box.width,
            height: b.bounding_box.height,
            inlier_count: bs.len() as usize,
            total_count: bs.len() as usize,
        }),
{
    lemma_filter_all(bs, |x: PageBoundingBox| box_valid(x));
    assert(valid_boxes(bs) == bs);
    lemma_constant_edges(bs, b, 0);
    lemma_constant_edges(bs, b, 1);
    lemma_constant_edges(bs, b, 2);
    lemma_constant_edges(bs, b, 3);
    assert(!is_outlier_box(b, bs));
    lemma_filter_all(bs, |x: PageBoundingBox| !is_outlier_box(x, bs));
    assert(inlier_boxes(bs) == bs);
    assert(chosen_boxes(bs) == bs);
}

/// When the fallback is not taken, a valid box with an edge outside its
/// Tukey fence is not among the boxes that the region's medians are taken
/// from.
pub proof fn lemma_outlier_excluded(bs: Seq<PageBoundingBox>, b: PageBoundingBox)
    requires
        valid_boxes(bs).contains(b),
        is_outlier_box(b, valid_boxes(bs)),
        uses_inliers(bs),
    ensures
        !chosen_boxes(bs).contains(b),
        chosen_boxes(bs) == inlier_boxes(bs),
{
    let v = valid_boxes(bs);
    let p = |x: PageBoundingBox| !is_outlier_box(x, v);
    if inlier_boxes(bs).contains(b) {
        let i = choose|i: int| 0 <= i < v.filter(p).len() && v.filter(p)[i] == b;
        v.lemma_filter_pred(p, i);
    }
    assert(v.len() > 0);
}

proof fn lemma_filter_all_but<A>(s: Seq<A>, p: spec_fn(A) -> bool, o: int)
    requires
        0 <= o < s.len(),
        !p(s[o]),
        forall|i: int| 0 <= i < s.len() && i != o ==> p(#[trigger] s[i]),
    ensures
        s.filter(p) == s.remove(o),
    decreases s.len(),
{
    reveal_with_fuel(Seq::filter, 1);
    let d = s.drop_last();
    if o == s.len() - 1 {
        lemma_filter_all(d, p);
        assert(s.remove(o) =~= d);
    } else {
        assert forall|i: int| 0 <= i < d.len() && i != o implies p(#[trigger] d[i]) by {
            assert(d[i] == s[i]);
        }
        lemma_filter_all_but(d, p, o);
        assert(s.remove(o) =~= d.remove(o).push(s.last()));
    }
}

/// A group of at least four valid boxes of which exactly one lies outside
/// the Tukey fences: that box is left out, the other boxes are all inliers,
/// and the region is the median rectangle of those `n − 1` boxes.
pub proof fn lemma_single_outlier(bs: Seq<PageBoundingBox>, o: int)
    requires
        4 <= bs.len() <= usize::MAX,
        forall|i: int| 0 <= i < bs.len() ==> box_valid(#[trigger] bs[i]),
        0 <= o < bs.len(),
        is_outlier_box(bs[o], bs),
        forall|i: int| 0 <= i < bs.len() && i != o ==> !is_outlier_box(#[trigger] bs[i], bs),
    ensures
        valid_boxes(bs) == bs,
        inlier_boxes(bs) == bs.remove(o),
        uses_inliers(bs),
        chosen_boxes(bs) == bs.remove(o),
        group_region(bs).inlier_count == bs.len() - 1,
        group_region(bs).total_count == bs.len(),
        group_region(bs).left == median(sorted_seq(edges(bs.remove(o), 0))) as u32,
        group_region(bs).top == median(sorted_seq(edges(bs.remove(o), 1))) as u32,
        group_region(bs).width == sat_sub(
            median(sorted_seq(edges(bs.remove(o), 2))),
            median(sorted_seq(edges(bs.remove(o), 0))),
        ) as u32,
        group_region(bs).height == sat_sub(
            median(sorted_seq(edges(bs.remove(o), 3))),
            median(sorted_seq(edges(bs.remove(o), 1))),
        ) as u32,
{
    lemma_filter_all(bs, |x: PageBoundingBox| box_valid(x));
    assert(valid_boxes(bs) == bs);
    let pr = |x: PageBoundingBox| !is_outlier_box(x, bs);
    lemma_filter_all_but(bs, pr, o);
    assert(inlier_boxes(bs) == bs.remove(o));
    assert(bs.remove(o).len() == bs.len() - 1);
}

} // verus!
