//! Vertical-writing detection: the integer statistics of the line-structure
//! score. Each block of columns is summarised row by row by the number of
//! dark runs it crosses; the rows whose count reaches the block mean form
//! line runs and gap runs.

use vstd::prelude::*;
use crate::content::GrayImage;
use crate::sorting::{sort_ascending_usize, sorted_seq_usize, lemma_sorted_len_usize};

verus! {

/// The failures of vertical-writing detection.
#[derive(Debug, Clone, PartialEq, Eq)]
pub enum VerticalDetectError {
    InvalidImage(String),
    ProcessingError(String),
}

impl VerticalDetectError {
    /// The message shown for this error.
    pub fn message(&self) -> (r: String)
        ensures
            r@ == match self {
                VerticalDetectError::InvalidImage(m) => "Invalid image: "@ + m@,
                VerticalDetectError::ProcessingError(m) => "Processing error: "@ + m@,
            },
    {
        match self {
            VerticalDetectError::InvalidImage(m) => {
                let mut s = String::from_str("Invalid image: ");
                s.append(m.as_str());
                s
            },
            VerticalDetectError::ProcessingError(m) => {
                let mut s = String::from_str("Processing error: ");
                s.append(m.as_str());
                s
            },
        }
    }
}

/// Median of ascending `t`; the mean of the two middle values, rounded
/// down, for an even length; 0 when empty.
pub open spec fn median_of(t: Seq<usize>) -> int {
    if t.len() == 0 {
        0
    } else if t.len() % 2 == 1 {
        t[(t.len() / 2) as int] as int
    } else {
        (t[(t.len() / 2 - 1) as int] + t[(t.len() / 2) as int]) / 2
    }
}

/// Sorts `data` and returns its median.
pub fn median(data: &mut Vec<usize>) -> (r: usize)
    ensures
        final(data)@ == sorted_seq_usize(old(data)@),
        r == median_of(sorted_seq_usize(old(data)@)),
{
    let sorted = sort_ascending_usize(data);
    *data = sorted;
    proof {
        lemma_sorted_len_usize(old(data)@);
    }
    let n = data.len();
    if n == 0 {
        0
    } else if n % 2 == 1 {
        data[n / 2]
    } else {
        let a = data[n / 2 - 1];
        let b = data[n / 2];
        a / 2 + b / 2 + (a % 2 + b % 2) / 2
    }
}

pub open spec fn is_dark(v: u8, threshold: u8) -> bool {
    v <= threshold
}

/// Number of maximal runs of dark values in `s`.
pub open spec fn dark_runs(s: Seq<u8>, threshold: u8) -> int
    decreases s.len(),
{
    if s.len() == 0 {
        0
    } else {
        let p = s.drop_last();
        dark_runs(p, threshold) + if is_dark(s.last(), threshold) && (p.len() == 0 || !is_dark(
            p.last(),
            threshold,
        )) {
            1int
        } else {
            0
        }
    }
}

/// The pixels of row `y` in columns `[x0, x1)`.
pub open spec fn row_segment(img: GrayImage, y: int, x0: int, x1: int) -> Seq<u8> {
    img.pixels@.subrange(y * img.width + x0, y * img.width + x1)
}

/// The image turned a quarter: pixel `(x, y)` of a `w` by `h` image lands
/// at `(y, w - 1 - x)` of an `h` by `w` image.
pub open spec fn rotated_from(r: GrayImage, img: GrayImage) -> bool {
    &&& r.wf()
    &&& r.width == img.height
    &&& r.height == img.width
    &&& forall|x: int, y: int|
        0 <= x < img.width && 0 <= y < img.height ==> r.pixels@[(img.width - 1 - x) * r.width + y]
            == #[trigger] img.pixels@[y * img.width + x]
}

/// The image turned a quarter, as `rotated_from` states.
pub fn rotate_90_clockwise(img: &GrayImage) -> (r: GrayImage)
    requires
        img.wf(),
    ensures
        rotated_from(r, *img),
{
    let w = img.width;
    let h = img.height;
    let n = img.pixels.len();
    let mut pixels: Vec<u8> = Vec::new();
    let mut ny: u32 = 0;
    while ny < w
        invariant
            img.wf(),
            w == img.width,
            h == img.height,
            n == img.pixels@.len(),
            ny <= w,
            pixels@.len() == ny * h,
            forall|a: int, b: int|
                0 <= a < ny && 0 <= b < h ==> #[trigger] pixels@[a * h + b] == img.pixels@[b * w + (w - 1 - a)],
        decreases w - ny,
    {
        let mut nx: u32 = 0;
        while nx < h
            invariant
                img.wf(),
                w == img.width,
                h == img.height,
                n == img.pixels@.len(),
                ny < w,
                nx <= h,
                pixels@.len() == ny * h + nx,
                forall|a: int, b: int|
                    0 <= a < ny && 0 <= b < h ==> #[trigger] pixels@[a * h + b] == img.pixels@[b * w + (w - 1 - a)],
                forall|b: int| 0 <= b < nx ==> #[trigger] pixels@[ny * h + b] == img.pixels@[b * w + (w - 1 - ny)],
            decreases h - nx,
        {
            let x = w - 1 - ny;
            let v = img.get(x, nx);
            let ghost prev = pixels@;
            pixels.push(v);
            assert forall|a: int, b: int| 0 <= a < ny && 0 <= b < h implies #[trigger] pixels@[a * h + b]
                == img.pixels@[b * w + (w - 1 - a)] by {
                assert(a * h + b < ny * h) by (nonlinear_arith)
                    requires 0 <= a < ny, 0 <= b < h;
                assert(pixels@[a * h + b] == prev[a * h + b]);
            }
            nx = nx + 1;
        }
        assert((ny + 1) * h == ny * h + h) by (nonlinear_arith);
        assert forall|a: int, b: int| 0 <= a < ny + 1 && 0 <= b < h implies #[trigger] pixels@[a * h + b]
            == img.pixels@[b * w + (w - 1 - a)] by {
            if a == ny {
                assert(a * h + b == ny * h + b);
            }
        }
        ny = ny + 1;
    }
    assert(pixels@.len() == h * w) by (nonlinear_arith)
        requires pixels@.len() == ny * h, ny == w;
    let r = GrayImage { width: h, height: w, pixels };
    assert forall|x: int, y: int| 0 <= x < img.width && 0 <= y < img.height implies r.pixels@[(img.width - 1
        - x) * r.width + y] == #[trigger] img.pixels@[y * img.width + x] by {
        let a = w - 1 - x;
        assert(w - 1 - a == x);
    }
    r
}

/// Per row of the columns `[x0, x1)`, the number of dark runs.
pub fn row_intersections(img: &GrayImage, x0: u32, x1: u32, black_threshold: u8) -> (r: Vec<usize>)
    requires
        img.wf(),
        x0 <= x1 <= img.width,
    ensures
        r@.len() == img.height,
        forall|y: int| 0 <= y < img.height ==> r@[y] == dark_runs(
            #[trigger] row_segment(*img, y, x0 as int, x1 as int),
            black_threshold,
        ),
{
    let w = img.width;
    let h = img.height;
    let mut out: Vec<usize> = Vec::new();
    let mut y: u32 = 0;
    while y < h
        invariant
            img.wf(),
            w == img.width,
            h == img.height,
            x0 <= x1 <= w,
            y <= h,
            out@.len() == y,
            forall|yy: int| 0 <= yy < y ==> out@[yy] == dark_runs(
                #[trigger] row_segment(*img, yy, x0 as int, x1 as int),
                black_threshold,
            ),
        decreases h - y,
    {
        let mut runs: usize = 0;
        let mut in_dark = false;
        let mut x: u32 = x0;
        let ghost row_start: int = y * w + x0;
        proof {
            assert(y * w + x1 <= w * h) by (nonlinear_arith)
                requires y < h, x1 <= w;
            assert(0 <= y * w) by (nonlinear_arith)
                requires 0 <= y, 0 <= w;
        }
        while x < x1
            invariant
                img.wf(),
                w == img.width,
                h == img.height,
                x0 <= x <= x1,
                x1 <= w,
                y < h,
                row_start == y * w + x0,
                0 <= y * w,
                y * w + x1 <= w * h,
                runs <= x - x0,
                runs == dark_runs(img.pixels@.subrange(row_start, y * w + x), black_threshold),
                in_dark == (x > x0 && is_dark(img.pixels@[y * w + x - 1], black_threshold)),
            decreases x1 - x,
        {
            let v = img.get(x, y);
            let ghost seg = img.pixels@.subrange(row_start, y * w + x + 1);
            proof {
                assert(seg.drop_last() =~= img.pixels@.subrange(row_start, y * w + x));
                assert(seg.last() == v);
            }
            if v <= black_threshold {
                if !in_dark {
                    runs = runs + 1;
                    in_dark = true;
                }
            } else {
                in_dark = false;
            }
            x = x + 1;
        }
        out.push(runs);
        y = y + 1;
    }
    out
}

/// A row is part of a text line when its count reaches the block mean, and
/// at least one: `v * rows >= max(total, rows)`.
pub open spec fn is_line_row(v: int, total: int, rows: int) -> bool {
    v * rows >= if total >= rows { total } else { rows }
}

/// Run-length encoding of which rows are line rows: each run is its kind
/// and length.
pub open spec fn line_runs(s: Seq<usize>, total: int, rows: int) -> Seq<(bool, usize)>
    decreases s.len(),
{
    if s.len() == 0 {
        Seq::empty()
    } else {
        let prev = line_runs(s.drop_last(), total, rows);
        let b = is_line_row(s.last() as int, total, rows);
        if prev.len() > 0 && prev.last().0 == b {
            prev.update(prev.len() - 1, (b, (prev.last().1 + 1) as usize))
        } else {
            prev.push((b, 1usize))
        }
    }
}

pub open spec fn seq_sum(s: Seq<usize>) -> int
    decreases s.len(),
{
    if s.len() == 0 {
        0
    } else {
        seq_sum(s.drop_last()) + s.last()
    }
}

proof fn lemma_runs_bounded(s: Seq<usize>, total: int, rows: int)
    ensures
        forall|k: int| 0 <= k < line_runs(s, total, rows).len() ==> (#[trigger] line_runs(s, total, rows)[k]).1 <= s.len(),
    decreases s.len(),
{
    if s.len() > 0 {
        let p = s.drop_last();
        lemma_runs_bounded(p, total, rows);
        let prev = line_runs(p, total, rows);
        let r = line_runs(s, total, rows);
        let b = is_line_row(s.last() as int, total, rows);
        assert forall|k: int| 0 <= k < r.len() implies (#[trigger] r[k]).1 <= s.len() by {
            if prev.len() > 0 && prev.last().0 == b {
                if k < prev.len() - 1 {
                    assert(r[k] == prev[k]);
                } else {
                    assert(prev[prev.len() - 1].1 <= p.len());
                }
            } else if k < prev.len() {
                assert(r[k] == prev[k]);
            }
        }
    }
}

/// The line and gap runs of a block's row counts, in order.
pub fn runs_of_rows(counts: &Vec<usize>) -> (r: Vec<(bool, usize)>)
    requires
        seq_sum(counts@) <= u64::MAX,
    ensures
        r@ == line_runs(counts@, seq_sum(counts@), counts@.len() as int),
{
    let rows = counts.len();
    let mut total: u64 = 0;
    let mut i: usize = 0;
    while i < rows
        invariant
            rows == counts@.len(),
            i <= rows,
            total == seq_sum(counts@.take(i as int)),
            seq_sum(counts@) <= u64::MAX,
        decreases rows - i,
    {
        proof {
            assert(counts@.take(i as int + 1).drop_last() =~= counts@.take(i as int));
            lemma_sum_prefix(counts@, i as int + 1);
        }
        total = total + counts[i] as u64;
        i = i + 1;
    }
    assert(counts@.take(rows as int) =~= counts@);
    let ghost tot = total as int;
    let mut runs: Vec<(bool, usize)> = Vec::new();
    let mut j: usize = 0;
    while j < rows
        invariant
            rows == counts@.len(),
            j <= rows,
            tot == total,
            runs@ == line_runs(counts@.take(j as int), tot, rows as int),
        decreases rows - j,
    {
        proof {
            assert(counts@.take(j as int + 1).drop_last() =~= counts@.take(j as int));
            lemma_runs_bounded(counts@.take(j as int), tot, rows as int);
        }
        assert((counts@[j as int] as u128) * (rows as u128) <= 0xffff_ffff_ffff_ffff_ffff_ffff_ffff_ffffu128) by (nonlinear_arith)
            requires counts@[j as int] <= 0xffff_ffff_ffff_ffffu64, rows <= 0xffff_ffff_ffff_ffffu64;
        let lhs: u128 = (counts[j] as u128) * (rows as u128);
        let rhs: u128 = if (total as u128) >= rows as u128 { total as u128 } else { rows as u128 };
        let b = lhs >= rhs;
        let n = runs.len();
        if n > 0 && runs[n - 1].0 == b {
            let len = runs[n - 1].1;
            runs.set(n - 1, (b, len + 1));
        } else {
            runs.push((b, 1));
        }
        j = j + 1;
    }
    assert(counts@.take(rows as int) =~= counts@);
    runs
}

proof fn lemma_sum_prefix(s: Seq<usize>, i: int)
    requires
        0 <= i <= s.len(),
    ensures
        seq_sum(s.take(i)) <= seq_sum(s),
    decreases s.len(),
{
    if i < s.len() {
        assert(s.drop_last().take(i) =~= s.take(i));
        lemma_sum_prefix(s.drop_last(), i);
    } else {
        assert(s.take(i) =~= s);
    }
}

} // verus!
