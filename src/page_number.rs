//! Page-number records: where a number was found on a page, and what was
//! read there.

use vstd::prelude::*;
use std::collections::HashSet;

verus! {

/// Where on the page the numbers of a book stand.
#[derive(Debug, Clone, Copy, PartialEq, Eq)]
pub enum PageNumberPosition {
    BottomCenter,
    BottomOutside,
    BottomInside,
    TopCenter,
    TopOutside,
}

/// The rectangle in which a page number was read, in page pixels.
#[derive(Debug, Clone, Copy, PartialEq, Eq)]
pub struct PageNumberRect {
    pub x: u32,
    pub y: u32,
    pub width: u32,
    pub height: u32,
}

/// One page's reading: `number` is `None` where no Arabic number was read.
/// `confidence` is the recogniser's confidence in whole percent.
#[derive(Debug, Clone)]
pub struct DetectedPageNumber {
    pub page_index: usize,
    pub number: Option<i32>,
    pub position: PageNumberRect,
    pub confidence: u32,
    pub raw_text: String,
}

/// Horizontal correction per page, with the offset common to the book.
#[derive(Debug, Clone)]
pub struct OffsetCorrection {
    pub page_offsets: Vec<(usize, i32)>,
    pub unified_offset: i32,
}

/// The failures of page-number detection.
#[derive(Debug, Clone, PartialEq, Eq)]
pub enum PageNumberError {
    ImageNotFound(String),
    OcrFailed(String),
    NoPageNumbersDetected,
    InconsistentPageNumbers,
    IoError(String),
}

pub open spec fn center_x(r: PageNumberRect) -> int {
    r.x + r.width / 2
}

pub open spec fn center_y(r: PageNumberRect) -> int {
    r.y + r.height / 2
}

impl PageNumberRect {
    /// Both centre coordinates fit in an `i32`.
    pub open spec fn centre_fits(&self) -> bool {
        center_x(*self) <= i32::MAX && center_y(*self) <= i32::MAX
    }

    pub fn center_x(&self) -> (r: i32)
        requires
            self.centre_fits(),
        ensures
            r == center_x(*self),
    {
        (self.x as u64 + (self.width / 2) as u64) as i32
    }

    pub fn center_y(&self) -> (r: i32)
        requires
            self.centre_fits(),
        ensures
            r == center_y(*self),
    {
        (self.y as u64 + (self.height / 2) as u64) as i32
    }
}

impl PageNumberError {
    /// The message shown for this error.
    pub fn message(&self) -> (r: String)
        ensures
            r@ == match self {
                PageNumberError::ImageNotFound(p) => "Image not found: "@ + p@,
                PageNumberError::OcrFailed(m) => "OCR failed: "@ + m@,
                PageNumberError::NoPageNumbersDetected => "No page numbers detected"@,
                PageNumberError::InconsistentPageNumbers => "Inconsistent page numbers"@,
                PageNumberError::IoError(m) => "IO error: "@ + m@,
            },
    {
        match self {
            PageNumberError::ImageNotFound(p) => {
                let mut s = String::from_str("Image not found: ");
                s.append(p.as_str());
                s
            },
            PageNumberError::OcrFailed(m) => {
                let mut s = String::from_str("OCR failed: ");
                s.append(m.as_str());
                s
            },
            PageNumberError::NoPageNumbersDetected => String::from_str("No page numbers detected"),
            PageNumberError::InconsistentPageNumbers => String::from_str("Inconsistent page numbers"),
            PageNumberError::IoError(m) => {
                let mut s = String::from_str("IO error: ");
                s.append(m.as_str());
                s
            },
        }
    }
}

/// Settings of page-number reading: the height of the searched strip in
/// percent of the page (5 to 50), the recogniser language, the least
/// confidence in percent (0 to 100) for a number to count, and where to look.
#[derive(Debug, Clone)]
pub struct PageNumberOptions {
    pub search_region_percent: u32,
    pub ocr_language: String,
    pub min_confidence: u32,
    pub numbers_only: bool,
    pub position_hint: Option<PageNumberPosition>,
}

pub const MIN_SEARCH_REGION: u32 = 5;

pub const MAX_SEARCH_REGION: u32 = 50;

pub const MAX_CONFIDENCE: u32 = 100;

impl Default for PageNumberOptions {
    fn default() -> (r: PageNumberOptions)
        ensures
            r.search_region_percent == 10,
            r.ocr_language@ == "jpn+eng"@,
            r.min_confidence == 60,
            r.numbers_only,
            r.position_hint is None,
    {
        PageNumberOptions {
            search_region_percent: 10,
            ocr_language: String::from_str("jpn+eng"),
            min_confidence: 60,
            numbers_only: true,
            position_hint: None,
        }
    }
}

impl PageNumberOptions {
    /// Japanese text, with a taller strip for vertical books.
    pub fn japanese() -> (r: PageNumberOptions)
        ensures
            r.search_region_percent == 12 && r.ocr_language@ == "jpn"@ && r.min_confidence == 60,
    {
        let mut r = PageNumberOptions::default();
        r.ocr_language = String::from_str("jpn");
        r.search_region_percent = 12;
        r
    }

    pub fn english() -> (r: PageNumberOptions)
        ensures
            r.search_region_percent == 10 && r.ocr_language@ == "eng"@ && r.min_confidence == 60,
    {
        let mut r = PageNumberOptions::default();
        r.ocr_language = String::from_str("eng");
        r
    }

    /// A higher confidence bar.
    pub fn strict() -> (r: PageNumberOptions)
        ensures
            r.search_region_percent == 10 && r.ocr_language@ == "jpn+eng"@ && r.min_confidence == 80,
    {
        let mut r = PageNumberOptions::default();
        r.min_confidence = 80;
        r
    }

    /// Sets the strip height, clamped to 5 to 50 percent.
    pub fn with_search_region_percent(self, percent: u32) -> (r: PageNumberOptions)
        ensures
            r.search_region_percent == if percent < MIN_SEARCH_REGION {
                MIN_SEARCH_REGION
            } else if percent > MAX_SEARCH_REGION {
                MAX_SEARCH_REGION
            } else {
                percent
            },
            r.min_confidence == self.min_confidence && r.ocr_language == self.ocr_language,
            r.numbers_only == self.numbers_only && r.position_hint == self.position_hint,
    {
        let mut s = self;
        s.search_region_percent = if percent < MIN_SEARCH_REGION {
            MIN_SEARCH_REGION
        } else if percent > MAX_SEARCH_REGION {
            MAX_SEARCH_REGION
        } else {
            percent
        };
        s
    }

    /// Sets the least confidence, clamped to 100.
    pub fn with_min_confidence(self, confidence: u32) -> (r: PageNumberOptions)
        ensures
            r.min_confidence == if confidence > MAX_CONFIDENCE { MAX_CONFIDENCE } else { confidence },
            r.search_region_percent == self.search_region_percent && r.ocr_language == self.ocr_language,
            r.numbers_only == self.numbers_only && r.position_hint == self.position_hint,
    {
        let mut s = self;
        s.min_confidence = if confidence > MAX_CONFIDENCE { MAX_CONFIDENCE } else { confidence };
        s
    }
}

/// The strip searched for a page number: the full width, `percent` of the
/// height (rounded down), at the top for top positions and at the bottom
/// otherwise.
pub open spec fn strip_for(width: u32, height: u32, percent: u32, hint: Option<PageNumberPosition>) -> PageNumberRect {
    let h64 = height * percent / 100;
    let h = (if h64 > u32::MAX { u32::MAX as int } else { h64 }) as u32;
    let top = match hint {
        Some(PageNumberPosition::TopCenter) => true,
        Some(PageNumberPosition::TopOutside) => true,
        _ => false,
    };
    PageNumberRect { x: 0, y: if top { 0 } else { (if height >= h { height - h } else { 0 }) as u32 }, width, height: h }
}

impl TesseractPageDetector {
    /// The rectangle of a page in which its number is searched.
    pub fn search_strip(width: u32, height: u32, options: &PageNumberOptions) -> (r: PageNumberRect)
        ensures
            r == strip_for(width, height, options.search_region_percent, options.position_hint),
    {
        assert((height as u64) * (options.search_region_percent as u64) <= 0xffff_ffff * 0xffff_ffff) by (nonlinear_arith)
            requires height <= 0xffff_ffffu32, options.search_region_percent <= 0xffff_ffffu32;
        let h64 = (height as u64) * (options.search_region_percent as u64) / 100;
        let h: u32 = if h64 > u32::MAX as u64 { u32::MAX } else { h64 as u32 };
        let top = match options.position_hint {
            Some(PageNumberPosition::TopCenter) => true,
            Some(PageNumberPosition::TopOutside) => true,
            _ => false,
        };
        PageNumberRect { x: 0, y: if top { 0 } else { height.saturating_sub(h) }, width, height: h }
    }

    /// A number read with less than the least confidence does not count.
    pub fn accept_number(number: Option<i32>, confidence: u32, options: &PageNumberOptions) -> (r: Option<i32>)
        ensures
            r == if confidence >= options.min_confidence { number } else { None },
    {
        if confidence >= options.min_confidence {
            number
        } else {
            None
        }
    }
}

/// Reads page numbers from page images.
pub struct TesseractPageDetector;

/// The readings of a book and what they say about its numbering.
#[derive(Debug, Clone)]
pub struct PageNumberAnalysis {
    pub detections: Vec<DetectedPageNumber>,
    pub position_pattern: PageNumberPosition,
    pub odd_page_offset_x: i32,
    pub even_page_offset_x: i32,
    pub missing_pages: Vec<usize>,
    pub duplicate_pages: Vec<i32>,
}

/// An odd page number: positive and not divisible by two.
pub open spec fn odd_number(v: i32) -> bool {
    v > 0 && v % 2 == 1
}

/// Integer division rounding toward zero.
pub open spec fn trunc_div(a: int, b: int) -> int {
    if a >= 0 { a / b } else { -((-a) / b) }
}

pub open spec fn readings_wf(ds: Seq<DetectedPageNumber>) -> bool {
    forall|i: int| 0 <= i < ds.len() ==> (#[trigger] ds[i]).position.centre_fits()
}

/// Sum of the centre x of readings with a number of the given parity, and
/// their count.
pub open spec fn parity_sum(ds: Seq<DetectedPageNumber>, odd: bool) -> int
    decreases ds.len(),
{
    if ds.len() == 0 {
        0
    } else {
        parity_sum(ds.drop_last(), odd) + match ds.last().number {
            Some(v) => if odd_number(v) == odd { center_x(ds.last().position) } else { 0 },
            None => 0,
        }
    }
}

pub open spec fn parity_count(ds: Seq<DetectedPageNumber>, odd: bool) -> int
    decreases ds.len(),
{
    if ds.len() == 0 {
        0
    } else {
        parity_count(ds.drop_last(), odd) + match ds.last().number {
            Some(v) => if odd_number(v) == odd { 1int } else { 0 },
            None => 0,
        }
    }
}

/// Mean centre x of a parity group, rounded down; 0 when it is empty.
pub open spec fn parity_avg(ds: Seq<DetectedPageNumber>, odd: bool) -> int {
    if parity_count(ds, odd) == 0 { 0 } else { parity_sum(ds, odd) / parity_count(ds, odd) }
}

/// Odd and even numbers less than fifty pixels apart sit in the centre;
/// otherwise they sit on the outer or the inner side.
pub open spec fn pattern_of(odd_avg: int, even_avg: int) -> PageNumberPosition {
    if -50 < odd_avg - even_avg < 50 {
        PageNumberPosition::BottomCenter
    } else if odd_avg > even_avg {
        PageNumberPosition::BottomOutside
    } else {
        PageNumberPosition::BottomInside
    }
}

pub open spec fn numbers_of(ds: Seq<DetectedPageNumber>) -> Seq<i32>
    decreases ds.len(),
{
    if ds.len() == 0 {
        Seq::empty()
    } else {
        match ds.last().number {
            Some(v) => numbers_of(ds.drop_last()).push(v),
            None => numbers_of(ds.drop_last()),
        }
    }
}

pub open spec fn seq_min(s: Seq<i32>) -> int
    decreases s.len(),
{
    if s.len() <= 1 {
        if s.len() == 0 { 0 } else { s[0] as int }
    } else {
        let m = seq_min(s.drop_last());
        if s.last() < m { s.last() as int } else { m }
    }
}

pub open spec fn seq_max(s: Seq<i32>) -> int
    decreases s.len(),
{
    if s.len() <= 1 {
        if s.len() == 0 { 0 } else { s[0] as int }
    } else {
        let m = seq_max(s.drop_last());
        if s.last() > m { s.last() as int } else { m }
    }
}

/// The offsets from the least number of the values in `[lo, lo + k)` that
/// `s` lacks, in increasing order.
pub open spec fn missing_from(s: Seq<i32>, lo: int, k: int) -> Seq<usize>
    decreases k,
{
    if k <= 0 {
        Seq::empty()
    } else {
        let prev = missing_from(s, lo, k - 1);
        if s.contains((lo + k - 1) as i32) { prev } else { prev.push((k - 1) as usize) }
    }
}

/// The entries of `s` that repeat an earlier entry, in order.
pub open spec fn repeats(s: Seq<i32>) -> Seq<i32>
    decreases s.len(),
{
    if s.len() == 0 {
        Seq::empty()
    } else {
        let prev = repeats(s.drop_last());
        if s.drop_last().contains(s.last()) { prev.push(s.last()) } else { prev }
    }
}

pub open spec fn strictly_increasing(s: Seq<i32>) -> bool {
    forall|i: int| 1 <= i < s.len() ==> s[i - 1] < #[trigger] s[i]
}

impl TesseractPageDetector {
    /// Where the numbers sit, from the mean centre x of odd and of even
    /// numbers; with the two means.
    pub fn analyze_pattern(detections: &[DetectedPageNumber]) -> (r: (PageNumberPosition, i32, i32))
        requires
            readings_wf(detections@),
        ensures
            r.1 == parity_avg(detections@, true),
            r.2 == parity_avg(detections@, false),
            r.0 == pattern_of(r.1 as int, r.2 as int),
    {
        let mut sums: [u128; 2] = [0, 0];
        let mut counts: [u64; 2] = [0, 0];
        let mut i: usize = 0;
        while i < detections.len()
            invariant
                i <= detections@.len(),
                readings_wf(detections@),
                sums@[0] == parity_sum(detections@.take(i as int), true),
                sums@[1] == parity_sum(detections@.take(i as int), false),
                counts@[0] == parity_count(detections@.take(i as int), true),
                counts@[1] == parity_count(detections@.take(i as int), false),
                sums@[0] <= counts@[0] * 0x7fff_ffff,
                sums@[1] <= counts@[1] * 0x7fff_ffff,
                counts@[0] + counts@[1] <= i,
            decreases detections.len() - i,
        {
            proof {
                assert(detections@.take(i as int + 1).drop_last() =~= detections@.take(i as int));
            }
            let d = &detections[i];
            if let Some(num) = d.number {
                let c = d.position.center_x() as u128;
                let g: usize = if num > 0 && num % 2 == 1 { 0 } else { 1 };
                sums[g] = sums[g] + c;
                counts[g] = counts[g] + 1;
            }
            i = i + 1;
        }
        assert(detections@.take(detections@.len() as int) =~= detections@);
        let odd_avg: i32 = if counts[0] == 0 { 0 } else {
            let a = sums[0] / (counts[0] as u128);
            assert(a <= 0x7fff_ffff) by (nonlinear_arith)
                requires a == sums@[0] / (counts@[0] as u128), sums@[0] <= counts@[0] * 0x7fff_ffff, counts@[0] > 0;
            a as i32
        };
        let even_avg: i32 = if counts[1] == 0 { 0 } else {
            let a = sums[1] / (counts[1] as u128);
            assert(a <= 0x7fff_ffff) by (nonlinear_arith)
                requires a == sums@[1] / (counts@[1] as u128), sums@[1] <= counts@[1] * 0x7fff_ffff, counts@[1] > 0;
            a as i32
        };
        let diff: i64 = odd_avg as i64 - even_avg as i64;
        let pattern = if -50 < diff && diff < 50 {
            PageNumberPosition::BottomCenter
        } else if odd_avg > even_avg {
            PageNumberPosition::BottomOutside
        } else {
            PageNumberPosition::BottomInside
        };
        (pattern, odd_avg, even_avg)
    }

    /// The numbers read, in page order.
    pub fn detected_numbers(detections: &[DetectedPageNumber]) -> (r: Vec<i32>)
        ensures
            r@ == numbers_of(detections@),
    {
        let mut out: Vec<i32> = Vec::new();
        let mut i: usize = 0;
        while i < detections.len()
            invariant
                i <= detections@.len(),
                out@ == numbers_of(detections@.take(i as int)),
            decreases detections.len() - i,
        {
            proof {
                assert(detections@.take(i as int + 1).drop_last() =~= detections@.take(i as int));
            }
            if let Some(v) = detections[i].number {
                out.push(v);
            }
            i = i + 1;
        }
        assert(detections@.take(detections@.len() as int) =~= detections@);
        out
    }

    /// The set of the numbers read.
    fn number_set(numbers: &[i32]) -> (r: HashSet<i32>)
        ensures
            forall|u: i32| r@.contains(u) <==> numbers@.contains(u),
    {
        broadcast use vstd::std_specs::hash::group_hash_axioms;
        let mut set: HashSet<i32> = HashSet::new();
        let mut i: usize = 0;
        while i < numbers.len()
            invariant
                i <= numbers@.len(),
                forall|u: i32| set@.contains(u) <==> numbers@.take(i as int).contains(u),
            decreases numbers.len() - i,
        {
            let v = numbers[i];
            set.insert(v);
            proof {
                let t = numbers@.take(i as int + 1);
                assert forall|u: i32| set@.contains(u) <==> t.contains(u) by {
                    if t.contains(u) && u != v {
                        let q = choose|q: int| 0 <= q < t.len() && t[q] == u;
                        assert(numbers@.take(i as int)[q] == u);
                    }
                    if u == v {
                        assert(t[i as int] == v);
                    }
                    if numbers@.take(i as int).contains(u) {
                        let q = choose|q: int| 0 <= q < i && numbers@.take(i as int)[q] == u;
                        assert(t[q] == u);
                    }
                }
            }
            i = i + 1;
        }
        assert(numbers@.take(numbers@.len() as int) =~= numbers@);
        set
    }

    /// The extremes of a non-empty list.
    fn min_max(numbers: &[i32]) -> (r: (i32, i32))
        requires
            numbers@.len() > 0,
        ensures
            r.0 == seq_min(numbers@),
            r.1 == seq_max(numbers@),
    {
        let mut lo = numbers[0];
        let mut hi = numbers[0];
        let mut i: usize = 1;
        while i < numbers.len()
            invariant
                1 <= i <= numbers@.len(),
                lo == seq_min(numbers@.take(i as int)),
                hi == seq_max(numbers@.take(i as int)),
            decreases numbers.len() - i,
        {
            proof {
                assert(numbers@.take(i as int + 1).drop_last() =~= numbers@.take(i as int));
            }
            if numbers[i] < lo {
                lo = numbers[i];
            }
            if numbers[i] > hi {
                hi = numbers[i];
            }
            i = i + 1;
        }
        assert(numbers@.take(numbers@.len() as int) =~= numbers@);
        (lo, hi)
    }

    /// For each value between the least and the greatest number that was
    /// not read, its distance from the least.
    pub fn find_missing_pages(numbers: &[i32]) -> (r: Vec<usize>)
        ensures
            numbers@.len() == 0 ==> r@.len() == 0,
            numbers@.len() > 0 ==> r@ == missing_from(
                numbers@,
                seq_min(numbers@),
                seq_max(numbers@) - seq_min(numbers@) + 1,
            ),
    {
        if numbers.len() == 0 {
            return Vec::new();
        }
        let (lo, hi) = Self::min_max(numbers);
        proof {
            lemma_min_le_max(numbers@);
        }
        let all = Self::number_set(numbers);
        let span: u64 = (hi as i64 - lo as i64) as u64 + 1;
        let mut out: Vec<usize> = Vec::new();
        let mut k: u64 = 0;
        while k < span
            invariant
                k <= span,
                span == hi - lo + 1,
                lo == seq_min(numbers@),
                hi == seq_max(numbers@),
                lo <= hi,
                out@ == missing_from(numbers@, lo as int, k as int),
                forall|u: i32| all@.contains(u) <==> numbers@.contains(u),
            decreases span - k,
        {
            let v = (lo as i64 + k as i64) as i32;
            if !all.contains(&v) {
                out.push(k as usize);
            }
            k = k + 1;
        }
        out
    }

    /// Every reading that repeats an earlier one, in order.
    pub fn find_duplicate_pages(numbers: &[i32]) -> (r: Vec<i32>)
        ensures
            r@ == repeats(numbers@),
    {
        broadcast use vstd::std_specs::hash::group_hash_axioms;
        let mut out: Vec<i32> = Vec::new();
        let mut seen: HashSet<i32> = HashSet::new();
        let mut i: usize = 0;
        while i < numbers.len()
            invariant
                i <= numbers@.len(),
                out@ == repeats(numbers@.take(i as int)),
                forall|v: i32| seen@.contains(v) <==> numbers@.take(i as int).contains(v),
            decreases numbers.len() - i,
        {
            proof {
                assert(numbers@.take(i as int + 1).drop_last() =~= numbers@.take(i as int));
            }
            let v = numbers[i];
            let fresh = seen.insert(v);
            proof {
                let t = numbers@.take(i as int + 1);
                assert forall|u: i32| seen@.contains(u) <==> t.contains(u) by {
                    if t.contains(u) && u != v {
                        let q = choose|q: int| 0 <= q < t.len() && t[q] == u;
                        assert(numbers@.take(i as int)[q] == u);
                    }
                    if u == v {
                        assert(t[i as int] == v);
                    }
                }
            }
            if !fresh {
                out.push(v);
            }
            i = i + 1;
        }
        assert(numbers@.take(numbers@.len() as int) =~= numbers@);
        out
    }

    /// The readings of a book summarised: position pattern, group means,
    /// missing and repeated numbers.
    pub fn analyze_detections(detections: Vec<DetectedPageNumber>) -> (r: PageNumberAnalysis)
        requires
            readings_wf(detections@),
        ensures
            r.detections@ == detections@,
            r.odd_page_offset_x == parity_avg(detections@, true),
            r.even_page_offset_x == parity_avg(detections@, false),
            r.position_pattern == pattern_of(r.odd_page_offset_x as int, r.even_page_offset_x as int),
            numbers_of(detections@).len() == 0 ==> r.missing_pages@.len() == 0,
            numbers_of(detections@).len() > 0 ==> r.missing_pages@ == missing_from(
                numbers_of(detections@),
                seq_min(numbers_of(detections@)),
                seq_max(numbers_of(detections@)) - seq_min(numbers_of(detections@)) + 1,
            ),
            r.duplicate_pages@ == repeats(numbers_of(detections@)),
    {
        let (pattern, odd, even) = Self::analyze_pattern(detections.as_slice());
        let numbers = Self::detected_numbers(detections.as_slice());
        let missing = Self::find_missing_pages(numbers.as_slice());
        let duplicates = Self::find_duplicate_pages(numbers.as_slice());
        PageNumberAnalysis {
            detections,
            position_pattern: pattern,
            odd_page_offset_x: odd,
            even_page_offset_x: even,
            missing_pages: missing,
            duplicate_pages: duplicates,
        }
    }

    /// Per-page horizontal corrections, and their mean rounded toward zero
    /// (0 when no page has a number).
    pub fn calculate_offset(analysis: &PageNumberAnalysis, _image_width: u32) -> (r: Result<
        OffsetCorrection,
        PageNumberError,
    >)
        ensures
            r matches Ok(c) && {
                let cs = corrections(analysis.detections@, analysis.odd_page_offset_x, analysis.even_page_offset_x);
                &&& c.page_offsets@ == cs
                &&& c.unified_offset == if cs.len() == 0 { 0 } else { trunc_div(offset_sum(cs), cs.len() as int) }
            },
    {
        let ds = analysis.detections.as_slice();
        let ghost cs_all = corrections(ds@, analysis.odd_page_offset_x, analysis.even_page_offset_x);
        let mut out: Vec<(usize, i32)> = Vec::new();
        let mut sum: i128 = 0;
        let mut i: usize = 0;
        while i < ds.len()
            invariant
                i <= ds@.len(),
                out@ == corrections(ds@.take(i as int), analysis.odd_page_offset_x, analysis.even_page_offset_x),
                sum == offset_sum(out@),
                out@.len() <= i,
                -0x8000_0000 * out@.len() <= sum <= 0x7fff_ffff * out@.len(),
            decreases ds.len() - i,
        {
            proof {
                assert(ds@.take(i as int + 1).drop_last() =~= ds@.take(i as int));
            }
            if let Some(num) = ds[i].number {
                let off = if num > 0 && num % 2 == 1 { analysis.odd_page_offset_x } else { analysis.even_page_offset_x };
                let ghost before = out@;
                out.push((i, off));
                assert(out@.drop_last() =~= before);
                sum = sum + off as i128;
            }
            i = i + 1;
        }
        assert(ds@.take(ds@.len() as int) =~= ds@);
        let n = out.len();
        let unified: i32 = if n == 0 {
            0
        } else {
            let q: i128 = if sum >= 0 { sum / (n as i128) } else { -((-sum) / (n as i128)) };
            assert(-0x8000_0000 <= q <= 0x7fff_ffff) by (nonlinear_arith)
                requires
                    q == (if sum >= 0 { (sum as int) / (n as int) } else { -((-(sum as int)) / (n as int)) }),
                    -0x8000_0000 * n <= sum <= 0x7fff_ffff * n,
                    n > 0;
            q as i32
        };
        Ok(OffsetCorrection { page_offsets: out, unified_offset: unified })
    }

    /// Numbers read in page order increase strictly.
    pub fn validate_order(analysis: &PageNumberAnalysis) -> (r: Result<bool, PageNumberError>)
        ensures
            r == Ok::<bool, PageNumberError>(strictly_increasing(numbers_of(analysis.detections@))),
    {
        let numbers = Self::detected_numbers(analysis.detections.as_slice());
        let mut i: usize = 1;
        while i < numbers.len()
            invariant
                1 <= i,
                numbers@ == numbers_of(analysis.detections@),
                forall|k: int| 1 <= k < i && k < numbers@.len() ==> numbers@[k - 1] < #[trigger] numbers@[k],
            decreases numbers.len() - i,
        {
            if numbers[i] <= numbers[i - 1] {
                assert(!(numbers@[i as int - 1] < numbers@[i as int]));
                return Ok(false);
            }
            i = i + 1;
        }
        Ok(true)
    }
}

/// The correction of each reading with a number: its index and the mean
/// offset of its parity group.
pub open spec fn corrections(ds: Seq<DetectedPageNumber>, odd_x: i32, even_x: i32) -> Seq<(usize, i32)>
    decreases ds.len(),
{
    if ds.len() == 0 {
        Seq::empty()
    } else {
        let prev = corrections(ds.drop_last(), odd_x, even_x);
        match ds.last().number {
            Some(v) => prev.push(((ds.len() - 1) as usize, if odd_number(v) { odd_x } else { even_x })),
            None => prev,
        }
    }
}

pub open spec fn offset_sum(cs: Seq<(usize, i32)>) -> int
    decreases cs.len(),
{
    if cs.len() == 0 {
        0
    } else {
        offset_sum(cs.drop_last()) + cs.last().1
    }
}

proof fn lemma_min_le_max(s: Seq<i32>)
    requires
        s.len() > 0,
    ensures
        seq_min(s) <= seq_max(s),
        i32::MIN <= seq_min(s) && seq_max(s) <= i32::MAX,
    decreases s.len(),
{
    if s.len() > 1 {
        lemma_min_le_max(s.drop_last());
    }
}

} // verus!
