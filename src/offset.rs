//! Book-level offset analysis: the shift between physical and logical page
//! numbers, and the per-page shift that lines page numbers up within
//! the odd and the even group.

use vstd::prelude::*;
use std::collections::HashSet;
use crate::page_number::{DetectedPageNumber, PageNumberRect, center_x, center_y};

verus! {

/// Shifts tried run from `-MAX_SHIFT_TEST` up to `MAX_SHIFT_TEST - 1`.
pub const MAX_SHIFT_TEST: i32 = 300;

/// Fewest matching pages for a reliable analysis.
pub const MIN_MATCH_COUNT: usize = 5;

/// Group averages closer than this on the y axis are merged.
pub const Y_ALIGN_LIMIT: i32 = 350;

/// The alignment decided for one physical page (numbered from 1).
#[derive(Debug, Clone, Copy, PartialEq, Eq)]
pub struct PageOffsetResult {
    pub physical_page: usize,
    pub logical_page: Option<i32>,
    pub shift_x: i32,
    pub shift_y: i32,
    pub page_number_position: Option<PageNumberRect>,
    pub is_odd: bool,
}

/// The result of analysing the page numbers of a whole book. The confidence
/// of the chosen shift is `score / max_score`, the summed recogniser
/// confidence of its matches over a hundred per detection.
#[derive(Debug, Clone)]
pub struct BookOffsetAnalysis {
    pub page_number_shift: i32,
    pub page_offsets: Vec<PageOffsetResult>,
    pub odd_avg_x: Option<i32>,
    pub even_avg_x: Option<i32>,
    pub odd_avg_y: Option<i32>,
    pub even_avg_y: Option<i32>,
    pub match_count: usize,
    pub score: u128,
    pub max_score: u128,
}

/// Infers page-number shifts and alignment offsets.
pub struct PageOffsetAnalyzer;

pub open spec fn no_offset(physical_page: usize) -> PageOffsetResult {
    PageOffsetResult {
        physical_page,
        logical_page: None,
        shift_x: 0,
        shift_y: 0,
        page_number_position: None,
        is_odd: physical_page % 2 == 1,
    }
}

/// The logical page that `d` should read under shift `s`.
pub open spec fn expected_logical(d: DetectedPageNumber, s: int) -> int {
    d.page_index + 1 - s
}

/// `d` read exactly the logical page that shift `s` predicts.
pub open spec fn matches_shift(d: DetectedPageNumber, s: int) -> bool {
    match d.number {
        Some(v) => expected_logical(d, s) >= 1 && v as int == expected_logical(d, s),
        None => false,
    }
}

pub open spec fn shift_score(ds: Seq<DetectedPageNumber>, s: int) -> int
    decreases ds.len(),
{
    if ds.len() == 0 {
        0
    } else {
        shift_score(ds.drop_last(), s) + if matches_shift(ds.last(), s) { ds.last().confidence as int } else { 0 }
    }
}

pub open spec fn shift_count(ds: Seq<DetectedPageNumber>, s: int) -> int
    decreases ds.len(),
{
    if ds.len() == 0 {
        0
    } else {
        shift_count(ds.drop_last(), s) + if matches_shift(ds.last(), s) { 1int } else { 0 }
    }
}

pub open spec fn abs(a: int) -> int {
    if a < 0 { -a } else { a }
}

pub open spec fn in_shift_range(s: int) -> bool {
    -MAX_SHIFT_TEST <= s < MAX_SHIFT_TEST
}

/// `s` is at least as good as `t`: a higher score, or an equal score and a
/// smaller magnitude, the negative shift first among equal magnitudes.
pub open spec fn beats(ds: Seq<DetectedPageNumber>, s: int, t: int) -> bool {
    shift_score(ds, t) < shift_score(ds, s) || (shift_score(ds, t) == shift_score(ds, s) && (abs(s)
        < abs(t) || (abs(s) == abs(t) && s <= t)))
}

/// `s` is the best shift: it beats every shift in range.
pub open spec fn is_best_shift(ds: Seq<DetectedPageNumber>, s: int) -> bool {
    in_shift_range(s) && forall|t: int| in_shift_range(t) ==> #[trigger] beats(ds, s, t)
}

pub open spec fn detection_wf(d: DetectedPageNumber) -> bool {
    d.page_index < usize::MAX && d.position.centre_fits()
}

pub open spec fn detections_wf(ds: Seq<DetectedPageNumber>) -> bool {
    forall|i: int| 0 <= i < ds.len() ==> detection_wf(#[trigger] ds[i])
}

/// The book is not reliably numbered under a shift matching `count` of `n`
/// detections.
pub open spec fn too_few_matches(count: int, n: int) -> bool {
    count < MIN_MATCH_COUNT || 3 * count < n
}

pub open spec fn parity_odd(d: DetectedPageNumber) -> bool {
    (d.page_index + 1) % 2 == 1
}

/// Sum of the centre coordinates (`axis` 0 for x, 1 for y) of the detections
/// that match shift `s` and have the given parity, and their number.
pub open spec fn group_sum(ds: Seq<DetectedPageNumber>, s: int, odd: bool, axis: int) -> int
    decreases ds.len(),
{
    if ds.len() == 0 {
        0
    } else {
        let d = ds.last();
        group_sum(ds.drop_last(), s, odd, axis) + if matches_shift(d, s) && parity_odd(d) == odd {
            if axis == 0 { center_x(d.position) } else { center_y(d.position) }
        } else {
            0
        }
    }
}

pub open spec fn group_count(ds: Seq<DetectedPageNumber>, s: int, odd: bool) -> int
    decreases ds.len(),
{
    if ds.len() == 0 {
        0
    } else {
        let d = ds.last();
        group_count(ds.drop_last(), s, odd) + if matches_shift(d, s) && parity_odd(d) == odd { 1int } else { 0 }
    }
}

/// The mean centre of a group, rounded down; `None` for an empty group.
pub open spec fn group_avg(ds: Seq<DetectedPageNumber>, s: int, odd: bool, axis: int) -> Option<i32> {
    if group_count(ds, s, odd) == 0 {
        None
    } else {
        Some((group_sum(ds, s, odd, axis) / group_count(ds, s, odd)) as i32)
    }
}

/// Group y averages closer than the limit are both replaced by their midpoint.
pub open spec fn align_y(o: Option<i32>, e: Option<i32>) -> (Option<i32>, Option<i32>) {
    match (o, e) {
        (Some(a), Some(b)) => if abs(a - b) < Y_ALIGN_LIMIT {
            (Some(((a + b) / 2) as i32), Some(((a + b) / 2) as i32))
        } else {
            (o, e)
        },
        _ => (o, e),
    }
}

pub open spec fn shift_by(avg: Option<i32>, centre: int) -> i32 {
    match avg {
        Some(a) => (a - centre) as i32,
        None => 0,
    }
}

/// The offset of one detection under shift `s` and the group averages.
pub open spec fn page_offset(
    d: DetectedPageNumber,
    s: int,
    ax: (Option<i32>, Option<i32>),
    ay: (Option<i32>, Option<i32>),
) -> PageOffsetResult {
    let physical = (d.page_index + 1) as usize;
    if matches_shift(d, s) {
        let odd = physical % 2 == 1;
        PageOffsetResult {
            physical_page: physical,
            logical_page: Some(expected_logical(d, s) as i32),
            shift_x: shift_by(if odd { ax.0 } else { ax.1 }, center_x(d.position)),
            shift_y: shift_by(if odd { ay.0 } else { ay.1 }, center_y(d.position)),
            page_number_position: Some(d.position),
            is_odd: odd,
        }
    } else {
        no_offset(physical)
    }
}

pub open spec fn best_shift(ds: Seq<DetectedPageNumber>) -> int {
    choose|s: int| is_best_shift(ds, s)
}

/// The analysis keeps its offsets: enough pages match the best shift.
pub open spec fn analysis_reliable(ds: Seq<DetectedPageNumber>) -> bool {
    ds.len() > 0 && !too_few_matches(shift_count(ds, best_shift(ds)), ds.len() as int)
}

pub open spec fn analysis_x(ds: Seq<DetectedPageNumber>) -> (Option<i32>, Option<i32>) {
    let s = best_shift(ds);
    (group_avg(ds, s, true, 0), group_avg(ds, s, false, 0))
}

pub open spec fn analysis_y(ds: Seq<DetectedPageNumber>) -> (Option<i32>, Option<i32>) {
    let s = best_shift(ds);
    align_y(group_avg(ds, s, true, 1), group_avg(ds, s, false, 1))
}

/// The per-page offsets of the analysis, one per detection in order.
pub open spec fn analysis_offsets(ds: Seq<DetectedPageNumber>) -> Seq<PageOffsetResult> {
    if analysis_reliable(ds) {
        ds.map_values(|d: DetectedPageNumber| page_offset(d, best_shift(ds), analysis_x(ds), analysis_y(ds)))
    } else {
        ds.map_values(|d: DetectedPageNumber| no_offset((d.page_index + 1) as usize))
    }
}

impl PageOffsetResult {
    /// A page left where it is.
    pub fn no_offset(physical_page: usize) -> (r: PageOffsetResult)
        ensures
            r == no_offset(physical_page),
    {
        PageOffsetResult {
            physical_page,
            logical_page: None,
            shift_x: 0,
            shift_y: 0,
            page_number_position: None,
            is_odd: physical_page % 2 == 1,
        }
    }
}

impl BookOffsetAnalysis {
    /// The analysis of no detections.
    pub fn empty() -> (r: BookOffsetAnalysis)
        ensures
            r.page_number_shift == 0,
            r.page_offsets@.len() == 0,
            r.odd_avg_x.is_none() && r.even_avg_x.is_none(),
            r.odd_avg_y.is_none() && r.even_avg_y.is_none(),
            r.match_count == 0,
            r.score == 0,
            r.max_score == 0,
    {
        BookOffsetAnalysis {
            page_number_shift: 0,
            page_offsets: Vec::new(),
            odd_avg_x: None,
            even_avg_x: None,
            odd_avg_y: None,
            even_avg_y: None,
            match_count: 0,
            score: 0,
            max_score: 0,
        }
    }

    /// At least five matches, and matches for at least a third of the pages.
    pub fn is_reliable(&self, total_pages: usize) -> (r: bool)
        ensures
            r == !too_few_matches(self.match_count as int, total_pages as int),
    {
        self.match_count >= MIN_MATCH_COUNT && (self.match_count as u128) * 3 >= total_pages as u128
    }

    /// The first offset recorded for `physical_page`.
    pub fn get_offset(&self, physical_page: usize) -> (r: Option<PageOffsetResult>)
        ensures
            match r {
                Some(o) => exists|i: int|
                    0 <= i < self.page_offsets@.len() && self.page_offsets@[i] == o
                        && o.physical_page == physical_page && forall|j: int|
                        0 <= j < i ==> (#[trigger] self.page_offsets@[j]).physical_page != physical_page,
                None => forall|j: int|
                    0 <= j < self.page_offsets@.len() ==> (#[trigger] self.page_offsets@[j]).physical_page
                        != physical_page,
            },
    {
        let mut i: usize = 0;
        while i < self.page_offsets.len()
            invariant
                i <= self.page_offsets@.len(),
                forall|j: int| 0 <= j < i ==> (#[trigger] self.page_offsets@[j]).physical_page != physical_page,
            decreases self.page_offsets.len() - i,
        {
            if self.page_offsets[i].physical_page == physical_page {
                return Some(self.page_offsets[i]);
            }
            i = i + 1;
        }
        None
    }
}

impl Default for BookOffsetAnalysis {
    fn default() -> (r: BookOffsetAnalysis)
        ensures
            r.page_number_shift == 0,
            r.page_offsets@.len() == 0,
            r.odd_avg_x.is_none() && r.even_avg_x.is_none(),
            r.odd_avg_y.is_none() && r.even_avg_y.is_none(),
            r.match_count == 0,
            r.score == 0,
            r.max_score == 0,
    {
        BookOffsetAnalysis::empty()
    }
}

fn matches_shift_exec(d: &DetectedPageNumber, s: i32) -> (r: bool)
    ensures
        r == matches_shift(*d, s as int),
{
    let e: i128 = d.page_index as i128 + 1 - s as i128;
    match d.number {
        Some(v) => e >= 1 && v as i128 == e,
        None => false,
    }
}

impl PageOffsetAnalyzer {
    /// Score and count of the detections that match shift `s`.
    fn score_shift(ds: &[DetectedPageNumber], s: i32) -> (r: (u128, usize))
        ensures
            r.0 == shift_score(ds@, s as int),
            r.1 == shift_count(ds@, s as int),
    {
        let mut score: u128 = 0;
        let mut count: usize = 0;
        let mut i: usize = 0;
        while i < ds.len()
            invariant
                i <= ds.len(),
                score == shift_score(ds@.take(i as int), s as int),
                count == shift_count(ds@.take(i as int), s as int),
                score <= i * 0xffff_ffff,
                count <= i,
            decreases ds.len() - i,
        {
            proof {
                assert(ds@.take(i as int + 1).drop_last() =~= ds@.take(i as int));
            }
            if matches_shift_exec(&ds[i], s) {
                score = score + ds[i].confidence as u128;
                count = count + 1;
            }
            i = i + 1;
        }
        assert(ds@.take(ds.len() as int) =~= ds@);
        (score, count)
    }

    /// The shift in `[-300, 300)` whose matches carry the highest summed
    /// confidence, the one of smallest magnitude among equals; with its
    /// number of matches and its score.
    pub fn find_best_page_number_shift(ds: &[DetectedPageNumber]) -> (r: (i32, usize, u128))
        ensures
            is_best_shift(ds@, r.0 as int),
            r.1 == shift_count(ds@, r.0 as int),
            r.2 == shift_score(ds@, r.0 as int),
    {
        let mut best_shift: i32 = 0;
        let mut best_score: u128 = 0;
        let mut best_seen = false;
        let mut s: i32 = -MAX_SHIFT_TEST;
        while s < MAX_SHIFT_TEST
            invariant
                -MAX_SHIFT_TEST <= s <= MAX_SHIFT_TEST,
                best_seen ==> -MAX_SHIFT_TEST <= best_shift < s,
                !best_seen ==> best_shift == 0 && s <= 0,
                best_score == if best_seen { shift_score(ds@, best_shift as int) } else { 0 },
                forall|t: int| -MAX_SHIFT_TEST <= t < s ==> #[trigger] shift_score(ds@, t) < best_score
                    || (shift_score(ds@, t) == best_score && (abs(best_shift as int) < abs(t) || (abs(
                    best_shift as int) == abs(t) && best_shift <= t))),
            decreases MAX_SHIFT_TEST - s,
        {
            let (score, _count) = Self::score_shift(ds, s);
            let mag_s: i32 = if s < 0 { -s } else { s };
            let mag_b: i32 = if best_shift < 0 { -best_shift } else { best_shift };
            if score > best_score || (score == best_score && mag_s < mag_b) {
                best_score = score;
                best_shift = s;
                best_seen = true;
            } else if s == 0 && !best_seen {
                best_seen = true;
            }
            assert forall|t: int| -MAX_SHIFT_TEST <= t < s + 1 implies #[trigger] shift_score(ds@, t) < best_score
                || (shift_score(ds@, t) == best_score && (abs(best_shift as int) < abs(t) || (abs(
                best_shift as int) == abs(t) && best_shift <= t))) by {
                if t == s {
                    assert(shift_score(ds@, t) == score);
                }
            }
            s = s + 1;
        }
        proof {
            lemma_score_nonneg(ds@, 0);
            assert forall|t: int| in_shift_range(t) implies #[trigger] beats(ds@, best_shift as int, t) by {}
        }
        let (score, count) = Self::score_shift(ds, best_shift);
        (best_shift, count, score)
    }

    fn group_average(ds: &[DetectedPageNumber], s: i32, odd: bool, axis: u8) -> (r: Option<i32>)
        requires
            detections_wf(ds@),
            axis < 2,
        ensures
            r == group_avg(ds@, s as int, odd, axis as int),
            r matches Some(v) ==> v >= 0,
    {
        let mut sum: u128 = 0;
        let mut count: usize = 0;
        let mut i: usize = 0;
        while i < ds.len()
            invariant
                i <= ds.len(),
                detections_wf(ds@),
                axis < 2,
                sum == group_sum(ds@.take(i as int), s as int, odd, axis as int),
                count == group_count(ds@.take(i as int), s as int, odd),
                sum <= count * 0x7fff_ffff,
                count <= i,
            decreases ds.len() - i,
        {
            proof {
                assert(ds@.take(i as int + 1).drop_last() =~= ds@.take(i as int));
            }
            let d = &ds[i];
            let physical = d.page_index + 1;
            if matches_shift_exec(d, s) && (physical % 2 == 1) == odd {
                let c = if axis == 0 { d.position.center_x() } else { d.position.center_y() };
                sum = sum + c as u128;
                count = count + 1;
            }
            i = i + 1;
        }
        assert(ds@.take(ds.len() as int) =~= ds@);
        if count == 0 {
            None
        } else {
            let avg = sum / (count as u128);
            assert(avg <= 0x7fff_ffff) by (nonlinear_arith)
                requires avg == sum / (count as u128), sum <= count * 0x7fff_ffff, count > 0;
            Some(avg as i32)
        }
    }

    fn align_group_y_values(o: Option<i32>, e: Option<i32>) -> (r: (Option<i32>, Option<i32>))
        requires
            o matches Some(v) ==> v >= 0,
            e matches Some(v) ==> v >= 0,
        ensures
            r == align_y(o, e),
            r.0 matches Some(v) ==> v >= 0,
            r.1 matches Some(v) ==> v >= 0,
    {
        match (o, e) {
            (Some(a), Some(b)) => {
                let d = if a >= b { a - b } else { b - a };
                if d < Y_ALIGN_LIMIT {
                    let avg = ((a as i64 + b as i64) / 2) as i32;
                    (Some(avg), Some(avg))
                } else {
                    (o, e)
                }
            },
            _ => (o, e),
        }
    }

    fn offset_for(
        d: &DetectedPageNumber,
        s: i32,
        ax: (Option<i32>, Option<i32>),
        ay: (Option<i32>, Option<i32>),
    ) -> (r: PageOffsetResult)
        requires
            detection_wf(*d),
            ax.0 matches Some(v) ==> v >= 0,
            ax.1 matches Some(v) ==> v >= 0,
            ay.0 matches Some(v) ==> v >= 0,
            ay.1 matches Some(v) ==> v >= 0,
        ensures
            r == page_offset(*d, s as int, ax, ay),
    {
        let physical = d.page_index + 1;
        if matches_shift_exec(d, s) {
            let odd = physical % 2 == 1;
            let avg_x = if odd { ax.0 } else { ax.1 };
            let avg_y = if odd { ay.0 } else { ay.1 };
            let cx = d.position.center_x();
            let cy = d.position.center_y();
            let shift_x = match avg_x {
                Some(a) => a - cx,
                None => 0,
            };
            let shift_y = match avg_y {
                Some(a) => a - cy,
                None => 0,
            };
            PageOffsetResult {
                physical_page: physical,
                logical_page: Some((physical as i128 - s as i128) as i32),
                shift_x,
                shift_y,
                page_number_position: Some(d.position),
                is_odd: odd,
            }
        } else {
            PageOffsetResult::no_offset(physical)
        }
    }

    /// The set of the physical pages that have an offset.
    fn page_set(s: &Vec<PageOffsetResult>) -> (r: HashSet<usize>)
        ensures
            forall|page: usize| r@.contains(page) <==> has_page(s@, page as int),
    {
        broadcast use vstd::std_specs::hash::group_hash_axioms;
        let mut set: HashSet<usize> = HashSet::new();
        let mut i: usize = 0;
        while i < s.len()
            invariant
                i <= s@.len(),
                forall|page: usize| set@.contains(page) <==> has_page(s@.take(i as int), page as int),
            decreases s.len() - i,
        {
            let v = s[i].physical_page;
            set.insert(v);
            proof {
                let t = s@.take(i as int + 1);
                let t0 = s@.take(i as int);
                assert forall|page: usize| set@.contains(page) <==> has_page(t, page as int) by {
                    if has_page(t, page as int) && page != v {
                        let q = choose|q: int| 0 <= q < t.len() && (#[trigger] t[q]).physical_page == page;
                        assert(t0[q] == t[q]);
                    }
                    if page == v {
                        assert(t[i as int].physical_page == v);
                    }
                    if has_page(t0, page as int) {
                        let q = choose|q: int| 0 <= q < t0.len() && (#[trigger] t0[q]).physical_page == page;
                        assert(t[q] == t0[q]);
                    }
                }
            }
            i = i + 1;
        }
        assert(s@.take(s@.len() as int) =~= s@);
        set
    }

    /// Adds a zero offset for every page from 1 to `total_pages` that has
    /// none, then orders the list by physical page.
    pub fn interpolate_missing_offsets(analysis: &mut BookOffsetAnalysis, total_pages: usize)
        ensures
            final(analysis).page_offsets@ == sort_by_page(
                old(analysis).page_offsets@ + missing_offsets(old(analysis).page_offsets@, total_pages as int),
            ),
            final(analysis).page_number_shift == old(analysis).page_number_shift,
            final(analysis).match_count == old(analysis).match_count,
            final(analysis).score == old(analysis).score,
            final(analysis).max_score == old(analysis).max_score,
            final(analysis).odd_avg_x == old(analysis).odd_avg_x,
            final(analysis).even_avg_x == old(analysis).even_avg_x,
            final(analysis).odd_avg_y == old(analysis).odd_avg_y,
            final(analysis).even_avg_y == old(analysis).even_avg_y,
    {
        let ghost orig = analysis.page_offsets@;
        let existing = Self::page_set(&analysis.page_offsets);
        let mut added: Vec<PageOffsetResult> = Vec::new();
        let mut k: usize = 0;
        while k < total_pages
            invariant
                k <= total_pages,
                analysis.page_offsets@ == orig,
                forall|page: usize| existing@.contains(page) <==> has_page(orig, page as int),
                added@ == missing_offsets(orig, k as int),
            decreases total_pages - k,
        {
            let page = k + 1;
            if !existing.contains(&page) {
                added.push(PageOffsetResult::no_offset(page));
            }
            k = k + 1;
        }
        let mut all: Vec<PageOffsetResult> = Vec::new();
        let mut i: usize = 0;
        while i < analysis.page_offsets.len()
            invariant
                i <= orig.len(),
                analysis.page_offsets@ == orig,
                all@ == orig.take(i as int),
            decreases orig.len() - i,
        {
            all.push(analysis.page_offsets[i]);
            assert(orig.take(i as int + 1) =~= orig.take(i as int).push(orig[i as int]));
            i = i + 1;
        }
        let mut j: usize = 0;
        while j < added.len()
            invariant
                j <= added@.len(),
                all@ == orig + added@.take(j as int),
            decreases added.len() - j,
        {
            all.push(added[j]);
            assert(added@.take(j as int + 1) =~= added@.take(j as int).push(added@[j as int]));
            assert(orig + added@.take(j as int + 1) =~= (orig + added@.take(j as int)).push(added@[j as int]));
            j = j + 1;
        }
        assert(orig.take(orig.len() as int) =~= orig);
        assert(added@.take(added@.len() as int) =~= added@);
        analysis.page_offsets = sort_offsets_by_page(all);
    }

    /// Analyses the page numbers of a book. Where fewer than five pages, or
    /// fewer than a third of them, match the best shift, every page keeps a
    /// zero offset and the shift and confidence are zero.
    pub fn analyze_offsets(detections: &[DetectedPageNumber], _image_height: u32) -> (r: BookOffsetAnalysis)
        requires
            detections_wf(detections@),
        ensures
            r.page_offsets@ == analysis_offsets(detections@),
            detections@.len() == 0 ==> r.page_number_shift == 0 && r.match_count == 0 && r.score == 0,
            detections@.len() > 0 && !analysis_reliable(detections@) ==> r.page_number_shift == 0
                && r.match_count == 0 && r.score == 0 && r.odd_avg_x.is_none() && r.even_avg_x.is_none()
                && r.odd_avg_y.is_none() && r.even_avg_y.is_none(),
            analysis_reliable(detections@) ==> {
                &&& r.page_number_shift == best_shift(detections@)
                &&& r.match_count == shift_count(detections@, best_shift(detections@))
                &&& r.score == shift_score(detections@, best_shift(detections@))
                &&& r.max_score == 100 * detections@.len()
                &&& (r.odd_avg_x, r.even_avg_x) == analysis_x(detections@)
                &&& (r.odd_avg_y, r.even_avg_y) == analysis_y(detections@)
            },
    {
        let n = detections.len();
        if n == 0 {
            let r = BookOffsetAnalysis::empty();
            assert(r.page_offsets@ =~= analysis_offsets(detections@));
            return r;
        }
        let (shift, count, score) = Self::find_best_page_number_shift(detections);
        proof {
            lemma_best_unique(detections@, shift as int);
        }
        if count < MIN_MATCH_COUNT || (count as u128) * 3 < n as u128 {
            let mut offsets: Vec<PageOffsetResult> = Vec::new();
            let mut i: usize = 0;
            while i < n
                invariant
                    i <= n,
                    n == detections@.len(),
                    detections_wf(detections@),
                    offsets@.len() == i,
                    forall|j: int| 0 <= j < i ==> #[trigger] offsets@[j] == no_offset(
                        (detections@[j].page_index + 1) as usize),
                decreases n - i,
            {
                offsets.push(PageOffsetResult::no_offset(detections[i].page_index + 1));
                i = i + 1;
            }
            assert(offsets@ =~= analysis_offsets(detections@));
            return BookOffsetAnalysis {
                page_number_shift: 0,
                page_offsets: offsets,
                odd_avg_x: None,
                even_avg_x: None,
                odd_avg_y: None,
                even_avg_y: None,
                match_count: 0,
                score: 0,
                max_score: 0,
            };
        }
        let odd_x = Self::group_average(detections, shift, true, 0);
        let even_x = Self::group_average(detections, shift, false, 0);
        let odd_y0 = Self::group_average(detections, shift, true, 1);
        let even_y0 = Self::group_average(detections, shift, false, 1);
        let (odd_y, even_y) = Self::align_group_y_values(odd_y0, even_y0);
        let ghost ax = (odd_x, even_x);
        let ghost ay = (odd_y, even_y);
        let mut offsets: Vec<PageOffsetResult> = Vec::new();
        let mut i: usize = 0;
        while i < n
            invariant
                i <= n,
                n == detections@.len(),
                detections_wf(detections@),
                ax == (odd_x, even_x),
                ay == (odd_y, even_y),
                odd_x matches Some(v) ==> v >= 0,
                even_x matches Some(v) ==> v >= 0,
                odd_y matches Some(v) ==> v >= 0,
                even_y matches Some(v) ==> v >= 0,
                offsets@.len() == i,
                forall|j: int| 0 <= j < i ==> #[trigger] offsets@[j] == page_offset(
                    detections@[j], shift as int, ax, ay),
            decreases n - i,
        {
            offsets.push(Self::offset_for(&detections[i], shift, (odd_x, even_x), (odd_y, even_y)));
            i = i + 1;
        }
        assert(offsets@ =~= analysis_offsets(detections@));
        BookOffsetAnalysis {
            page_number_shift: shift,
            page_offsets: offsets,
            odd_avg_x: odd_x,
            even_avg_x: even_x,
            odd_avg_y: odd_y,
            even_avg_y: even_y,
            match_count: count,
            score,
            max_score: 100 * (n as u128),
        }
    }
}

/// `x` placed after every entry whose page is not greater than its own.
pub open spec fn insert_by_page(x: PageOffsetResult, t: Seq<PageOffsetResult>) -> Seq<PageOffsetResult>
    decreases t.len(),
{
    if t.len() == 0 {
        seq![x]
    } else if x.physical_page < t[0].physical_page {
        seq![x] + t
    } else {
        seq![t[0]] + insert_by_page(x, t.drop_first())
    }
}

/// `s` ordered by physical page; entries of one page keep their order.
pub open spec fn sort_by_page(s: Seq<PageOffsetResult>) -> Seq<PageOffsetResult>
    decreases s.len(),
{
    if s.len() == 0 {
        s
    } else {
        insert_by_page(s.last(), sort_by_page(s.drop_last()))
    }
}

pub open spec fn has_page(s: Seq<PageOffsetResult>, page: int) -> bool {
    exists|i: int| 0 <= i < s.len() && (#[trigger] s[i]).physical_page == page
}

/// Zero offsets for the pages among the first `k` that `s` lacks, in order.
pub open spec fn missing_offsets(s: Seq<PageOffsetResult>, k: int) -> Seq<PageOffsetResult>
    decreases k,
{
    if k <= 0 {
        Seq::empty()
    } else {
        let prev = missing_offsets(s, k - 1);
        if has_page(s, k) { prev } else { prev.push(no_offset(k as usize)) }
    }
}

proof fn lemma_insert_by_page_at(x: PageOffsetResult, t: Seq<PageOffsetResult>, j: int)
    requires
        0 <= j <= t.len(),
        forall|k: int| 0 <= k < j ==> t[k].physical_page <= x.physical_page,
        j < t.len() ==> x.physical_page < t[j].physical_page,
    ensures
        insert_by_page(x, t) == t.take(j) + seq![x] + t.skip(j),
    decreases t.len(),
{
    if t.len() == 0 {
        assert(t.take(j) + seq![x] + t.skip(j) =~= seq![x]);
    } else if j == 0 {
        assert(t.take(0) + seq![x] + t.skip(0) =~= seq![x] + t);
    } else {
        let r = t.drop_first();
        lemma_insert_by_page_at(x, r, j - 1);
        assert(t.take(j) + seq![x] + t.skip(j) =~= seq![t[0]] + (r.take(j - 1) + seq![x] + r.skip(j - 1)));
    }
}

fn sort_offsets_by_page(v: Vec<PageOffsetResult>) -> (r: Vec<PageOffsetResult>)
    ensures
        r@ == sort_by_page(v@),
{
    let mut out: Vec<PageOffsetResult> = Vec::new();
    let mut i: usize = 0;
    while i < v.len()
        invariant
            i <= v@.len(),
            out@ == sort_by_page(v@.take(i as int)),
        decreases v.len() - i,
    {
        let x = v[i];
        let mut j: usize = 0;
        while j < out.len() && out[j].physical_page <= x.physical_page
            invariant
                j <= out@.len(),
                forall|k: int| 0 <= k < j ==> out@[k].physical_page <= x.physical_page,
            decreases out.len() - j,
        {
            j = j + 1;
        }
        proof {
            lemma_insert_by_page_at(x, out@, j as int);
            assert(v@.take(i as int + 1).drop_last() =~= v@.take(i as int));
        }
        let ghost prev = out@;
        out.insert(j, x);
        assert(out@ =~= prev.take(j as int) + seq![x] + prev.skip(j as int));
        i = i + 1;
    }
    assert(v@.take(v@.len() as int) =~= v@);
    out
}

proof fn lemma_score_nonneg(ds: Seq<DetectedPageNumber>, s: int)
    ensures
        shift_score(ds, s) >= 0,
    decreases ds.len(),
{
    if ds.len() > 0 {
        lemma_score_nonneg(ds.drop_last(), s);
    }
}

/// The best shift is unique, so it is the one `best_shift` picks.
proof fn lemma_best_unique(ds: Seq<DetectedPageNumber>, s: int)
    requires
        is_best_shift(ds, s),
    ensures
        best_shift(ds) == s,
{
    let c = best_shift(ds);
    assert(is_best_shift(ds, c));
    assert(beats(ds, s, c));
    assert(beats(ds, c, s));
}

/// An analysis with too few matches for its shift leaves every page in
/// place: all offsets are zero and no logical page is assigned.
pub proof fn lemma_unreliable_offsets_zero(ds: Seq<DetectedPageNumber>)
    requires
        too_few_matches(shift_count(ds, best_shift(ds)), ds.len() as int),
    ensures
        forall|i: int| 0 <= i < ds.len() ==> (#[trigger] analysis_offsets(ds)[i]).shift_x == 0
            && analysis_offsets(ds)[i].shift_y == 0 && analysis_offsets(ds)[i].logical_page.is_none(),
{
}

} // verus!
