//! Progress reporting: processing stages, output verbosity and the state of
//! a run over several files. Printing is left to the caller; the tracker
//! says when something is to be shown.

use vstd::prelude::*;
use vstd::string::StrSliceExecFns;
use crate::text::push_char;

verus! {

/// The stage a file is in.
#[derive(Debug, Clone, Copy, PartialEq, Eq, Structural)]
pub enum ProcessingStage {
    Initializing,
    Extracting,
    Deskewing,
    Normalizing,
    ColorCorrecting,
    Cropping,
    Upscaling,
    Finalizing,
    WritingPdf,
    OCR,
    Completed,
}

pub open spec fn stage_name(s: ProcessingStage) -> Seq<char> {
    match s {
        ProcessingStage::Initializing => "Initializing"@,
        ProcessingStage::Extracting => "Extracting"@,
        ProcessingStage::Deskewing => "Deskewing"@,
        ProcessingStage::Normalizing => "Normalizing"@,
        ProcessingStage::ColorCorrecting => "ColorCorrecting"@,
        ProcessingStage::Cropping => "Cropping"@,
        ProcessingStage::Upscaling => "Upscaling"@,
        ProcessingStage::Finalizing => "Finalizing"@,
        ProcessingStage::WritingPdf => "WritingPdf"@,
        ProcessingStage::OCR => "OCR"@,
        ProcessingStage::Completed => "Completed"@,
    }
}

pub open spec fn stage_description(s: ProcessingStage) -> Seq<char> {
    match s {
        ProcessingStage::Initializing => "初期化中"@,
        ProcessingStage::Extracting => "抽出中"@,
        ProcessingStage::Deskewing => "傾き補正中"@,
        ProcessingStage::Normalizing => "正規化中"@,
        ProcessingStage::ColorCorrecting => "色補正中"@,
        ProcessingStage::Cropping => "クロップ中"@,
        ProcessingStage::Upscaling => "AI高画質化中"@,
        ProcessingStage::Finalizing => "最終処理中"@,
        ProcessingStage::WritingPdf => "PDF生成中"@,
        ProcessingStage::OCR => "文字認識中"@,
        ProcessingStage::Completed => "完了"@,
    }
}

impl ProcessingStage {
    pub fn name(&self) -> (r: &'static str)
        ensures
            r@ == stage_name(*self),
    {
        match self {
            ProcessingStage::Initializing => "Initializing",
            ProcessingStage::Extracting => "Extracting",
            ProcessingStage::Deskewing => "Deskewing",
            ProcessingStage::Normalizing => "Normalizing",
            ProcessingStage::ColorCorrecting => "ColorCorrecting",
            ProcessingStage::Cropping => "Cropping",
            ProcessingStage::Upscaling => "Upscaling",
            ProcessingStage::Finalizing => "Finalizing",
            ProcessingStage::WritingPdf => "WritingPdf",
            ProcessingStage::OCR => "OCR",
            ProcessingStage::Completed => "Completed",
        }
    }

    /// The stage described in Japanese.
    pub fn description_ja(&self) -> (r: &'static str)
        ensures
            r@ == stage_description(*self),
    {
        match self {
            ProcessingStage::Initializing => "初期化中",
            ProcessingStage::Extracting => "抽出中",
            ProcessingStage::Deskewing => "傾き補正中",
            ProcessingStage::Normalizing => "正規化中",
            ProcessingStage::ColorCorrecting => "色補正中",
            ProcessingStage::Cropping => "クロップ中",
            ProcessingStage::Upscaling => "AI高画質化中",
            ProcessingStage::Finalizing => "最終処理中",
            ProcessingStage::WritingPdf => "PDF生成中",
            ProcessingStage::OCR => "文字認識中",
            ProcessingStage::Completed => "完了",
        }
    }

    /// The name followed by the description in parentheses.
    pub fn display_string(&self) -> (r: String)
        ensures
            r@ == stage_name(*self) + " ("@ + stage_description(*self) + ")"@,
    {
        let mut s = String::from_str(self.name());
        s.append(" (");
        s.append(self.description_ja());
        s.append(")");
        s
    }
}

impl Default for ProcessingStage {
    fn default() -> (r: ProcessingStage)
        ensures
            r == ProcessingStage::Initializing,
    {
        ProcessingStage::Initializing
    }
}

/// How much is printed.
#[derive(Debug, Clone, Copy, PartialEq, Eq, Structural)]
pub enum OutputMode {
    Quiet,
    Normal,
    Verbose,
    VeryVerbose,
}

/// Rank of a mode; `Quiet` shows nothing at all.
pub open spec fn mode_rank(m: OutputMode) -> int {
    match m {
        OutputMode::Quiet => 0,
        OutputMode::Normal => 1,
        OutputMode::Verbose => 2,
        OutputMode::VeryVerbose => 3,
    }
}

pub open spec fn shows(m: OutputMode, required: OutputMode) -> bool {
    m != OutputMode::Quiet && mode_rank(required) <= mode_rank(m)
}

impl OutputMode {
    /// 0 is normal output, 1 verbose, anything higher very verbose.
    pub fn from_verbosity(level: u8) -> (r: OutputMode)
        ensures
            r == if level == 0 {
                OutputMode::Normal
            } else if level == 1 {
                OutputMode::Verbose
            } else {
                OutputMode::VeryVerbose
            },
    {
        match level {
            0 => OutputMode::Normal,
            1 => OutputMode::Verbose,
            _ => OutputMode::VeryVerbose,
        }
    }

    /// Whether a message that needs `required` is shown in this mode.
    pub fn should_show(&self, required: OutputMode) -> (r: bool)
        ensures
            r == shows(*self, required),
    {
        match (self, required) {
            (OutputMode::Quiet, _) => false,
            (OutputMode::Normal, OutputMode::Quiet) => true,
            (OutputMode::Normal, OutputMode::Normal) => true,
            (OutputMode::Verbose, OutputMode::VeryVerbose) => false,
            (OutputMode::Verbose, _) => true,
            (OutputMode::VeryVerbose, _) => true,
            _ => false,
        }
    }
}

impl Default for OutputMode {
    fn default() -> (r: OutputMode)
        ensures
            r == OutputMode::Normal,
    {
        OutputMode::Normal
    }
}

/// Characters in a progress bar, brackets excluded.
pub const PROGRESS_BAR_WIDTH: usize = 40;

pub open spec fn bar_filled(percent: u8) -> int {
    let p: int = if percent > 100 { 100 } else { percent as int };
    p * PROGRESS_BAR_WIDTH / 100
}

/// `[`, `filled` times `=`, the rest of the width `-`, `]`.
pub open spec fn bar_text(filled: int) -> Seq<char> {
    seq!['['] + Seq::new(filled as nat, |i: int| '=') + Seq::new(
        (PROGRESS_BAR_WIDTH - filled) as nat,
        |i: int| '-',
    ) + seq![']']
}

/// A forty-character bar for `percent`, clamped to 100.
pub fn build_progress_bar(percent: u8) -> (r: String)
    ensures
        r@ == bar_text(bar_filled(percent)),
{
    let p: usize = if percent > 100 { 100 } else { percent as usize };
    let filled = p * PROGRESS_BAR_WIDTH / 100;
    let mut s = String::new();
    push_char(&mut s, '[');
    let mut i: usize = 0;
    while i < PROGRESS_BAR_WIDTH
        invariant
            filled <= PROGRESS_BAR_WIDTH,
            i <= PROGRESS_BAR_WIDTH,
            s@.len() == i + 1,
            s@[0] == '[',
            forall|k: int| 1 <= k <= i ==> #[trigger] s@[k] == if k <= filled { '=' } else { '-' },
        decreases PROGRESS_BAR_WIDTH - i,
    {
        if i < filled {
            push_char(&mut s, '=');
        } else {
            push_char(&mut s, '-');
        }
        i = i + 1;
    }
    push_char(&mut s, ']');
    assert(s@ =~= bar_text(bar_filled(percent)));
    s
}

/// Whole percent of `page` out of `total`, rounded down and clamped to 100.
pub open spec fn page_percent(page: int, total: int) -> int {
    if page * 100 / total > 100 { 100 } else { page * 100 / total }
}

/// Where a run over several files stands.
#[derive(Debug)]
pub struct ProgressTracker {
    pub current_file: usize,
    pub total_files: usize,
    pub current_filename: String,
    pub current_stage: ProcessingStage,
    pub current_page: usize,
    pub total_pages: usize,
    pub current_item: String,
    pub output_mode: OutputMode,
}

impl ProgressTracker {
    pub fn new(total_files: usize, output_mode: OutputMode) -> (r: ProgressTracker)
        ensures
            r.current_file == 0,
            r.total_files == total_files,
            r.current_filename@.len() == 0,
            r.current_stage == ProcessingStage::Initializing,
            r.current_page == 0,
            r.total_pages == 0,
            r.current_item@.len() == 0,
            r.output_mode == output_mode,
    {
        ProgressTracker {
            current_file: 0,
            total_files,
            current_filename: String::new(),
            current_stage: ProcessingStage::Initializing,
            current_page: 0,
            total_pages: 0,
            current_item: String::new(),
            output_mode,
        }
    }

    /// Starts file `file_number`; returns whether its header is to be shown.
    pub fn start_file(&mut self, file_number: usize, filename: &str) -> (show: bool)
        ensures
            final(self).current_file == file_number,
            final(self).total_files == old(self).total_files,
            final(self).current_filename@ == filename@,
            final(self).current_stage == ProcessingStage::Initializing,
            final(self).current_page == 0,
            final(self).total_pages == 0,
            final(self).current_item@.len() == 0,
            final(self).output_mode == old(self).output_mode,
            show == shows(old(self).output_mode, OutputMode::Normal),
    {
        self.current_file = file_number;
        self.current_filename = filename.to_owned();
        self.current_stage = ProcessingStage::Initializing;
        self.current_page = 0;
        self.total_pages = 0;
        self.current_item = String::new();
        self.output_mode.should_show(OutputMode::Normal)
    }

    /// Enters `stage`; a non-zero `total_pages` replaces the page total.
    /// Returns whether the stage line is to be shown.
    pub fn set_stage(&mut self, stage: ProcessingStage, total_pages: usize) -> (show: bool)
        ensures
            final(self).current_stage == stage,
            final(self).total_pages == if total_pages > 0 { total_pages } else { old(self).total_pages },
            final(self).current_page == 0,
            final(self).current_file == old(self).current_file,
            final(self).total_files == old(self).total_files,
            final(self).current_filename@ == old(self).current_filename@,
            final(self).current_item@ == old(self).current_item@,
            final(self).output_mode == old(self).output_mode,
            show == shows(old(self).output_mode, OutputMode::Normal),
    {
        self.current_stage = stage;
        if total_pages > 0 {
            self.total_pages = total_pages;
        }
        self.current_page = 0;
        self.output_mode.should_show(OutputMode::Normal)
    }

    /// Moves to `page_number`; a non-empty `item_name` replaces the current
    /// item. Returns whether a progress line is to be shown.
    pub fn update_page(&mut self, page_number: usize, item_name: &str) -> (show: bool)
        ensures
            final(self).current_page == page_number,
            final(self).current_item@ == if item_name@.len() > 0 { item_name@ } else { old(self).current_item@ },
            final(self).current_stage == old(self).current_stage,
            final(self).total_pages == old(self).total_pages,
            final(self).current_file == old(self).current_file,
            final(self).total_files == old(self).total_files,
            final(self).current_filename@ == old(self).current_filename@,
            final(self).output_mode == old(self).output_mode,
            show == (shows(old(self).output_mode, OutputMode::Verbose) && old(self).total_pages > 0
                && old(self).current_stage != ProcessingStage::Completed),
    {
        self.current_page = page_number;
        if item_name.unicode_len() > 0 {
            self.current_item = item_name.to_owned();
        }
        self.output_mode.should_show(OutputMode::Verbose) && self.total_pages > 0
            && self.current_stage != ProcessingStage::Completed
    }

    /// Marks the current file done; returns whether that is to be shown.
    pub fn complete_file(&mut self) -> (show: bool)
        ensures
            final(self).current_stage == ProcessingStage::Completed,
            final(self).current_page == old(self).current_page,
            final(self).total_pages == old(self).total_pages,
            final(self).current_file == old(self).current_file,
            final(self).total_files == old(self).total_files,
            final(self).current_filename@ == old(self).current_filename@,
            final(self).current_item@ == old(self).current_item@,
            final(self).output_mode == old(self).output_mode,
            show == shows(old(self).output_mode, OutputMode::Normal),
    {
        self.current_stage = ProcessingStage::Completed;
        self.output_mode.should_show(OutputMode::Normal)
    }

    /// Percentage of pages done in the current stage, clamped to 100.
    pub fn percent(&self) -> (r: u8)
        requires
            self.total_pages > 0,
        ensures
            r == page_percent(self.current_page as int, self.total_pages as int),
    {
        let p = (self.current_page as u128) * 100 / (self.total_pages as u128);
        if p > 100 {
            100
        } else {
            p as u8
        }
    }
}

impl Default for ProgressTracker {
    fn default() -> (r: ProgressTracker)
        ensures
            r.total_files == 1,
            r.current_file == 0,
            r.output_mode == OutputMode::Normal,
            r.current_stage == ProcessingStage::Initializing,
    {
        ProgressTracker::new(1, OutputMode::Normal)
    }
}

} // verus!
