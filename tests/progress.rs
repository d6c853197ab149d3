use superbook_pdf::progress::{build_progress_bar, OutputMode, ProcessingStage, ProgressTracker};

#[test]
fn test_progress_tracker_new() {
    let tracker = ProgressTracker::new(5, OutputMode::Normal);
    assert_eq!(tracker.total_files, 5);
    assert_eq!(tracker.current_file, 0);
    assert_eq!(tracker.current_stage, ProcessingStage::Initializing);
}

#[test]
fn test_start_file() {
    let mut tracker = ProgressTracker::new(3, OutputMode::Quiet);
    tracker.start_file(1, "test.pdf");
    assert_eq!(tracker.current_file, 1);
    assert_eq!(tracker.current_filename, "test.pdf");
}

#[test]
fn test_set_stage() {
    let mut tracker = ProgressTracker::new(1, OutputMode::Quiet);
    tracker.set_stage(ProcessingStage::Extracting, 100);
    assert_eq!(tracker.current_stage, ProcessingStage::Extracting);
    assert_eq!(tracker.total_pages, 100);
}

#[test]
fn test_update_page() {
    let mut tracker = ProgressTracker::new(1, OutputMode::Quiet);
    tracker.set_stage(ProcessingStage::Deskewing, 50);
    tracker.update_page(25, "page_025.png");
    assert_eq!(tracker.current_page, 25);
    assert_eq!(tracker.current_item, "page_025.png");
}

#[test]
fn test_complete_file() {
    let mut tracker = ProgressTracker::new(1, OutputMode::Quiet);
    tracker.start_file(1, "test.pdf");
    tracker.complete_file();
    assert_eq!(tracker.current_stage, ProcessingStage::Completed);
}

#[test]
fn test_processing_stage_name() {
    assert_eq!(ProcessingStage::Initializing.name(), "Initializing");
    assert_eq!(ProcessingStage::Extracting.name(), "Extracting");
    assert_eq!(ProcessingStage::Deskewing.name(), "Deskewing");
    assert_eq!(ProcessingStage::Normalizing.name(), "Normalizing");
    assert_eq!(ProcessingStage::ColorCorrecting.name(), "ColorCorrecting");
    assert_eq!(ProcessingStage::Cropping.name(), "Cropping");
    assert_eq!(ProcessingStage::Upscaling.name(), "Upscaling");
    assert_eq!(ProcessingStage::Finalizing.name(), "Finalizing");
    assert_eq!(ProcessingStage::WritingPdf.name(), "WritingPdf");
    assert_eq!(ProcessingStage::OCR.name(), "OCR");
    assert_eq!(ProcessingStage::Completed.name(), "Completed");
}

#[test]
fn test_processing_stage_description_ja() {
    assert_eq!(ProcessingStage::Initializing.description_ja(), "初期化中");
    assert_eq!(ProcessingStage::Extracting.description_ja(), "抽出中");
    assert_eq!(ProcessingStage::Deskewing.description_ja(), "傾き補正中");
    assert_eq!(ProcessingStage::Completed.description_ja(), "完了");
}

#[test]
fn test_build_progress_bar() {
    let bar_0 = build_progress_bar(0);
    assert_eq!(bar_0, "[----------------------------------------]");
    let bar_50 = build_progress_bar(50);
    assert_eq!(bar_50, "[====================--------------------]");
    let bar_100 = build_progress_bar(100);
    assert_eq!(bar_100, "[========================================]");
}

#[test]
fn test_build_progress_bar_boundary() {
    let bar_150 = build_progress_bar(150);
    assert_eq!(bar_150, "[========================================]");
    let bar_25 = build_progress_bar(25);
    assert_eq!(bar_25, "[==========------------------------------]");
    let bar_75 = build_progress_bar(75);
    assert_eq!(bar_75, "[==============================----------]");
}

#[test]
fn test_output_mode_quiet() {
    let mode = OutputMode::Quiet;
    assert!(!mode.should_show(OutputMode::Quiet));
    assert!(!mode.should_show(OutputMode::Normal));
    assert!(!mode.should_show(OutputMode::Verbose));
}

#[test]
fn test_output_mode_verbose() {
    let mode = OutputMode::Verbose;
    assert!(mode.should_show(OutputMode::Quiet));
    assert!(mode.should_show(OutputMode::Normal));
    assert!(mode.should_show(OutputMode::Verbose));
    assert!(!mode.should_show(OutputMode::VeryVerbose));
}

#[test]
fn test_output_mode_from_verbosity() {
    assert_eq!(OutputMode::from_verbosity(0), OutputMode::Normal);
    assert_eq!(OutputMode::from_verbosity(1), OutputMode::Verbose);
    assert_eq!(OutputMode::from_verbosity(2), OutputMode::VeryVerbose);
    assert_eq!(OutputMode::from_verbosity(10), OutputMode::VeryVerbose);
}

#[test]
fn test_processing_stage_display() {
    let stage = ProcessingStage::Extracting;
    let display = stage.display_string();
    assert_eq!(display, "Extracting (抽出中)");
}

#[test]
fn test_processing_stage_default() {
    let stage: ProcessingStage = Default::default();
    assert_eq!(stage, ProcessingStage::Initializing);
}

#[test]
fn test_output_mode_default() {
    let mode: OutputMode = Default::default();
    assert_eq!(mode, OutputMode::Normal);
}

#[test]
fn test_progress_tracker_default() {
    let tracker: ProgressTracker = Default::default();
    assert_eq!(tracker.total_files, 1);
    assert_eq!(tracker.current_file, 0);
}

#[test]
fn test_update_page_empty_item() {
    let mut tracker = ProgressTracker::new(1, OutputMode::Quiet);
    tracker.current_item = "previous.png".to_string();
    tracker.update_page(10, "");
    assert_eq!(tracker.current_page, 10);
    assert_eq!(tracker.current_item, "previous.png");
}

#[test]
fn test_set_stage_zero_pages() {
    let mut tracker = ProgressTracker::new(1, OutputMode::Quiet);
    tracker.total_pages = 100;
    tracker.set_stage(ProcessingStage::Deskewing, 0);
    assert_eq!(tracker.total_pages, 100);
}

#[test]
fn test_output_mode_very_verbose() {
    let mode = OutputMode::VeryVerbose;
    assert!(mode.should_show(OutputMode::Quiet));
    assert!(mode.should_show(OutputMode::Normal));
    assert!(mode.should_show(OutputMode::Verbose));
    assert!(mode.should_show(OutputMode::VeryVerbose));
}

#[test]
fn test_output_mode_normal() {
    let mode = OutputMode::Normal;
    assert!(mode.should_show(OutputMode::Quiet));
    assert!(mode.should_show(OutputMode::Normal));
    assert!(!mode.should_show(OutputMode::Verbose));
    assert!(!mode.should_show(OutputMode::VeryVerbose));
}

#[test]
fn tracker_reports_what_to_show() {
    let mut tracker = ProgressTracker::new(2, OutputMode::Verbose);
    assert!(tracker.start_file(1, "a.pdf"));
    assert!(tracker.set_stage(ProcessingStage::Cropping, 8));
    assert!(tracker.update_page(2, "page2.png"));
    assert_eq!(tracker.percent(), 25);
    assert!(tracker.complete_file());
    assert!(!tracker.update_page(3, ""));
    let mut quiet = ProgressTracker::new(1, OutputMode::Normal);
    quiet.set_stage(ProcessingStage::Cropping, 4);
    assert!(!quiet.update_page(1, "x"));
}
