use superbook_pdf::offset::{BookOffsetAnalysis, PageOffsetAnalyzer, PageOffsetResult};
use superbook_pdf::page_number::{
    DetectedPageNumber, PageNumberError, PageNumberOptions, PageNumberPosition, PageNumberRect, TesseractPageDetector,
};
use superbook_pdf::roman::parse_roman_lower;

fn detection(page_index: usize, number: Option<i32>, x: u32, y: u32, confidence: u32) -> DetectedPageNumber {
    DetectedPageNumber {
        page_index,
        number,
        position: PageNumberRect { x, y, width: 40, height: 20 },
        confidence,
        raw_text: String::new(),
    }
}

#[test]
fn test_page_offset_result() {
    let result = PageOffsetResult::no_offset(1);
    assert_eq!(result.physical_page, 1);
    assert!(result.is_odd);
    assert_eq!(result.shift_x, 0);
    assert_eq!(result.shift_y, 0);
}

#[test]
fn test_position_pattern_variants() {
    let patterns = [
        PageNumberPosition::BottomCenter,
        PageNumberPosition::BottomOutside,
        PageNumberPosition::BottomInside,
        PageNumberPosition::TopCenter,
        PageNumberPosition::TopOutside,
    ];
    for pattern in patterns {
        let _copy = pattern;
    }
}

#[test]
fn page_number_mod_test_error_types() {
    let _err1 = PageNumberError::ImageNotFound("/test".to_string());
    let _err2 = PageNumberError::OcrFailed("fail".to_string());
    let _err3 = PageNumberError::NoPageNumbersDetected;
    let _err4 = PageNumberError::InconsistentPageNumbers;
}

#[test]
fn types_test_error_types() {
    let _err1 = PageNumberError::ImageNotFound("/test".to_string());
    let _err2 = PageNumberError::OcrFailed("fail".to_string());
    let _err3 = PageNumberError::NoPageNumbersDetected;
    let _err4 = PageNumberError::InconsistentPageNumbers;
    assert_eq!(PageNumberError::OcrFailed("fail".to_string()).message(), "OCR failed: fail");
}

#[test]
fn test_page_number_position_variants() {
    let positions = [
        PageNumberPosition::BottomCenter,
        PageNumberPosition::BottomOutside,
        PageNumberPosition::BottomInside,
        PageNumberPosition::TopCenter,
        PageNumberPosition::TopOutside,
    ];
    for pos in positions {
        let _clone = pos;
        assert!(matches!(
            pos,
            PageNumberPosition::BottomCenter
                | PageNumberPosition::BottomOutside
                | PageNumberPosition::BottomInside
                | PageNumberPosition::TopCenter
                | PageNumberPosition::TopOutside
        ));
    }
}

#[test]
fn test_page_number_rect() {
    let rect = PageNumberRect { x: 100, y: 200, width: 50, height: 30 };
    assert_eq!(rect.x, 100);
    assert_eq!(rect.y, 200);
    assert_eq!(rect.width, 50);
    assert_eq!(rect.height, 30);
}

#[test]
fn test_page_offset_result_no_offset() {
    let result = PageOffsetResult::no_offset(5);
    assert_eq!(result.physical_page, 5);
    assert_eq!(result.logical_page, None);
    assert_eq!(result.shift_x, 0);
    assert_eq!(result.shift_y, 0);
    assert!(result.is_odd);
}

#[test]
fn test_page_offset_result_even_page() {
    let result = PageOffsetResult::no_offset(4);
    assert!(!result.is_odd);
}

#[test]
fn test_tc_pagenum_003_decorative_numbers() {
    let result = PageOffsetResult {
        physical_page: 5,
        logical_page: Some(1),
        shift_x: 0,
        shift_y: 0,
        page_number_position: None,
        is_odd: true,
    };
    assert_eq!(result.physical_page, 5);
    assert_eq!(result.logical_page, Some(1));
}

#[test]
fn test_tc_pagenum_004_roman_numerals_skipped() {
    let result = PageOffsetResult {
        physical_page: 1,
        logical_page: None,
        shift_x: 0,
        shift_y: 0,
        page_number_position: None,
        is_odd: true,
    };
    assert!(result.logical_page.is_none());
    let no_offset = PageOffsetResult::no_offset(2);
    assert_eq!(no_offset.shift_x, 0);
    assert_eq!(no_offset.shift_y, 0);
}

#[test]
fn detect_test_roman_numeral_parsing() {
    assert_eq!(TesseractPageDetector::parse_roman_numeral("I"), Some(1));
    assert_eq!(TesseractPageDetector::parse_roman_numeral("IV"), Some(4));
    assert_eq!(TesseractPageDetector::parse_roman_numeral("V"), Some(5));
    assert_eq!(TesseractPageDetector::parse_roman_numeral("IX"), Some(9));
    assert_eq!(TesseractPageDetector::parse_roman_numeral("X"), Some(10));
    assert_eq!(TesseractPageDetector::parse_roman_numeral("XL"), Some(40));
    assert_eq!(TesseractPageDetector::parse_roman_numeral("L"), Some(50));
    assert_eq!(TesseractPageDetector::parse_roman_numeral("XC"), Some(90));
    assert_eq!(TesseractPageDetector::parse_roman_numeral("C"), Some(100));
    assert_eq!(TesseractPageDetector::parse_roman_numeral("CD"), Some(400));
    assert_eq!(TesseractPageDetector::parse_roman_numeral("D"), Some(500));
    assert_eq!(TesseractPageDetector::parse_roman_numeral("CM"), Some(900));
    assert_eq!(TesseractPageDetector::parse_roman_numeral("M"), Some(1000));
    assert_eq!(TesseractPageDetector::parse_roman_numeral("MCMXCIX"), Some(1999));
    assert_eq!(TesseractPageDetector::parse_roman_numeral("MMXXIII"), Some(2023));
}

#[test]
fn mod_test_roman_numeral_parsing() {
    assert_eq!(TesseractPageDetector::parse_roman_numeral("I"), Some(1));
    assert_eq!(TesseractPageDetector::parse_roman_numeral("V"), Some(5));
    assert_eq!(TesseractPageDetector::parse_roman_numeral("X"), Some(10));
    assert_eq!(TesseractPageDetector::parse_roman_numeral("L"), Some(50));
    assert_eq!(TesseractPageDetector::parse_roman_numeral("C"), Some(100));
    assert_eq!(TesseractPageDetector::parse_roman_numeral("D"), Some(500));
    assert_eq!(TesseractPageDetector::parse_roman_numeral("M"), Some(1000));
    assert_eq!(TesseractPageDetector::parse_roman_numeral("MCMXCIX"), Some(1999));
}

#[test]
fn test_roman_numeral_invalid() {
    assert_eq!(TesseractPageDetector::parse_roman_numeral(""), None);
    assert_eq!(TesseractPageDetector::parse_roman_numeral("ABC"), None);
    assert_eq!(TesseractPageDetector::parse_roman_numeral("123"), None);
}

#[test]
fn roman_reading_lowers_and_trims() {
    assert_eq!(TesseractPageDetector::parse_roman_numeral("  xIv \n"), Some(14));
    assert_eq!(TesseractPageDetector::parse_roman_numeral("IIII"), Some(4));
    assert_eq!(parse_roman_lower("mmmcmxcix"), Some(3999));
    assert_eq!(parse_roman_lower("XIV"), None);
    assert_eq!(parse_roman_lower(" xiv"), None);
}

#[test]
fn roman_entries_skip_the_analysis() {
    // Odd pages read sequential Arabic numbers, even pages Roman ones (None).
    let detections: Vec<DetectedPageNumber> = (0..8)
        .map(|i| {
            let number = if i % 2 == 0 { Some(i as i32 + 1) } else { None };
            detection(i, number, 500, 3000, 90)
        })
        .collect();
    let analysis = PageOffsetAnalyzer::analyze_offsets(&detections, 3500);
    assert_eq!(analysis.page_number_shift, 0);
    assert_eq!(analysis.score, 0);
    assert_eq!(analysis.match_count, 0);
    assert_eq!(analysis.page_offsets.len(), 8);
    assert!(analysis.page_offsets.iter().all(|p| p.shift_x == 0 && p.shift_y == 0 && p.logical_page.is_none()));
}

#[test]
fn shift_found_and_pages_aligned() {
    // Logical numbering starts on the third physical page.
    let detections: Vec<DetectedPageNumber> = (0..12)
        .map(|i| {
            let logical = i as i32 - 1;
            let number = if logical >= 1 { Some(logical) } else { None };
            let x = if i % 2 == 0 { 100 + (i as u32) } else { 900 };
            detection(i, number, x, 3000 + (i as u32 % 3), 80)
        })
        .collect();
    let analysis = PageOffsetAnalyzer::analyze_offsets(&detections, 3500);
    assert_eq!(analysis.page_number_shift, 2);
    assert_eq!(analysis.match_count, 10);
    assert_eq!(analysis.score, 800);
    assert_eq!(analysis.max_score, 1200);
    assert!(analysis.is_reliable(12));
    assert_eq!(analysis.even_avg_x, Some(920));
    let page3 = analysis.get_offset(3).unwrap();
    assert_eq!(page3.logical_page, Some(1));
    assert_eq!(page3.shift_x, 4);
    assert_eq!(page3.shift_y, -1);
    let page1 = analysis.get_offset(1).unwrap();
    assert_eq!(page1.logical_page, None);
    assert_eq!(page1.shift_x, 0);
    assert!(analysis.get_offset(13).is_none());
}

#[test]
fn reliability_needs_five_and_a_third() {
    let analysis = PageOffsetAnalyzer::analyze_offsets(&[], 100);
    assert_eq!(analysis.page_number_shift, 0);
    assert!(analysis.page_offsets.is_empty());
    assert!(!analysis.is_reliable(0));
}

#[test]
fn test_find_missing_pages() {
    let numbers = vec![1, 2, 4, 5, 7];
    let missing = TesseractPageDetector::find_missing_pages(&numbers);
    assert!(missing.contains(&2));
    assert!(missing.contains(&5));
    assert_eq!(missing, vec![2, 5]);
    assert!(TesseractPageDetector::find_missing_pages(&[]).is_empty());
}

#[test]
fn duplicates_and_order() {
    assert_eq!(TesseractPageDetector::find_duplicate_pages(&[3, 4, 3, 5, 4, 3]), vec![3, 4, 3]);
    let detections: Vec<DetectedPageNumber> =
        vec![detection(0, Some(1), 900, 10, 90), detection(1, Some(2), 100, 10, 90), detection(2, None, 0, 0, 0), detection(3, Some(3), 904, 10, 90)];
    let analysis = TesseractPageDetector::analyze_detections(detections);
    assert_eq!(analysis.odd_page_offset_x, 922);
    assert_eq!(analysis.even_page_offset_x, 120);
    assert_eq!(analysis.position_pattern, PageNumberPosition::BottomOutside);
    assert!(analysis.missing_pages.is_empty());
    assert_eq!(TesseractPageDetector::validate_order(&analysis).unwrap(), true);
    let correction = TesseractPageDetector::calculate_offset(&analysis, 1000).unwrap();
    assert_eq!(correction.page_offsets, vec![(0, 922), (1, 120), (3, 922)]);
    assert_eq!(correction.unified_offset, (922 + 120 + 922) / 3);
}

#[test]
fn out_of_order_numbers_fail_validation() {
    let detections = vec![detection(0, Some(5), 0, 0, 90), detection(1, Some(4), 0, 0, 90)];
    let analysis = TesseractPageDetector::analyze_detections(detections);
    assert_eq!(TesseractPageDetector::validate_order(&analysis).unwrap(), false);
    assert_eq!(analysis.position_pattern, PageNumberPosition::BottomCenter);
}

#[test]
fn interpolation_after_analysis() {
    let detections = vec![detection(1, Some(2), 0, 0, 90), detection(3, Some(4), 0, 0, 90)];
    let mut analysis = PageOffsetAnalyzer::analyze_offsets(&detections, 100);
    PageOffsetAnalyzer::interpolate_missing_offsets(&mut analysis, 5);
    let pages: Vec<usize> = analysis.page_offsets.iter().map(|p| p.physical_page).collect();
    assert_eq!(pages, vec![1, 2, 3, 4, 5]);
}

#[test]
fn search_strip_and_acceptance() {
    let options = PageNumberOptions::default();
    let strip = TesseractPageDetector::search_strip(1000, 2000, &options);
    assert_eq!(strip, PageNumberRect { x: 0, y: 1800, width: 1000, height: 200 });
    let mut top = PageNumberOptions::japanese();
    top.position_hint = Some(PageNumberPosition::TopCenter);
    let strip = TesseractPageDetector::search_strip(1000, 2000, &top);
    assert_eq!(strip, PageNumberRect { x: 0, y: 0, width: 1000, height: 240 });
    assert_eq!(PageNumberOptions::default().with_search_region_percent(80).search_region_percent, 50);
    assert_eq!(PageNumberOptions::default().with_min_confidence(300).min_confidence, 100);
    assert_eq!(TesseractPageDetector::accept_number(Some(7), 59, &options), None);
    assert_eq!(TesseractPageDetector::accept_number(Some(7), 60, &options), Some(7));
    assert_eq!(PageNumberOptions::strict().min_confidence, 80);
}

fn rect(x: u32, y: u32, width: u32, height: u32) -> PageNumberRect {
    PageNumberRect { x, y, width, height }
}

#[test]
fn test_book_offset_analysis_default() {
    let analysis = BookOffsetAnalysis::default();
    assert_eq!(analysis.page_number_shift, 0);
    assert!(analysis.page_offsets.is_empty());
    assert_eq!(analysis.match_count, 0);
    assert_eq!(analysis.score, 0);
}

#[test]
fn test_book_offset_analysis_reliability() {
    let mut analysis = BookOffsetAnalysis::default();
    assert!(!analysis.is_reliable(100));
    analysis.match_count = 4;
    assert!(!analysis.is_reliable(100));
    analysis.match_count = 5;
    assert!(!analysis.is_reliable(100));
    analysis.match_count = 40;
    assert!(analysis.is_reliable(100));
}

#[test]
fn test_analyze_empty_detections() {
    let detections: Vec<DetectedPageNumber> = vec![];
    let analysis = PageOffsetAnalyzer::analyze_offsets(&detections, 7000);
    assert_eq!(analysis.page_number_shift, 0);
    assert!(analysis.page_offsets.is_empty());
}

#[test]
fn test_interpolate_missing_offsets() {
    let mut analysis = BookOffsetAnalysis {
        page_offsets: vec![PageOffsetResult::no_offset(1), PageOffsetResult::no_offset(3), PageOffsetResult::no_offset(5)],
        ..Default::default()
    };
    PageOffsetAnalyzer::interpolate_missing_offsets(&mut analysis, 5);
    assert_eq!(analysis.page_offsets.len(), 5);
    for (i, p) in analysis.page_offsets.iter().enumerate() {
        assert_eq!(p.physical_page, i + 1);
    }
}

#[test]
fn test_get_offset() {
    let analysis = BookOffsetAnalysis {
        page_offsets: vec![PageOffsetResult::no_offset(1), PageOffsetResult::no_offset(2), PageOffsetResult::no_offset(3)],
        ..Default::default()
    };
    let offset = analysis.get_offset(2);
    assert!(offset.is_some());
    assert_eq!(offset.unwrap().physical_page, 2);
    assert!(analysis.get_offset(99).is_none());
}

#[test]
fn test_tc_pagenum_001_sequential_page_numbers() {
    let detections = vec![
        DetectedPageNumber { page_index: 0, number: Some(1), position: rect(500, 100, 50, 20), confidence: 90, raw_text: "1".to_string() },
        DetectedPageNumber { page_index: 1, number: Some(2), position: rect(500, 100, 50, 20), confidence: 90, raw_text: "2".to_string() },
        DetectedPageNumber { page_index: 2, number: Some(3), position: rect(500, 100, 50, 20), confidence: 90, raw_text: "3".to_string() },
    ];
    let analysis = PageOffsetAnalyzer::analyze_offsets(&detections, 1000);
    assert_eq!(analysis.page_number_shift, 0);
    assert_eq!(analysis.page_offsets.len(), 3);
}

#[test]
fn test_tc_pagenum_002_missing_page_interpolation() {
    let mut analysis = BookOffsetAnalysis {
        page_offsets: vec![
            PageOffsetResult { physical_page: 1, logical_page: Some(1), shift_x: 10, shift_y: 5, page_number_position: Some(rect(100, 50, 30, 20)), is_odd: true },
            PageOffsetResult { physical_page: 3, logical_page: Some(3), shift_x: 10, shift_y: 5, page_number_position: Some(rect(100, 50, 30, 20)), is_odd: true },
        ],
        page_number_shift: 0,
        odd_avg_x: Some(100),
        even_avg_x: Some(900),
        odd_avg_y: Some(50),
        even_avg_y: Some(50),
        match_count: 2,
        score: 160,
        max_score: 200,
    };
    PageOffsetAnalyzer::interpolate_missing_offsets(&mut analysis, 3);
    assert_eq!(analysis.page_offsets.len(), 3);
    let page2 = analysis.get_offset(2);
    assert!(page2.is_some());
    assert_eq!(page2.unwrap().shift_x, 0);
    assert_eq!(analysis.get_offset(3).unwrap().shift_x, 10);
}

#[test]
fn test_find_duplicate_pages() {
    let numbers = vec![1, 2, 2, 3, 4, 4, 4];
    let duplicates = TesseractPageDetector::find_duplicate_pages(&numbers);
    assert!(duplicates.contains(&2));
    assert!(duplicates.contains(&4));
}

#[test]
fn test_validate_order_ascending() {
    let detections: Vec<DetectedPageNumber> = (0..3).map(|i| detection(i, Some(i as i32 + 1), 0, 0, 90)).collect();
    let analysis = TesseractPageDetector::analyze_detections(detections);
    assert!(TesseractPageDetector::validate_order(&analysis).unwrap());
}

#[test]
fn test_validate_order_not_ascending() {
    let detections = vec![detection(0, Some(3), 0, 0, 90), detection(1, Some(1), 0, 0, 90), detection(2, Some(2), 0, 0, 90)];
    let analysis = TesseractPageDetector::analyze_detections(detections);
    assert!(!TesseractPageDetector::validate_order(&analysis).unwrap());
}

#[test]
fn types_test_page_number_options_default() {
    let opts = PageNumberOptions::default();
    assert_eq!(opts.search_region_percent, 10);
    assert_eq!(opts.ocr_language, "jpn+eng");
    assert_eq!(opts.min_confidence, 60);
    assert!(opts.numbers_only);
    assert!(opts.position_hint.is_none());
}

#[test]
fn test_page_number_options_japanese() {
    let opts = PageNumberOptions::japanese();
    assert_eq!(opts.ocr_language, "jpn");
    assert_eq!(opts.search_region_percent, 12);
}

#[test]
fn test_page_number_options_english() {
    assert_eq!(PageNumberOptions::english().ocr_language, "eng");
}

#[test]
fn test_page_number_options_strict() {
    assert_eq!(PageNumberOptions::strict().min_confidence, 80);
}

#[test]
fn types_test_builder_clamping() {
    let opts = PageNumberOptions::default().with_search_region_percent(100);
    assert_eq!(opts.search_region_percent, 50);
    let opts = PageNumberOptions::default().with_search_region_percent(1);
    assert_eq!(opts.search_region_percent, 5);
    let opts = PageNumberOptions::default().with_min_confidence(150);
    assert_eq!(opts.min_confidence, 100);
}
