use superbook_pdf::content::{
    ConnectedComponent, ContentAwareBoundaryDetector, ContentAwareOptions, ContentBoundaries, ContentBoundary, GrayImage,
};
use superbook_pdf::filters::{laplacian_sums, sobel_magnitude};
use superbook_pdf::geometry::MarginError;
use superbook_pdf::marker::{rgb_to_hsv, HighlighterColor, Hsv, MarkerRemovalOptions, MarkerRemover, RgbImage};
use superbook_pdf::vertical::{median, rotate_90_clockwise, row_intersections, runs_of_rows, VerticalDetectError};

fn white(width: u32, height: u32) -> GrayImage {
    GrayImage::filled(width, height, 255)
}

fn paint(img: &mut GrayImage, x0: u32, y0: u32, x1: u32, y1: u32, v: u8) {
    for y in y0..y1 {
        for x in x0..x1 {
            img.pixels[(y * img.width + x) as usize] = v;
        }
    }
}

#[test]
fn test_connected_component() {
    let mut comp = ConnectedComponent::new(10, 20);
    assert_eq!(comp.width(), 1);
    assert_eq!(comp.height(), 1);
    comp.expand(15, 25);
    assert_eq!(comp.width(), 6);
    assert_eq!(comp.height(), 6);
    assert_eq!(comp.pixel_count, 2);
}

#[test]
fn components_found_in_scan_order() {
    let mut img = white(40, 30);
    paint(&mut img, 2, 2, 5, 6, 0);
    paint(&mut img, 20, 10, 30, 12, 0);
    paint(&mut img, 5, 6, 6, 7, 0); // touches the first block diagonally
    let binary = ContentAwareBoundaryDetector::binarize_for_content(&img, 128);
    let comps = ContentAwareBoundaryDetector::find_connected_components(&binary);
    assert_eq!(comps.len(), 2);
    assert_eq!(comps[0], ConnectedComponent { min_x: 2, min_y: 2, max_x: 5, max_y: 6, pixel_count: 13 });
    assert_eq!(comps[1], ConnectedComponent { min_x: 20, min_y: 10, max_x: 29, max_y: 11, pixel_count: 20 });
}

#[test]
fn boundaries_from_characters() {
    let mut img = white(400, 600);
    paint(&mut img, 50, 40, 70, 60, 0);
    paint(&mut img, 300, 500, 320, 530, 0);
    paint(&mut img, 200, 300, 201, 301, 0); // too small to be a character
    let options = ContentAwareOptions::default();
    let b = ContentAwareBoundaryDetector::detect_from_image(&img, &options, 128).unwrap();
    assert_eq!(b.total_components, 2);
    assert_eq!(b.left.aggressive_position, 50);
    assert_eq!(b.top.aggressive_position, 40);
    assert_eq!(b.right.aggressive_position, 319);
    assert_eq!(b.bottom.aggressive_position, 529);
    // buffer: max(10, 400 * 5 / 1000 = 2) = 10 horizontally, max(10, 3) = 10 vertically
    assert_eq!(b.left.safe_position, 40);
    assert_eq!(b.top.safe_position, 30);
    assert_eq!(b.right.safe_position, 329);
    assert_eq!(b.bottom.safe_position, 539);
    assert_eq!(b.top.component_count, 1);
    assert_eq!(b.left.component_count, 1);
    assert_eq!(b.otsu_threshold, 128);
    let rect = b.safe_content_rect();
    assert_eq!((rect.x, rect.y, rect.width, rect.height), (40, 30, 289, 509));
}

#[test]
fn blank_page_has_no_content() {
    let img = white(100, 100);
    let r = ContentAwareBoundaryDetector::detect_from_image(&img, &ContentAwareOptions::default(), 128);
    assert!(matches!(r, Err(MarginError::NoContentDetected)));
}

#[test]
fn custom_threshold_wins() {
    let mut img = white(100, 100);
    paint(&mut img, 10, 10, 30, 30, 200);
    let mut options = ContentAwareOptions::default();
    assert!(ContentAwareBoundaryDetector::detect_from_image(&img, &options, 128).is_err());
    options.custom_threshold = Some(250);
    let b = ContentAwareBoundaryDetector::detect_from_image(&img, &options, 128).unwrap();
    assert_eq!(b.otsu_threshold, 250);
    assert_eq!(b.left.aggressive_position, 10);
}

#[test]
fn merged_boundaries_hold_every_page() {
    let mut a = white(400, 600);
    paint(&mut a, 50, 40, 70, 60, 0);
    let mut b = white(400, 600);
    paint(&mut b, 80, 20, 100, 45, 0);
    let o = ContentAwareOptions::default();
    let ba = ContentAwareBoundaryDetector::detect_from_image(&a, &o, 128).unwrap();
    let bb = ContentAwareBoundaryDetector::detect_from_image(&b, &o, 128).unwrap();
    let m = ContentAwareBoundaryDetector::merge_boundaries(&[ba, bb]).unwrap();
    assert_eq!(m.left.aggressive_position, 50);
    assert_eq!(m.top.aggressive_position, 20);
    assert_eq!(m.right.aggressive_position, 99);
    assert_eq!(m.bottom.aggressive_position, 59);
    assert_eq!(m.total_components, 2);
    assert!(ContentAwareBoundaryDetector::merge_boundaries(&[]).is_none());
}

#[test]
fn safety_buffer_is_clamped() {
    let o = ContentAwareOptions::default().with_safety_buffer_per_mille(500);
    assert_eq!(o.safety_buffer_per_mille, 100);
    assert_eq!(ContentAwareOptions::aggressive().min_safety_buffer, 2);
    assert_eq!(ContentAwareOptions::conservative().safety_buffer_per_mille, 10);
}

#[test]
fn test_luminance() {
    assert_eq!(MarkerRemover::luminance(255, 255, 255), 255);
    assert_eq!(MarkerRemover::luminance(0, 0, 0), 0);
    let gray = MarkerRemover::luminance(128, 128, 128);
    assert!((gray as i32 - 128).abs() < 2);
}

#[test]
fn luminance_weights() {
    assert_eq!(MarkerRemover::luminance(255, 0, 0), 76);
    assert_eq!(MarkerRemover::luminance(0, 255, 0), 150);
    assert_eq!(MarkerRemover::luminance(0, 0, 255), 29);
}

#[test]
fn fade_toward_white() {
    assert_eq!(MarkerRemover::fade_channel(100, 0), 100);
    assert_eq!(MarkerRemover::fade_channel(100, 1000), 255);
    assert_eq!(MarkerRemover::fade_channel(100, 500), 177);
    assert_eq!(MarkerRemover::fade_channel(100, 5000), 255);
    assert!(MarkerRemover::fade_channel(7, 300) <= MarkerRemover::fade_channel(7, 301));
    assert_eq!(MarkerRemover::fade_to_white([0, 128, 255], 1000), [255, 255, 255]);
}

#[test]
fn hsv_of_primaries() {
    let red = rgb_to_hsv(255, 0, 0);
    assert_eq!((red.hue_num, red.sat_num, red.sat_den, red.val), (0, 255, 255, 255));
    let blue = rgb_to_hsv(0, 0, 255);
    assert_eq!(blue.hue_num / blue.hue_den, 240);
    let grey = rgb_to_hsv(90, 90, 90);
    assert_eq!(grey.sat_num, 0);
    assert_eq!(grey.hue_num, 0);
    let magenta = rgb_to_hsv(255, 0, 128);
    assert!(magenta.hue_num < 360 * magenta.hue_den);
    assert!(magenta.hue_num >= 300 * magenta.hue_den);
}

#[test]
fn yellow_range_matches_highlighter() {
    let h = rgb_to_hsv(255, 255, 128);
    assert!(HighlighterColor::Yellow.hsv_range().matches(&h));
    assert!(!HighlighterColor::Pink.hsv_range().matches(&h));
    let wrap = HighlighterColor::Custom { hue_min: 350, hue_max: 10, sat_min: 10, sat_max: 100, val_min: 10, val_max: 100 };
    assert!(wrap.hsv_range().matches(&rgb_to_hsv(255, 0, 20)));
    assert!(wrap.hsv_range().matches(&rgb_to_hsv(255, 20, 0)));
    assert_eq!(HighlighterColor::all().len(), 5);
}

#[test]
fn yellow_highlighter_removed() {
    let (w, h) = (50u32, 50u32);
    let mut pixels = vec![255u8; (w * h * 3) as usize];
    for y in 10..40u32 {
        for x in 10..40u32 {
            let i = ((y * w + x) * 3) as usize;
            pixels[i + 2] = 128;
        }
    }
    let mut img = RgbImage { width: w, height: h, pixels };
    let result = MarkerRemover::remove_in_place(&mut img, &MarkerRemovalOptions::default());
    assert!(result.has_markers());
    assert_eq!(result.detected_pixels[0].0, HighlighterColor::Yellow);
    assert_eq!(result.total_pixels, 2500);
    // Pixels away from the painted border are faded to white.
    for y in 11..39u32 {
        for x in 11..39u32 {
            let i = ((y * w + x) * 3) as usize;
            assert!(img.pixels[i] >= 250 && img.pixels[i + 1] >= 250 && img.pixels[i + 2] >= 250);
        }
    }
}

#[test]
fn yellow_highlighter_removed_without_edge_guard() {
    let (w, h) = (50u32, 50u32);
    let mut pixels = vec![255u8; (w * h * 3) as usize];
    for y in 10..40u32 {
        for x in 10..40u32 {
            pixels[((y * w + x) * 3 + 2) as usize] = 128;
        }
    }
    let mut img = RgbImage { width: w, height: h, pixels };
    let mut options = MarkerRemovalOptions::default();
    options.preserve_text_edges = false;
    let result = MarkerRemover::remove_in_place(&mut img, &options);
    assert_eq!(result.total_marker_pixels, 900);
    assert_eq!(result.detected_pixels[0].1, 900);
    for y in 10..40u32 {
        for x in 10..40u32 {
            let i = ((y * w + x) * 3) as usize;
            assert!(img.pixels[i] >= 250 && img.pixels[i + 1] >= 250 && img.pixels[i + 2] >= 250);
        }
    }
}

#[test]
fn uniform_image_is_flat() {
    let img = GrayImage::filled(20, 10, 77);
    let sums = laplacian_sums(&img);
    assert_eq!(sums.sum, 0);
    assert_eq!(sums.sum_sq, 0);
    assert_eq!(sums.count, 18 * 8);
    let edges = sobel_magnitude(&img);
    assert!(edges.pixels.iter().all(|&v| v == 0));
}

#[test]
fn laplacian_of_a_dot() {
    let mut img = GrayImage::filled(5, 5, 0);
    img.pixels[12] = 10;
    let sums = laplacian_sums(&img);
    assert_eq!(sums.count, 9);
    assert_eq!(sums.sum, -40 + 4 * 10);
    assert_eq!(sums.sum_sq, 1600 + 4 * 100);
    assert_eq!(laplacian_sums(&GrayImage::filled(2, 9, 3)).count, 0);
}

#[test]
fn sobel_on_a_step() {
    let mut img = GrayImage::filled(6, 4, 0);
    for y in 0..4u32 {
        for x in 3..6u32 {
            img.pixels[(y * 6 + x) as usize] = 100;
        }
    }
    let e = sobel_magnitude(&img);
    assert_eq!(e.pixels[(1 * 6 + 2) as usize], 255);
    assert_eq!(e.pixels[(1 * 6 + 1) as usize], 0);
    assert_eq!(e.pixels[0], 0);
    let mut faint = GrayImage::filled(3, 3, 0);
    faint.pixels[2] = 5;
    faint.pixels[5] = 5;
    faint.pixels[8] = 5;
    assert_eq!(sobel_magnitude(&faint).pixels[4], 20);
}

#[test]
fn test_median_calculation() {
    let mut data = vec![5, 2, 9, 1, 7];
    assert_eq!(median(&mut data), 5);
    let mut data_even = vec![1, 2, 3, 4];
    assert_eq!(median(&mut data_even), 2);
    let mut empty: Vec<usize> = vec![];
    assert_eq!(median(&mut empty), 0);
}

#[test]
fn test_error_display() {
    let err = VerticalDetectError::InvalidImage("test".to_string());
    assert!(err.message().contains("Invalid image"));
    let err2 = VerticalDetectError::ProcessingError("test".to_string());
    assert!(err2.message().contains("Processing error"));
}

#[test]
fn rotation_moves_pixels() {
    let img = GrayImage::from_pixels(3, 2, vec![1, 2, 3, 4, 5, 6]).unwrap();
    let r = rotate_90_clockwise(&img);
    assert_eq!((r.width, r.height), (2, 3));
    // (x, y) lands at (y, w - 1 - x)
    assert_eq!(r.pixels, vec![3, 6, 2, 5, 1, 4]);
    assert!(GrayImage::from_pixels(3, 2, vec![1]).is_none());
}

#[test]
fn intersections_and_runs() {
    let mut img = white(10, 4);
    paint(&mut img, 1, 0, 3, 2, 0);
    paint(&mut img, 5, 0, 6, 2, 0);
    let counts = row_intersections(&img, 0, 10, 128);
    assert_eq!(counts, vec![2, 2, 0, 0]);
    let half = row_intersections(&img, 0, 4, 128);
    assert_eq!(half, vec![1, 1, 0, 0]);
    let runs = runs_of_rows(&counts);
    assert_eq!(runs, vec![(true, 2), (false, 2)]);
}

#[test]
fn tall_strokes_cross_every_row() {
    let mut img = white(120, 200);
    for &x in &[100u32, 60, 20] {
        paint(&mut img, x, 10, x + 4, 190, 0);
    }
    let counts = row_intersections(&img, 0, 120, 128);
    assert_eq!(counts[100], 3);
    assert_eq!(counts[5], 0);
    let rotated = rotate_90_clockwise(&img);
    let across = row_intersections(&rotated, 0, rotated.width, 128);
    assert_eq!(across[17], 1);
    assert_eq!(across[0], 0);
}

fn boundary(safe: u32, aggressive: u32, count: usize) -> ContentBoundary {
    ContentBoundary { safe_position: safe, aggressive_position: aggressive, component_count: count }
}

#[test]
fn test_content_aware_options_default() {
    let opts = ContentAwareOptions::default();
    assert_eq!(opts.min_char_size, 6);
    assert_eq!(opts.safety_buffer_per_mille, 5);
    assert!(!opts.aggressive_trim);
}

#[test]
fn test_content_aware_options_builder() {
    let mut opts = ContentAwareOptions::default().with_safety_buffer_per_mille(10);
    opts.min_char_size = 10;
    opts.max_char_size = 200;
    opts.min_safety_buffer = 20;
    opts.aggressive_trim = true;
    assert_eq!(opts.min_char_size, 10);
    assert_eq!(opts.max_char_size, 200);
    assert_eq!(opts.safety_buffer_per_mille, 10);
    assert_eq!(opts.min_safety_buffer, 20);
    assert!(opts.aggressive_trim);
}

#[test]
fn test_content_aware_options_presets() {
    let aggressive = ContentAwareOptions::aggressive();
    assert!(aggressive.aggressive_trim);
    assert!(aggressive.safety_buffer_per_mille < 5);
    let conservative = ContentAwareOptions::conservative();
    assert!(!conservative.aggressive_trim);
    assert!(conservative.safety_buffer_per_mille >= 10);
}

#[test]
fn test_content_boundary_default() {
    let b = ContentBoundary::default();
    assert_eq!(b.safe_position, 0);
    assert_eq!(b.aggressive_position, 0);
    assert_eq!(b.component_count, 0);
}

#[test]
fn test_binarize_for_content() {
    let mut gray = GrayImage::filled(10, 10, 0);
    gray.pixels[5 * 10 + 5] = 50;
    gray.pixels[3 * 10 + 3] = 200;
    let binary = ContentAwareBoundaryDetector::binarize_for_content(&gray, 128);
    assert_eq!(binary.get(5, 5), 255);
    assert_eq!(binary.get(3, 3), 0);
}

#[test]
fn test_is_valid_component() {
    let options = ContentAwareOptions::default();
    let valid = ConnectedComponent { min_x: 0, min_y: 0, max_x: 10, max_y: 15, pixel_count: 100 };
    assert!(ContentAwareBoundaryDetector::is_valid_component(&valid, &options));
    let small = ConnectedComponent { min_x: 0, min_y: 0, max_x: 2, max_y: 2, pixel_count: 9 };
    assert!(!ContentAwareBoundaryDetector::is_valid_component(&small, &options));
    let large = ConnectedComponent { min_x: 0, min_y: 0, max_x: 600, max_y: 600, pixel_count: 10000 };
    assert!(!ContentAwareBoundaryDetector::is_valid_component(&large, &options));
}

#[test]
fn test_content_boundaries_rect() {
    let boundaries = ContentBoundaries {
        top: boundary(10, 15, 5),
        bottom: boundary(190, 185, 5),
        left: boundary(20, 25, 5),
        right: boundary(180, 175, 5),
        image_size: (200, 200),
        otsu_threshold: 128,
        total_components: 20,
    };
    let safe_rect = boundaries.safe_content_rect();
    assert_eq!(safe_rect.x, 20);
    assert_eq!(safe_rect.y, 10);
    assert_eq!(safe_rect.width, 160);
    assert_eq!(safe_rect.height, 180);
    let aggressive_rect = boundaries.aggressive_content_rect();
    assert_eq!(aggressive_rect.x, 25);
    assert_eq!(aggressive_rect.y, 15);
}

#[test]
fn test_merge_boundaries() {
    let b1 = ContentBoundaries {
        top: boundary(10, 15, 5),
        bottom: boundary(180, 175, 5),
        left: boundary(20, 25, 5),
        right: boundary(180, 175, 5),
        image_size: (200, 200),
        otsu_threshold: 128,
        total_components: 20,
    };
    let b2 = ContentBoundaries {
        top: boundary(5, 10, 6),
        bottom: boundary(190, 185, 6),
        left: boundary(15, 20, 6),
        right: boundary(185, 180, 6),
        image_size: (200, 200),
        otsu_threshold: 130,
        total_components: 24,
    };
    let merged = ContentAwareBoundaryDetector::merge_boundaries(&[b1, b2]).unwrap();
    assert_eq!(merged.top.safe_position, 5);
    assert_eq!(merged.bottom.safe_position, 190);
    assert_eq!(merged.left.safe_position, 15);
    assert_eq!(merged.right.safe_position, 185);
    assert_eq!(merged.total_components, 44);
}

#[test]
fn test_no_content_detected() {
    let gray = GrayImage::filled(100, 100, 255);
    let options = ContentAwareOptions::default();
    let result = ContentAwareBoundaryDetector::detect_from_image(&gray, &options, 128);
    assert!(matches!(result, Err(MarginError::NoContentDetected)));
}

fn hsv(hue: u32, sat_num: u32, sat_den: u32, val: u8) -> Hsv {
    Hsv { hue_num: hue, hue_den: 1, sat_num, sat_den, val }
}

#[test]
fn test_marker_removal_options_default() {
    let opts = MarkerRemovalOptions::default();
    assert_eq!(opts.colors.len(), 5);
    assert_eq!(opts.strength, 1000);
    assert!(opts.preserve_text_edges);
}

#[test]
fn test_marker_removal_options_builder() {
    let opts = MarkerRemovalOptions {
        colors: vec![HighlighterColor::Yellow, HighlighterColor::Pink],
        strength: 800,
        preserve_text_edges: false,
        edge_threshold: 100,
    };
    assert_eq!(opts.colors.len(), 2);
    assert_eq!(opts.strength, 800);
    assert!(!opts.preserve_text_edges);
    assert_eq!(opts.edge_threshold, 100);
}

#[test]
fn test_highlighter_colors() {
    let all = HighlighterColor::all();
    assert_eq!(all.len(), 5);
    assert!(all.contains(&HighlighterColor::Yellow));
    assert!(all.contains(&HighlighterColor::Pink));
    assert!(all.contains(&HighlighterColor::Green));
    assert!(all.contains(&HighlighterColor::Blue));
    assert!(all.contains(&HighlighterColor::Orange));
}

#[test]
fn test_hsv_range_matching() {
    let yellow_range = HighlighterColor::Yellow.hsv_range();
    assert!(yellow_range.matches(&hsv(60, 1, 2, 230)));
    assert!(!yellow_range.matches(&hsv(220, 1, 2, 230)));
    assert!(!yellow_range.matches(&hsv(60, 1, 10, 230)));
}

#[test]
fn marker_removal_test_rgb_to_hsv() {
    let yellow = rgb_to_hsv(255, 255, 0);
    assert_eq!(yellow.hue_num, 60 * yellow.hue_den);
    assert_eq!(yellow.sat_num, yellow.sat_den);
    assert_eq!(yellow.val, 255);
    let white = rgb_to_hsv(255, 255, 255);
    assert_eq!(white.sat_num, 0);
    assert_eq!(white.val, 255);
    let red = rgb_to_hsv(255, 0, 0);
    assert_eq!(red.hue_num, 0);
}

#[test]
fn test_fade_to_white() {
    let pixel = [100u8, 100, 100];
    assert_eq!(MarkerRemover::fade_to_white(pixel, 1000), [255, 255, 255]);
    assert_eq!(MarkerRemover::fade_to_white(pixel, 0), [100, 100, 100]);
    let half = MarkerRemover::fade_to_white(pixel, 500);
    assert!(half[0] > 100 && half[0] < 255);
}

#[test]
fn test_custom_color() {
    let custom = HighlighterColor::Custom { hue_min: 100, hue_max: 120, sat_min: 30, sat_max: 90, val_min: 50, val_max: 100 };
    let range = custom.hsv_range();
    assert_eq!(range.hue_min, 100);
    assert_eq!(range.hue_max, 120);
    assert_eq!(range.sat_min, 30);
    assert_eq!(range.sat_max, 90);
}

#[test]
fn test_partial_strength() {
    assert_eq!(MarkerRemovalOptions::partial(500).strength, 500);
    assert_eq!(MarkerRemovalOptions::partial(1500).strength, 1000);
    assert_eq!(MarkerRemovalOptions::partial(0).strength, 0);
}

#[test]
fn test_wrapping_hue_range() {
    let pink_range = HighlighterColor::Pink.hsv_range();
    assert!(pink_range.matches(&hsv(320, 1, 2, 230)));
    assert!(!pink_range.matches(&hsv(60, 1, 2, 230)));
}

#[test]
fn test_vd010_rotation_90_clockwise() {
    let mut image = GrayImage::filled(10, 5, 255);
    image.pixels[0] = 100;
    let rotated = rotate_90_clockwise(&image);
    assert_eq!((rotated.width, rotated.height), (5, 10));
    assert_eq!(rotated.get(0, 9), 100);
}

#[test]
fn test_ai_model_default() {
    let model = superbook_pdf::cleanup::AiDeblurModel::default();
    assert_eq!(model.name, "nafnet");
    assert!(model.model_path.is_none());
}

fn scaled_variance(s: &superbook_pdf::filters::LaplacianSums) -> i128 {
    let n = s.count as i128;
    (n * s.sum_sq as i128 - s.sum * s.sum).abs()
}

#[test]
fn test_laplacian_variance_sharp_image() {
    let mut gray = GrayImage::filled(100, 100, 128);
    for x in 0..100usize {
        gray.pixels[50 * 100 + x] = 255;
        gray.pixels[x * 100 + 50] = 255;
    }
    let sums = laplacian_sums(&gray);
    let n = sums.count as i128;
    // variance > 50 means |n·ΣL² − (ΣL)²| > 50·n²
    assert!(scaled_variance(&sums) > 50 * n * n);
    assert!(!superbook_pdf::cleanup::BlurDetector::is_blurry(&sums, 50));
}

#[test]
fn test_laplacian_variance_uniform_image() {
    let gray = GrayImage::filled(100, 100, 128);
    let sums = laplacian_sums(&gray);
    let n = sums.count as i128;
    assert!(scaled_variance(&sums) < 10 * n * n);
}

#[test]
fn test_blur_detection() {
    let gray = GrayImage::filled(100, 100, 128);
    let sums = laplacian_sums(&gray);
    assert!(superbook_pdf::cleanup::BlurDetector::is_blurry(&sums, 100));
    assert!(superbook_pdf::cleanup::BlurDetector::should_sharpen(true, true));
    assert!(!superbook_pdf::cleanup::BlurDetector::should_sharpen(true, false));
    assert!(superbook_pdf::cleanup::BlurDetector::should_sharpen(false, false));
}

#[test]
fn detection_counts_without_changing() {
    let (w, h) = (20u32, 20u32);
    let mut pixels = vec![255u8; (w * h * 3) as usize];
    for y in 5..15u32 {
        for x in 5..15u32 {
            pixels[((y * w + x) * 3 + 2) as usize] = 128;
        }
    }
    let img = RgbImage { width: w, height: h, pixels: pixels.clone() };
    let result = MarkerRemover::detect_from_image(&img, &MarkerRemovalOptions::yellow_only());
    assert_eq!(result.total_marker_pixels, 100);
    assert_eq!(result.detected_pixels, vec![(HighlighterColor::Yellow, 100)]);
    assert_eq!(img.pixels, pixels);
    let white = RgbImage { width: 4, height: 4, pixels: vec![255; 48] };
    assert!(!MarkerRemover::detect_from_image(&white, &MarkerRemovalOptions::default()).has_markers());
}
