use superbook_pdf::content::GrayImage;
use superbook_pdf::geometry::{ContentRect, MarginError};
use superbook_pdf::group::{GroupCropAnalyzer, GroupCropRegion, PageBoundingBox};

fn rect(x: u32, y: u32, width: u32, height: u32) -> ContentRect {
    ContentRect { x, y, width, height }
}

#[test]
fn group_test_page_bounding_box_creation() {
    let bbox = PageBoundingBox::new(1, rect(100, 50, 800, 1200));
    assert_eq!(bbox.page_number, 1);
    assert!(bbox.is_odd);
    assert!(bbox.is_valid());
    assert_eq!(bbox.right(), 900);
    assert_eq!(bbox.bottom(), 1250);
}

#[test]
fn mod_test_page_bounding_box_creation() {
    let bbox = PageBoundingBox::new(1, rect(100, 50, 800, 1200));
    assert_eq!(bbox.page_number, 1);
    assert!(bbox.is_odd);
    assert!(bbox.is_valid());
}

#[test]
fn test_page_bounding_box_even_page() {
    let bbox = PageBoundingBox::new(2, rect(100, 50, 800, 1200));
    assert_eq!(bbox.page_number, 2);
    assert!(!bbox.is_odd);
}

#[test]
fn group_test_group_crop_region_valid() {
    let region = GroupCropRegion { left: 100, top: 50, width: 800, height: 1200, inlier_count: 10, total_count: 12 };
    assert!(region.is_valid());
    assert_eq!(region.right(), 900);
    assert_eq!(region.bottom(), 1250);
}

#[test]
fn mod_test_group_crop_region_valid() {
    let region = GroupCropRegion { left: 100, top: 50, width: 800, height: 1200, inlier_count: 10, total_count: 12 };
    assert!(region.is_valid());
    assert_eq!(region.right(), 900);
    assert_eq!(region.bottom(), 1250);
}

#[test]
fn test_group_crop_region_invalid() {
    let region = GroupCropRegion { left: 100, top: 50, width: 0, height: 1200, inlier_count: 0, total_count: 0 };
    assert!(!region.is_valid());
}

#[test]
fn group_test_decide_group_crop_empty() {
    let result = GroupCropAnalyzer::decide_group_crop_region(&[]);
    assert!(!result.is_valid());
    assert_eq!(result.inlier_count, 0);
}

#[test]
fn mod_test_decide_group_crop_empty() {
    let result = GroupCropAnalyzer::decide_group_crop_region(&[]);
    assert!(!result.is_valid());
}

#[test]
fn test_decide_group_crop_single_page() {
    let boxes = vec![PageBoundingBox::new(1, rect(100, 50, 800, 1200))];
    let result = GroupCropAnalyzer::decide_group_crop_region(&boxes);
    assert!(result.is_valid());
    assert_eq!(result.left, 100);
    assert_eq!(result.top, 50);
    assert_eq!(result.width, 800);
    assert_eq!(result.height, 1200);
}

#[test]
fn test_decide_group_crop_multiple_pages() {
    let boxes = vec![
        PageBoundingBox::new(1, rect(100, 50, 800, 1200)),
        PageBoundingBox::new(2, rect(105, 55, 790, 1190)),
        PageBoundingBox::new(3, rect(95, 45, 810, 1210)),
    ];
    let result = GroupCropAnalyzer::decide_group_crop_region(&boxes);
    assert!(result.is_valid());
    assert_eq!(result.inlier_count, 3);
    assert!((result.left as i32 - 100).abs() <= 5);
    assert!((result.top as i32 - 50).abs() <= 5);
}

#[test]
fn test_decide_group_crop_with_outlier() {
    let boxes = vec![
        PageBoundingBox::new(1, rect(100, 50, 800, 1200)),
        PageBoundingBox::new(2, rect(105, 55, 790, 1190)),
        PageBoundingBox::new(3, rect(95, 45, 810, 1210)),
        PageBoundingBox::new(4, rect(100, 50, 800, 1200)),
        PageBoundingBox::new(5, rect(500, 500, 200, 200)),
    ];
    let result = GroupCropAnalyzer::decide_group_crop_region(&boxes);
    assert!(result.is_valid());
    assert!(result.inlier_count <= boxes.len());
}

#[test]
fn group_test_unify_odd_even_regions() {
    let boxes = vec![
        PageBoundingBox::new(1, rect(100, 50, 800, 1200)),
        PageBoundingBox::new(2, rect(150, 60, 750, 1180)),
        PageBoundingBox::new(3, rect(105, 55, 795, 1195)),
        PageBoundingBox::new(4, rect(155, 65, 745, 1175)),
    ];
    let result = GroupCropAnalyzer::unify_odd_even_regions(&boxes);
    assert!(result.odd_region.is_valid());
    assert_eq!(result.odd_region.total_count, 2);
    assert!(result.even_region.is_valid());
    assert_eq!(result.even_region.total_count, 2);
}

#[test]
fn mod_test_unify_odd_even_regions() {
    let boxes = vec![
        PageBoundingBox::new(1, rect(100, 50, 800, 1200)),
        PageBoundingBox::new(2, rect(150, 60, 750, 1180)),
    ];
    let result = GroupCropAnalyzer::unify_odd_even_regions(&boxes);
    assert!(result.odd_region.is_valid());
    assert!(result.even_region.is_valid());
}

#[test]
fn test_group_crop_region_to_content_rect() {
    let region = GroupCropRegion { left: 100, top: 50, width: 800, height: 1200, inlier_count: 5, total_count: 5 };
    let r = region.to_content_rect();
    assert_eq!(r.x, 100);
    assert_eq!(r.y, 50);
    assert_eq!(r.width, 800);
    assert_eq!(r.height, 1200);
}

#[test]
fn test_tc_margin_001_uniform_margins_detected() {
    let boxes: Vec<PageBoundingBox> = (1..=4).map(|p| PageBoundingBox::new(p, rect(100, 100, 800, 1000))).collect();
    let result = GroupCropAnalyzer::decide_group_crop_region(&boxes);
    assert!(result.is_valid());
    assert_eq!(result.left, 100);
    assert_eq!(result.top, 100);
    assert_eq!(result.width, 800);
    assert_eq!(result.height, 1000);
    assert_eq!(result.inlier_count, 4);
}

#[test]
fn test_tc_margin_002_nonuniform_margins_unified() {
    let boxes = vec![
        PageBoundingBox::new(1, rect(100, 90, 800, 1000)),
        PageBoundingBox::new(2, rect(110, 100, 790, 990)),
        PageBoundingBox::new(3, rect(95, 95, 805, 1005)),
        PageBoundingBox::new(4, rect(105, 105, 795, 995)),
    ];
    let result = GroupCropAnalyzer::decide_group_crop_region(&boxes);
    assert!(result.is_valid());
    assert!(result.left >= 95 && result.left <= 110);
    assert!(result.top >= 90 && result.top <= 105);
}

#[test]
fn test_tc_margin_003_no_margins() {
    let boxes = vec![
        PageBoundingBox::new(1, rect(0, 0, 1000, 1200)),
        PageBoundingBox::new(2, rect(0, 0, 1000, 1200)),
    ];
    let result = GroupCropAnalyzer::decide_group_crop_region(&boxes);
    assert!(result.is_valid());
    assert_eq!(result.left, 0);
    assert_eq!(result.top, 0);
}

#[test]
fn test_tc_margin_004_outlier_exclusion_tukey() {
    let boxes = vec![
        PageBoundingBox::new(1, rect(100, 100, 800, 1000)),
        PageBoundingBox::new(2, rect(102, 98, 798, 1002)),
        PageBoundingBox::new(3, rect(101, 101, 799, 999)),
        PageBoundingBox::new(4, rect(99, 99, 801, 1001)),
        PageBoundingBox::new(5, rect(300, 300, 400, 600)),
    ];
    let result = GroupCropAnalyzer::decide_group_crop_region(&boxes);
    assert!(result.is_valid());
    assert!(result.inlier_count <= result.total_count);
    assert!(result.left < 200);
}

#[test]
fn test_tc_margin_005_odd_even_separate_regions() {
    let boxes = vec![
        PageBoundingBox::new(1, rect(120, 100, 780, 1000)),
        PageBoundingBox::new(2, rect(100, 100, 780, 1000)),
        PageBoundingBox::new(3, rect(122, 102, 778, 998)),
        PageBoundingBox::new(4, rect(98, 98, 782, 1002)),
    ];
    let result = GroupCropAnalyzer::unify_odd_even_regions(&boxes);
    assert!(result.odd_region.is_valid());
    assert!(result.even_region.is_valid());
    assert!(result.odd_region.left >= result.even_region.left);
    assert_eq!(result.odd_region.total_count, 2);
    assert_eq!(result.even_region.total_count, 2);
}

#[test]
fn tukey_excludes_the_far_page() {
    let boxes = vec![
        PageBoundingBox::new(1, rect(100, 50, 800, 1200)),
        PageBoundingBox::new(3, rect(102, 52, 798, 1198)),
        PageBoundingBox::new(5, rect(98, 48, 802, 1202)),
        PageBoundingBox::new(7, rect(101, 51, 800, 1200)),
        PageBoundingBox::new(9, rect(500, 500, 200, 200)),
    ];
    let result = GroupCropAnalyzer::decide_group_crop_region(&boxes);
    assert!(result.left <= 150);
    assert!(result.inlier_count >= 4 && result.inlier_count <= 5);
    assert_eq!(result.inlier_count, 4);
    assert_eq!(result.total_count, 5);
    assert_eq!(result.left, 100);
    assert_eq!(result.top, 50);
}

#[test]
fn identical_boxes_give_back_the_box() {
    let boxes: Vec<PageBoundingBox> = (1..=7).map(|p| PageBoundingBox::new(p, rect(40, 60, 500, 700))).collect();
    let result = GroupCropAnalyzer::decide_group_crop_region(&boxes);
    assert_eq!(result, GroupCropRegion { left: 40, top: 60, width: 500, height: 700, inlier_count: 7, total_count: 7 });
}

#[test]
fn invalid_boxes_are_ignored_but_counted() {
    let boxes = vec![
        PageBoundingBox::new(1, rect(10, 20, 0, 100)),
        PageBoundingBox::new(2, rect(30, 40, 200, 300)),
    ];
    let result = GroupCropAnalyzer::decide_group_crop_region(&boxes);
    assert_eq!(result, GroupCropRegion { left: 30, top: 40, width: 200, height: 300, inlier_count: 1, total_count: 2 });
}

#[test]
fn even_count_median_rounds_down() {
    let boxes = vec![
        PageBoundingBox::new(1, rect(10, 10, 100, 100)),
        PageBoundingBox::new(2, rect(13, 10, 100, 100)),
    ];
    let result = GroupCropAnalyzer::decide_group_crop_region(&boxes);
    assert_eq!(result.left, 11);
    assert_eq!(result.width, 111 - 11);
}

#[test]
fn text_bounding_box_of_dark_pixels() {
    let mut img = GrayImage::filled(30, 20, 255);
    img.pixels[(5 * 30 + 7) as usize] = 10;
    img.pixels[(12 * 30 + 20) as usize] = 199;
    let r = GroupCropAnalyzer::detect_text_bounding_box(&img, 200).unwrap();
    assert_eq!((r.x, r.y, r.width, r.height), (7, 5, 14, 8));
    let r = GroupCropAnalyzer::detect_text_bounding_box(&img, 100).unwrap();
    assert_eq!((r.x, r.y, r.width, r.height), (7, 5, 1, 1));
    let blank = GrayImage::filled(30, 20, 255);
    assert!(matches!(GroupCropAnalyzer::detect_text_bounding_box(&blank, 200), Err(MarginError::NoContentDetected)));
}
