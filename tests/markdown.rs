use superbook_pdf::markdown::{BoundingBox, MarkdownOptions, TextDirectionOption};

#[test]
fn test_bounding_box() {
    let bbox = BoundingBox::new(10, 20, 100, 50);
    assert_eq!(bbox.right(), 110);
    assert_eq!(bbox.bottom(), 70);
    assert_eq!(bbox.center_x(), 60);
    assert_eq!(bbox.center_y(), 45);
    assert_eq!(bbox.area(), 5000);
}

#[test]
fn test_bounding_box_contains() {
    let bbox = BoundingBox::new(10, 20, 100, 50);
    assert!(bbox.contains(50, 40));
    assert!(!bbox.contains(0, 0));
    assert!(!bbox.contains(200, 200));
}

#[test]
fn test_bounding_box_overlaps() {
    let b1 = BoundingBox::new(0, 0, 100, 100);
    let b2 = BoundingBox::new(50, 50, 100, 100);
    let b3 = BoundingBox::new(200, 200, 50, 50);
    assert!(b1.overlaps(&b2));
    assert!(!b1.overlaps(&b3));
}

#[test]
fn test_bounding_box_merge() {
    let b1 = BoundingBox::new(10, 20, 30, 40);
    let b2 = BoundingBox::new(50, 60, 70, 80);
    let merged = b1.merge(&b2);
    assert_eq!(merged.x, 10);
    assert_eq!(merged.y, 20);
    assert_eq!(merged.right(), 120);
    assert_eq!(merged.bottom(), 140);
}

#[test]
fn test_markdown_options_default() {
    let opts = MarkdownOptions::default();
    assert!(opts.extract_images);
    assert!(opts.detect_tables);
    assert!(!opts.validate);
    assert_eq!(opts.ocr_language, "ja");
}

#[test]
fn test_markdown_options_builder() {
    let opts = MarkdownOptions::builder()
        .extract_images(false)
        .detect_tables(false)
        .text_direction(TextDirectionOption::Vertical)
        .validate(true)
        .api_provider("openai")
        .ocr_language("en")
        .build();
    assert!(!opts.extract_images);
    assert!(!opts.detect_tables);
    assert_eq!(opts.text_direction, TextDirectionOption::Vertical);
    assert!(opts.validate);
    assert_eq!(opts.api_provider, Some("openai".to_string()));
    assert_eq!(opts.ocr_language, "en");
}

#[test]
fn touching_boxes_do_not_overlap() {
    let b1 = BoundingBox::new(0, 0, 10, 10);
    let b2 = BoundingBox::new(10, 0, 10, 10);
    assert!(!b1.overlaps(&b2));
    assert!(!b1.contains(10, 5));
    assert!(b1.contains(9, 9));
}
