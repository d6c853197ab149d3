use superbook_pdf::geometry::{ContentDetectionMode, ContentRect, MarginError, Margins, TrimResult};

#[test]
fn test_uniform_margins() {
    let margins = Margins::uniform(20);
    assert_eq!(margins.top, 20);
    assert_eq!(margins.bottom, 20);
    assert_eq!(margins.left, 20);
    assert_eq!(margins.right, 20);
    assert_eq!(margins.total_horizontal(), 40);
    assert_eq!(margins.total_vertical(), 40);
}

#[test]
fn test_trim_result_construction() {
    let result = TrimResult {
        input_path: "/input/test.png".to_string(),
        output_path: "/output/test.png".to_string(),
        original_size: (1000, 1500),
        trimmed_size: (800, 1200),
        margins_applied: Margins { top: 100, bottom: 200, left: 100, right: 100 },
    };
    assert_eq!(result.original_size, (1000, 1500));
    assert_eq!(result.trimmed_size, (800, 1200));
    assert_eq!(result.margins_applied.top, 100);
}

#[test]
fn test_content_rect_construction() {
    let rect = ContentRect { x: 50, y: 100, width: 800, height: 1200 };
    assert_eq!(rect.x, 50);
    assert_eq!(rect.y, 100);
    assert_eq!(rect.width, 800);
    assert_eq!(rect.height, 1200);
}

#[test]
fn mod_test_error_types() {
    let _err1 = MarginError::ImageNotFound("/test/path".to_string());
    let _err2 = MarginError::InvalidImage("Invalid format".to_string());
    let _err3 = MarginError::NoContentDetected;
    let _err4 = MarginError::IoError("test".to_string());
}

#[test]
fn test_margins_arithmetic() {
    let margins = Margins { top: 10, bottom: 20, left: 15, right: 25 };
    assert_eq!(margins.total_vertical(), 30);
    assert_eq!(margins.total_horizontal(), 40);
}

#[test]
fn test_error_display_messages() {
    let err1 = MarginError::ImageNotFound("/test/path.png".to_string());
    assert!(err1.message().contains("not found"));
    let err2 = MarginError::InvalidImage("bad format".to_string());
    assert!(err2.message().contains("Invalid"));
    let err3 = MarginError::NoContentDetected;
    assert!(err3.message().contains("content"));
}

#[test]
fn test_margins_construction() {
    let margins = Margins { top: 50, bottom: 60, left: 30, right: 40 };
    assert_eq!(margins.top, 50);
    assert_eq!(margins.bottom, 60);
    assert_eq!(margins.left, 30);
    assert_eq!(margins.right, 40);
}

#[test]
fn test_margins_zero() {
    let margins = Margins { top: 0, bottom: 0, left: 0, right: 0 };
    assert_eq!(margins.total_vertical(), 0);
    assert_eq!(margins.total_horizontal(), 0);
}

#[test]
fn test_margins_asymmetric() {
    let margins = Margins { top: 100, bottom: 50, left: 20, right: 80 };
    assert_ne!(margins.top, margins.bottom);
    assert_ne!(margins.left, margins.right);
    assert_eq!(margins.total_vertical(), 150);
    assert_eq!(margins.total_horizontal(), 100);
}

#[test]
fn test_trim_result_fields_consistency() {
    let result = TrimResult {
        input_path: "/input/original.png".to_string(),
        output_path: "/output/trimmed.png".to_string(),
        original_size: (1000, 800),
        trimmed_size: (900, 750),
        margins_applied: Margins { top: 20, bottom: 30, left: 50, right: 50 },
    };
    assert_eq!(result.original_size.0, 1000);
    assert_eq!(result.trimmed_size.1, 750);
    let expected_width = result.original_size.0 - result.margins_applied.left - result.margins_applied.right;
    assert_eq!(expected_width, result.trimmed_size.0);
}

#[test]
fn test_trim_result_unchanged() {
    let result = TrimResult {
        input_path: "/input/same.png".to_string(),
        output_path: "/output/same.png".to_string(),
        original_size: (500, 500),
        trimmed_size: (500, 500),
        margins_applied: Margins { top: 0, bottom: 0, left: 0, right: 0 },
    };
    assert_eq!(result.original_size, result.trimmed_size);
    assert_eq!(result.margins_applied.total_vertical(), 0);
    assert_eq!(result.margins_applied.total_horizontal(), 0);
}

#[test]
fn test_content_detection_mode_copy() {
    let original = ContentDetectionMode::Combined;
    let cloned = original;
    assert!(matches!(cloned, ContentDetectionMode::Combined));
}

#[test]
fn test_margins_copy() {
    let original = Margins::uniform(50);
    let cloned = original;
    assert_eq!(cloned.top, 50);
}

#[test]
fn test_content_rect_copy() {
    let original = ContentRect { x: 10, y: 20, width: 100, height: 200 };
    let cloned = original;
    assert_eq!(cloned.x, 10);
    assert_eq!(cloned.y, 20);
}

#[test]
fn margins_saturate_instead_of_wrapping() {
    let margins = Margins { top: u32::MAX, bottom: 5, left: 1, right: u32::MAX };
    assert_eq!(margins.total_vertical(), u32::MAX);
    assert_eq!(margins.total_horizontal(), u32::MAX);
}
