use superbook_pdf::markdown::{BoundingBox, MarkdownConverter, MarkdownOptions, ReadingOrderOptions, ReadingOrderSorter, TextDirection};
use superbook_pdf::render::{ElementDetector, MarkdownRenderOptions, MarkdownRenderer, TableStructure};

#[test]
fn test_render_heading() {
    let renderer = MarkdownRenderer::new();
    assert_eq!(renderer.render_heading("Title", 1), "# Title\n\n");
    assert_eq!(renderer.render_heading("Section", 2), "## Section\n\n");
    assert_eq!(renderer.render_heading("Deep", 6), "###### Deep\n\n");
}

#[test]
fn heading_level_is_clamped() {
    let renderer = MarkdownRenderer::new();
    assert_eq!(renderer.render_heading("  Zero ", 0), "# Zero\n\n");
    assert_eq!(renderer.render_heading("Nine", 9), "###### Nine\n\n");
}

#[test]
fn test_render_paragraph() {
    let renderer = MarkdownRenderer::new();
    assert_eq!(renderer.render_paragraph("Hello world"), "Hello world\n\n");
    assert_eq!(renderer.render_paragraph("  Trimmed  "), "Trimmed\n\n");
    assert_eq!(renderer.render_paragraph(""), "");
}

#[test]
fn test_render_table() {
    let renderer = MarkdownRenderer::new();
    let mut table = TableStructure::new(3, 2);
    table.set_cell(0, 0, "A".to_string());
    table.set_cell(0, 1, "B".to_string());
    table.set_cell(1, 0, "1".to_string());
    table.set_cell(1, 1, "2".to_string());
    table.set_cell(2, 0, "3".to_string());
    table.set_cell(2, 1, "4".to_string());
    let output = renderer.render_table(&table);
    assert!(output.contains("| A"));
    assert!(output.contains("---"));
    assert!(output.contains("| 1"));
}

#[test]
fn table_layout_is_exact() {
    let renderer = MarkdownRenderer::new();
    let mut table = TableStructure::new(2, 2);
    table.set_cell(0, 0, "Name".to_string());
    table.set_cell(0, 1, "N".to_string());
    table.set_cell(1, 0, "ab".to_string());
    table.set_cell(1, 1, "12345".to_string());
    table.set_cell(5, 5, "ignored".to_string());
    assert_eq!(
        renderer.render_table(&table),
        "| Name | N     |\n| ---- | ----- |\n| ab   | 12345 |\n\n"
    );
    assert_eq!(renderer.render_table(&TableStructure::new(0, 3)), "");
}

#[test]
fn test_render_list_item() {
    let renderer = MarkdownRenderer::new();
    assert_eq!(renderer.render_list_item("Item"), "- Item\n");
    assert_eq!(renderer.render_list_item("• Bullet"), "- Bullet\n");
    assert_eq!(renderer.render_list_item("- Dash"), "- Dash\n");
}

#[test]
fn test_render_code_block() {
    let renderer = MarkdownRenderer::new();
    let output = renderer.render_code_block("let x = 1;", Some("rust"));
    assert!(output.contains("```rust"));
    assert!(output.contains("let x = 1;"));
    assert_eq!(renderer.render_code_block("x", None), "```\nx\n```\n\n");
}

#[test]
fn test_render_blockquote() {
    let renderer = MarkdownRenderer::new();
    let output = renderer.render_blockquote("Line 1\nLine 2");
    assert!(output.contains("> Line 1"));
    assert!(output.contains("> Line 2"));
    assert_eq!(output, "> Line 1\n> Line 2\n\n");
}

#[test]
fn test_wrap_text() {
    let renderer = MarkdownRenderer::new();
    let text = "This is a long line that should be wrapped at a certain point for readability";
    let wrapped = renderer.wrap_text(text, 20);
    for line in wrapped.lines() {
        assert!(line.len() <= 30);
    }
    assert_eq!(renderer.wrap_text("aa bb cc", 5), "aa bb\ncc");
}

#[test]
fn wrapped_paragraph() {
    let mut options = MarkdownRenderOptions::default();
    options.wrap_lines = true;
    options.max_line_length = 7;
    let renderer = MarkdownRenderer::with_options(options);
    assert_eq!(renderer.render_paragraph(" one two three "), "one two\nthree\n\n");
}

#[test]
fn test_render_options_default() {
    let opts = MarkdownRenderOptions::default();
    assert!(opts.include_page_breaks);
    assert!(opts.include_page_numbers);
    assert!(!opts.use_html_fallback);
}

#[test]
fn test_table_structure() {
    let mut table = TableStructure::new(3, 2);
    table.set_cell(0, 0, "A".to_string());
    table.set_cell(0, 1, "B".to_string());
    table.set_cell(1, 0, "C".to_string());
    table.set_cell(1, 1, "D".to_string());
    assert_eq!(table.rows, 3);
    assert_eq!(table.cols, 2);
    assert_eq!(table.get_cell(0, 0), Some("A"));
    assert_eq!(table.get_cell(1, 1), Some("D"));
    assert_eq!(table.get_cell(10, 10), None);
}

#[test]
fn test_is_list_item() {
    assert!(ElementDetector::is_list_item("• Item"));
    assert!(ElementDetector::is_list_item("1. First"));
    assert!(ElementDetector::is_list_item("- Dash item"));
    assert!(ElementDetector::is_list_item("①番目"));
    assert!(!ElementDetector::is_list_item("Normal text"));
    assert!(!ElementDetector::is_list_item(""));
}

#[test]
fn test_reading_order_options_default() {
    let opts = ReadingOrderOptions::default();
    assert!(opts.forced_direction.is_none());
    assert_eq!(opts.column_tolerance, 30);
}

#[test]
fn test_converter_default() {
    let converter = MarkdownConverter::new();
    assert!(converter.options.extract_images);
    assert!(!converter.options.validate);
}

#[test]
fn test_converter_with_options() {
    let options = MarkdownOptions::builder().extract_images(false).validate(true).api_provider("openai").build();
    let converter = MarkdownConverter::with_options(options);
    assert!(!converter.options.extract_images);
    assert!(converter.options.validate);
}

#[test]
fn test_detect_direction_horizontal() {
    let blocks = vec![BoundingBox::new(0, 0, 200, 30), BoundingBox::new(0, 40, 180, 30)];
    assert_eq!(ReadingOrderSorter::detect_direction(&blocks), TextDirection::Horizontal);
}

#[test]
fn test_detect_direction_vertical() {
    // Three tall, narrow strokes at x = 100, 60, 20.
    let blocks = vec![BoundingBox::new(100, 0, 30, 200), BoundingBox::new(60, 0, 30, 180), BoundingBox::new(20, 0, 30, 150)];
    assert_eq!(ReadingOrderSorter::detect_direction(&blocks), TextDirection::Vertical);
    assert_eq!(ReadingOrderSorter::detect_direction(&blocks[..1]), TextDirection::Horizontal);
}
