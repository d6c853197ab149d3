use superbook_pdf::validate::{contains_str, count_occurrences, ApiValidator, IssueSeverity, ValidationIssue, ValidationProvider};

#[test]
fn validation_provider_names() {
    assert_eq!(ValidationProvider::anthropic("key123").name(), "anthropic");
    assert_eq!(ValidationProvider::openai("key456").name(), "openai");
    assert_eq!(ValidationProvider::local("http://localhost:8080").name(), "local");
}

#[test]
fn test_validation_issue() {
    let issue = ValidationIssue::new(IssueSeverity::Warning, "Test warning").with_location("Line 5").with_fix("Fix this");
    assert_eq!(issue.severity, IssueSeverity::Warning);
    assert_eq!(issue.description, "Test warning");
    assert_eq!(issue.location, Some("Line 5".to_string()));
    assert_eq!(issue.fix, Some("Fix this".to_string()));
}

#[test]
fn test_get_heading_level() {
    assert_eq!(ApiValidator::get_heading_level("# Heading 1"), Some(1));
    assert_eq!(ApiValidator::get_heading_level("## Heading 2"), Some(2));
    assert_eq!(ApiValidator::get_heading_level("### Heading 3"), Some(3));
    assert_eq!(ApiValidator::get_heading_level("###### Heading 6"), Some(6));
    assert_eq!(ApiValidator::get_heading_level("####### Too deep"), None);
    assert_eq!(ApiValidator::get_heading_level("Not a heading"), None);
    assert_eq!(ApiValidator::get_heading_level("#NoSpace"), None);
}

#[test]
fn test_validate_empty_content() {
    let validator = ApiValidator::new(ValidationProvider::local("test"));
    let result = validator.validate("").unwrap();
    assert!(!result.valid);
    assert!(result.issues.iter().any(|i| i.description.contains("empty")));
}

#[test]
fn test_validate_unclosed_code_block() {
    let validator = ApiValidator::new(ValidationProvider::local("test"));
    let markdown = "```rust\nlet x = 1;\n// missing closing fence";
    let result = validator.validate(markdown).unwrap();
    assert!(!result.valid);
    assert!(result.issues.iter().any(|i| i.description.contains("Unclosed code block")));
}

#[test]
fn test_validate_skipped_heading_levels() {
    let validator = ApiValidator::new(ValidationProvider::local("test"));
    let markdown = "# Title\n\n### Section\n";
    let result = validator.validate(markdown).unwrap();
    assert!(result.issues.iter().any(|i| i.description.contains("Skipped heading level")));
    assert_eq!(result.issues[0].description, "Skipped heading level (H1 to H3)");
    assert_eq!(result.issues[0].location, Some("Line 3".to_string()));
    assert_eq!(result.suggestions[0], "Consider using H2 before H3 at line 3");
}

#[test]
fn test_validate_multiple_h1() {
    let validator = ApiValidator::new(ValidationProvider::local("test"));
    let markdown = "# Title\n\n# Another Title\n";
    let result = validator.validate(markdown).unwrap();
    assert!(result.issues.iter().any(|i| i.description.contains("Multiple H1")));
}

#[test]
fn test_validate_table_structure() {
    let validator = ApiValidator::new(ValidationProvider::local("test"));
    let markdown = "| A | B | C |\n| --- | --- | --- |\n| 1 | 2 |\n";
    let result = validator.validate(markdown).unwrap();
    assert!(result.issues.iter().any(|i| i.description.contains("columns")));
    assert_eq!(result.issues[0].description, "Table row has 2 columns, expected 3");
}

#[test]
fn test_validate_valid_document() {
    let validator = ApiValidator::new(ValidationProvider::local("test"));
    let markdown = "# Title\n\nSome paragraph text.\n\n## Section\n\nMore content here.\n\n```rust\nlet x = 1;\n```\n";
    let result = validator.validate(markdown).unwrap();
    assert!(result.valid);
    assert!(result.confidence_percent > 80);
    assert_eq!(result.provider, "local");
}

#[test]
fn links_and_confidence() {
    let validator = ApiValidator::new(ValidationProvider::openai("k"));
    let result = validator.validate("# T\n![broken\n[]()\n").unwrap();
    assert_eq!(result.issues.len(), 2);
    assert_eq!(result.issues[0].fix, Some("Ensure images follow ![alt](url) format".to_string()));
    assert_eq!(result.confidence_percent, 90);
    assert!(result.valid);
    let none = validator.validate("plain text").unwrap();
    assert_eq!(none.suggestions, vec!["Consider adding an H1 heading at the beginning of the document".to_string()]);
    assert_eq!(none.confidence_percent, 100);
}

#[test]
fn substring_helpers() {
    assert!(contains_str("abc", "bc"));
    assert!(!contains_str("abc", "cd"));
    assert!(contains_str("abc", ""));
    assert_eq!(count_occurrences("``` x ``` ```", "```"), 3);
    assert_eq!(count_occurrences("aaaa", "aa"), 2);
}
