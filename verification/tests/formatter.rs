use json_log_parser::format_context::FormatContext;
use json_log_parser::formatter::{DefaultFormatter, LogFormat};
use json_log_parser::log_entry::LogEntry;
use serde_json::Value;

#[test]
fn test_format_all_fields() {
    let mut entry = LogEntry::default();
    entry.container = Some("web-1".to_string());
    entry.timestamp = Some("2024-01-30T10:00:00Z".to_string());
    entry.level = Some("INFO".to_string());
    entry.message = Some("Server started".to_string());

    let formatter = DefaultFormatter::default();
    let mut context = FormatContext::new();
    let output = formatter.format(&entry, &mut context);

    // Output should contain all components
    assert!(output.contains("web-1"));
    assert!(output.contains("2024-01-30T10:00:00Z"));
    assert!(output.contains("INFO"));
    assert!(output.contains("Server started"));
}

#[test]
fn test_format_missing_timestamp() {
    let mut entry = LogEntry::default();
    entry.container = Some("web-1".to_string());
    entry.level = Some("INFO".to_string());
    entry.message = Some("Server started".to_string());

    let formatter = DefaultFormatter::default();
    let mut context = FormatContext::new();
    let output = formatter.format(&entry, &mut context);

    assert!(output.contains("web-1"));
    assert!(output.contains("INFO"));
    assert!(output.contains("Server started"));
}

#[test]
fn test_format_no_container() {
    let mut entry = LogEntry::default();
    entry.level = Some("WARN".to_string());
    entry.message = Some("Warning message".to_string());

    let formatter = DefaultFormatter::default();
    let mut context = FormatContext::new();
    let output = formatter.format(&entry, &mut context);

    // Should not have brackets
    assert!(!output.starts_with("["));
    assert!(output.contains("WARN"));
    assert!(output.contains("Warning message"));
}

#[test]
fn test_format_plain_text() {
    let mut entry = LogEntry::default();
    entry.container = Some("worker-1".to_string());
    entry.message = Some("Plain log line".to_string());

    let formatter = DefaultFormatter::default();
    let mut context = FormatContext::new();
    let output = formatter.format(&entry, &mut context);

    assert!(output.contains("worker-1"));
    assert!(output.contains("Plain log line"));
}

#[test]
fn test_default_container_name() {
    let mut entry = LogEntry::default();
    entry.container = None;
    entry.message = Some("Plain log line".to_string());

    let formatter = DefaultFormatter::new(None, Some("default-container".to_string()));
    let mut context = FormatContext::new();
    let output = formatter.format(&entry, &mut context);

    assert!(output.contains("default-container"));
    assert!(output.contains("Plain log line"));
}

#[test]
fn test_format() {
    let mut entry = LogEntry::default();
    entry.message = Some("message".to_string());
    entry.extra_fields = vec![(
        "extra".to_string(),
        Value::String("hello".to_string()).to_string(),
    )];

    let format = String::from(".extra");
    let formatter = DefaultFormatter::new(Some(format), None);
    let mut context = FormatContext::new();

    let output = formatter.format(&entry, &mut context);

    assert!(output.contains("hello"));
    assert!(!output.contains("message"));
}

#[test]
fn context_indent_is_longest_container_name() {
    let mut context = FormatContext::new();
    assert_eq!(context.indent(), 0);
    context.get_container_color("db");
    assert_eq!(context.indent(), 2);
    context.get_container_color("web-10");
    assert_eq!(context.indent(), 6);
    context.get_container_color("db");
    assert_eq!(context.indent(), 6);
    // the width counts bytes
    context.get_container_color("ééééé");
    assert_eq!(context.indent(), 10);
}
