//! Whole lines through the library, as the program handles them.

use json_log_parser::format_context::FormatContext;
use json_log_parser::formatter::{DefaultFormatter, LogFormat};
use json_log_parser::parser::{extract_container_and_content, parse_log_content};

fn run(input: &str) -> String {
    let formatter = DefaultFormatter::new(None, None);
    let mut context = FormatContext::new();
    let mut out = String::new();
    for line in input.lines() {
        let (container, content) = extract_container_and_content(line);
        let mut entry = parse_log_content(content);
        entry.container = container;
        out.push_str(&formatter.format(&entry, &mut context));
        out.push('\n');
    }
    out
}

#[test]
fn test_basic_json_log() {
    let input =
        r#"web-1 | {"level":"INFO","message":"Server started","timestamp":"2024-01-30T10:00:00Z"}"#;
    let stdout = run(input);
    assert!(stdout.contains("web-1"));
    assert!(stdout.contains("INFO"));
    assert!(stdout.contains("Server started"));
}

#[test]
fn test_plain_text_log() {
    let input = "worker-1 | Starting background job";
    let stdout = run(input);
    assert!(stdout.contains("worker-1"));
    assert!(stdout.contains("Starting background job"));
}

#[test]
fn test_no_container_line() {
    let input = "Attaching to web-1, db-1";
    let stdout = run(input);
    // Should output the line as-is (no container prefix)
    assert!(stdout.contains("Attaching to web-1, db-1"));
}

#[test]
fn test_empty_json_object() {
    let input = r#"web-1 | {}"#;
    let stdout = run(input);
    // Should just show container name
    assert!(stdout.contains("web-1"));
}

#[test]
fn test_json_missing_fields() {
    let input = r#"api-1 | {"level":"ERROR"}"#;
    let stdout = run(input);
    assert!(stdout.contains("api-1"));
    assert!(stdout.contains("ERROR"));
}

#[test]
fn test_multiple_containers_color_consistency() {
    let input = "web-1 | First log\ndb-1 | Second log\nweb-1 | Third log";
    let stdout = run(input);
    // All outputs should be present
    assert!(stdout.contains("First log"));
    assert!(stdout.contains("Second log"));
    assert!(stdout.contains("Third log"));
    let lines: Vec<&str> = stdout.lines().collect();
    let prefix = |l: &str| l.split(']').next().unwrap().to_string();
    assert_eq!(prefix(lines[0]), prefix(lines[2]));
}
