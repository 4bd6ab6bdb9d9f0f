use json_log_parser::log_entry::LogEntry;

#[test]
fn test_log_entry_creation() {
    let entry = LogEntry {
        container: Some("web-1".to_string()),
        timestamp: Some("2024-01-30T10:00:00Z".to_string()),
        level: Some("INFO".to_string()),
        message: Some("Server started".to_string()),
        extra_fields: Vec::new(),
    };

    assert_eq!(entry.container, Some("web-1".to_string()));
    assert_eq!(entry.level, Some("INFO".to_string()));
}

#[test]
fn default_entry_is_empty() {
    let entry = LogEntry::default();
    assert_eq!(entry.container, None);
    assert_eq!(entry.timestamp, None);
    assert_eq!(entry.level, None);
    assert_eq!(entry.message, None);
    assert!(entry.extra_fields.is_empty());
}

#[test]
fn extra_field_finds_the_first_of_a_key() {
    let mut entry = LogEntry::default();
    entry.extra_fields = vec![
        ("a".to_string(), "1".to_string()),
        ("b".to_string(), "2".to_string()),
        ("a".to_string(), "3".to_string()),
    ];
    assert_eq!(entry.extra_field("a"), Some(&"1".to_string()));
    assert_eq!(entry.extra_field("b"), Some(&"2".to_string()));
    assert_eq!(entry.extra_field("c"), None);
}
