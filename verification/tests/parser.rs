use json_log_parser::parser::{entry_from_json, extract_container_and_content, parse_log_content, JsonKind};

#[test]
fn test_extract_valid_container_line() {
    let line = "web-1 | Server started";
    let (container, content) = extract_container_and_content(line);
    assert_eq!(container, Some("web-1".to_string()));
    assert_eq!(content, "Server started");
}

#[test]
fn test_extract_no_container() {
    let line = "Just a regular log line";
    let (container, content) = extract_container_and_content(line);
    assert_eq!(container, None);
    assert_eq!(content, "Just a regular log line");
}

#[test]
fn test_extract_with_extra_pipes() {
    let line = "db-1 | SELECT * FROM users | WHERE id=1";
    let (container, content) = extract_container_and_content(line);
    assert_eq!(container, Some("db-1".to_string()));
    assert_eq!(content, "SELECT * FROM users | WHERE id=1");
}

#[test]
fn test_extract_empty_content() {
    let line = "worker-1 | ";
    let (container, content) = extract_container_and_content(line);
    assert_eq!(container, Some("worker-1".to_string()));
    assert_eq!(content, "");
}

#[test]
fn extract_takes_all_whitespace_around_the_pipe() {
    let (container, content) = extract_container_and_content("web-1   |  \t  hello  world ");
    assert_eq!(container, Some("web-1".to_string()));
    assert_eq!(content, "hello  world ");
}

#[test]
fn extract_needs_whitespace_on_both_sides_of_the_pipe() {
    assert_eq!(extract_container_and_content("web-1| hello"), (None, "web-1| hello"));
    assert_eq!(extract_container_and_content("web-1 |hello"), (None, "web-1 |hello"));
    assert_eq!(extract_container_and_content("web-1 |"), (None, "web-1 |"));
    assert_eq!(extract_container_and_content(" web-1 | hello"), (None, " web-1 | hello"));
    assert_eq!(extract_container_and_content(""), (None, ""));
    assert_eq!(extract_container_and_content("web-1 x | hello"), (None, "web-1 x | hello"));
}

#[test]
fn extract_rejects_line_feed_in_content() {
    assert_eq!(extract_container_and_content("a | b\nc"), (None, "a | b\nc"));
    let (container, content) = extract_container_and_content("a | \n");
    assert_eq!(container, Some("a".to_string()));
    assert_eq!(content, "");
}

#[test]
fn extract_knows_unicode_whitespace() {
    let (container, content) = extract_container_and_content("svc\u{3000}|\u{a0}héllo");
    assert_eq!(container, Some("svc".to_string()));
    assert_eq!(content, "héllo");
    let (container, content) = extract_container_and_content("café | ünïcode");
    assert_eq!(container, Some("café".to_string()));
    assert_eq!(content, "ünïcode");
}

#[test]
fn extract_reads_back_a_written_line() {
    for (name, content) in [("api-1", "started"), ("x", ""), ("db|1", "a | b"), ("ñ", "ü")] {
        let line = format!("{} | {}", name, content);
        let (c, t) = extract_container_and_content(&line);
        assert_eq!(c, Some(name.to_string()));
        assert_eq!(t, content);
    }
}

#[test]
fn parse_plain_text_is_message() {
    let entry = parse_log_content("Starting background job");
    assert_eq!(entry.message, Some("Starting background job".to_string()));
    assert_eq!(entry.level, None);
    assert_eq!(entry.timestamp, None);
    assert_eq!(entry.container, None);
    assert!(entry.extra_fields.is_empty());
}

#[test]
fn parse_json_object_fields() {
    let entry = parse_log_content(
        r#"{"level":"info","message":"Server started","timestamp":"2024-01-30T10:00:00Z","port":8080,"tag":"x"}"#,
    );
    assert_eq!(entry.level, Some("info".to_string()));
    assert_eq!(entry.message, Some("Server started".to_string()));
    assert_eq!(entry.timestamp, Some("2024-01-30T10:00:00Z".to_string()));
    assert_eq!(entry.extra_field("port"), Some(&"8080".to_string()));
    assert_eq!(entry.extra_field("tag"), Some(&"\"x\"".to_string()));
    assert_eq!(entry.extra_fields.len(), 2);
}

#[test]
fn parse_json_keys_ignore_case_and_alias() {
    let entry = parse_log_content(r#"{"LEVEL":"WARN","msg":"careful","Timestamp":"t0"}"#);
    assert_eq!(entry.level, Some("WARN".to_string()));
    assert_eq!(entry.message, Some("careful".to_string()));
    assert_eq!(entry.timestamp, Some("t0".to_string()));
    assert!(entry.extra_fields.is_empty());
}

#[test]
fn parse_json_non_string_usual_field_keeps_json_text() {
    let entry = parse_log_content(r#"{"level":30,"message":{"a":1}}"#);
    assert_eq!(entry.level, Some("30".to_string()));
    assert_eq!(entry.message, Some("{\"a\":1}".to_string()));
}

#[test]
fn parse_json_second_alias_goes_to_extra_fields() {
    // serde_json's map is ordered by key: "message" comes before "msg".
    let entry = parse_log_content(r#"{"msg":"second","message":"first"}"#);
    assert_eq!(entry.message, Some("first".to_string()));
    assert_eq!(entry.extra_field("msg"), Some(&"\"second\"".to_string()));
}

#[test]
fn parse_empty_json_object_has_no_fields() {
    let entry = parse_log_content("{}");
    assert_eq!(entry.message, None);
    assert_eq!(entry.level, None);
    assert_eq!(entry.timestamp, None);
    assert!(entry.extra_fields.is_empty());
}

#[test]
fn parse_json_arrays_and_primitives_are_plain_text() {
    for text in ["[1,2,3]", "\"string\"", "42", "{not json", "null"] {
        let entry = parse_log_content(text);
        assert_eq!(entry.message, Some(text.to_string()));
        assert!(entry.extra_fields.is_empty());
    }
}

#[test]
fn only_json_objects_are_read_into_fields() {
    for kind in [JsonKind::Null, JsonKind::Bool, JsonKind::Number, JsonKind::String, JsonKind::Array] {
        let entry = entry_from_json("raw", Some((kind, Vec::new())));
        assert_eq!(entry.message, Some("raw".to_string()));
        assert!(entry.extra_fields.is_empty());
    }
    let entry = entry_from_json("raw", None);
    assert_eq!(entry.message, Some("raw".to_string()));
    let fields = vec![
        ("Level".to_string(), Some("debug".to_string()), "\"debug\"".to_string()),
        ("n".to_string(), None, "1".to_string()),
    ];
    let entry = entry_from_json("raw", Some((JsonKind::Object, fields)));
    assert_eq!(entry.level, Some("debug".to_string()));
    assert_eq!(entry.message, None);
    assert_eq!(entry.extra_field("n"), Some(&"1".to_string()));
}
