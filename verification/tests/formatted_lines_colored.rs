use json_log_parser::color::{Color, ColoredText};
use json_log_parser::format_context::FormatContext;
use json_log_parser::formatter::{DefaultFormatter, LogFormat};
use json_log_parser::log_entry::LogEntry;

fn colors() {
    colored::control::set_override(true);
}

#[test]
fn colored_line_wraps_container_and_level_in_escapes() {
    colors();
    let mut e = LogEntry::default();
    e.container = Some("web-1".to_string());
    e.level = Some("error".to_string());
    e.message = Some("boom".to_string());
    let mut context = FormatContext::new();
    let out = DefaultFormatter::default().format(&e, &mut context);
    assert_eq!(out, "[\x1b[36mweb-1\x1b[0m] \x1b[91mERROR\x1b[0m: boom ");
}

#[test]
fn colored_container_is_padded_inside_the_escapes() {
    colors();
    let mut context = FormatContext::new();
    let formatter = DefaultFormatter::default();
    let mut a = LogEntry::default();
    a.container = Some("long-name".to_string());
    let mut b = LogEntry::default();
    b.container = Some("db".to_string());
    formatter.format(&a, &mut context);
    let out = formatter.format(&b, &mut context);
    assert_eq!(out, "[\x1b[32mdb       \x1b[0m]  ");
}

#[test]
fn colored_text_shows_its_color() {
    colors();
    let t = ColoredText { input: "hi".to_string(), color: Color::BrightYellow };
    assert_eq!(t.to_string(), "\x1b[93mhi\x1b[0m");
    assert_eq!(t.to_padded_string(4), "\x1b[93mhi  \x1b[0m");
    let w = ColoredText { input: "x".to_string(), color: Color::White };
    assert_eq!(w.to_string(), "\x1b[37mx\x1b[0m");
}
