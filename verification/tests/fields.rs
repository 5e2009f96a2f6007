//! What is extracted from events, and the text helpers.
use tracing_estuary::fields::FieldExtractor;
use tracing_estuary::text::{
    contains_char, decimal_text, join_texts, same_text, split_text, starts_with, trim,
};

#[test]
fn extra_fields_follow_the_message() {
    let mut fields = FieldExtractor::message_and_target();
    fields.record_debug("message", "started");
    fields.record_str("core", "mi\"homo");
    fields.record_u64("tries", 3);
    fields.record_debug("force", "true");
    assert_eq!(
        fields.message.as_deref(),
        Some("started core=\"mi\\\"homo\" tries=3 force=true")
    );
}

#[test]
fn extra_fields_stand_alone_without_a_message() {
    let mut fields = FieldExtractor::message_and_target();
    fields.record_u64("n", 10);
    assert_eq!(fields.message.as_deref(), Some("n=10"));
    // A message that comes later replaces what was gathered.
    fields.record_str("message", "m");
    assert_eq!(fields.message.as_deref(), Some("m"));
    fields.record_u64("message", u64::MAX);
    assert_eq!(fields.message.as_deref(), Some("18446744073709551615"));
}

#[test]
fn bridge_fields_leave_the_message_alone() {
    let mut fields = FieldExtractor::full();
    fields.record_debug("message", "m");
    fields.record_str("log.target", "app");
    fields.record_str("log.module_path", "app::m");
    fields.record_str("log.file", "m.rs");
    fields.record_u64("log.line", 12);
    assert_eq!(fields.message.as_deref(), Some("m"));
    assert!(fields.log_target.is_some());
    assert_eq!(fields.log_module_path.as_deref(), Some("app::m"));
    assert_eq!(fields.log_file.as_deref(), Some("m.rs"));
    assert_eq!(fields.log_line, Some(12));
    fields.record_u64("log.line", 1 << 32);
    assert_eq!(fields.log_line, None);
}

#[test]
fn the_origin_is_captured_only_on_request() {
    let mut fields = FieldExtractor::message_and_target();
    fields.record_str("log.target", "app");
    fields.record_str("log.module_path", "app::m");
    fields.record_str("log.file", "m.rs");
    fields.record_u64("log.line", 12);
    assert!(fields.log_target.is_some());
    assert!(fields.log_module_path.is_none());
    assert!(fields.log_file.is_none());
    assert_eq!(fields.log_line, None);
    assert!(fields.message.is_none());
}

#[test]
fn split_and_join_undo_each_other() {
    for text in ["", ",", "a", "a,b", ",a,,b,", "\u{e9},\u{1f600}"] {
        let parts = split_text(text, ',');
        let expected: Vec<&str> = text.split(',').collect();
        assert_eq!(parts, expected);
        assert_eq!(join_texts(&parts, ','), text);
    }
}

#[test]
fn text_helpers_agree_with_std() {
    for text in ["", " ", "\t a b\u{3000}", "\u{2009}x\u{200b} ", "\u{85}\u{1680}"] {
        assert_eq!(trim(text), text.trim());
        assert_eq!(contains_char(text, 'a'), text.contains('a'));
    }
    for c in (0u32..0x11_0000).filter_map(char::from_u32) {
        assert_eq!(tracing_estuary::text::is_white_space(c), c.is_whitespace());
    }
    assert!(starts_with("abc", "ab") && starts_with("abc", "") && !starts_with("ab", "abc"));
    assert!(same_text("a", "a") && !same_text("a", "b") && !same_text("a", "ab"));
    for n in [0, 7, 10, 99, 100, 12_345, u64::MAX] {
        assert_eq!(decimal_text(n), n.to_string());
    }
}
