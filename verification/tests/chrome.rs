//! The chrome trace and its JSON.
use tracing_estuary::chrome::{ChromeState, ENV_CHROME_TRACE, MAX_EVENTS};
use tracing_estuary::fields::{EventMeta, FieldExtractor};
use tracing_estuary::json::{escape_json_into, needs_escape, push_json_string, ObjectText};
use tracing_estuary::level::Level;

fn meta() -> EventMeta<'static> {
    EventMeta {
        name: "event src/a.rs:1",
        target: "app::core",
        level: Level::Warn,
        module: None,
        file: None,
        line: None,
    }
}

#[test]
fn escape_json_handles_specials() {
    let mut out = String::new();
    escape_json_into(&mut out, "a\"b\\c\nd\u{1}");
    assert_eq!(out, "a\\\"b\\\\c\\nd\\u0001");
}

#[test]
fn escape_json_keeps_the_rest() {
    let mut out = String::from("x");
    escape_json_into(&mut out, "plain \u{e9}\u{1f600}\u{7f}/");
    assert_eq!(out, "xplain \u{e9}\u{1f600}\u{7f}/");
    let mut out = String::new();
    escape_json_into(&mut out, "\r\t\u{0}\u{1f}\u{8}");
    assert_eq!(out, "\\r\\t\\u0000\\u001f\\u0008");
    assert!(needs_escape(b'"') && needs_escape(b'\\') && needs_escape(0x1f));
    assert!(!needs_escape(b' ') && !needs_escape(0x7f));
}

#[test]
fn objects_are_written_member_by_member() {
    assert_eq!(ObjectText::new().finish(), "{}");
    let mut object = ObjectText::new();
    object.add_text("a\"", "b");
    object.add_number("n", 0);
    object.add_number("m", u64::MAX);
    object.add_value("o", "[]");
    assert_eq!(
        object.finish(),
        "{\"a\\\"\":\"b\",\"n\":0,\"m\":18446744073709551615,\"o\":[]}"
    );
    let mut out = String::new();
    push_json_string(&mut out, "q\\");
    assert_eq!(out, "\"q\\\\\"");
}

#[test]
fn spans_are_recorded_when_they_close() {
    let mut state = ChromeState::new();
    state.on_new_span(9, "restart_core", "app\"x", 77, 1_000);
    assert_eq!(state.render(), "{\"traceEvents\":[]}");
    state.on_close(8, 2_000, 5);
    assert_eq!(state.render(), "{\"traceEvents\":[]}");
    state.on_close(9, 1_250, 5);
    let text = "{\"traceEvents\":[{\"ph\":\"X\",\"name\":\"restart_core\",\
                \"cat\":\"app\\\"x\",\"ts\":1000,\"dur\":250,\"pid\":5,\"tid\":1,\"args\":{}}]}";
    assert_eq!(state.render(), text);
    // It is closed now.
    state.on_close(9, 3_000, 5);
    assert_eq!(state.render(), text);
}

#[test]
fn a_clock_set_back_gives_no_duration() {
    let mut state = ChromeState::new();
    state.on_new_span(1, "s", "t", 1, 500);
    state.on_close(1, 499, 1);
    assert!(state.render().contains("\"ts\":500,\"dur\":0,"));
}

#[test]
fn events_are_recorded_as_instants() {
    let mut state = ChromeState::new();
    let fields = FieldExtractor::message_and_target();
    state.on_event(&fields, &meta(), 30, 7, 42);
    assert_eq!(
        state.render(),
        "{\"traceEvents\":[{\"ph\":\"i\",\"scope\":\"t\",\"name\":\"event src/a.rs:1\",\
         \"cat\":\"app::core\",\"level\":\"warn\",\"ts\":7,\"pid\":42,\"tid\":1,\"args\":{}}]}"
    );
    let mut fields = FieldExtractor::message_and_target();
    fields.record_debug("message", "span body\nevent");
    fields.record_str("log.target", "app");
    state.on_event(&fields, &meta(), 31, 8, 42);
    let text = state.render();
    assert!(text.contains("},{\"ph\":\"i\""));
    assert!(text.contains("\"name\":\"span body\\nevent\",\"cat\":\"app\""));
    assert!(text.contains("\"tid\":2"));
}

#[test]
fn threads_are_numbered_as_they_are_met() {
    let mut state = ChromeState::new();
    assert_eq!(state.tid(900), 1);
    assert_eq!(state.tid(3), 2);
    assert_eq!(state.tid(900), 1);
    assert_eq!(state.tid(u64::MAX), 3);
    assert_eq!(state.tid(3), 2);
}

#[test]
fn a_full_trace_says_that_it_is_truncated() {
    let mut state = ChromeState::new();
    for _ in 0..MAX_EVENTS {
        assert!(!state.push_event("0"));
    }
    let full = state.render();
    assert_eq!(full.len(), "{\"traceEvents\":[]}".len() + 2 * MAX_EVENTS - 1);
    assert!(full.ends_with("0,0]}"));
    // The first event that finds no room forces a spill, the next one does not.
    assert!(state.push_event("1"));
    assert!(!state.push_event("1"));
    assert!(!state.on_close(1, 0, 0));
    let text = state.render();
    assert!(!text.contains('1'));
    assert!(text.ends_with(
        "0,0],\"metadata\":{\"note\":\"tracing-estuary: event cap reached, trace truncated\"}}"
    ));
    assert_eq!(ENV_CHROME_TRACE, "CV_TRACE_CHROME");
}

#[test]
fn trace_holds_spans_and_what_happens_in_them() {
    let mut state = ChromeState::new();
    state.on_new_span(1, "restart_core", "app::core", 1, 10);
    let mut fields = FieldExtractor::message_and_target();
    fields.record_debug("message", "[Core] span body event");
    state.on_event(&fields, &meta(), 1, 11, 1);
    state.on_new_span(2, "update_config_with_force", "app_lib::core::manager::config", 1, 12);
    state.on_close(2, 13, 1);
    state.on_close(1, 14, 1);
    let content = state.render();
    assert!(content.starts_with("{\"traceEvents\":["));
    assert!(content.contains("\"ph\":\"X\""), "span complete event missing");
    assert!(content.contains("\"ph\":\"i\""), "instant event missing");
    assert!(content.contains("restart_core"));
    assert!(content.contains("span body event"));
    assert!(content.contains("\"name\":\"update_config_with_force\""));
    assert!(content.ends_with('}'), "unterminated trace json");
}
