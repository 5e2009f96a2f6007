//! Console lines, file lines and their timestamps.
use flexi_logger::DeferredNow;
use tracing_estuary::fields::{EventMeta, FieldExtractor};
use tracing_estuary::fmt_layer::{event_record, CompactConsoleFormat};
use tracing_estuary::format::{
    cached_timestamp_prefix, console_format, console_line, file_format_with_level,
    file_format_without_level, file_line_with_level, file_line_without_level,
    level_filter_to_string, LogRecord, PrefixCache,
};
use tracing_estuary::level::{Level, LevelFilter};
use tracing_estuary::time::{micros_of, millis_of, now_micros, now_millis};

fn sample_record() -> LogRecord<'static> {
    LogRecord {
        level: Level::Info,
        target: "app",
        message: "hello world",
        module: Some("app_lib::feat"),
        file: Some("src/feat.rs"),
        line: Some(42),
    }
}

fn render_console(record: &LogRecord<'_>, color: bool) -> String {
    let mut now = DeferredNow::default();
    console_format(color, &mut now, Some("main"), record)
}

/// Strips ANSI escape sequences so shape assertions hold with and without
/// colour.
fn strip_ansi(input: &str) -> String {
    let mut out = String::new();
    let mut chars = input.chars();
    while let Some(ch) = chars.next() {
        if ch == '\u{1b}' {
            for c in chars.by_ref() {
                if c.is_ascii_alphabetic() {
                    break;
                }
            }
        } else {
            out.push(ch);
        }
    }
    out
}

#[test]
fn console_format_keeps_padded_level_module_thread_shape() {
    for color in [false, true] {
        let line = render_console(&sample_record(), color);
        let plain = strip_ansi(&line);
        assert!(plain.contains(" INFO  app_lib::feat:42 T{"), "{line:?}");
        assert!(plain.ends_with(" hello world"), "{line:?}");
        assert!(
            plain.as_bytes()[2] == b':' && plain.as_bytes()[5] == b':',
            "{line:?}"
        );
        assert!(plain.starts_with(|c: char| c.is_ascii_digit()), "{line:?}");
    }
}

#[test]
fn file_formats_keep_timestamp_brackets() {
    let mut cache = PrefixCache::new();
    let mut now = DeferredNow::default();
    let with_level = file_format_with_level(&mut cache, now_millis(), &mut now, &sample_record());
    let rest = with_level
        .strip_prefix('[')
        .and_then(|r| r.split_once("] "))
        .map(|(_, tail)| tail);
    assert_eq!(rest, Some("INFO hello world"), "{with_level:?}");
    assert_eq!(with_level.as_bytes()[20], b'.');

    let without_level =
        file_format_without_level(&mut cache, now_millis(), &mut now, &sample_record());
    assert!(
        without_level.ends_with("] hello world") && without_level.starts_with('['),
        "{without_level:?}"
    );
}

#[test]
fn cached_prefix_reuse_keeps_lines_identical_within_a_millisecond() {
    let mut cache = PrefixCache::new();
    let record = sample_record();
    let first =
        file_format_with_level(&mut cache, now_millis(), &mut DeferredNow::default(), &record);
    let second =
        file_format_with_level(&mut cache, now_millis(), &mut DeferredNow::default(), &record);
    assert_eq!(first.len(), second.len());
    assert!(first.ends_with("INFO hello world"), "{first:?}");

    // Under one millisecond the text is reused, whatever the clock says.
    let third = file_format_with_level(&mut cache, 7, &mut DeferredNow::default(), &record);
    for _ in 0..200_000 {
        assert!(now_millis() > 7);
    }
    let fourth = file_format_with_level(&mut cache, 7, &mut DeferredNow::default(), &record);
    assert_eq!(third, fourth);
}

#[test]
fn compact_console_format_renders_bridged_log_records() {
    let mut fields = FieldExtractor::full();
    fields.record_debug("message", &format!("[Setup] bridged message {}", 42));
    fields.record_str("log.target", "app");
    fields.record_str("log.module_path", "app_lib::app_init");
    fields.record_str("log.file", "src-tauri/src/lib.rs");
    fields.record_u64("log.line", 286);
    let meta = EventMeta {
        name: "log event",
        target: "log",
        level: Level::Info,
        module: None,
        file: None,
        line: None,
    };
    let format = CompactConsoleFormat { color: true };
    let text = format.format_event(&mut DeferredNow::default(), Some("main"), &fields, &meta);
    let plain = strip_ansi(&text);
    assert!(
        plain.contains(" INFO  app_lib::app_init:286 T{"),
        "unexpected stdout line: {text:?}"
    );
    assert!(
        plain.contains("[Setup] bridged message 42"),
        "unexpected stdout line: {text:?}"
    );
    assert!(plain.ends_with('\n'), "missing trailing newline: {text:?}");
}

#[test]
fn console_line_is_exact() {
    let record = sample_record();
    assert_eq!(
        console_line(false, "12:34:56.789", Some("main"), &record),
        "12:34:56.789 INFO  app_lib::feat:42 T{main} hello world"
    );
    let bare = LogRecord {
        level: Level::Warn,
        target: "app",
        message: "",
        module: None,
        file: None,
        line: None,
    };
    assert_eq!(
        console_line(false, "00:00:00.000", None, &bare),
        "00:00:00.000 WARN  <unnamed>:0 T{unnamed} "
    );
    assert_eq!(
        console_line(true, "12:34:56.789", Some("main"), &record),
        "\u{1b}[90m12:34:56.789\u{1b}[0m \u{1b}[32mINFO \u{1b}[0m \
         \u{1b}[35mapp_lib::feat:42\u{1b}[0m \u{1b}[36mT{main}\u{1b}[0m hello world"
    );
}

#[test]
fn colour_only_adds_escapes_on_every_level() {
    for level in [Level::Error, Level::Warn, Level::Info, Level::Debug, Level::Trace] {
        let record = LogRecord { level, ..sample_record() };
        let plain = console_line(false, "12:34:56.789", Some("main"), &record);
        let colored = console_line(true, "12:34:56.789", Some("main"), &record);
        assert_ne!(plain, colored);
        assert_eq!(strip_ansi(&colored), plain);
    }
}

#[test]
fn level_strings_are_padded_and_coloured() {
    let cases = [
        (LevelFilter::Off, "OFF", "\u{1b}[38;5;8mOFF\u{1b}[0m"),
        (LevelFilter::Error, "ERROR", "\u{1b}[31mERROR\u{1b}[0m"),
        (LevelFilter::Warn, "WARN ", "\u{1b}[33mWARN \u{1b}[0m"),
        (LevelFilter::Info, "INFO ", "\u{1b}[32mINFO \u{1b}[0m"),
        (LevelFilter::Debug, "DEBUG", "\u{1b}[34mDEBUG\u{1b}[0m"),
        (LevelFilter::Trace, "TRACE", "\u{1b}[35mTRACE\u{1b}[0m"),
    ];
    for (level, plain, colored) in cases {
        assert_eq!(level_filter_to_string(level, false), plain);
        assert_eq!(level_filter_to_string(level, true), colored);
    }
}

#[test]
fn file_lines_are_exact() {
    let record = sample_record();
    assert_eq!(file_line_with_level("[t] ", &record), "[t] INFO hello world");
    assert_eq!(file_line_without_level("[t] ", &record), "[t] hello world");
}

#[test]
fn prefix_is_kept_for_its_millisecond() {
    let mut cache = PrefixCache::new();
    cache.remember(5, "2024-02-29 23:59:60.007");
    let mut now = DeferredNow::default();
    assert_eq!(
        cached_timestamp_prefix(&mut cache, 5, &mut now),
        "[2024-02-29 23:59:60.007] "
    );
    let fresh = cached_timestamp_prefix(&mut cache, 6, &mut now);
    assert_ne!(fresh, "[2024-02-29 23:59:60.007] ");
    assert_eq!(fresh.len(), 26);
    for (at, c) in [(5, b'-'), (8, b'-'), (11, b' '), (14, b':'), (17, b':'), (20, b'.')] {
        assert_eq!(fresh.as_bytes()[at], c);
    }
    // Before the first line nothing is cached, whatever the clock reads.
    for millis in [i64::MIN, 0, i64::MAX] {
        let mut empty = PrefixCache::new();
        let first = cached_timestamp_prefix(&mut empty, millis, &mut now);
        assert_eq!(first.len(), 26);
        assert!(first.starts_with('[') && first.ends_with("] "));
        assert_eq!(cached_timestamp_prefix(&mut empty, millis, &mut now), first);
    }
    // A clock before the epoch tells no time: lines then carry the epoch.
    let mut empty = PrefixCache::new();
    assert_eq!(
        cached_timestamp_prefix(&mut empty, i64::MIN, &mut now),
        "[1970-01-01 00:00:00.000] "
    );
    assert_ne!(
        cached_timestamp_prefix(&mut empty, now_millis(), &mut now),
        "[1970-01-01 00:00:00.000] "
    );
}

#[test]
fn events_are_shown_with_their_own_origin_by_default() {
    let mut fields = FieldExtractor::message_and_target();
    fields.record_debug("count", "3");
    let meta = EventMeta {
        name: "event",
        target: "app",
        level: Level::Debug,
        module: Some("app::m"),
        file: Some("m.rs"),
        line: Some(9),
    };
    let record = event_record(&fields, &meta);
    assert_eq!(record.level, Level::Debug);
    assert_eq!(record.target, "app");
    assert_eq!(record.message, "count=3");
    assert_eq!(record.module, Some("app::m"));
    assert_eq!(record.file, Some("m.rs"));
    assert_eq!(record.line, Some(9));
    let silent = FieldExtractor::full();
    assert_eq!(event_record(&silent, &meta).message, "");
}

#[test]
fn clock_counts_from_the_epoch() {
    assert_eq!(micros_of(None), 0);
    assert_eq!(micros_of(Some((3, 7_999))), 3_000_007);
    assert_eq!(micros_of(Some((u64::MAX, 0))), 18_446_744_073_708_551_616);
    assert_eq!(millis_of(None), i64::MIN);
    assert_eq!(millis_of(Some((3, 7_999_999))), 3_007);
    assert_eq!(millis_of(Some((u64::MAX, 0))), -1000);
    // The year 2020 is behind us.
    assert!(now_micros() > 1_577_836_800_000_000);
    assert!(now_millis() > 1_577_836_800_000);
}

#[test]
fn lines_of_one_millisecond_share_their_prefix() {
    let mut cache = PrefixCache::new();
    let record = LogRecord {
        level: Level::Warn,
        message: "msg",
        ..sample_record()
    };
    let with = file_format_with_level(&mut cache, 9, &mut DeferredNow::default(), &record);
    let without = file_format_without_level(&mut cache, 9, &mut DeferredNow::default(), &record);
    let prefix = cached_timestamp_prefix(&mut cache, 9, &mut DeferredNow::default());
    assert_eq!(prefix.len(), 26);
    assert_eq!(with, format!("{prefix}WARN msg"));
    assert_eq!(without, format!("{prefix}msg"));
}
