//! Directives, the filters that they make, and swaps of the default level.
use std::sync::{Arc, Mutex};

use tracing::field::{Field, Visit};
use tracing::{Event, Subscriber};
use tracing_estuary::fields::FieldExtractor;
use tracing_estuary::filter::{
    bare_env_level, build_filter, build_filter_checked, compose_directives, default_env_level,
    is_readable, is_reserved, preserved_module_directives, sanitize_preserved, try_build_filter, FilterHandle,
    ReloadFailure,
};
use tracing_estuary::level::{level_name, LevelFilter};
use tracing_subscriber::layer::{Context, Layer, SubscriberExt as _};
use tracing_subscriber::registry::LookupSpan;
use tracing_subscriber::{reload, EnvFilter, Registry};

/// Hands the fields of an event to an extractor.
struct Extract<'a>(&'a mut FieldExtractor);

impl Visit for Extract<'_> {
    fn record_debug(&mut self, field: &Field, value: &dyn std::fmt::Debug) {
        self.0.record_debug(field.name(), &format!("{value:?}"));
    }

    fn record_str(&mut self, field: &Field, value: &str) {
        self.0.record_str(field.name(), value);
    }

    fn record_u64(&mut self, field: &Field, value: u64) {
        self.0.record_u64(field.name(), value);
    }
}

/// Records the metadata target and the bridged target of every event.
#[derive(Clone, Default)]
struct Recording(Arc<Mutex<Vec<(String, String)>>>);

impl Recording {
    fn count_target(&self, target: &str) -> usize {
        let events = self.0.lock().unwrap();
        events.iter().filter(|(t, _)| t == target).count()
    }

    fn count_bridged(&self, target: &str) -> usize {
        let events = self.0.lock().unwrap();
        events.iter().filter(|(_, t)| t == target).count()
    }

    fn total(&self) -> usize {
        self.0.lock().unwrap().len()
    }
}

impl<S> Layer<S> for Recording
where
    S: Subscriber + for<'a> LookupSpan<'a>,
{
    fn on_event(&self, event: &Event<'_>, _ctx: Context<'_, S>) {
        let mut fields = FieldExtractor::full();
        event.record(&mut Extract(&mut fields));
        let meta = tracing_estuary::fields::EventMeta {
            name: event.metadata().name(),
            target: event.metadata().target(),
            level: tracing_estuary::level::Level::Info,
            module: None,
            file: None,
            line: None,
        };
        let record = tracing_estuary::fmt_layer::event_record(&fields, &meta);
        self.0
            .lock()
            .unwrap()
            .push((event.metadata().target().to_owned(), record.target.to_owned()));
    }
}

fn emit(dispatch: &tracing::Dispatch, target: &str, level: log::Level) {
    let record = log::Record::builder()
        .level(level)
        .target(target)
        .build();
    tracing::dispatcher::with_default(dispatch, || {
        let _ = tracing_log::format_trace(&record);
    });
}

fn level_from_name(name: &str) -> log::Level {
    match name {
        "error" => log::Level::Error,
        "warn" => log::Level::Warn,
        "info" => log::Level::Info,
        "debug" => log::Level::Debug,
        _ => log::Level::Trace,
    }
}

/// A blocklist of prefixes with a carve-out, behind a level.
fn blocklist_decision(module: &str, level: &str) -> bool {
    let allows = level_from_name(level).to_level_filter() <= log::LevelFilter::Info;
    let excluded = module.starts_with("tauri_plugin_mihomo");
    let blocked = ["wry", "tokio_tungstenite", "tungstenite", "tauri"]
        .iter()
        .any(|b| module.starts_with(b));
    allows && (excluded || !blocked)
}

fn recorded(filter: EnvFilter) -> (tracing::Dispatch, Recording) {
    let recording = Recording::default();
    let dispatch = tracing::Dispatch::new(Registry::default().with(filter).with(recording.clone()));
    (dispatch, recording)
}

fn passes(filter: EnvFilter, target: &str, level: log::Level) -> bool {
    let (dispatch, recording) = recorded(filter);
    emit(&dispatch, target, level);
    recording.total() > 0
}

#[test]
fn bare_level_is_extracted_only_without_directives() {
    assert_eq!(bare_env_level(Some("trace")), Some(LevelFilter::Trace));
    assert_eq!(bare_env_level(Some(" TRACE ")), Some(LevelFilter::Trace));
    assert_eq!(bare_env_level(None), None);
    assert_eq!(bare_env_level(Some("app=trace,tauri=info")), None);
    assert_eq!(bare_env_level(Some("trace,debug")), None);
    assert_eq!(bare_env_level(Some("")), None);
}

#[test]
fn module_directives_preserve_order_and_drop_bare_tokens() {
    // " debug " is a bare level token, consumed as the default level.
    let preserved = preserved_module_directives(Some("app=trace, debug ,tauri=info"));
    assert_eq!(preserved, "app=trace,tauri=info");
    assert_eq!(preserved_module_directives(Some("warn")), "");
    assert_eq!(preserved_module_directives(None), "");
}

#[test]
fn blocklist_wins_over_user_directives_for_blocked_targets() {
    // tauri=info from RUST_LOG must not resurrect the blocked module.
    let filter = build_filter(
        LevelFilter::Info,
        &preserved_module_directives(Some("tauri=info")),
    );
    let directives = format!("{filter:?}");
    assert!(
        directives.contains("tauri=off") || !directives.contains("tauri=info"),
        "unexpected directives: {directives}"
    );
}

#[test]
fn env_filter_matches_legacy_module_filter() {
    let (dispatch, recording) = recorded(build_filter(LevelFilter::Info, ""));
    let cases: &[(&str, &str)] = &[
        ("tauri", "error"),
        ("tauri", "info"),
        ("tauri::app", "debug"),
        ("tauri_plugin_mihomo", "info"),
        ("tauri_plugin_mihomo::client", "warn"),
        ("wry", "error"),
        ("wry::event_loop", "info"),
        ("tungstenite", "error"),
        ("tokio_tungstenite::x", "info"),
        ("app", "info"),
        ("app_lib::feat", "debug"),
        ("sidecar", "warn"),
        ("some_app::core", "info"),
        ("serde_xml_rs", "error"),
    ];
    for (target, level) in cases {
        let expected = blocklist_decision(target, level);
        let before = recording.total();
        emit(&dispatch, target, level_from_name(level));
        let allowed = recording.total() > before;
        assert_eq!(
            expected, allowed,
            "filter divergence for target {target:?} at {level}"
        );
    }
}

#[test]
fn log_records_bridge_through_log_target_fields() {
    // Preserved RUST_LOG module directive: app=trace.
    let (dispatch, recording) = recorded(build_filter(LevelFilter::Info, "app=trace"));
    tracing::dispatcher::with_default(&dispatch, || {
        let allowed = log::Record::builder()
            .level(log::Level::Trace)
            .target("app")
            .file(Some("src/feat.rs"))
            .line(Some(42))
            .build();
        let _ = tracing_log::format_trace(&allowed);
        let blocked = log::Record::builder()
            .level(log::Level::Error)
            .target("wry::event_loop")
            .build();
        let _ = tracing_log::format_trace(&blocked);
        let spec_blocked = log::Record::builder()
            .level(log::Level::Trace)
            .target("serde_xml_rs")
            .build();
        let _ = tracing_log::format_trace(&spec_blocked);
    });
    // Log-bridged events surface with the static metadata target "log".
    assert_eq!(
        recording.count_target("log"),
        1,
        "only the app record passes both filter gates"
    );
    assert_eq!(recording.count_bridged("app"), 1);
}

#[test]
fn set_default_level_changes_filter_and_preserves_module_directives() {
    let (filter_layer, reload_handle) =
        reload::Layer::new(build_filter(LevelFilter::Info, "app=trace"));
    let filter_handle = FilterHandle::new(reload_handle, "app=trace");
    let recording = Recording::default();
    let dispatch = tracing::Dispatch::new(
        Registry::default()
            .with(filter_layer)
            .with(recording.clone()),
    );

    emit(&dispatch, "app", log::Level::Trace);
    assert_eq!(recording.count_bridged("app"), 1);

    if let Err(error) = filter_handle.set_default_level(LevelFilter::Error) {
        panic!("set_default_level failed: {error:?}");
    }

    emit(&dispatch, "app", log::Level::Error);
    emit(&dispatch, "app", log::Level::Trace); // preserved directive still applies
    emit(&dispatch, "serde_xml_rs", log::Level::Warn);
    emit(&dispatch, "serde_xml_rs", log::Level::Error);

    assert_eq!(
        recording.count_bridged("app"),
        3,
        "app keeps its trace directive after the level swap"
    );
    assert_eq!(recording.count_bridged("serde_xml_rs"), 1);
}

#[test]
fn level_names_are_lower_case() {
    assert_eq!(level_name(LevelFilter::Off), "off");
    assert_eq!(level_name(LevelFilter::Error), "error");
    assert_eq!(level_name(LevelFilter::Warn), "warn");
    assert_eq!(level_name(LevelFilter::Info), "info");
    assert_eq!(level_name(LevelFilter::Debug), "debug");
    assert_eq!(level_name(LevelFilter::Trace), "trace");
}

#[test]
fn every_level_name_is_a_bare_level() {
    assert_eq!(bare_env_level(Some("off")), Some(LevelFilter::Off));
    assert_eq!(bare_env_level(Some("Error\n")), Some(LevelFilter::Error));
    assert_eq!(bare_env_level(Some("\u{3000}wArN")), Some(LevelFilter::Warn));
    assert_eq!(bare_env_level(Some("INFO")), Some(LevelFilter::Info));
    assert_eq!(bare_env_level(Some("debug\u{a0}")), Some(LevelFilter::Debug));
    assert_eq!(bare_env_level(Some("debugs")), None);
    assert_eq!(bare_env_level(Some("\u{200b}info")), None);
}

#[test]
fn reserved_directives_are_dropped() {
    assert!(is_reserved("wry=info"));
    assert!(is_reserved("wry::event_loop=info"));
    assert!(is_reserved("tauri_plugin_mihomo=trace"));
    assert!(is_reserved("tauri_plugin_mihomo::client=trace"));
    assert!(is_reserved("wryly=info"));
    assert!(is_reserved("tauri_utils=trace"));
    assert!(is_reserved("wry:=info"));
    assert!(is_reserved("wry[span]=trace"));
    assert!(!is_reserved("tau=info"));
    assert!(!is_reserved("app=info"));
    assert_eq!(
        sanitize_preserved("app=trace,wry=info,tauri::x=debug,sidecar=warn"),
        "app=trace,sidecar=warn"
    );
    assert_eq!(sanitize_preserved("tungstenite=info"), "");
    assert_eq!(sanitize_preserved(""), "");
}

#[test]
fn directives_are_composed_in_order() {
    assert_eq!(
        compose_directives(LevelFilter::Warn, "app=trace,wry=info"),
        "app=trace,warn,wry=off,tokio_tungstenite=off,tungstenite=off,tauri=off,\
         tauri_plugin_mihomo=warn"
    );
    assert_eq!(
        compose_directives(LevelFilter::Off, ""),
        "off,wry=off,tokio_tungstenite=off,tungstenite=off,tauri=off,tauri_plugin_mihomo=off"
    );
}

#[test]
fn invalid_directives_are_all_dropped() {
    assert!(try_build_filter(LevelFilter::Info, "app=loud").is_err());
    let (filter, complaint) = build_filter_checked(LevelFilter::Info, "app=trace,db=loud");
    assert!(complaint.is_some());
    assert!(!passes(filter, "app", log::Level::Trace));
    let filter = build_filter(LevelFilter::Info, "app=trace,db=loud");
    assert!(passes(filter, "app", log::Level::Info));
    let (filter, complaint) = build_filter_checked(LevelFilter::Info, "app=trace");
    assert!(complaint.is_none());
    assert!(passes(filter, "app", log::Level::Trace));
}

#[test]
fn the_most_specific_directive_decides() {
    let text = "app=warn,app::db=trace,app=debug";
    assert!(passes(build_filter(LevelFilter::Error, text), "app", log::Level::Debug));
    assert!(!passes(build_filter(LevelFilter::Error, text), "app", log::Level::Trace));
    assert!(passes(build_filter(LevelFilter::Error, text), "app::db::x", log::Level::Trace));
    assert!(!passes(build_filter(LevelFilter::Error, text), "other", log::Level::Warn));
    assert!(passes(build_filter(LevelFilter::Error, "App-1=TRACE"), "App-1", log::Level::Trace));
}

#[test]
fn blocked_modules_stay_silent_whatever_is_preserved() {
    let preserved = preserved_module_directives(Some("wry::event_loop=trace,wry=trace,w=trace"));
    assert!(!passes(build_filter(LevelFilter::Trace, &preserved), "wry::event_loop", log::Level::Error));
    assert!(!passes(build_filter(LevelFilter::Trace, &preserved), "wry", log::Level::Error));
    assert!(!passes(build_filter(LevelFilter::Info, "wry:=info"), "wry::event_loop", log::Level::Info));
    for level in [log::Level::Error, log::Level::Info, log::Level::Trace] {
        assert!(!passes(build_filter(LevelFilter::Info, "tauri_utils=trace"), "tauri_utils", level));
        assert!(!passes(build_filter(LevelFilter::Info, ""), "tauri_utils", level));
    }
}

#[test]
fn the_carve_out_follows_the_default_level() {
    let target = "tauri_plugin_mihomo::client";
    let preserved = preserved_module_directives(Some("tauri_plugin_mihomo=trace"));
    assert!(!passes(build_filter(LevelFilter::Info, &preserved), target, log::Level::Debug));
    assert!(passes(build_filter(LevelFilter::Debug, &preserved), target, log::Level::Debug));
}

#[test]
fn kept_directives_are_kept_again() {
    let once = preserved_module_directives(Some(" a=info ,b, c = debug,=x"));
    assert_eq!(once, "a=info,c = debug,=x");
    assert_eq!(preserved_module_directives(Some(&once)), once);
}

#[test]
fn a_handle_outlives_its_subscriber() {
    let (filter_layer, reload_handle) = reload::Layer::new(build_filter(LevelFilter::Info, ""));
    let handle = FilterHandle::new(reload_handle, "");
    let copy = handle.clone();
    assert!(copy.set_default_level(LevelFilter::Warn).is_ok());
    drop(filter_layer);
    let failure = copy.set_default_level(LevelFilter::Warn).unwrap_err();
    assert_eq!(failure, ReloadFailure::SubscriberGone);
    assert_eq!(
        failure.message(),
        "failed to reload tracing filter: subscriber no longer exists"
    );
    assert_eq!(
        ReloadFailure::Poisoned.message(),
        "failed to reload tracing filter: lock poisoned"
    );
    assert!(handle.complaint(LevelFilter::Info).is_none());
}

#[test]
fn a_handle_tells_what_it_drops() {
    let (_layer, reload_handle) = reload::Layer::new(build_filter(LevelFilter::Info, ""));
    let handle = FilterHandle::new(reload_handle, "app=loud");
    assert!(handle.complaint(LevelFilter::Info).is_some());
    assert!(handle.set_default_level(LevelFilter::Debug).is_ok());
}

#[test]
fn readable_directives_begin_with_text_or_are_ascii() {
    assert!(is_readable(""));
    assert!(is_readable("a=info, b=info"));
    assert!(is_readable("caf\u{e9}=info"));
    assert!(!is_readable("a=info, caf\u{e9}=info"));
}

#[test]
fn the_blocklist_works_by_prefix() {
    let preserved = preserved_module_directives(Some("app=trace,tauri=trace"));
    assert!(!passes(build_filter(LevelFilter::Info, &preserved), "tauri_runtime", log::Level::Error));
    assert!(!passes(build_filter(LevelFilter::Trace, &preserved), "wryly", log::Level::Error));
    let target = "tauri_plugin_mihomo_extra";
    assert!(passes(build_filter(LevelFilter::Info, &preserved), target, log::Level::Info));
    assert!(!passes(build_filter(LevelFilter::Info, &preserved), target, log::Level::Debug));
    // Neither a longer nor a shorter directive goes before the blocklist's.
    assert!(!passes(build_filter(LevelFilter::Warn, "wryly=info"), "wryly", log::Level::Info));
    assert!(!passes(build_filter(LevelFilter::Warn, "wr=info"), "wryly", log::Level::Error));
    let carved = "tauri_plugin_mihomo_extra=trace,tauri_plugin=trace";
    assert!(!passes(build_filter(LevelFilter::Info, carved), target, log::Level::Debug));
}

#[test]
fn levels_may_be_numbers_or_left_out() {
    let filter = || build_filter(LevelFilter::Error, "app=3,db=,net=0,ui=5");
    assert!(passes(filter(), "app", log::Level::Info));
    assert!(!passes(filter(), "app", log::Level::Debug));
    assert!(passes(filter(), "db", log::Level::Trace));
    assert!(!passes(filter(), "net", log::Level::Error));
    assert!(passes(filter(), "ui", log::Level::Trace));
    assert!(try_build_filter(LevelFilter::Error, "app=6").is_err());
}

#[test]
fn a_bare_level_is_found_beside_module_directives() {
    assert_eq!(default_env_level(Some("app=trace, DEBUG ,tauri=info")), Some(LevelFilter::Debug));
    assert_eq!(default_env_level(Some(" warn ")), Some(LevelFilter::Warn));
    assert_eq!(default_env_level(Some("trace,debug")), None);
    assert_eq!(default_env_level(Some("app=trace")), None);
    assert_eq!(default_env_level(Some("app,off,")), Some(LevelFilter::Off));
    assert_eq!(default_env_level(Some("")), None);
    assert_eq!(default_env_level(None), None);
}

#[test]
fn a_bare_level_beside_module_directives_is_the_default_level() {
    let plan = tracing_estuary::PipelineBuilder::new()
        .default_level(LevelFilter::Warn)
        .assemble(Some("app=trace,debug"));
    assert_eq!(plan.default_level, LevelFilter::Debug);
    assert_eq!(plan.preserved, "app=trace");
    let (dispatch, recording) = recorded(plan.filter);
    emit(&dispatch, "other", log::Level::Debug);
    emit(&dispatch, "other", log::Level::Trace);
    emit(&dispatch, "app", log::Level::Trace);
    assert_eq!(recording.count_bridged("other"), 1);
    assert_eq!(recording.count_bridged("app"), 1);
}

#[test]
fn targets_may_hold_any_characters_but_those_that_end_them() {
    let filter = || build_filter(LevelFilter::Error, "app.core/x=debug,d\u{e9}j\u{e0} vu=info");
    assert!(passes(filter(), "app.core/x::y", log::Level::Debug));
    assert!(!passes(filter(), "app.core", log::Level::Debug));
    assert!(passes(filter(), "d\u{e9}j\u{e0} vu", log::Level::Info));
    assert!(!passes(filter(), "d\u{e9}j\u{e0}", log::Level::Info));
}
