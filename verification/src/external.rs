//! What the library takes from outside crates, with the contracts that it
//! relies on.
use vstd::prelude::*;

use crate::directive::{admitted, all_plain, plain_directive, readable};
use crate::filter::ReloadFailure;
use crate::format::{clock_shape, painted, stamp_shape, Paint};
use crate::level::{level_of, Level, LevelFilter};
use crate::sink::SendOutcome;
use crate::text::split;

verus! {

/// `tracing_subscriber::EnvFilter`: a set of filter directives.
#[verifier::external_type_specification]
#[verifier::external_body]
pub struct ExEnvFilter(tracing_subscriber::EnvFilter);

/// `tracing_subscriber::filter::ParseError`: why a directive was not understood.
#[verifier::external_type_specification]
#[verifier::external_body]
pub struct ExParseError(tracing_subscriber::filter::ParseError);

/// `tracing_subscriber::Registry`: the subscriber at the bottom of the stack.
#[verifier::external_type_specification]
#[verifier::external_body]
pub struct ExRegistry(tracing_subscriber::Registry);

/// `tracing_subscriber::reload::Handle`: replaces a layer of a live subscriber.
#[verifier::external_type_specification]
#[verifier::external_body]
#[verifier::reject_recursive_types(L)]
#[verifier::reject_recursive_types(S)]
pub struct ExReloadHandle<L, S>(tracing_subscriber::reload::Handle<L, S>);

/// `reload::Handle::clone`: another handle on the same layer.
pub assume_specification<L, S>[ <tracing_subscriber::reload::Handle<L, S> as Clone>::clone ](
    handle: &tracing_subscriber::reload::Handle<L, S>,
) -> (res: tracing_subscriber::reload::Handle<L, S>)
    ensures
        res == *handle,
;

/// `flexi_logger::writers::FileLogWriterBuilder`: the configuration of a
/// rotating log file.
#[verifier::external_type_specification]
#[verifier::external_body]
pub struct ExFileLogWriterBuilder(flexi_logger::writers::FileLogWriterBuilder);

/// `flexi_logger::DeferredNow`: a timestamp that is taken when it is first asked
/// for.
#[verifier::external_type_specification]
#[verifier::external_body]
pub struct ExDeferredNow(flexi_logger::DeferredNow);

/// `std::sync::mpsc::SyncSender`: the sending half of a bounded channel.
#[verifier::external_type_specification]
#[verifier::external_body]
#[verifier::reject_recursive_types(T)]
pub struct ExSyncSender<T>(std::sync::mpsc::SyncSender<T>);

/// A `compact_str::CompactString`, which keeps short text inline.
#[verifier::external_body]
pub struct CompactText {
    inner: compact_str::CompactString,
}

/// The characters that a `CompactString` holds.
pub uninterp spec fn compact_text(s: CompactText) -> Seq<char>;

/// `CompactString::from(&str)`: holds the characters of the argument.
#[verifier::external_body]
pub(crate) fn compact_from(text: &str) -> (res: CompactText)
    ensures
        compact_text(res) == text@,
{
    CompactText { inner: compact_str::CompactString::from(text) }
}

/// `CompactString::as_str`: the characters that the string holds.
#[verifier::external_body]
pub(crate) fn compact_as_str(s: &CompactText) -> (res: &str)
    ensures
        res@ == compact_text(*s),
{
    s.inner.as_str()
}

/// How std's `Debug` renders a text: in quotes, with escapes.
pub uninterp spec fn quoted(text: Seq<char>) -> Seq<char>;

/// `Debug` of `str`, through `format!`: its result is a function of the text.
#[verifier::external_body]
pub(crate) fn debug_text(text: &str) -> (res: String)
    ensures
        res@ == quoted(text@),
{
    format!("{text:?}")
}

/// `str::parse` into `log::LevelFilter`: the level whose name equals the text
/// when the case of ASCII letters is disregarded, and an error where there is
/// none.
#[verifier::external_body]
pub(crate) fn parse_level_filter(text: &str) -> (res: Option<LevelFilter>)
    ensures
        res == level_of(text@),
{
    match text.parse::<log::LevelFilter>() {
        Ok(log::LevelFilter::Off) => Some(LevelFilter::Off),
        Ok(log::LevelFilter::Error) => Some(LevelFilter::Error),
        Ok(log::LevelFilter::Warn) => Some(LevelFilter::Warn),
        Ok(log::LevelFilter::Info) => Some(LevelFilter::Info),
        Ok(log::LevelFilter::Debug) => Some(LevelFilter::Debug),
        Ok(log::LevelFilter::Trace) => Some(LevelFilter::Trace),
        Err(_) => None,
    }
}

/// What `EnvFilter::try_new` makes of a text of comma-separated directives.
pub uninterp spec fn parsed_filter(directives: Seq<char>) -> Result<
    tracing_subscriber::EnvFilter,
    tracing_subscriber::filter::ParseError,
>;

/// The events, by target and level, that an `EnvFilter` without span and field
/// directives lets through.
pub uninterp spec fn lets_through(filter: tracing_subscriber::EnvFilter) -> Set<
    (Seq<char>, Level),
>;

/// Whether `EnvFilter` understands a directive: it passes over an empty one, it
/// takes every plain one, and any other one as if it stood alone.
pub open spec fn understood(directive: Seq<char>) -> bool {
    directive.len() == 0 || plain_directive(directive) || parsed_filter(directive) is Ok
}

/// Whether `EnvFilter` understands every directive of a list.
pub open spec fn all_understood(list: Seq<Seq<char>>) -> bool {
    forall|i: int| 0 <= i < list.len() ==> understood(#[trigger] list[i])
}

/// `EnvFilter::try_new`: a filter built from the comma-separated directives of
/// the text, or an error; which of them, and what it holds, depends on the text
/// alone. Each directive is judged by itself: an empty one is passed over, a
/// plain one is never an error. A filter of nothing but plain directives lets an
/// event through if the most specific directive that applies to its target, the
/// last of equals, sets a level that the event passes. What filters with other
/// directives let through is not stated: it depends on the spans that are open.
#[verifier::external_body]
pub(crate) fn env_filter_try_new(directives: &str) -> (res: Result<
    tracing_subscriber::EnvFilter,
    tracing_subscriber::filter::ParseError,
>)
    requires
        readable(directives@),
    ensures
        res == parsed_filter(directives@),
        res is Ok <==> all_understood(split(directives@, ',')),
        res matches Ok(filter) ==> all_plain(split(directives@, ',')) ==> lets_through(filter)
            == admitted(split(directives@, ',')),
{
    tracing_subscriber::EnvFilter::try_new(directives)
}

/// `reload::Handle::reload`: puts the filter in the place of the one that the
/// subscriber holds. It fails where the subscriber is gone. Where a panic has
/// poisoned the subscriber's lock it fails on a thread that is unwinding, and
/// panics on any other one. Which of these holds is the subscriber's state, which
/// no argument tells, so nothing is claimed of the result.
#[verifier::external_body]
pub(crate) fn reload_filter(
    handle: &tracing_subscriber::reload::Handle<
        tracing_subscriber::EnvFilter,
        tracing_subscriber::Registry,
    >,
    filter: tracing_subscriber::EnvFilter,
) -> (res: Result<(), ReloadFailure>) {
    match handle.reload(filter) {
        Ok(()) => Ok(()),
        Err(error) if error.is_dropped() => Err(ReloadFailure::SubscriberGone),
        Err(_) => Err(ReloadFailure::Poisoned),
    }
}

/// `SystemTime::elapsed` of `UNIX_EPOCH`: the time since the epoch in whole
/// seconds and the nanoseconds beyond them, which are less than a second; none
/// where the clock stands before the epoch.
#[verifier::external_body]
pub(crate) fn elapsed_since_epoch() -> (res: Option<(u64, u32)>)
    ensures
        res matches Some(time) ==> time.1 < 1_000_000_000,
{
    match std::time::UNIX_EPOCH.elapsed() {
        Ok(time) => Some((time.as_secs(), time.subsec_nanos())),
        Err(_) => None,
    }
}

/// `DeferredNow::format`, written to a string: the local time in the given form.
/// The time itself is the clock's; what is claimed is the shape of the text. Years
/// of more than four digits, and those before the year 0, carry a sign. It panics
/// where `now` has not taken its time yet and the clock stands before the epoch,
/// which no argument tells.
#[verifier::external_body]
pub(crate) fn format_now(now: &mut flexi_logger::DeferredNow, form: &str) -> (res: String)
    requires
        form@ == "%H:%M:%S%.3f"@ || form@ == "%Y-%m-%d %H:%M:%S%.3f"@,
    ensures
        form@ == "%H:%M:%S%.3f"@ ==> clock_shape(res@),
        form@ == "%Y-%m-%d %H:%M:%S%.3f"@ ==> stamp_shape(res@),
{
    now.format(form).to_string()
}

/// `nu_ansi_term::Color::paint`, written to a string: the text between the escape
/// sequence that selects the colour and the one that resets it.
#[verifier::external_body]
pub(crate) fn paint_text(paint: Paint, text: &str) -> (res: String)
    ensures
        res@ == painted(paint, text@),
{
    let color = match paint {
        Paint::Grey => nu_ansi_term::Color::Fixed(8),
        Paint::Red => nu_ansi_term::Color::Red,
        Paint::Yellow => nu_ansi_term::Color::Yellow,
        Paint::Green => nu_ansi_term::Color::Green,
        Paint::Blue => nu_ansi_term::Color::Blue,
        Paint::Purple => nu_ansi_term::Color::Purple,
        Paint::Cyan => nu_ansi_term::Color::Cyan,
        Paint::DarkGray => nu_ansi_term::Color::DarkGray,
    };
    color.paint(text).to_string()
}

/// `SyncSender::try_send`: hands the message to the channel, or gives it back at
/// once where the channel is full or nobody receives any more. Which of these
/// happens depends on what other threads do, so only what comes back is claimed.
#[verifier::external_body]
pub(crate) fn try_send<T>(tx: &std::sync::mpsc::SyncSender<T>, msg: T) -> (res: SendOutcome<T>)
    ensures
        match res {
            SendOutcome::Sent => true,
            SendOutcome::Full(back) => back == msg,
            SendOutcome::Disconnected(back) => back == msg,
        },
{
    match tx.try_send(msg) {
        Ok(()) => SendOutcome::Sent,
        Err(std::sync::mpsc::TrySendError::Full(back)) => SendOutcome::Full(back),
        Err(std::sync::mpsc::TrySendError::Disconnected(back)) => SendOutcome::Disconnected(back),
    }
}

} // verus!
