//! Log line formats: the console line, the file lines, and the timestamp prefix
//! that file lines share within a millisecond.
use vstd::prelude::*;

use crate::external::{format_now, paint_text};
use crate::fields::str_text;
use crate::level::{Level, LevelFilter};
use crate::text::{decimal, push_decimal};
use flexi_logger::DeferredNow;

verus! {

/// What a log line shows of a record.
pub struct LogRecord<'a> {
    pub level: Level,
    pub target: &'a str,
    pub message: &'a str,
    pub module: Option<&'a str>,
    pub file: Option<&'a str>,
    pub line: Option<u32>,
}

/// The colours of the console line.
#[derive(Clone, Copy, Debug, PartialEq, Eq, Structural)]
pub enum Paint {
    Grey,
    Red,
    Yellow,
    Green,
    Blue,
    Purple,
    Cyan,
    DarkGray,
}

impl Paint {
    /// The number that selects the colour.
    pub open spec fn code(self) -> Seq<char> {
        match self {
            Paint::Grey => "38;5;8"@,
            Paint::Red => "31"@,
            Paint::Yellow => "33"@,
            Paint::Green => "32"@,
            Paint::Blue => "34"@,
            Paint::Purple => "35"@,
            Paint::Cyan => "36"@,
            Paint::DarkGray => "90"@,
        }
    }
}

/// The character that begins an escape sequence.
pub const ESCAPE: char = '\u{1b}';

/// The escape sequence with the given number.
pub open spec fn escape_sequence(code: Seq<char>) -> Seq<char> {
    seq![ESCAPE, '['] + code + seq!['m']
}

/// `text` in a colour.
pub open spec fn painted(paint: Paint, text: Seq<char>) -> Seq<char> {
    escape_sequence(paint.code()) + text + escape_sequence("0"@)
}

/// `text`, in a colour if `color` is set.
pub open spec fn styled(color: bool, paint: Paint, text: Seq<char>) -> Seq<char> {
    if color {
        painted(paint, text)
    } else {
        text
    }
}

pub open spec fn is_digit(c: char) -> bool {
    '0' <= c <= '9'
}

/// `HH:MM:SS.mmm`.
pub open spec fn clock_shape(s: Seq<char>) -> bool {
    &&& s.len() == 12
    &&& is_digit(s[0]) && is_digit(s[1]) && s[2] == ':'
    &&& is_digit(s[3]) && is_digit(s[4]) && s[5] == ':'
    &&& is_digit(s[6]) && is_digit(s[7]) && s[8] == '.'
    &&& is_digit(s[9]) && is_digit(s[10]) && is_digit(s[11])
}

/// `YYYY`, or a sign and four digits or more.
pub open spec fn year_shape(s: Seq<char>) -> bool {
    &&& (s.len() == 4 && is_digit(s[0])) || (s.len() > 4 && (s[0] == '+' || s[0] == '-'))
    &&& forall|i: int| 1 <= i < s.len() ==> is_digit(#[trigger] s[i])
}

/// `-MM-DD `, between the year and the clock.
pub open spec fn month_and_day_shape(s: Seq<char>) -> bool {
    &&& s.len() == 7
    &&& s[0] == '-' && is_digit(s[1]) && is_digit(s[2])
    &&& s[3] == '-' && is_digit(s[4]) && is_digit(s[5])
    &&& s[6] == ' '
}

/// `YYYY-MM-DD HH:MM:SS.mmm`.
pub open spec fn stamp_shape(s: Seq<char>) -> bool {
    let n = s.len() as int;
    &&& n >= 23
    &&& year_shape(s.subrange(0, n - 19))
    &&& month_and_day_shape(s.subrange(n - 19, n - 12))
    &&& clock_shape(s.subrange(n - 12, n))
}

/// The upper-case name of a filter level, padded to the width of the longest
/// level name.
pub open spec fn padded(level: LevelFilter) -> Seq<char> {
    match level {
        LevelFilter::Off => "OFF"@,
        LevelFilter::Error => "ERROR"@,
        LevelFilter::Warn => "WARN "@,
        LevelFilter::Info => "INFO "@,
        LevelFilter::Debug => "DEBUG"@,
        LevelFilter::Trace => "TRACE"@,
    }
}

/// The colour of a filter level.
pub open spec fn level_paint(level: LevelFilter) -> Paint {
    match level {
        LevelFilter::Off => Paint::Grey,
        LevelFilter::Error => Paint::Red,
        LevelFilter::Warn => Paint::Yellow,
        LevelFilter::Info => Paint::Green,
        LevelFilter::Debug => Paint::Blue,
        LevelFilter::Trace => Paint::Purple,
    }
}

/// `module:line`; a record without a module is `<unnamed>`, one without a line
/// stands on line 0.
pub open spec fn module_and_line(module: Option<Seq<char>>, line: Option<u32>) -> Seq<char> {
    (match module {
        Some(module) => module,
        None => "<unnamed>"@,
    }).push(':') + decimal(
        match line {
            Some(line) => line as nat,
            None => 0,
        },
    )
}

/// `T{thread}`; a thread without a name is `unnamed`.
pub open spec fn thread_label(thread_name: Option<Seq<char>>) -> Seq<char> {
    seq!['T', '{'] + (match thread_name {
        Some(name) => name,
        None => "unnamed"@,
    }) + seq!['}']
}

/// The console line: `HH:MM:SS.mmm LEVEL module:line T{thread} message`.
pub open spec fn console_text(
    color: bool,
    clock: Seq<char>,
    thread_name: Option<Seq<char>>,
    record: LogRecord<'_>,
) -> Seq<char> {
    let level = record.level.filter();
    styled(color, Paint::DarkGray, clock) + seq![' '] + styled(
        color,
        level_paint(level),
        padded(level),
    ) + seq![' '] + styled(
        color,
        Paint::Purple,
        module_and_line(str_text(record.module), record.line),
    ) + seq![' '] + styled(color, Paint::Cyan, thread_label(thread_name)) + seq![' ']
        + record.message@
}

/// `text`, in a colour if `color` is set.
fn style(color: bool, paint: Paint, text: String) -> (res: String)
    ensures
        res@ == styled(color, paint, text@),
{
    if color {
        paint_text(paint, text.as_str())
    } else {
        text
    }
}

/// The padded name of a filter level, in its colour if `color` is set.
pub fn level_filter_to_string(level: LevelFilter, color: bool) -> (res: String)
    ensures
        res@ == styled(color, level_paint(level), padded(level)),
{
    match level {
        LevelFilter::Off => style(color, Paint::Grey, "OFF".to_owned()),
        LevelFilter::Error => style(color, Paint::Red, "ERROR".to_owned()),
        LevelFilter::Warn => style(color, Paint::Yellow, "WARN ".to_owned()),
        LevelFilter::Info => style(color, Paint::Green, "INFO ".to_owned()),
        LevelFilter::Debug => style(color, Paint::Blue, "DEBUG".to_owned()),
        LevelFilter::Trace => style(color, Paint::Purple, "TRACE".to_owned()),
    }
}

/// The console line of a record, at the time `clock`.
pub fn console_line(
    color: bool,
    clock: &str,
    thread_name: Option<&str>,
    record: &LogRecord<'_>,
) -> (res: String)
    ensures
        res@ == console_text(color, clock@, str_text(thread_name), *record),
{
    let thread_name = match thread_name {
        Some(name) => name,
        None => "unnamed",
    };
    let level = level_filter_to_string(record.level.to_level_filter(), color);
    let clock = style(color, Paint::DarkGray, clock.to_owned());
    let line: u32 = match record.line {
        Some(line) => line,
        None => 0,
    };
    let module = match record.module {
        Some(module) => module,
        None => "<unnamed>",
    };
    let mut module_line = module.to_owned();
    module_line.push(':');
    push_decimal(&mut module_line, line as u64);
    let module_line = style(color, Paint::Purple, module_line);
    let mut label = String::new();
    label.push('T');
    label.push('{');
    label.append(thread_name);
    label.push('}');
    assert(label@ =~= thread_label(Some(thread_name@)));
    let label = style(color, Paint::Cyan, label);
    let mut text = clock;
    text.push(' ');
    text.append(level.as_str());
    text.push(' ');
    text.append(module_line.as_str());
    text.push(' ');
    text.append(label.as_str());
    text.push(' ');
    text.append(record.message);
    text
}

/// Whether `now`, asked for the time in the given form, may have told `text`.
pub closed spec fn told(now: DeferredNow, form: &str, text: String) -> bool {
    exists|asked: &mut DeferredNow|
        *asked == now && #[trigger] call_ensures(format_now, (asked, form), text)
}

/// What is told is a time in the form that was asked for.
pub proof fn told_times_have_their_form(now: DeferredNow, text: String)
    ensures
        told(now, "%H:%M:%S%.3f", text) ==> clock_shape(text@),
        told(now, "%Y-%m-%d %H:%M:%S%.3f", text) ==> stamp_shape(text@),
{
}

/// What `tell` tells when `now` is asked for the time in the given form.
fn telling_of<F: FnOnce(&mut DeferredNow, &str) -> String>(
    tell: F,
    now: &mut DeferredNow,
    form: &str,
) -> (text: String)
    requires
        forall|asked: &mut DeferredNow| #[trigger] tell.requires((asked, form)),
    ensures
        exists|asked: &mut DeferredNow|
            *asked == *old(now) && #[trigger] tell.ensures((asked, form), text),
{
    tell(now, form)
}

/// The console line of a record, now.
pub fn console_format(
    color: bool,
    now: &mut DeferredNow,
    thread_name: Option<&str>,
    record: &LogRecord<'_>,
) -> (res: String)
    ensures
        exists|clock: String|
            #[trigger] told(*old(now), "%H:%M:%S%.3f", clock) && clock_shape(clock@) && res@
                == console_text(color, clock@, str_text(thread_name), *record),
{
    let clock = telling_of(format_now, now, "%H:%M:%S%.3f");
    assert(told(*old(now), "%H:%M:%S%.3f", clock));
    console_line(color, clock.as_str(), thread_name, record)
}

/// `[stamp] `, the beginning of a file line.
pub open spec fn bracketed(stamp: Seq<char>) -> Seq<char> {
    seq!['['] + stamp + seq![']', ' ']
}

/// Whether `prefix` is the beginning of a file line at some time.
pub open spec fn is_prefix(prefix: Seq<char>) -> bool {
    exists|stamp: Seq<char>| stamp_shape(stamp) && prefix == #[trigger] bracketed(stamp)
}

/// Whether `prefix` is the beginning of a file line at a time that `now` told.
pub open spec fn fresh_prefix(now: DeferredNow, prefix: Seq<char>) -> bool {
    exists|stamp: String|
        #[trigger] told(now, "%Y-%m-%d %H:%M:%S%.3f", stamp) && stamp_shape(stamp@) && prefix
            == bracketed(stamp@)
}

/// The beginning of the file lines of one millisecond.
///
/// Within a millisecond the text is reused as it stands, which spares the
/// conversion to local time.
pub struct PrefixCache {
    millis: i64,
    text: String,
    filled: bool,
}

impl PrefixCache {
    /// The millisecond that the text was made in, and the beginning of the file
    /// lines; nothing before the first line.
    pub closed spec fn cached(&self) -> Option<(i64, Seq<char>)> {
        if self.filled {
            Some((self.millis, self.text@))
        } else {
            None
        }
    }

    #[verifier::type_invariant]
    spec fn holds_prefix(self) -> bool {
        self.filled ==> is_prefix(self.text@)
    }

    /// Nothing cached.
    pub fn new() -> (res: Self)
        ensures
            res.cached() is None,
    {
        PrefixCache { millis: 0, text: String::new(), filled: false }
    }

    /// Keeps `stamp` for the millisecond `millis`.
    pub fn remember(&mut self, millis: i64, stamp: &str)
        requires
            stamp_shape(stamp@),
        ensures
            final(self).cached() == Some((millis, bracketed(stamp@))),
    {
        let mut text = String::new();
        text.push('[');
        text.append(stamp);
        text.push(']');
        text.push(' ');
        assert(text@ =~= bracketed(stamp@));
        *self = PrefixCache { millis, text, filled: true };
    }
}

/// The timestamp of lines that are made before the first time that could be told:
/// a clock before the epoch tells none.
pub const EPOCH_STAMP: &'static str = "1970-01-01 00:00:00.000";

/// Whether a line that is made in the millisecond `millis` asks for the time: not
/// where the cached beginning was made in the same millisecond, and not where
/// nothing is cached and the clock stands before the epoch.
pub open spec fn asks_for_time(cached: Option<(i64, Seq<char>)>, millis: i64) -> bool {
    match cached {
        Some((made, _)) => made != millis,
        None => millis != i64::MIN,
    }
}

/// Whether a line that is made in the millisecond `millis` may begin with
/// `prefix`, given what was cached and the time that `now` tells: with a new
/// beginning if it asks for the time, else with the cached one, or with the epoch
/// where there is none.
pub open spec fn begins_with(
    cached: Option<(i64, Seq<char>)>,
    now: DeferredNow,
    millis: i64,
    prefix: Seq<char>,
) -> bool {
    &&& is_prefix(prefix)
    &&& if asks_for_time(cached, millis) {
        fresh_prefix(now, prefix)
    } else {
        prefix == match cached {
            Some((_, text)) => text,
            None => bracketed(EPOCH_STAMP@),
        }
    }
}

/// The epoch is a timestamp.
proof fn lemma_epoch_stamp()
    ensures
        stamp_shape(EPOCH_STAMP@),
{
    reveal_strlit("1970-01-01 00:00:00.000");
}

/// The beginning of a file line: that of the last line if it was made in the same
/// millisecond, else a new one, which is kept.
///
/// `millis` is the least number where the clock stands before the epoch. `now`
/// could not take its time then, so the first line does not ask for it.
pub fn cached_timestamp_prefix(cache: &mut PrefixCache, millis: i64, now: &mut DeferredNow) -> (res:
    String)
    ensures
        begins_with(old(cache).cached(), *old(now), millis, res@),
        final(cache).cached() == Some((millis, res@)),
        !asks_for_time(old(cache).cached(), millis) ==> *final(now) == *old(now),
{
    proof {
        use_type_invariant(&*cache);
    }
    if !cache.filled && millis == i64::MIN {
        proof {
            lemma_epoch_stamp();
        }
        cache.remember(millis, EPOCH_STAMP);
        assert(cache.text@ == bracketed(EPOCH_STAMP@));
    } else if !cache.filled || cache.millis != millis {
        let stamp = telling_of(format_now, now, "%Y-%m-%d %H:%M:%S%.3f");
        cache.remember(millis, stamp.as_str());
        assert(told(*old(now), "%Y-%m-%d %H:%M:%S%.3f", stamp));
        assert(cache.text@ == bracketed(stamp@));
    }
    cache.text.clone()
}

/// A file line with the level, behind its beginning.
pub open spec fn leveled_line(prefix: Seq<char>, record: LogRecord<'_>) -> Seq<char> {
    prefix + record.level.upper() + seq![' '] + record.message@
}

/// A file line without the level, behind its beginning.
pub open spec fn plain_line(prefix: Seq<char>, record: LogRecord<'_>) -> Seq<char> {
    prefix + record.message@
}

/// A file line: its beginning, the level and the message.
pub fn file_line_with_level(prefix: &str, record: &LogRecord<'_>) -> (res: String)
    ensures
        res@ == leveled_line(prefix@, *record),
{
    let mut text = prefix.to_owned();
    text.append(record.level.as_str());
    text.push(' ');
    text.append(record.message);
    assert(text@ =~= leveled_line(prefix@, *record));
    text
}

/// A file line: its beginning and the message.
pub fn file_line_without_level(prefix: &str, record: &LogRecord<'_>) -> (res: String)
    ensures
        res@ == plain_line(prefix@, *record),
{
    prefix.to_owned().concat(record.message)
}

/// File line format: `[YYYY-MM-DD HH:MM:SS.mmm] LEVEL message`.
pub fn file_format_with_level(
    cache: &mut PrefixCache,
    millis: i64,
    now: &mut DeferredNow,
    record: &LogRecord<'_>,
) -> (res: String)
    ensures
        exists|prefix: Seq<char>|
            #[trigger] begins_with(old(cache).cached(), *old(now), millis, prefix)
                && final(cache).cached() == Some((millis, prefix)) && res@ == leveled_line(prefix, *record),
        !asks_for_time(old(cache).cached(), millis) ==> *final(now) == *old(now),
{
    let prefix = cached_timestamp_prefix(cache, millis, now);
    file_line_with_level(prefix.as_str(), record)
}

/// File line format without the level: `[YYYY-MM-DD HH:MM:SS.mmm] message`.
pub fn file_format_without_level(
    cache: &mut PrefixCache,
    millis: i64,
    now: &mut DeferredNow,
    record: &LogRecord<'_>,
) -> (res: String)
    ensures
        exists|prefix: Seq<char>|
            #[trigger] begins_with(old(cache).cached(), *old(now), millis, prefix)
                && final(cache).cached() == Some((millis, prefix)) && res@ == plain_line(prefix, *record),
        !asks_for_time(old(cache).cached(), millis) ==> *final(now) == *old(now),
{
    let prefix = cached_timestamp_prefix(cache, millis, now);
    file_line_without_level(prefix.as_str(), record)
}

} // verus!
