//! What holds of the log lines: colours only add escape sequences, level names
//! have one width, and every file line carries a timestamp.
use vstd::prelude::*;

use crate::fields::str_text;
use crate::format::{
    begins_with, bracketed, clock_shape, console_text, escape_sequence, is_prefix,
    level_paint, leveled_line, module_and_line, padded, painted, plain_line, stamp_shape, styled,
    thread_label, told, LogRecord, Paint, EPOCH_STAMP, ESCAPE,
};
use crate::json::decimal_is_json;
use crate::level::{level_of, levels_are_called_by_their_names, Level, LevelFilter};
use crate::text::decimal;
use flexi_logger::DeferredNow;

verus! {

/// An ASCII letter, which ends an escape sequence.
pub open spec fn is_letter(c: char) -> bool {
    'a' <= c <= 'z' || 'A' <= c <= 'Z'
}

/// What follows the first ASCII letter.
pub open spec fn after_letter(s: Seq<char>) -> Seq<char>
    decreases s.len(),
{
    if s.len() == 0 {
        s
    } else if is_letter(s[0]) {
        s.skip(1)
    } else {
        after_letter(s.skip(1))
    }
}

/// What follows the first ASCII letter is no longer than the whole.
pub proof fn lemma_after_letter_len(s: Seq<char>)
    ensures
        after_letter(s).len() <= s.len(),
    decreases s.len(),
{
    if s.len() > 0 && !is_letter(s[0]) {
        lemma_after_letter_len(s.skip(1));
    }
}

/// `s` without its escape sequences.
pub open spec fn stripped(s: Seq<char>) -> Seq<char>
    decreases s.len(),
{
    if s.len() == 0 {
        s
    } else if s[0] == ESCAPE {
        proof {
            lemma_after_letter_len(s.skip(1));
        }
        stripped(after_letter(s.skip(1)))
    } else {
        seq![s[0]] + stripped(s.skip(1))
    }
}

/// Text in front that holds no escape stays as it is.
proof fn lemma_strip_text(text: Seq<char>, rest: Seq<char>)
    requires
        !text.contains(ESCAPE),
    ensures
        stripped(text + rest) == text + stripped(rest),
    decreases text.len(),
{
    if text.len() == 0 {
        assert(text + rest =~= rest);
        assert(text + stripped(rest) =~= stripped(rest));
    } else {
        let more = text.skip(1);
        assert forall|k: int| 0 <= k < more.len() implies more[k] != ESCAPE by {
            assert(more[k] == text[k + 1]);
        }
        assert(text[0] != ESCAPE);
        lemma_strip_text(more, rest);
        assert((text + rest).skip(1) =~= more + rest);
        assert(seq![text[0]] + (more + stripped(rest)) =~= text + stripped(rest));
    }
}

/// What stands before the first letter is passed over with it.
proof fn lemma_after_letter(head: Seq<char>, letter: char, rest: Seq<char>)
    requires
        forall|k: int| 0 <= k < head.len() ==> !is_letter(#[trigger] head[k]),
        is_letter(letter),
    ensures
        after_letter(head + seq![letter] + rest) == rest,
    decreases head.len(),
{
    let s = head + seq![letter] + rest;
    if head.len() == 0 {
        assert(s.skip(1) =~= rest);
    } else {
        let more = head.skip(1);
        assert forall|k: int| 0 <= k < more.len() implies !is_letter(#[trigger] more[k]) by {
            assert(more[k] == head[k + 1]);
        }
        assert(!is_letter(head[0]));
        lemma_after_letter(more, letter, rest);
        assert(s.skip(1) =~= more + seq![letter] + rest);
    }
}

/// An escape sequence in front goes.
proof fn lemma_strip_sequence(code: Seq<char>, rest: Seq<char>)
    requires
        forall|k: int| 0 <= k < code.len() ==> !is_letter(#[trigger] code[k]),
    ensures
        stripped(escape_sequence(code) + rest) == stripped(rest),
{
    let s = escape_sequence(code) + rest;
    let head = seq!['['] + code;
    assert forall|k: int| 0 <= k < head.len() implies !is_letter(#[trigger] head[k]) by {
        if k > 0 {
            assert(head[k] == code[k - 1]);
        }
    }
    assert(s.skip(1) =~= head + seq!['m'] + rest);
    lemma_after_letter(head, 'm', rest);
}

/// Colour codes are numbers and semicolons.
proof fn lemma_code(paint: Paint)
    ensures
        forall|k: int| 0 <= k < paint.code().len() ==> !is_letter(#[trigger] paint.code()[k]),
        forall|k: int| 0 <= k < "0"@.len() ==> !is_letter(#[trigger] "0"@[k]),
{
    reveal_strlit("38;5;8");
    reveal_strlit("31");
    reveal_strlit("33");
    reveal_strlit("32");
    reveal_strlit("34");
    reveal_strlit("35");
    reveal_strlit("36");
    reveal_strlit("90");
    reveal_strlit("0");
}

/// A colour only adds escape sequences to a text that holds none.
proof fn lemma_strip_styled(color: bool, paint: Paint, text: Seq<char>, rest: Seq<char>)
    requires
        !text.contains(ESCAPE),
    ensures
        stripped(styled(color, paint, text) + rest) == text + stripped(rest),
{
    if color {
        lemma_code(paint);
        let end = escape_sequence("0"@);
        assert(painted(paint, text) + rest =~= escape_sequence(paint.code()) + (text + (end
            + rest)));
        lemma_strip_sequence(paint.code(), text + (end + rest));
        lemma_strip_text(text, end + rest);
        lemma_strip_sequence("0"@, rest);
    } else {
        lemma_strip_text(text, rest);
    }
}

/// The parts of the console line hold no escape where the record and the thread
/// name hold none.
proof fn lemma_parts_plain(
    level: LevelFilter,
    module: Option<Seq<char>>,
    line: Option<u32>,
    thread_name: Option<Seq<char>>,
)
    requires
        module matches Some(m) ==> !m.contains(ESCAPE),
        thread_name matches Some(t) ==> !t.contains(ESCAPE),
    ensures
        !padded(level).contains(ESCAPE),
        !module_and_line(module, line).contains(ESCAPE),
        !thread_label(thread_name).contains(ESCAPE),
{
    reveal_strlit("OFF");
    reveal_strlit("ERROR");
    reveal_strlit("WARN ");
    reveal_strlit("INFO ");
    reveal_strlit("DEBUG");
    reveal_strlit("TRACE");
    reveal_strlit("<unnamed>");
    reveal_strlit("unnamed");
    let name = match module {
        Some(m) => m,
        None => "<unnamed>"@,
    };
    let number = decimal(
        match line {
            Some(line) => line as nat,
            None => 0,
        },
    );
    decimal_is_json(
        match line {
            Some(line) => line as nat,
            None => 0,
        },
    );
    let place = module_and_line(module, line);
    assert forall|k: int| 0 <= k < place.len() implies place[k] != ESCAPE by {
        if k < name.len() {
            assert(place[k] == name[k]);
        } else if k > name.len() {
            assert(place[k] == number[k - name.len() - 1]);
            assert('0' <= number[k - name.len() - 1] <= '9');
        }
    }
    let thread = match thread_name {
        Some(t) => t,
        None => "unnamed"@,
    };
    let label = thread_label(thread_name);
    assert forall|k: int| 0 <= k < label.len() implies label[k] != ESCAPE by {
        if 2 <= k < label.len() - 1 {
            assert(label[k] == thread[k - 2]);
        }
    }
}

/// Five texts with blanks between them, grouped from the right.
proof fn lemma_regroup(
    a: Seq<char>,
    b: Seq<char>,
    c: Seq<char>,
    d: Seq<char>,
    e: Seq<char>,
)
    ensures
        ({
            let gap = seq![' '];
            a + gap + b + gap + c + gap + d + gap + e == a + (gap + (b + (gap + (c + (gap + (d + (gap
                + e)))))))
        }),
{
    let gap = seq![' '];
    assert(d + gap + e =~= d + (gap + e));
    assert(c + gap + (d + (gap + e)) =~= c + (gap + (d + (gap + e))));
    assert(a + gap + b + gap + c + gap + d + gap + e =~= a + gap + b + (gap + (c + (gap + (d + (gap
        + e))))));
}

/// Colours only add escape sequences: without them the coloured console line is
/// the plain one, where the texts that it shows hold none of their own.
pub proof fn colour_only_adds_escapes(
    clock: Seq<char>,
    thread_name: Option<Seq<char>>,
    record: LogRecord<'_>,
)
    requires
        !clock.contains(ESCAPE),
        thread_name matches Some(t) ==> !t.contains(ESCAPE),
        str_text(record.module) matches Some(m) ==> !m.contains(ESCAPE),
        !record.message@.contains(ESCAPE),
    ensures
        stripped(console_text(true, clock, thread_name, record)) == console_text(
            false,
            clock,
            thread_name,
            record,
        ),
{
    let level = record.level.filter();
    let place = module_and_line(str_text(record.module), record.line);
    let label = thread_label(thread_name);
    let message = record.message@;
    let gap = seq![' '];
    lemma_parts_plain(level, str_text(record.module), record.line, thread_name);
    assert(!gap.contains(ESCAPE));
    let s4 = gap + message;
    let s3 = gap + (styled(true, Paint::Cyan, label) + s4);
    let s2 = gap + (styled(true, Paint::Purple, place) + s3);
    let s1 = gap + (styled(true, level_paint(level), padded(level)) + s2);
    lemma_regroup(
        styled(true, Paint::DarkGray, clock),
        styled(true, level_paint(level), padded(level)),
        styled(true, Paint::Purple, place),
        styled(true, Paint::Cyan, label),
        message,
    );
    lemma_regroup(clock, padded(level), place, label, message);
    lemma_strip_styled(true, Paint::DarkGray, clock, s1);
    lemma_strip_text(gap, styled(true, level_paint(level), padded(level)) + s2);
    lemma_strip_styled(true, level_paint(level), padded(level), s2);
    lemma_strip_text(gap, styled(true, Paint::Purple, place) + s3);
    lemma_strip_styled(true, Paint::Purple, place, s3);
    lemma_strip_text(gap, styled(true, Paint::Cyan, label) + s4);
    lemma_strip_styled(true, Paint::Cyan, label, s4);
    lemma_strip_text(gap, message);
    lemma_strip_text(message, Seq::empty());
    assert(message + Seq::<char>::empty() =~= message);
    assert(stripped(Seq::<char>::empty()) =~= Seq::<char>::empty());
}

/// On the console every level takes the same width.
pub proof fn level_names_have_one_width(level: Level)
    ensures
        padded(level.filter()).len() == 5,
{
    reveal_strlit("ERROR");
    reveal_strlit("WARN ");
    reveal_strlit("INFO ");
    reveal_strlit("DEBUG");
    reveal_strlit("TRACE");
}

/// A console line begins with `HH:MM:SS.mmm` and ends with the message, if it is
/// not coloured.
pub proof fn console_line_shape(
    clock: Seq<char>,
    thread_name: Option<Seq<char>>,
    record: LogRecord<'_>,
)
    requires
        clock_shape(clock),
    ensures
        ({
            let line = console_text(false, clock, thread_name, record);
            &&& line.len() >= 12
            &&& clock_shape(line.subrange(0, 12))
            &&& record.message@.push(' ').len() <= line.len()
            &&& line.subrange(line.len() - record.message@.len(), line.len() as int)
                == record.message@
        }),
{
    let line = console_text(false, clock, thread_name, record);
    assert(line.subrange(0, 12) =~= clock);
    assert(line.subrange(line.len() - record.message@.len(), line.len() as int)
        =~= record.message@);
}

/// In the years 0 to 9999 the beginning of a file line is `[`, the date and the
/// time in 23 characters, `]` and a blank, with the fraction behind a point at
/// its place.
pub proof fn prefix_shape(stamp: Seq<char>)
    requires
        stamp_shape(stamp),
        stamp.len() == 23,
    ensures
        ({
            let prefix = bracketed(stamp);
            &&& prefix.len() == 26
            &&& prefix[0] == '['
            &&& prefix[5] == '-'
            &&& prefix[8] == '-'
            &&& prefix[11] == ' '
            &&& prefix[14] == ':'
            &&& prefix[17] == ':'
            &&& prefix[20] == '.'
            &&& prefix[24] == ']'
            &&& prefix[25] == ' '
        }),
{
    let date = stamp.subrange(4, 11);
    let clock = stamp.subrange(11, 23);
    assert(date[0] == stamp[4] && date[3] == stamp[7] && date[6] == stamp[10]);
    assert(clock[2] == stamp[13] && clock[5] == stamp[16] && clock[8] == stamp[19]);
}

/// The lines of one millisecond share their beginning: where two lines are made in
/// it, one after the other and whatever time `now` tells, there is one prefix that
/// both begin with, and what is cached stays as it is. With the level or without
/// it, a line is that prefix and what the record says, with nothing behind.
pub proof fn lines_of_a_millisecond_share_their_prefix(
    cached: Option<(i64, Seq<char>)>,
    millis: i64,
    first_now: DeferredNow,
    first: Seq<char>,
    second_now: DeferredNow,
    second: Seq<char>,
    record: LogRecord<'_>,
)
    requires
        begins_with(cached, first_now, millis, first),
        begins_with(Some((millis, first)), second_now, millis, second),
    ensures
        first == second,
        is_prefix(first),
        leveled_line(first, record) == second + record.level.upper() + seq![' ']
            + record.message@,
        plain_line(second, record) == first + record.message@,
{
}

/// A file line is its beginning, the name of the record's level in capitals, a
/// blank and the message; without the level, its beginning and the message. Nothing
/// stands behind.
pub proof fn file_lines_name_the_level(prefix: Seq<char>, record: LogRecord<'_>)
    ensures
        ({
            let name = match record.level {
                Level::Error => seq!['E', 'R', 'R', 'O', 'R'],
                Level::Warn => seq!['W', 'A', 'R', 'N'],
                Level::Info => seq!['I', 'N', 'F', 'O'],
                Level::Debug => seq!['D', 'E', 'B', 'U', 'G'],
                Level::Trace => seq!['T', 'R', 'A', 'C', 'E'],
            };
            &&& leveled_line(prefix, record) == prefix + name + seq![' '] + record.message@
            &&& level_of(
                leveled_line(prefix, record).subrange(
                    prefix.len() as int,
                    leveled_line(prefix, record).len() - record.message@.len() - 1,
                ),
            ) == Some(record.level.filter())
        }),
        plain_line(prefix, record) == prefix + record.message@,
{
    levels_are_called_by_their_names(record.level);
    let line = leveled_line(prefix, record);
    assert(line.subrange(prefix.len() as int, line.len() - record.message@.len() - 1)
        =~= record.level.upper());
}

/// On the console a level has its name in capitals, with blanks behind up to five
/// characters, in a colour of its own: red, yellow, green, blue and purple from the
/// gravest on, and grey for no level.
pub proof fn console_levels_are_spelled_out(level: LevelFilter)
    ensures
        padded(level) == match level {
            LevelFilter::Off => seq!['O', 'F', 'F'],
            LevelFilter::Error => seq!['E', 'R', 'R', 'O', 'R'],
            LevelFilter::Warn => seq!['W', 'A', 'R', 'N', ' '],
            LevelFilter::Info => seq!['I', 'N', 'F', 'O', ' '],
            LevelFilter::Debug => seq!['D', 'E', 'B', 'U', 'G'],
            LevelFilter::Trace => seq!['T', 'R', 'A', 'C', 'E'],
        },
        level_paint(level).code() == match level {
            LevelFilter::Off => seq!['3', '8', ';', '5', ';', '8'],
            LevelFilter::Error => seq!['3', '1'],
            LevelFilter::Warn => seq!['3', '3'],
            LevelFilter::Info => seq!['3', '2'],
            LevelFilter::Debug => seq!['3', '4'],
            LevelFilter::Trace => seq!['3', '5'],
        },
{
    reveal_strlit("OFF");
    reveal_strlit("ERROR");
    reveal_strlit("WARN ");
    reveal_strlit("INFO ");
    reveal_strlit("DEBUG");
    reveal_strlit("TRACE");
    reveal_strlit("38;5;8");
    reveal_strlit("31");
    reveal_strlit("33");
    reveal_strlit("32");
    reveal_strlit("34");
    reveal_strlit("35");
}

/// Without colours a text is shown as it is; in a colour it stands between the
/// escape sequence of that colour and the one that resets it.
pub proof fn colours_are_spelled_out(paint: Paint, text: Seq<char>)
    ensures
        styled(false, paint, text) == text,
        styled(true, paint, text) == seq!['\u{1b}', '['] + paint.code() + seq!['m'] + text + seq![
            '\u{1b}',
            '[',
            '0',
            'm',
        ],
{
    reveal_strlit("0");
    assert(escape_sequence("0"@) =~= seq!['\u{1b}', '[', '0', 'm']);
}

/// What stands for the place and the thread on the console: the module, a colon and
/// the line number; the thread in `T{` and `}`. Where one is not known, `<unnamed>`,
/// 0 and `unnamed` stand for it.
pub proof fn places_and_threads_are_spelled_out(
    module: Seq<char>,
    line: u32,
    thread: Seq<char>,
)
    ensures
        module_and_line(Some(module), Some(line)) == module + seq![':'] + decimal(line as nat),
        module_and_line(Some(module), None) == module + seq![':', '0'],
        module_and_line(None, Some(line)) == seq![
            '<',
            'u',
            'n',
            'n',
            'a',
            'm',
            'e',
            'd',
            '>',
            ':',
        ] + decimal(line as nat),
        module_and_line(None, None) == seq!['<', 'u', 'n', 'n', 'a', 'm', 'e', 'd', '>', ':', '0'],
        thread_label(Some(thread)) == seq!['T', '{'] + thread + seq!['}'],
        thread_label(None) == seq!['T', '{', 'u', 'n', 'n', 'a', 'm', 'e', 'd', '}'],
{
    reveal_strlit("<unnamed>");
    reveal_strlit("unnamed");
    assert(module.push(':') + decimal(line as nat) =~= module + seq![':'] + decimal(line as nat));
    assert(decimal(0) =~= seq!['0']);
    assert(module.push(':') + decimal(0) =~= module + seq![':', '0']);
    assert(module_and_line(None, Some(line)) =~= seq![
        '<',
        'u',
        'n',
        'n',
        'a',
        'm',
        'e',
        'd',
        '>',
        ':',
    ] + decimal(line as nat));
    assert(module_and_line(None, None) =~= seq![
        '<',
        'u',
        'n',
        'n',
        'a',
        'm',
        'e',
        'd',
        '>',
        ':',
        '0',
    ]);
    assert(thread_label(None) =~= seq!['T', '{', 'u', 'n', 'n', 'a', 'm', 'e', 'd', '}']);
}

/// The console line is the clock, the level, the place, the thread and the message,
/// with one blank between neighbours; in colours the clock is dark grey, the level
/// has its own colour, the place is purple, the thread cyan, and the message has
/// none.
pub proof fn console_lines_are_spelled_out(
    color: bool,
    clock: Seq<char>,
    thread_name: Option<Seq<char>>,
    record: LogRecord<'_>,
)
    ensures
        ({
            let gap = seq![' '];
            let level = record.level.filter();
            let place = module_and_line(str_text(record.module), record.line);
            let thread = thread_label(thread_name);
            let line = console_text(color, clock, thread_name, record);
            &&& !color ==> line == clock + gap + padded(level) + gap + place + gap + thread + gap
                + record.message@
            &&& color ==> line == styled(true, Paint::DarkGray, clock) + gap + styled(
                true,
                level_paint(level),
                padded(level),
            ) + gap + styled(true, Paint::Purple, place) + gap + styled(true, Paint::Cyan, thread)
                + gap + record.message@
        }),
        Paint::DarkGray.code() == seq!['9', '0'],
        Paint::Purple.code() == seq!['3', '5'],
        Paint::Cyan.code() == seq!['3', '6'],
{
    reveal_strlit("90");
    reveal_strlit("35");
    reveal_strlit("36");
}

/// The beginning of a file line is the timestamp in square brackets and a blank.
/// Where the time is asked for is decided by the millisecond alone: always, but for
/// the millisecond that the cached beginning was made in, and for a clock before
/// the epoch while nothing is cached.
pub proof fn prefixes_are_spelled_out(
    stamp: Seq<char>,
    made: i64,
    text: Seq<char>,
    millis: i64,
    now: DeferredNow,
    prefix: Seq<char>,
)
    ensures
        bracketed(stamp) == seq!['['] + stamp + seq![']', ' '],
        begins_with(Some((made, text)), now, made, prefix) ==> prefix == text,
        made != millis && begins_with(Some((made, text)), now, millis, prefix)
            ==> exists|told_now: String|
            #[trigger] told(now, "%Y-%m-%d %H:%M:%S%.3f", told_now) && prefix == seq!['[']
                + told_now@ + seq![']', ' '],
        millis != i64::MIN && begins_with(None, now, millis, prefix) ==> exists|told_now: String|
            #[trigger] told(now, "%Y-%m-%d %H:%M:%S%.3f", told_now) && prefix == seq!['[']
                + told_now@ + seq![']', ' '],
        begins_with(None, now, i64::MIN, prefix) ==> prefix
            == "[1970-01-01 00:00:00.000] "@,
{
    reveal_strlit("1970-01-01 00:00:00.000");
    reveal_strlit("[1970-01-01 00:00:00.000] ");
    assert(bracketed(EPOCH_STAMP@) =~= "[1970-01-01 00:00:00.000] "@);
}

} // verus!
