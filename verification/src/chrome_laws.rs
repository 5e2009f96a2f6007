//! What holds of a chrome trace: its text, the times of its spans, its cap and the
//! numbers of its threads.
use vstd::prelude::*;

use crate::chrome::{
    distinct_numbers, duration, first_refused, instant_name, instant_text, numbered, span_text,
    trace_text, with_event, SpanOpen, TRUNCATION_NOTE,
};
use crate::fields::{EventMeta, Fields};
use crate::json::{
    json_array, json_member, json_object, json_string, plain_text_stands_for_itself, special,
};
use crate::level::{level_text, Level};
use crate::text::{decimal, decimal_stands_for_its_number, join, join_spells_out, numeral_value};

verus! {

/// A recorded span ends when it was closed: its start and its duration together are
/// the time of closing. Where the clock was set back meanwhile it has no duration.
pub proof fn spans_end_when_they_are_closed(start: u64, end: u64)
    ensures
        start <= end ==> start + duration(start, end) == end,
        end < start ==> duration(start, end) == 0,
        start <= end ==> numeral_value(decimal(start as nat)) + numeral_value(
            decimal(duration(start, end)),
        ) == end,
{
    decimal_stands_for_its_number(start as nat);
    decimal_stands_for_its_number(duration(start, end));
}

/// One more part of a joined text.
proof fn lemma_join_take(parts: Seq<Seq<char>>, k: int, sep: char)
    requires
        1 <= k < parts.len(),
    ensures
        join(parts.take(k + 1), sep) == join(parts.take(k), sep) + seq![sep] + parts[k],
{
    join_spells_out(parts.take(k), parts[k], sep);
    assert(parts.take(k + 1) =~= parts.take(k).push(parts[k]));
}

/// One more member of an object: `lead` is the comma, the name and the colon.
proof fn lemma_member(before: Seq<char>, name: Seq<char>, lead: Seq<char>, value: Seq<char>)
    requires
        lead == seq![',', '"'] + name + seq!['"', ':'],
        forall|i: int| 0 <= i < name.len() ==> !special(#[trigger] name[i]),
    ensures
        before + seq![','] + json_member(name, value) == before + lead + value,
{
    plain_text_stands_for_itself(name);
    assert(before + seq![','] + json_member(name, value) =~= before + lead + value);
}

/// The names of members, with what stands around them.
proof fn lemma_leads()
    ensures
        ",\"name\":"@ == seq![',', '"'] + "name"@ + seq!['"', ':'],
        ",\"cat\":"@ == seq![',', '"'] + "cat"@ + seq!['"', ':'],
        ",\"ts\":"@ == seq![',', '"'] + "ts"@ + seq!['"', ':'],
        ",\"dur\":"@ == seq![',', '"'] + "dur"@ + seq!['"', ':'],
        ",\"pid\":"@ == seq![',', '"'] + "pid"@ + seq!['"', ':'],
        ",\"tid\":"@ == seq![',', '"'] + "tid"@ + seq!['"', ':'],
        ",\"args\":"@ == seq![',', '"'] + "args"@ + seq!['"', ':'],
        ",\"level\":"@ == seq![',', '"'] + "level"@ + seq!['"', ':'],
        ",\"scope\":"@ == seq![',', '"'] + "scope"@ + seq!['"', ':'],
{
    reveal_strlit("name");
    reveal_strlit("cat");
    reveal_strlit("ts");
    reveal_strlit("dur");
    reveal_strlit("pid");
    reveal_strlit("tid");
    reveal_strlit("args");
    reveal_strlit("level");
    reveal_strlit("scope");
    reveal_strlit(",\"name\":");
    reveal_strlit(",\"cat\":");
    reveal_strlit(",\"ts\":");
    reveal_strlit(",\"dur\":");
    reveal_strlit(",\"pid\":");
    reveal_strlit(",\"tid\":");
    reveal_strlit(",\"args\":");
    reveal_strlit(",\"level\":");
    reveal_strlit(",\"scope\":");
    assert(",\"name\":"@ =~= seq![',', '"'] + "name"@ + seq!['"', ':']);
    assert(",\"cat\":"@ =~= seq![',', '"'] + "cat"@ + seq!['"', ':']);
    assert(",\"ts\":"@ =~= seq![',', '"'] + "ts"@ + seq!['"', ':']);
    assert(",\"dur\":"@ =~= seq![',', '"'] + "dur"@ + seq!['"', ':']);
    assert(",\"pid\":"@ =~= seq![',', '"'] + "pid"@ + seq!['"', ':']);
    assert(",\"tid\":"@ =~= seq![',', '"'] + "tid"@ + seq!['"', ':']);
    assert(",\"args\":"@ =~= seq![',', '"'] + "args"@ + seq!['"', ':']);
    assert(",\"level\":"@ =~= seq![',', '"'] + "level"@ + seq!['"', ':']);
    assert(",\"scope\":"@ =~= seq![',', '"'] + "scope"@ + seq!['"', ':']);
}

/// The names of members are plain.
proof fn lemma_plain_names()
    ensures
        forall|i: int| 0 <= i < "name"@.len() ==> !special(#[trigger] "name"@[i]),
        forall|i: int| 0 <= i < "cat"@.len() ==> !special(#[trigger] "cat"@[i]),
        forall|i: int| 0 <= i < "ts"@.len() ==> !special(#[trigger] "ts"@[i]),
        forall|i: int| 0 <= i < "dur"@.len() ==> !special(#[trigger] "dur"@[i]),
        forall|i: int| 0 <= i < "pid"@.len() ==> !special(#[trigger] "pid"@[i]),
        forall|i: int| 0 <= i < "tid"@.len() ==> !special(#[trigger] "tid"@[i]),
        forall|i: int| 0 <= i < "args"@.len() ==> !special(#[trigger] "args"@[i]),
        forall|i: int| 0 <= i < "level"@.len() ==> !special(#[trigger] "level"@[i]),
        forall|i: int| 0 <= i < "scope"@.len() ==> !special(#[trigger] "scope"@[i]),
{
    reveal_strlit("name");
    reveal_strlit("cat");
    reveal_strlit("ts");
    reveal_strlit("dur");
    reveal_strlit("pid");
    reveal_strlit("tid");
    reveal_strlit("args");
    reveal_strlit("level");
    reveal_strlit("scope");
}

/// The first member of an event.
proof fn lemma_first_member()
    ensures
        seq!['{'] + json_member("ph"@, json_string("X"@)) == "{\"ph\":\"X\""@,
        seq!['{'] + json_member("ph"@, json_string("i"@)) == "{\"ph\":\"i\""@,
        json_string("t"@) == "\"t\""@,
        json_object(Seq::empty()) == "{}"@,
{
    reveal_strlit("ph");
    reveal_strlit("X");
    reveal_strlit("i");
    reveal_strlit("t");
    reveal_strlit("{}");
    reveal_strlit("\"t\"");
    reveal_strlit("{\"ph\":\"X\"");
    reveal_strlit("{\"ph\":\"i\"");
    plain_text_stands_for_itself("ph"@);
    plain_text_stands_for_itself("X"@);
    plain_text_stands_for_itself("i"@);
    plain_text_stands_for_itself("t"@);
    assert(seq!['{'] + json_member("ph"@, json_string("X"@)) =~= "{\"ph\":\"X\""@);
    assert(seq!['{'] + json_member("ph"@, json_string("i"@)) =~= "{\"ph\":\"i\""@);
    assert(json_string("t"@) =~= "\"t\""@);
    assert(json_object(Seq::empty()) =~= "{}"@);
}

/// An object with one member more than `before` shows.
proof fn lemma_step(
    members: Seq<Seq<char>>,
    k: int,
    before: Seq<char>,
    name: Seq<char>,
    lead: Seq<char>,
    value: Seq<char>,
)
    requires
        1 <= k < members.len(),
        before == seq!['{'] + join(members.take(k), ','),
        members[k] == json_member(name, value),
        lead == seq![',', '"'] + name + seq!['"', ':'],
        forall|i: int| 0 <= i < name.len() ==> !special(#[trigger] name[i]),
    ensures
        before + lead + value == seq!['{'] + join(members.take(k + 1), ','),
{
    lemma_join_take(members, k, ',');
    lemma_member(before, name, lead, value);
    let joined = join(members.take(k), ',');
    assert(seq!['{'] + (joined + seq![','] + members[k]) =~= seq!['{'] + joined + seq![',']
        + members[k]);
}

/// The text of a complete event, spelled out: the name and the category of the span
/// as strings, when it was opened and how long it was open in microseconds, and
/// where. The span was open for `dur`: from its start to its end, or not at all
/// where the clock was set back.
pub proof fn spans_are_spelled_out(span: SpanOpen, end: u64, pid: u32, dur: nat)
    requires
        span.ts_us + dur == end || (end < span.ts_us && dur == 0),
    ensures
        span_text(span, end, pid) == "{\"ph\":\"X\""@ + ",\"name\":"@ + json_string(span.name@)
            + ",\"cat\":"@ + json_string(span.cat@) + ",\"ts\":"@ + decimal(span.ts_us as nat)
            + ",\"dur\":"@ + decimal(dur) + ",\"pid\":"@ + decimal(pid as nat) + ",\"tid\":"@
            + decimal(span.tid as nat) + ",\"args\":"@ + "{}"@ + seq!['}'],
{
    let m = seq![
        json_member("ph"@, json_string("X"@)),
        json_member("name"@, json_string(span.name@)),
        json_member("cat"@, json_string(span.cat@)),
        json_member("ts"@, decimal(span.ts_us as nat)),
        json_member("dur"@, decimal(dur)),
        json_member("pid"@, decimal(pid as nat)),
        json_member("tid"@, decimal(span.tid as nat)),
        json_member("args"@, json_object(Seq::empty())),
    ];
    lemma_leads();
    lemma_plain_names();
    lemma_first_member();
    assert(m.take(1) =~= seq![m[0]]);
    let t0 = "{\"ph\":\"X\""@;
    let t1 = t0 + ",\"name\":"@ + json_string(span.name@);
    let t2 = t1 + ",\"cat\":"@ + json_string(span.cat@);
    let t3 = t2 + ",\"ts\":"@ + decimal(span.ts_us as nat);
    let t4 = t3 + ",\"dur\":"@ + decimal(dur);
    let t5 = t4 + ",\"pid\":"@ + decimal(pid as nat);
    let t6 = t5 + ",\"tid\":"@ + decimal(span.tid as nat);
    lemma_step(m, 1, t0, "name"@, ",\"name\":"@, json_string(span.name@));
    lemma_step(m, 2, t1, "cat"@, ",\"cat\":"@, json_string(span.cat@));
    lemma_step(m, 3, t2, "ts"@, ",\"ts\":"@, decimal(span.ts_us as nat));
    lemma_step(m, 4, t3, "dur"@, ",\"dur\":"@, decimal(dur));
    lemma_step(m, 5, t4, "pid"@, ",\"pid\":"@, decimal(pid as nat));
    lemma_step(m, 6, t5, "tid"@, ",\"tid\":"@, decimal(span.tid as nat));
    lemma_step(m, 7, t6, "args"@, ",\"args\":"@, json_object(Seq::empty()));
    assert(m.take(8) =~= m);
    assert(span_text(span, end, pid) == json_object(m));
}

/// The text of an instant event, spelled out: its name and category as strings, the
/// name of its level in small letters, when it happened in microseconds, and where.
pub proof fn instants_are_spelled_out(
    name: Seq<char>,
    target: Seq<char>,
    level: Level,
    ts: u64,
    pid: u32,
    tid: u64,
)
    ensures
        instant_text(name, target, level, ts, pid, tid) == "{\"ph\":\"i\""@ + ",\"scope\":"@
            + "\"t\""@ + ",\"name\":"@ + json_string(name) + ",\"cat\":"@ + json_string(target)
            + ",\"level\":"@ + json_string(level_text(level.filter())) + ",\"ts\":"@ + decimal(
            ts as nat,
        ) + ",\"pid\":"@ + decimal(pid as nat) + ",\"tid\":"@ + decimal(tid as nat)
            + ",\"args\":"@ + "{}"@ + seq!['}'],
{
    let shown = json_string(level_text(level.filter()));
    let m = seq![
        json_member("ph"@, json_string("i"@)),
        json_member("scope"@, json_string("t"@)),
        json_member("name"@, json_string(name)),
        json_member("cat"@, json_string(target)),
        json_member("level"@, shown),
        json_member("ts"@, decimal(ts as nat)),
        json_member("pid"@, decimal(pid as nat)),
        json_member("tid"@, decimal(tid as nat)),
        json_member("args"@, json_object(Seq::empty())),
    ];
    lemma_leads();
    lemma_plain_names();
    lemma_first_member();
    assert(m.take(1) =~= seq![m[0]]);
    let t0 = "{\"ph\":\"i\""@;
    let t1 = t0 + ",\"scope\":"@ + "\"t\""@;
    let t2 = t1 + ",\"name\":"@ + json_string(name);
    let t3 = t2 + ",\"cat\":"@ + json_string(target);
    let t4 = t3 + ",\"level\":"@ + shown;
    let t5 = t4 + ",\"ts\":"@ + decimal(ts as nat);
    let t6 = t5 + ",\"pid\":"@ + decimal(pid as nat);
    let t7 = t6 + ",\"tid\":"@ + decimal(tid as nat);
    lemma_step(m, 1, t0, "scope"@, ",\"scope\":"@, "\"t\""@);
    lemma_step(m, 2, t1, "name"@, ",\"name\":"@, json_string(name));
    lemma_step(m, 3, t2, "cat"@, ",\"cat\":"@, json_string(target));
    lemma_step(m, 4, t3, "level"@, ",\"level\":"@, shown);
    lemma_step(m, 5, t4, "ts"@, ",\"ts\":"@, decimal(ts as nat));
    lemma_step(m, 6, t5, "pid"@, ",\"pid\":"@, decimal(pid as nat));
    lemma_step(m, 7, t6, "tid"@, ",\"tid\":"@, decimal(tid as nat));
    lemma_step(m, 8, t7, "args"@, ",\"args\":"@, json_object(Seq::empty()));
    assert(m.take(9) =~= m);
    assert(instant_text(name, target, level, ts, pid, tid) == json_object(m));
}

/// The text of a trace, spelled out: the events with commas between, and where one
/// was refused, a note that says so.
pub proof fn traces_are_spelled_out(events: Seq<Seq<char>>)
    ensures
        trace_text(events, false) == "{\"traceEvents\":["@ + join(events, ',') + "]}"@,
        trace_text(events, true) == "{\"traceEvents\":["@ + join(events, ',')
            + "],\"metadata\":{\"note\":\"tracing-estuary: event cap reached, trace truncated\"}}"@,
{
    reveal_strlit("traceEvents");
    reveal_strlit("metadata");
    reveal_strlit("note");
    reveal_strlit("tracing-estuary: event cap reached, trace truncated");
    reveal_strlit("{\"traceEvents\":[");
    reveal_strlit("]}");
    reveal_strlit(
        "],\"metadata\":{\"note\":\"tracing-estuary: event cap reached, trace truncated\"}}",
    );
    plain_text_stands_for_itself("traceEvents"@);
    plain_text_stands_for_itself("metadata"@);
    plain_text_stands_for_itself("note"@);
    plain_text_stands_for_itself(TRUNCATION_NOTE@);
    let body = join(events, ',');
    let traced = json_member("traceEvents"@, json_array(events));
    assert(traced =~= "\"traceEvents\":["@ + body + seq![']']) by {
        reveal_strlit("\"traceEvents\":[");
    }
    assert(seq!['{'] + traced =~= "{\"traceEvents\":["@ + body + seq![']']) by {
        reveal_strlit("\"traceEvents\":[");
    }
    join_spells_out(seq![traced], traced, ',');
    assert(trace_text(events, false) =~= "{\"traceEvents\":["@ + body + "]}"@);
    let noted = json_member("note"@, json_string(TRUNCATION_NOTE@));
    join_spells_out(seq![noted], noted, ',');
    let metadata = json_member("metadata"@, json_object(seq![noted]));
    let tail = "],\"metadata\":{\"note\":\"tracing-estuary: event cap reached, trace truncated\"}}"@;
    assert(seq![']', ','] + metadata + seq!['}'] =~= tail);
    join_spells_out(seq![traced], metadata, ',');
    assert(seq![traced].push(metadata) =~= seq![traced, metadata]);
    assert(trace_text(events, true) == seq!['{'] + (traced + seq![','] + metadata) + seq!['}']);
    let head = "{\"traceEvents\":["@ + body;
    assert(seq!['{'] + (traced + seq![','] + metadata) + seq!['}'] =~= (seq!['{'] + traced)
        + seq![','] + metadata + seq!['}']);
    assert(head + seq![']'] + seq![','] + metadata + seq!['}'] =~= head + (seq![']', ',']
        + metadata + seq!['}']));
}

/// A trace takes a hundred thousand events, each behind the others; from then on it
/// stays as it is. The first event that it refuses is the one that finds it full.
pub proof fn traces_take_events_up_to_the_cap(
    events: Seq<Seq<char>>,
    truncated: bool,
    event: Seq<char>,
)
    ensures
        events.len() < 100_000 ==> with_event(events, event) == events.push(event)
            && !first_refused(events, truncated, event),
        events.len() >= 100_000 ==> with_event(events, event) == events && first_refused(
            events,
            truncated,
            event,
        ) == !truncated,
{
}

/// Threads are numbered from 1 in the order in which they are met: a thread that was
/// not met before gets the number behind all the others, and no other thread has it.
pub proof fn new_threads_get_the_next_number(tids: Map<u64, u64>, thread: u64, other: u64)
    requires
        distinct_numbers(tids),
        tids.dom().finite(),
        tids.len() < u64::MAX,
        !tids.contains_key(thread),
    ensures
        numbered(tids, thread).contains_key(thread),
        numbered(tids, thread)[thread] == tids.len() + 1,
        tids.contains_key(other) ==> numbered(tids, thread)[other] == tids[other]
            && tids[other] < numbered(tids, thread)[thread],
        other != thread && !tids.contains_key(other) ==> !numbered(tids, thread).contains_key(
            other,
        ),
{
}

/// An instant is called by the message of its event; without one, by the name of
/// the call site.
pub proof fn instants_are_called_by_their_message(
    fields: Fields,
    meta: EventMeta<'_>,
    message: Seq<char>,
)
    ensures
        instant_name((Fields { message: Some(message), ..fields }), meta) == message,
        instant_name((Fields { message: None, ..fields }), meta) == meta.name@,
{
}

} // verus!
