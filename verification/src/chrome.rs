//! The chrome trace: span lifetimes as complete (`"X"`) events and log events as
//! thread-scoped instants (`"i"`), in the JSON form that Perfetto loads.
//!
//! The trace is written out on request, and once when the event cap forces a
//! spill.
use vstd::prelude::*;

use crate::external::compact_as_str;
use crate::fields::{event_target, EventMeta, FieldExtractor, Fields};
use crate::json::{
    array_is_json, flat_values_are_json, is_json, is_json_member, json_array, json_member,
    json_object, json_string, member_is_json, object_is_json, push_json_string, ObjectText,
};
use crate::level::{level_name, level_text, Level};
use crate::text::{decimal, join};
use std::collections::HashMap;

verus! {

/// Environment variable that turns the trace on: `CV_TRACE_CHROME=/tmp/t.json`.
pub const ENV_CHROME_TRACE: &'static str = "CV_TRACE_CHROME";

/// The most events that a trace records.
pub const MAX_EVENTS: usize = 100_000;

/// What a trace says of itself where it has not recorded everything.
pub const TRUNCATION_NOTE: &'static str = "tracing-estuary: event cap reached, trace truncated";

/// A span that has been opened.
pub struct SpanOpen {
    pub ts_us: u64,
    pub name: &'static str,
    pub cat: &'static str,
    pub tid: u64,
}

/// The JSON text of a complete event: a span from when it was opened to `end`.
pub open spec fn span_text(span: SpanOpen, end: u64, pid: u32) -> Seq<char> {
    json_object(
        seq![
            json_member("ph"@, json_string("X"@)),
            json_member("name"@, json_string(span.name@)),
            json_member("cat"@, json_string(span.cat@)),
            json_member("ts"@, decimal(span.ts_us as nat)),
            json_member("dur"@, decimal(duration(span.ts_us, end))),
            json_member("pid"@, decimal(pid as nat)),
            json_member("tid"@, decimal(span.tid as nat)),
            json_member("args"@, json_object(Seq::empty())),
        ],
    )
}

/// The time from `start` to `end`; none where the clock was set back meanwhile.
pub open spec fn duration(start: u64, end: u64) -> nat {
    if end >= start {
        (end - start) as nat
    } else {
        0
    }
}

/// The JSON text of an instant event.
pub open spec fn instant_text(
    name: Seq<char>,
    target: Seq<char>,
    level: Level,
    ts: u64,
    pid: u32,
    tid: u64,
) -> Seq<char> {
    json_object(
        seq![
            json_member("ph"@, json_string("i"@)),
            json_member("scope"@, json_string("t"@)),
            json_member("name"@, json_string(name)),
            json_member("cat"@, json_string(target)),
            json_member("level"@, json_string(level_text(level.filter()))),
            json_member("ts"@, decimal(ts as nat)),
            json_member("pid"@, decimal(pid as nat)),
            json_member("tid"@, decimal(tid as nat)),
            json_member("args"@, json_object(Seq::empty())),
        ],
    )
}

/// The name of the instant of an event: its message, or the name of its call
/// site.
pub open spec fn instant_name(fields: Fields, meta: EventMeta<'_>) -> Seq<char> {
    match fields.message {
        Some(message) => message,
        None => meta.name@,
    }
}

/// The JSON text of a trace.
pub open spec fn trace_text(events: Seq<Seq<char>>, truncated: bool) -> Seq<char> {
    let traced = json_member("traceEvents"@, json_array(events));
    let note = json_object(seq![json_member("note"@, json_string(TRUNCATION_NOTE@))]);
    json_object(
        if truncated {
            seq![traced, json_member("metadata"@, note)]
        } else {
            seq![traced]
        },
    )
}

/// The events after `event` was offered: it is recorded while there is room.
pub open spec fn with_event(events: Seq<Seq<char>>, event: Seq<char>) -> Seq<Seq<char>> {
    if events.len() < MAX_EVENTS {
        events.push(event)
    } else {
        events
    }
}

/// Whether the offer of an event is the first to be refused.
pub open spec fn first_refused(events: Seq<Seq<char>>, truncated: bool, event: Seq<char>) -> bool {
    !truncated && with_event(events, event).len() == events.len()
}

/// The thread numbers after `thread` was numbered: threads are numbered from 1 in
/// the order in which they are met.
pub open spec fn numbered(tids: Map<u64, u64>, thread: u64) -> Map<u64, u64> {
    if tids.contains_key(thread) {
        tids
    } else {
        tids.insert(thread, (tids.len() + 1) as u64)
    }
}

/// Whether threads have different numbers, from 1 up to how many there are.
pub open spec fn distinct_numbers(tids: Map<u64, u64>) -> bool {
    &&& forall|t: u64| #[trigger] tids.contains_key(t) ==> 1 <= tids[t] <= tids.len()
    &&& forall|s: u64, t: u64|
        #[trigger] tids.contains_key(s) && #[trigger] tids.contains_key(t) && s != t ==> tids[s]
            != tids[t]
}

/// The state of a trace.
pub struct ChromeState {
    /// The events, joined by commas: this spares an allocation per event.
    body: String,
    event_count: usize,
    truncated: bool,
    span_starts: HashMap<u64, SpanOpen>,
    tids: HashMap<u64, u64>,
    recorded: Ghost<Seq<Seq<char>>>,
}

impl ChromeState {
    /// The JSON texts of the recorded events.
    pub closed spec fn events(&self) -> Seq<Seq<char>> {
        self.recorded@
    }

    /// Whether an event was refused for want of room.
    pub closed spec fn truncated(&self) -> bool {
        self.truncated
    }

    /// The open spans by their ids.
    pub closed spec fn open_spans(&self) -> Map<u64, SpanOpen> {
        self.span_starts@
    }

    /// The numbers of the threads.
    pub closed spec fn tids(&self) -> Map<u64, u64> {
        self.tids@
    }

    pub closed spec fn body_is_joined(&self) -> bool {
        &&& self.body@ == join(self.recorded@, ',')
        &&& self.event_count == self.recorded@.len()
        &&& self.tids@.dom().finite()
    }

    /// The trace has no more events than there is room for, only a full trace is
    /// truncated, and threads have different numbers.
    pub open spec fn wf(&self) -> bool {
        &&& self.body_is_joined()
        &&& self.events().len() <= MAX_EVENTS
        &&& self.truncated() ==> self.events().len() == MAX_EVENTS
        &&& distinct_numbers(self.tids())
    }

    /// Whether every recorded event is JSON.
    pub open spec fn all_json(&self) -> bool {
        forall|i: int| 0 <= i < self.events().len() ==> is_json(#[trigger] self.events()[i], 2)
    }

    /// A trace without events.
    pub fn new() -> (res: Self)
        ensures
            res.wf(),
            res.all_json(),
            res.events() == Seq::<Seq<char>>::empty(),
            !res.truncated(),
            res.open_spans() == Map::<u64, SpanOpen>::empty(),
            res.tids() == Map::<u64, u64>::empty(),
    {
        ChromeState {
            body: String::new(),
            event_count: 0,
            truncated: false,
            span_starts: HashMap::new(),
            tids: HashMap::new(),
            recorded: Ghost(Seq::empty()),
        }
    }

    /// The number of a thread, which it gets when it is first met.
    pub fn tid(&mut self, thread: u64) -> (res: u64)
        requires
            old(self).wf(),
        ensures
            final(self).wf(),
            final(self).tids() == numbered(old(self).tids(), thread),
            res == final(self).tids()[thread],
            final(self).events() == old(self).events(),
            final(self).truncated() == old(self).truncated(),
            final(self).open_spans() == old(self).open_spans(),
    {
        if let Some(tid) = self.tids.get(&thread) {
            return *tid;
        }
        let ghost before = self.tids@;
        self.tids.insert(thread, 0);
        assert(self.tids@.len() == before.len() + 1);
        let tid: u64 = self.tids.len() as u64;
        self.tids.insert(thread, tid);
        proof {
            assert(self.tids@ =~= before.insert(thread, tid));
        }
        tid
    }

    /// Records the JSON text of an event while there is room. The first event for
    /// which there is none forces a spill: the result says whether the trace is to
    /// be written out now.
    pub fn push_event(&mut self, event: &str) -> (spill: bool)
        requires
            old(self).wf(),
        ensures
            final(self).wf(),
            spill == first_refused(old(self).events(), old(self).truncated(), event@),
            final(self).events() == with_event(old(self).events(), event@),
            final(self).truncated() == (old(self).truncated() || old(self).events().len()
                == MAX_EVENTS),
            final(self).open_spans() == old(self).open_spans(),
            final(self).tids() == old(self).tids(),
            old(self).all_json() && is_json(event@, 2) ==> final(self).all_json(),
    {
        if self.event_count >= MAX_EVENTS {
            let spill = !self.truncated;
            self.truncated = true;
            return spill;
        }
        if self.event_count > 0 {
            self.body.push(',');
        }
        self.body.append(event);
        self.event_count += 1;
        proof {
            let before = self.recorded@;
            let after = before.push(event@);
            assert(after.drop_last() =~= before);
            if before.len() == 0 {
                assert(self.body@ =~= after[0]);
            }
            self.recorded@ = after;
            assert(old(self).all_json() && is_json(event@, 2) ==> self.all_json()) by {
                assert forall|i: int|
                    0 <= i < after.len() && old(self).all_json() && is_json(event@, 2) implies
                    is_json(#[trigger] after[i], 2) by {
                    if i < before.len() {
                        assert(is_json(old(self).events()[i], 2));
                    }
                }
            }
        }
        false
    }

    /// The JSON text of the trace.
    pub fn render(&self) -> (res: String)
        requires
            self.wf(),
        ensures
            res@ == trace_text(self.events(), self.truncated()),
    {
        let mut json = String::new();
        json.push('{');
        push_json_string(&mut json, "traceEvents");
        json.push(':');
        json.push('[');
        json.append(self.body.as_str());
        json.push(']');
        let ghost traced = json_member("traceEvents"@, json_array(self.recorded@));
        assert(json@ =~= seq!['{'] + traced);
        if self.truncated {
            let mut note = ObjectText::new();
            note.add_text("note", TRUNCATION_NOTE);
            let note = note.finish();
            json.push(',');
            push_json_string(&mut json, "metadata");
            json.push(':');
            json.append(note.as_str());
            proof {
                let only = seq![json_member("note"@, json_string(TRUNCATION_NOTE@))];
                assert(note@ == json_object(only)) by {
                    assert(Seq::<Seq<char>>::empty().push(only[0]) =~= only);
                }
                let members = seq![traced, json_member("metadata"@, note@)];
                reveal_with_fuel(join, 2);
                assert(members.drop_last() =~= seq![traced]);
                assert(json@ =~= seq!['{'] + join(members, ','));
            }
        }
        json.push('}');
        assert(json@ =~= trace_text(self.events(), self.truncated()));
        json
    }

    /// Notes that the span `id` was opened at `now`.
    pub fn on_new_span(
        &mut self,
        id: u64,
        name: &'static str,
        cat: &'static str,
        thread: u64,
        now: u64,
    )
        requires
            old(self).wf(),
        ensures
            final(self).wf(),
            final(self).tids() == numbered(old(self).tids(), thread),
            final(self).open_spans() == old(self).open_spans().insert(
                id,
                (SpanOpen { ts_us: now, name, cat, tid: final(self).tids()[thread] }),
            ),
            final(self).events() == old(self).events(),
            final(self).truncated() == old(self).truncated(),
    {
        let tid = self.tid(thread);
        self.span_starts.insert(id, SpanOpen { ts_us: now, name, cat, tid });
    }

    /// Records the span `id`, closed at `end`, if it is open; the result says
    /// whether the trace is to be written out now.
    pub fn on_close(&mut self, id: u64, end: u64, pid: u32) -> (spill: bool)
        requires
            old(self).wf(),
        ensures
            final(self).wf(),
            spill == (!old(self).truncated() && final(self).truncated()),
            final(self).open_spans() == old(self).open_spans().remove(id),
            final(self).tids() == old(self).tids(),
            old(self).open_spans().contains_key(id) ==> {
                &&& final(self).events() == with_event(
                    old(self).events(),
                    span_text(old(self).open_spans()[id], end, pid),
                )
                &&& final(self).truncated() == (old(self).truncated() || old(self).events().len()
                    == MAX_EVENTS)
            },
            !old(self).open_spans().contains_key(id) ==> {
                &&& final(self).events() == old(self).events()
                &&& final(self).truncated() == old(self).truncated()
            },
            old(self).all_json() ==> final(self).all_json(),
    {
        let open = match self.span_starts.remove(&id) {
            Some(open) => open,
            None => {
                assert(self.span_starts@ =~= old(self).span_starts@.remove(id));
                assert(old(self).all_json() ==> self.all_json()) by {
                    assert(self.events() == old(self).events());
                }
                return false;
            },
        };
        assert(self.span_starts@ =~= old(self).span_starts@.remove(id));
        let event = span_event(&open, end, pid);
        proof {
            span_text_is_json(open, end, pid);
            assert(old(self).all_json() ==> self.all_json()) by {
                assert(self.events() == old(self).events());
            }
        }
        self.push_event(event.as_str())
    }

    /// Records an event as an instant; the result says whether the trace is to be
    /// written out now.
    pub fn on_event(
        &mut self,
        fields: &FieldExtractor,
        meta: &EventMeta<'_>,
        thread: u64,
        now: u64,
        pid: u32,
    ) -> (spill: bool)
        requires
            old(self).wf(),
        ensures
            final(self).wf(),
            spill == (!old(self).truncated() && final(self).truncated()),
            final(self).tids() == numbered(old(self).tids(), thread),
            final(self).events() == with_event(
                old(self).events(),
                instant_text(
                    instant_name(fields@, *meta),
                    event_target(fields@, *meta),
                    meta.level,
                    now,
                    pid,
                    final(self).tids()[thread],
                ),
            ),
            final(self).truncated() == (old(self).truncated() || old(self).events().len()
                == MAX_EVENTS),
            final(self).open_spans() == old(self).open_spans(),
            old(self).all_json() ==> final(self).all_json(),
    {
        let name: &str = match &fields.message {
            Some(message) => message.as_str(),
            None => meta.name,
        };
        let target: &str = match &fields.log_target {
            Some(target) => compact_as_str(target),
            None => meta.target,
        };
        let tid = self.tid(thread);
        let event = instant_event(name, target, meta.level, now, pid, tid);
        proof {
            instant_text_is_json(name@, target@, meta.level, now, pid, tid);
            assert(old(self).all_json() ==> self.all_json()) by {
                assert(self.events() == old(self).events());
            }
        }
        self.push_event(event.as_str())
    }
}

/// Adds the members that every event ends in.
fn add_origin(event: &mut ObjectText, pid: u32, tid: u64)
    requires
        old(event).wf(),
    ensures
        final(event).wf(),
        final(event).members() == old(event).members().push(
            json_member("pid"@, decimal(pid as nat)),
        ).push(json_member("tid"@, decimal(tid as nat))).push(
            json_member("args"@, json_object(Seq::empty())),
        ),
{
    event.add_number("pid", pid as u64);
    event.add_number("tid", tid);
    let nothing = ObjectText::new().finish();
    event.add_value("args", nothing.as_str());
}

/// The JSON text of a complete event.
pub fn span_event(span: &SpanOpen, end: u64, pid: u32) -> (res: String)
    ensures
        res@ == span_text(*span, end, pid),
{
    let dur: u64 = if end >= span.ts_us {
        end - span.ts_us
    } else {
        0
    };
    let mut event = ObjectText::new();
    event.add_text("ph", "X");
    event.add_text("name", span.name);
    event.add_text("cat", span.cat);
    event.add_number("ts", span.ts_us);
    event.add_number("dur", dur);
    add_origin(&mut event, pid, span.tid);
    proof {
        assert(event.members() =~= seq![
            json_member("ph"@, json_string("X"@)),
            json_member("name"@, json_string(span.name@)),
            json_member("cat"@, json_string(span.cat@)),
            json_member("ts"@, decimal(span.ts_us as nat)),
            json_member("dur"@, decimal(duration(span.ts_us, end))),
            json_member("pid"@, decimal(pid as nat)),
            json_member("tid"@, decimal(span.tid as nat)),
            json_member("args"@, json_object(Seq::empty())),
        ]);
    }
    event.finish()
}

/// The JSON text of an instant event.
pub fn instant_event(name: &str, target: &str, level: Level, now: u64, pid: u32, tid: u64) -> (res:
    String)
    ensures
        res@ == instant_text(name@, target@, level, now, pid, tid),
{
    let mut event = ObjectText::new();
    event.add_text("ph", "i");
    event.add_text("scope", "t");
    event.add_text("name", name);
    event.add_text("cat", target);
    event.add_text("level", level_name(level.to_level_filter()));
    event.add_number("ts", now);
    add_origin(&mut event, pid, tid);
    proof {
        assert(event.members() =~= seq![
            json_member("ph"@, json_string("i"@)),
            json_member("scope"@, json_string("t"@)),
            json_member("name"@, json_string(name@)),
            json_member("cat"@, json_string(target@)),
            json_member("level"@, json_string(level_text(level.filter()))),
            json_member("ts"@, decimal(now as nat)),
            json_member("pid"@, decimal(pid as nat)),
            json_member("tid"@, decimal(tid as nat)),
            json_member("args"@, json_object(Seq::empty())),
        ]);
    }
    event.finish()
}

/// A member whose value is a string or a number is a JSON member.
proof fn lemma_flat_members(name: Seq<char>, value: Seq<char>, number: nat)
    ensures
        is_json_member(json_member(name, json_string(value)), 1),
        is_json_member(json_member(name, decimal(number)), 1),
        is_json_member(json_member(name, json_object(Seq::empty())), 1),
{
    flat_values_are_json(value, number, 1);
    object_is_json(Seq::empty(), 0);
    member_is_json(name, json_string(value), 1);
    member_is_json(name, decimal(number), 1);
    member_is_json(name, json_object(Seq::empty()), 1);
}

/// A complete event is JSON, whatever its names hold.
pub proof fn span_text_is_json(span: SpanOpen, end: u64, pid: u32)
    ensures
        is_json(span_text(span, end, pid), 2),
{
    lemma_flat_members("ph"@, "X"@, 0);
    lemma_flat_members("name"@, span.name@, 0);
    lemma_flat_members("cat"@, span.cat@, 0);
    lemma_flat_members("ts"@, ""@, span.ts_us as nat);
    lemma_flat_members("dur"@, ""@, duration(span.ts_us, end));
    lemma_flat_members("pid"@, ""@, pid as nat);
    lemma_flat_members("tid"@, ""@, span.tid as nat);
    lemma_flat_members("args"@, ""@, 0);
    let members = seq![
        json_member("ph"@, json_string("X"@)),
        json_member("name"@, json_string(span.name@)),
        json_member("cat"@, json_string(span.cat@)),
        json_member("ts"@, decimal(span.ts_us as nat)),
        json_member("dur"@, decimal(duration(span.ts_us, end))),
        json_member("pid"@, decimal(pid as nat)),
        json_member("tid"@, decimal(span.tid as nat)),
        json_member("args"@, json_object(Seq::empty())),
    ];
    object_is_json(members, 1);
    assert(span_text(span, end, pid) == json_object(members));
}

/// An instant event is JSON, whatever its texts hold.
pub proof fn instant_text_is_json(
    name: Seq<char>,
    target: Seq<char>,
    level: Level,
    ts: u64,
    pid: u32,
    tid: u64,
)
    ensures
        is_json(instant_text(name, target, level, ts, pid, tid), 2),
{
    lemma_flat_members("ph"@, "i"@, 0);
    lemma_flat_members("scope"@, "t"@, 0);
    lemma_flat_members("name"@, name, 0);
    lemma_flat_members("cat"@, target, 0);
    lemma_flat_members("level"@, level_text(level.filter()), 0);
    lemma_flat_members("ts"@, ""@, ts as nat);
    lemma_flat_members("pid"@, ""@, pid as nat);
    lemma_flat_members("tid"@, ""@, tid as nat);
    lemma_flat_members("args"@, ""@, 0);
    let members: Seq<Seq<char>> = seq![
        json_member("ph"@, json_string("i"@)),
        json_member("scope"@, json_string("t"@)),
        json_member("name"@, json_string(name)),
        json_member("cat"@, json_string(target)),
        json_member("level"@, json_string(level_text(level.filter()))),
        json_member("ts"@, decimal(ts as nat)),
        json_member("pid"@, decimal(pid as nat)),
        json_member("tid"@, decimal(tid as nat)),
        json_member("args"@, json_object(Seq::empty())),
    ];
    object_is_json(members, 1);
    assert(instant_text(name, target, level, ts, pid, tid) == json_object(members));
}

/// A rendered trace of JSON events is JSON.
pub proof fn trace_is_json(events: Seq<Seq<char>>, truncated: bool)
    requires
        forall|i: int| 0 <= i < events.len() ==> is_json(#[trigger] events[i], 2),
    ensures
        is_json(trace_text(events, truncated), 4),
{
    array_is_json(events, 2);
    member_is_json("traceEvents"@, json_array(events), 3);
    let only = seq![json_member("note"@, json_string(TRUNCATION_NOTE@))];
    flat_values_are_json(TRUNCATION_NOTE@, 0, 2);
    member_is_json("note"@, json_string(TRUNCATION_NOTE@), 2);
    object_is_json(only, 2);
    member_is_json("metadata"@, json_object(only), 3);
    let traced = json_member("traceEvents"@, json_array(events));
    let members = if truncated {
        seq![traced, json_member("metadata"@, json_object(only))]
    } else {
        seq![traced]
    };
    assert(trace_text(events, truncated) == json_object(members));
    object_is_json(members, 3);
}

/// What is recorded stays: an event is added behind the others, or the trace is
/// full and stays as it is.
pub proof fn recorded_events_stay(events: Seq<Seq<char>>, event: Seq<char>)
    ensures
        events.is_prefix_of(with_event(events, event)),
        events.len() < MAX_EVENTS ==> with_event(events, event).last() == event,
        events.len() >= MAX_EVENTS ==> with_event(events, event) == events,
{
    assert(with_event(events, event).subrange(0, events.len() as int) =~= events);
}

/// A trace is spilled at most once: after the offer of an event that is refused,
/// no later offer can be the first to be refused.
pub proof fn spill_happens_once(
    events: Seq<Seq<char>>,
    truncated: bool,
    event: Seq<char>,
    later: Seq<char>,
)
    requires
        first_refused(events, truncated, event),
    ensures
        !first_refused(with_event(events, event), true, later),
        with_event(events, event) == events,
{
}

/// A thread keeps its number whatever other threads are met.
pub proof fn thread_numbers_stay(tids: Map<u64, u64>, thread: u64, other: u64)
    requires
        tids.contains_key(thread),
    ensures
        numbered(tids, other).contains_key(thread),
        numbered(tids, other)[thread] == tids[thread],
        numbered(tids, thread) == tids,
{
}

} // verus!
