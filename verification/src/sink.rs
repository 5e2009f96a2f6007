//! The file sink: records on their way through a bounded channel to the thread
//! that writes them.
//!
//! Producers never block: a record that finds the channel full is dropped and
//! counted. Requests to flush, reconfigure or stop the writer are retried until
//! they are taken or their time is up.
use vstd::prelude::*;

use crate::external::{compact_as_str, compact_from, compact_text, try_send, CompactText};
use crate::fields::{event_target, EventMeta, FieldExtractor};
use crate::format::LogRecord;
use crate::level::Level;
use flexi_logger::writers::FileLogWriterBuilder;
use std::sync::atomic::AtomicU64;
use std::sync::mpsc::SyncSender;

verus! {

/// How many messages the channel to the writer holds.
pub const DEFAULT_CHANNEL_CAPACITY: usize = 1024;

/// The time that a request to the writer may take, in nanoseconds.
pub const CONTROL_TIMEOUT_NANOS: u128 = 2_000_000_000;

/// The time between two attempts to send a request, in nanoseconds.
pub const RETRY_PAUSE_NANOS: u128 = 5_000_000;

/// What a file line needs of a record.
pub struct OwnedRecord {
    pub level: Level,
    pub target: CompactText,
    pub message: String,
}

impl OwnedRecord {
    /// A record.
    pub fn new(level: Level, target: &str, message: &str) -> (res: Self)
        ensures
            res.level == level,
            compact_text(res.target) == target@,
            res.message@ == message@,
    {
        OwnedRecord { level, target: compact_from(target), message: message.to_owned() }
    }

    /// The record of an event: the target that the bridge from `log` attached, or
    /// that of the call site; an event without a message has an empty one.
    pub fn of_event(fields: FieldExtractor, meta: &EventMeta<'_>) -> (res: Self)
        ensures
            res.level == meta.level,
            compact_text(res.target) == event_target(fields@, *meta),
            res.message@ == match fields@.message {
                Some(message) => message,
                None => Seq::<char>::empty(),
            },
    {
        OwnedRecord {
            level: meta.level,
            target: match fields.log_target {
                Some(target) => target,
                None => compact_from(meta.target),
            },
            message: match fields.message {
                Some(message) => message,
                None => String::new(),
            },
        }
    }

    /// The record as a log line shows it: its origin is not known.
    pub fn log_record(&self) -> (res: LogRecord<'_>)
        ensures
            res.level == self.level,
            res.target@ == compact_text(self.target),
            res.message@ == self.message@,
            res.module is None,
            res.file is None,
            res.line is None,
    {
        LogRecord {
            level: self.level,
            target: compact_as_str(&self.target),
            message: self.message.as_str(),
            module: None,
            file: None,
            line: None,
        }
    }
}

/// A message to the writer.
pub enum SinkMsg {
    Write(OwnedRecord),
    /// Works off everything queued before it, then flushes the file.
    Flush(SyncSender<()>),
    /// Rebuilds the writer with new rotation settings.
    Reset(Box<FileLogWriterBuilder>, SyncSender<Result<(), String>>),
    /// Flushes and ends the writer thread.
    Shutdown(SyncSender<()>),
}

/// What became of an attempt to send a message.
pub enum SendOutcome<T> {
    Sent,
    /// The channel was full; the message comes back.
    Full(T),
    /// Nobody receives any more; the message comes back.
    Disconnected(T),
}

/// What became of a record.
#[derive(Clone, Copy, Debug, PartialEq, Eq, Structural)]
pub enum Delivery {
    Queued,
    Dropped,
    WriterGone,
}

/// What an attempt to send makes of a record: one that finds the channel full is
/// dropped.
pub open spec fn delivery<T>(outcome: SendOutcome<T>) -> Delivery {
    match outcome {
        SendOutcome::Sent => Delivery::Queued,
        SendOutcome::Full(_) => Delivery::Dropped,
        SendOutcome::Disconnected(_) => Delivery::WriterGone,
    }
}

/// What an attempt to send makes of a record.
pub fn delivery_of<T>(outcome: &SendOutcome<T>) -> (res: Delivery)
    ensures
        res == delivery(*outcome),
{
    match outcome {
        SendOutcome::Sent => Delivery::Queued,
        SendOutcome::Full(_) => Delivery::Dropped,
        SendOutcome::Disconnected(_) => Delivery::WriterGone,
    }
}

/// How much a delivery adds to the count of dropped records. Records that nobody
/// receives any more are not counted.
pub open spec fn added(delivery: Delivery) -> u64 {
    if delivery is Dropped {
        1
    } else {
        0
    }
}

/// How much a delivery adds to the count of dropped records.
pub fn drops(delivery: Delivery) -> (res: u64)
    ensures
        res == added(delivery),
{
    match delivery {
        Delivery::Dropped => 1,
        _ => 0,
    }
}

/// Whether `tx`, asked to take `msg`, may have answered `outcome`.
pub closed spec fn answered<T>(tx: SyncSender<T>, msg: T, outcome: SendOutcome<T>) -> bool {
    call_ensures(try_send::<T>, (&tx, msg), outcome)
}

/// A channel that does not take a message gives that message back.
pub proof fn refused_messages_come_back<T>(tx: SyncSender<T>, msg: T, outcome: SendOutcome<T>)
    requires
        answered(tx, msg, outcome),
    ensures
        outcome matches SendOutcome::Full(back) ==> back == msg,
        outcome matches SendOutcome::Disconnected(back) ==> back == msg,
{
}

/// Where a channel answered, it was asked to take the message.
proof fn answers_come_from_the_channel<T>(tx: SyncSender<T>, msg: T, outcome: SendOutcome<T>)
    requires
        answered(tx, msg, outcome),
    ensures
        call_ensures(try_send::<T>, (&tx, msg), outcome),
{
}

/// One attempt to send `msg`. It does not block; where the message is not taken
/// it comes back.
pub fn attempt<T>(tx: &SyncSender<T>, msg: T) -> (outcome: SendOutcome<T>)
    ensures
        answered(*tx, msg, outcome),
        match outcome {
            SendOutcome::Sent => true,
            SendOutcome::Full(back) => back == msg,
            SendOutcome::Disconnected(back) => back == msg,
        },
{
    answer_of(try_send::<T>, tx, msg)
}

/// The answer of `send` to being called with `msg`.
fn answer_of<T, F: FnOnce(&SyncSender<T>, T) -> SendOutcome<T>>(
    send: F,
    tx: &SyncSender<T>,
    msg: T,
) -> (outcome: SendOutcome<T>)
    requires
        send.requires((tx, msg)),
    ensures
        send.ensures((tx, msg), outcome),
{
    send(tx, msg)
}

/// Whether `dropped`, told to add `count` to itself, may have held `before`.
pub closed spec fn counted(dropped: AtomicU64, count: u64, before: u64) -> bool {
    call_ensures(
        AtomicU64::fetch_add,
        (&dropped, count, std::sync::atomic::Ordering::Relaxed),
        before,
    )
}

/// Where the count was raised, it was told to add that much to itself.
pub proof fn counts_are_raised(dropped: AtomicU64, count: u64, before: u64)
    requires
        counted(dropped, count, before),
    ensures
        call_ensures(
            AtomicU64::fetch_add,
            (&dropped, count, std::sync::atomic::Ordering::Relaxed),
            before,
        ),
{
}

/// The value before `raise` was told to add `count`.
fn value_before<F: FnOnce(&AtomicU64, u64, std::sync::atomic::Ordering) -> u64>(
    raise: F,
    dropped: &AtomicU64,
    count: u64,
) -> (before: u64)
    requires
        raise.requires((dropped, count, std::sync::atomic::Ordering::Relaxed)),
    ensures
        raise.ensures((dropped, count, std::sync::atomic::Ordering::Relaxed), before),
{
    raise(dropped, count, std::sync::atomic::Ordering::Relaxed)
}

/// Queues `msg` without blocking. A message that finds the channel full is dropped
/// and adds one to `dropped`; every other one adds nothing.
pub fn enqueue(tx: &SyncSender<SinkMsg>, dropped: &AtomicU64, msg: SinkMsg) -> (res: Delivery)
    ensures
        exists|outcome: SendOutcome<SinkMsg>|
            #[trigger] answered(*tx, msg, outcome) && res == delivery(outcome),
        exists|before: u64| #[trigger] counted(*dropped, added(res), before),
        res is Dropped ==> exists|before: u64| #[trigger] counted(*dropped, 1, before),
        !(res is Dropped) ==> exists|before: u64| #[trigger] counted(*dropped, 0, before),
        res is Queued ==> answered(*tx, msg, SendOutcome::Sent),
        res is Dropped ==> answered(*tx, msg, SendOutcome::Full(msg)),
        res is WriterGone ==> answered(*tx, msg, SendOutcome::Disconnected(msg)),
{
    let ghost sent = msg;
    let outcome = attempt(tx, msg);
    let res = delivery_of(&outcome);
    let before: u64 = value_before(AtomicU64::fetch_add, dropped, drops(res));
    assert(counted(*dropped, added(res), before));
    assert(answered(*tx, sent, outcome));
    res
}

/// What to do after an attempt to send a request.
pub enum RetryStep<T> {
    /// The request was taken.
    Done,
    /// It was not, and no further attempt is made.
    GiveUp(T),
    /// Pause for [`RETRY_PAUSE_NANOS`], then try again.
    PauseThenRetry(T),
}

/// What to do after an attempt to send a request, `elapsed` nanoseconds after the
/// first one began: a full channel is tried again as long as the pause ends
/// before the time is up.
pub open spec fn retry_step<T>(outcome: SendOutcome<T>, elapsed: u128, timeout: u128) -> RetryStep<
    T,
> {
    match outcome {
        SendOutcome::Sent => RetryStep::Done,
        SendOutcome::Full(back) => if elapsed + RETRY_PAUSE_NANOS >= timeout {
            RetryStep::GiveUp(back)
        } else {
            RetryStep::PauseThenRetry(back)
        },
        SendOutcome::Disconnected(back) => RetryStep::GiveUp(back),
    }
}

/// What to do after an attempt to send a request.
pub fn send_with_deadline<T>(outcome: SendOutcome<T>, elapsed: u128, timeout: u128) -> (step:
    RetryStep<T>)
    ensures
        step == retry_step(outcome, elapsed, timeout),
{
    match outcome {
        SendOutcome::Sent => RetryStep::Done,
        SendOutcome::Full(back) => {
            if timeout <= RETRY_PAUSE_NANOS || elapsed >= timeout - RETRY_PAUSE_NANOS {
                RetryStep::GiveUp(back)
            } else {
                RetryStep::PauseThenRetry(back)
            }
        },
        SendOutcome::Disconnected(back) => RetryStep::GiveUp(back),
    }
}

/// What is left of the time for a request after `elapsed` of it was spent.
pub open spec fn time_left(elapsed: u128, timeout: u128) -> u128 {
    if elapsed >= timeout {
        0
    } else {
        (timeout - elapsed) as u128
    }
}

/// The time to wait for the answer to a request that took `elapsed` nanoseconds to
/// send.
pub fn ack_budget(elapsed: u128, timeout: u128) -> (left: u128)
    ensures
        left == time_left(elapsed, timeout),
{
    if elapsed >= timeout {
        0
    } else {
        timeout - elapsed
    }
}

/// What the writer has to do with its file.
pub enum WriterWork {
    Write(OwnedRecord),
    Flush,
    /// Where the new settings are refused, the old ones stay.
    Reset(Box<FileLogWriterBuilder>),
}

/// Who is told when the work is done, and what.
pub enum Acknowledge {
    Nobody,
    /// That it is done, whether or not it succeeded.
    Done(SyncSender<()>),
    /// Whether it succeeded.
    Outcome(SyncSender<Result<(), String>>),
}

/// What the writer does about a message: first the work, then the
/// acknowledgement; after a `shutdown` nothing more.
pub struct WriterStep {
    pub work: WriterWork,
    pub ack: Acknowledge,
    pub shutdown: bool,
}

/// What the writer does about a message.
pub open spec fn step_for(msg: SinkMsg) -> WriterStep {
    match msg {
        SinkMsg::Write(record) => WriterStep {
            work: WriterWork::Write(record),
            ack: Acknowledge::Nobody,
            shutdown: false,
        },
        SinkMsg::Flush(ack) => WriterStep {
            work: WriterWork::Flush,
            ack: Acknowledge::Done(ack),
            shutdown: false,
        },
        SinkMsg::Reset(builder, ack) => WriterStep {
            work: WriterWork::Reset(builder),
            ack: Acknowledge::Outcome(ack),
            shutdown: false,
        },
        SinkMsg::Shutdown(ack) => WriterStep {
            work: WriterWork::Flush,
            ack: Acknowledge::Done(ack),
            shutdown: true,
        },
    }
}

/// What the writer does about a message.
pub fn handle_msg(msg: SinkMsg) -> (step: WriterStep)
    ensures
        step == step_for(msg),
        msg matches SinkMsg::Write(record) ==> {
            &&& step.work matches WriterWork::Write(written)
            &&& written.level == record.level
            &&& written.target == record.target
            &&& written.message@ == record.message@
            &&& written == record
            &&& step.ack is Nobody
            &&& !step.shutdown
        },
        msg matches SinkMsg::Flush(ack) ==> step.work is Flush && step.ack == Acknowledge::Done(ack)
            && !step.shutdown,
        msg matches SinkMsg::Reset(builder, ack) ==> step.work == WriterWork::Reset(builder)
            && step.ack == Acknowledge::Outcome(ack) && !step.shutdown,
        msg matches SinkMsg::Shutdown(ack) ==> step.work is Flush && step.ack
            == Acknowledge::Done(ack) && step.shutdown,
{
    match msg {
        SinkMsg::Write(record) => WriterStep {
            work: WriterWork::Write(record),
            ack: Acknowledge::Nobody,
            shutdown: false,
        },
        SinkMsg::Flush(ack) => WriterStep {
            work: WriterWork::Flush,
            ack: Acknowledge::Done(ack),
            shutdown: false,
        },
        SinkMsg::Reset(builder, ack) => WriterStep {
            work: WriterWork::Reset(builder),
            ack: Acknowledge::Outcome(ack),
            shutdown: false,
        },
        SinkMsg::Shutdown(ack) => WriterStep {
            work: WriterWork::Flush,
            ack: Acknowledge::Done(ack),
            shutdown: true,
        },
    }
}

/// Tells whoever is to be told that a step is done, with its result where that is
/// asked for. It does not block; says what became of the message, if there was one.
pub fn acknowledge(ack: Acknowledge, result: Result<(), String>) -> (res: Option<Delivery>)
    ensures
        match ack {
            Acknowledge::Nobody => res is None,
            Acknowledge::Done(tx) => exists|outcome: SendOutcome<()>|
                #[trigger] answered(tx, (), outcome) && res == Some(delivery(outcome)),
            Acknowledge::Outcome(tx) => exists|outcome: SendOutcome<Result<(), String>>|
                #[trigger] answered(tx, result, outcome) && res == Some(delivery(outcome)),
        },
{
    match ack {
        Acknowledge::Nobody => None,
        Acknowledge::Done(tx) => {
            let outcome = attempt(&tx, ());
            assert(answered(tx, (), outcome));
            Some(delivery_of(&outcome))
        },
        Acknowledge::Outcome(tx) => {
            let ghost sent = result;
            let outcome = attempt(&tx, result);
            assert(answered(tx, sent, outcome));
            Some(delivery_of(&outcome))
        },
    }
}

/// What has just happened in the writer thread.
#[derive(Clone, Copy, Debug, PartialEq, Eq, Structural)]
pub enum LoopEvent {
    /// It has begun.
    Started,
    /// A message was worked off.
    Handled { shutdown: bool },
    /// Nothing more was queued.
    NothingQueued,
    /// Nothing will ever be queued again.
    Closed,
}

/// What the writer thread does next.
#[derive(Clone, Copy, Debug, PartialEq, Eq, Structural)]
pub enum LoopAction {
    /// Sleep until there is a message.
    WaitForMessage,
    /// Take a message if one is queued already.
    TakeQueued,
    /// End.
    Stop,
}

/// What the writer thread does next. It sleeps only where the queue has run dry,
/// so that a burst costs one wakeup.
pub open spec fn next_action(event: LoopEvent) -> LoopAction {
    match event {
        LoopEvent::Started => LoopAction::WaitForMessage,
        LoopEvent::Handled { shutdown: true } => LoopAction::Stop,
        LoopEvent::Handled { shutdown: false } => LoopAction::TakeQueued,
        LoopEvent::NothingQueued => LoopAction::WaitForMessage,
        LoopEvent::Closed => LoopAction::Stop,
    }
}

/// What the writer thread does next.
pub fn writer_loop(event: LoopEvent) -> (action: LoopAction)
    ensures
        action == next_action(event),
{
    match event {
        LoopEvent::Started => LoopAction::WaitForMessage,
        LoopEvent::Handled { shutdown } => if shutdown {
            LoopAction::Stop
        } else {
            LoopAction::TakeQueued
        },
        LoopEvent::NothingQueued => LoopAction::WaitForMessage,
        LoopEvent::Closed => LoopAction::Stop,
    }
}

/// Whether a request was taken, after the last attempt to send it.
pub open spec fn taken<T>(last: RetryStep<T>) -> bool {
    last is Done
}

/// Whether a flush or a shutdown succeeded: the request was taken, and
/// acknowledged in time.
pub open spec fn succeeded(sent: bool, acknowledged: bool) -> bool {
    sent && acknowledged
}

/// Whether a flush or a shutdown succeeded.
pub fn control_outcome(sent: bool, acknowledged: bool) -> (res: bool)
    ensures
        res == succeeded(sent, acknowledged),
{
    sent && acknowledged
}

/// Whether `res` is the outcome of a reset, given whether the request was taken
/// and the writer's answer, if it came in time.
pub open spec fn is_reset_outcome(
    sent: bool,
    answer: Option<Result<(), String>>,
    res: Result<(), String>,
) -> bool {
    if !sent {
        res is Err && res->Err_0@ == "log writer channel unavailable for reset"@
    } else {
        match answer {
            Some(result) => res == result,
            None => res is Err && res->Err_0@ == "timed out waiting for log writer reset"@,
        }
    }
}

/// Whether a reset succeeded, given whether the request was taken and the
/// writer's answer, if it came in time.
pub fn reset_outcome(sent: bool, answer: Option<Result<(), String>>) -> (res: Result<(), String>)
    ensures
        is_reset_outcome(sent, answer, res),
{
    if !sent {
        return Err("log writer channel unavailable for reset".to_owned());
    }
    match answer {
        Some(result) => result,
        None => Err("timed out waiting for log writer reset".to_owned()),
    }
}

/// The steps of the writer that works off a queue: the messages in order, as long
/// as it goes on.
pub open spec fn steps_for(queue: Seq<SinkMsg>) -> Seq<WriterStep>
    decreases queue.len(),
{
    if queue.len() == 0 {
        Seq::empty()
    } else {
        let step = step_for(queue[0]);
        if next_action(LoopEvent::Handled { shutdown: step.shutdown }) is Stop {
            seq![step]
        } else {
            seq![step] + steps_for(queue.skip(1))
        }
    }
}

/// The writer sleeps only before its first message and where the queue has run
/// dry, never with a message worked off a moment ago.
pub proof fn writer_sleeps_on_a_dry_queue(event: LoopEvent)
    ensures
        next_action(event) is WaitForMessage <==> event is Started || event is NothingQueued,
{
}

/// A flush drains: before its file is flushed, everything queued before it has
/// been worked off, in order, unless the writer was shut down before.
pub proof fn flush_drains(queue: Seq<SinkMsg>, i: int)
    requires
        0 <= i < queue.len(),
        forall|j: int| 0 <= j < i ==> !((#[trigger] queue[j]) is Shutdown),
    ensures
        steps_for(queue).len() > i,
        forall|j: int| 0 <= j <= i ==> #[trigger] steps_for(queue)[j] == step_for(queue[j]),
        queue[i] is Flush ==> steps_for(queue)[i].work is Flush && steps_for(queue)[i].ack
            == Acknowledge::Done(queue[i]->Flush_0),
    decreases i,
{
    if i > 0 {
        let rest = queue.skip(1);
        assert(!(queue[0] is Shutdown));
        assert forall|j: int| 0 <= j < i - 1 implies !((#[trigger] rest[j]) is Shutdown) by {
            assert(rest[j] == queue[j + 1]);
        }
        flush_drains(rest, i - 1);
        let steps = steps_for(queue);
        assert forall|j: int| 0 <= j <= i implies #[trigger] steps[j] == step_for(queue[j]) by {
            if j > 0 {
                assert(steps[j] == steps_for(rest)[j - 1]);
                assert(rest[j - 1] == queue[j]);
            }
        }
    }
}

/// A shutdown is the end: the file is flushed and nothing behind it is worked
/// off.
pub proof fn shutdown_ends(queue: Seq<SinkMsg>, i: int)
    requires
        0 <= i < queue.len(),
        queue[i] is Shutdown,
        forall|j: int| 0 <= j < i ==> !((#[trigger] queue[j]) is Shutdown),
    ensures
        steps_for(queue).len() == i + 1,
        steps_for(queue).last().work is Flush,
        steps_for(queue).last().shutdown,
    decreases i,
{
    if i > 0 {
        let rest = queue.skip(1);
        assert(!(queue[0] is Shutdown));
        assert forall|j: int| 0 <= j < i - 1 implies !((#[trigger] rest[j]) is Shutdown) by {
            assert(rest[j] == queue[j + 1]);
        }
        assert(rest[i - 1] == queue[i]);
        shutdown_ends(rest, i - 1);
    }
}

/// Requests are bounded in time: a pause is only made where it ends before the
/// time is up, so with `n` pauses behind it, a request that is tried again has
/// time for one more.
pub proof fn retries_are_bounded<T>(outcome: SendOutcome<T>, elapsed: u128, timeout: u128, n: nat)
    requires
        n * RETRY_PAUSE_NANOS <= elapsed,
        retry_step(outcome, elapsed, timeout) is PauseThenRetry,
    ensures
        elapsed + RETRY_PAUSE_NANOS < timeout,
        (n + 1) * RETRY_PAUSE_NANOS < timeout,
{
}

/// A request takes no longer than its time: sending it and waiting for the answer
/// stay within the timeout together, and where sending has used the time up there
/// is no wait at all. While a request is retried there is time left after the
/// pause.
pub proof fn requests_stay_within_their_time<T>(
    outcome: SendOutcome<T>,
    elapsed: u128,
    waited: u128,
    timeout: u128,
)
    requires
        waited <= time_left(elapsed, timeout),
    ensures
        elapsed <= timeout ==> elapsed + waited <= timeout,
        elapsed >= timeout ==> waited == 0,
        retry_step(outcome, elapsed, timeout) is PauseThenRetry ==> RETRY_PAUSE_NANOS < time_left(
            elapsed,
            timeout,
        ),
{
}

/// Nothing is lost in a refusal: the request that is given up or tried again is
/// the one that the channel gave back.
pub proof fn refused_request_comes_back<T>(outcome: SendOutcome<T>, elapsed: u128, timeout: u128)
    ensures
        retry_step(outcome, elapsed, timeout) matches RetryStep::GiveUp(back) ==> outcome
            == SendOutcome::Full(back) || outcome == SendOutcome::Disconnected(back),
        retry_step(outcome, elapsed, timeout) matches RetryStep::PauseThenRetry(back) ==> outcome
            == SendOutcome::Full(back),
        retry_step(outcome, elapsed, timeout) is Done <==> outcome is Sent,
{
}

/// How many of the messages that were offered, with the given outcomes, were
/// queued.
pub open spec fn queued<T>(outcomes: Seq<SendOutcome<T>>) -> nat
    decreases outcomes.len(),
{
    if outcomes.len() == 0 {
        0
    } else {
        queued(outcomes.drop_last()) + if delivery(outcomes.last()) is Queued {
            1nat
        } else {
            0nat
        }
    }
}

/// How much the messages that were offered, with the given outcomes, added to the
/// count of dropped records.
pub open spec fn total_added<T>(outcomes: Seq<SendOutcome<T>>) -> nat
    decreases outcomes.len(),
{
    if outcomes.len() == 0 {
        0
    } else {
        total_added(outcomes.drop_last()) + added(delivery(outcomes.last())) as nat
    }
}

/// No record goes missing: as long as somebody receives, every record is queued or
/// counted as dropped, and none is both.
pub proof fn every_record_is_queued_or_counted<T>(outcomes: Seq<SendOutcome<T>>)
    requires
        forall|i: int| 0 <= i < outcomes.len() ==> !((#[trigger] outcomes[i]) is Disconnected),
    ensures
        queued(outcomes) + total_added(outcomes) == outcomes.len(),
    decreases outcomes.len(),
{
    if outcomes.len() > 0 {
        let front = outcomes.drop_last();
        assert forall|i: int| 0 <= i < front.len() implies !((#[trigger] front[i])
            is Disconnected) by {
            assert(front[i] == outcomes[i]);
        }
        every_record_is_queued_or_counted(front);
        assert(!(outcomes[outcomes.len() - 1] is Disconnected));
    }
}

/// Once the writer is gone every request fails at once, whatever else comes back,
/// and records are neither queued nor counted.
pub proof fn nothing_succeeds_without_a_writer<T>(
    outcome: SendOutcome<T>,
    elapsed: u128,
    timeout: u128,
    acknowledged: bool,
    answer: Option<Result<(), String>>,
    res: Result<(), String>,
)
    requires
        outcome is Disconnected,
        is_reset_outcome(taken(retry_step(outcome, elapsed, timeout)), answer, res),
    ensures
        retry_step(outcome, elapsed, timeout) is GiveUp,
        !succeeded(taken(retry_step(outcome, elapsed, timeout)), acknowledged),
        res is Err,
        delivery(outcome) is WriterGone,
        added(delivery(outcome)) == 0,
{
}

/// Whether one of the steps ends with the given acknowledgement.
pub open spec fn acknowledged_by(steps: Seq<WriterStep>, ack: Acknowledge) -> bool {
    exists|k: int| 0 <= k < steps.len() && (#[trigger] steps[k]).ack == ack
}

/// Whether the request at `i` has an acknowledgement of its own: one that no other
/// message of the queue asks for.
pub open spec fn own_acknowledgement(queue: Seq<SinkMsg>, i: int) -> bool {
    &&& !(queue[i] is Write)
    &&& forall|j: int|
        0 <= j < queue.len() && j != i ==> step_for(#[trigger] queue[j]).ack != step_for(
            queue[i],
        ).ack
}

/// The writer does the steps of the messages in order.
proof fn lemma_steps(queue: Seq<SinkMsg>)
    ensures
        steps_for(queue).len() <= queue.len(),
        forall|j: int|
            0 <= j < steps_for(queue).len() ==> #[trigger] steps_for(queue)[j] == step_for(
                queue[j],
            ),
        forall|j: int|
            0 <= j < steps_for(queue).len() - 1 ==> !((#[trigger] queue[j]) is Shutdown),
    decreases queue.len(),
{
    if queue.len() > 0 {
        let rest = queue.skip(1);
        lemma_steps(rest);
        let steps = steps_for(queue);
        assert forall|j: int| 0 <= j < steps.len() implies #[trigger] steps[j] == step_for(
            queue[j],
        ) by {
            if j > 0 {
                assert(steps[j] == steps_for(rest)[j - 1]);
                assert(rest[j - 1] == queue[j]);
            }
        }
        assert forall|j: int| 0 <= j < steps.len() - 1 implies !((#[trigger] queue[j])
            is Shutdown) by {
            if j > 0 {
                assert(rest[j - 1] == queue[j]);
            }
        }
    }
}

/// A request that succeeds was reached: where the writer has done the first `done`
/// of its steps and the request at `i` succeeds by the acknowledgement of one of
/// them, everything queued before the request has been worked off, in order, and
/// after it the request itself. So a flush that succeeds comes after the work on
/// every record queued before it. A request that is not taken or not acknowledged
/// does not succeed.
pub proof fn requests_succeed_after_what_was_queued(
    queue: Seq<SinkMsg>,
    i: int,
    done: int,
    sent: bool,
)
    requires
        0 <= i < queue.len(),
        own_acknowledgement(queue, i),
        0 <= done <= steps_for(queue).len(),
        succeeded(
            sent,
            acknowledged_by(steps_for(queue).take(done), step_for(queue[i]).ack),
        ),
    ensures
        sent,
        i < done,
        forall|j: int|
            0 <= j <= i ==> #[trigger] steps_for(queue).take(done)[j] == step_for(queue[j]),
        queue[i] is Flush || queue[i] is Shutdown ==> steps_for(queue).take(done)[i].work is Flush,
{
    lemma_steps(queue);
    let steps = steps_for(queue).take(done);
    let ack = step_for(queue[i]).ack;
    let k = choose|k: int| 0 <= k < steps.len() && (#[trigger] steps[k]).ack == ack;
    assert(steps[k] == steps_for(queue)[k]);
    assert(step_for(queue[k]).ack == ack);
    assert(k == i);
    assert forall|j: int| 0 <= j <= i implies #[trigger] steps[j] == step_for(queue[j]) by {
        assert(steps[j] == steps_for(queue)[j]);
    }
}

/// Behind a shutdown nothing is worked off and no request succeeds, even one that
/// was still taken: a flush and a shutdown are not acknowledged, a reset is not
/// answered, and a record that was queued is not counted either.
pub proof fn nothing_succeeds_behind_a_shutdown(
    queue: Seq<SinkMsg>,
    s: int,
    i: int,
    done: int,
    sent: bool,
    res: Result<(), String>,
)
    requires
        0 <= s < i < queue.len(),
        queue[s] is Shutdown,
        0 <= done <= steps_for(queue).len(),
        is_reset_outcome(sent, None, res),
    ensures
        done <= i,
        own_acknowledgement(queue, i) ==> !acknowledged_by(
            steps_for(queue).take(done),
            step_for(queue[i]).ack,
        ),
        own_acknowledgement(queue, i) ==> !succeeded(
            sent,
            acknowledged_by(steps_for(queue).take(done), step_for(queue[i]).ack),
        ),
        res is Err,
        added(Delivery::Queued) == 0,
{
    lemma_steps(queue);
    if done > i {
        assert(queue[s] is Shutdown);
    }
    if own_acknowledgement(queue, i) && acknowledged_by(
        steps_for(queue).take(done),
        step_for(queue[i]).ack,
    ) {
        requests_succeed_after_what_was_queued(queue, i, done, true);
    }
}

/// How the writer answers each kind of message: a record is written as it was
/// queued, with its level, target and message, and nobody is told; a flush flushes
/// and a reset rebuilds with the settings that it brings, and who asked is told; a
/// shutdown flushes, tells who asked, and is the only message that ends the writer.
pub proof fn messages_are_worked_off_as_they_ask(msg: SinkMsg)
    ensures
        match msg {
            SinkMsg::Write(record) => step_for(msg) == (WriterStep {
                work: WriterWork::Write(
                    (OwnedRecord {
                        level: record.level,
                        target: record.target,
                        message: record.message,
                    }),
                ),
                ack: Acknowledge::Nobody,
                shutdown: false,
            }),
            SinkMsg::Flush(ack) => step_for(msg) == (WriterStep {
                work: WriterWork::Flush,
                ack: Acknowledge::Done(ack),
                shutdown: false,
            }),
            SinkMsg::Reset(builder, ack) => step_for(msg) == (WriterStep {
                work: WriterWork::Reset(builder),
                ack: Acknowledge::Outcome(ack),
                shutdown: false,
            }),
            SinkMsg::Shutdown(ack) => step_for(msg) == (WriterStep {
                work: WriterWork::Flush,
                ack: Acknowledge::Done(ack),
                shutdown: true,
            }),
        },
{
}

/// The records that steps write, in order.
pub open spec fn records_written(steps: Seq<WriterStep>) -> Seq<OwnedRecord>
    decreases steps.len(),
{
    if steps.len() == 0 {
        Seq::empty()
    } else {
        let before = records_written(steps.drop_last());
        match steps.last().work {
            WriterWork::Write(record) => before.push(record),
            _ => before,
        }
    }
}

/// The records that a queue holds, in order.
pub open spec fn records_queued(queue: Seq<SinkMsg>) -> Seq<OwnedRecord>
    decreases queue.len(),
{
    if queue.len() == 0 {
        Seq::empty()
    } else {
        let before = records_queued(queue.drop_last());
        match queue.last() {
            SinkMsg::Write(record) => before.push(record),
            _ => before,
        }
    }
}

/// The records that are written are those that were queued, each as it was, in
/// their order: all of them, or those up to a shutdown.
pub proof fn queued_records_are_written(queue: Seq<SinkMsg>)
    ensures
        records_written(steps_for(queue)) == records_queued(
            queue.take(steps_for(queue).len() as int),
        ),
        (forall|j: int| 0 <= j < queue.len() ==> !((#[trigger] queue[j]) is Shutdown))
            ==> records_written(steps_for(queue)) == records_queued(queue),
{
    lemma_steps(queue);
    let steps = steps_for(queue);
    lemma_records(queue.take(steps.len() as int), steps);
    if forall|j: int| 0 <= j < queue.len() ==> !((#[trigger] queue[j]) is Shutdown) {
        if queue.len() > 0 {
            flush_drains(queue, queue.len() - 1);
        }
        assert(queue.take(steps.len() as int) =~= queue);
    }
}

/// Steps that answer messages one by one write the records among them.
proof fn lemma_records(queue: Seq<SinkMsg>, steps: Seq<WriterStep>)
    requires
        steps.len() == queue.len(),
        forall|j: int| 0 <= j < steps.len() ==> #[trigger] steps[j] == step_for(queue[j]),
    ensures
        records_written(steps) == records_queued(queue),
    decreases steps.len(),
{
    if steps.len() > 0 {
        let last = steps.len() - 1;
        assert forall|j: int| 0 <= j < last implies #[trigger] steps.drop_last()[j] == step_for(
            queue.drop_last()[j],
        ) by {
            assert(steps.drop_last()[j] == steps[j]);
        }
        lemma_records(queue.drop_last(), steps.drop_last());
        assert(steps[last] == step_for(queue[last]));
    }
}

/// What an attempt to send makes of a record, and what it adds to the count: a
/// record that is taken is queued, one that finds the channel full is dropped and
/// counts one, one that nobody receives counts nothing.
pub proof fn outcomes_make_deliveries<T>(back: T)
    ensures
        delivery(SendOutcome::<T>::Sent) is Queued,
        delivery(SendOutcome::Full(back)) is Dropped,
        delivery(SendOutcome::Disconnected(back)) is WriterGone,
        added(Delivery::Queued) == 0,
        added(Delivery::Dropped) == 1,
        added(Delivery::WriterGone) == 0,
{
}

/// When a request is tried again: where the channel was full, and the pause of five
/// milliseconds ends before the time is up. In every other case it is taken or
/// given up.
pub proof fn full_channels_are_tried_again<T>(back: T, elapsed: u128, timeout: u128)
    ensures
        retry_step(SendOutcome::<T>::Sent, elapsed, timeout) == RetryStep::<T>::Done,
        elapsed + 5_000_000 < timeout ==> retry_step(SendOutcome::Full(back), elapsed, timeout)
            == RetryStep::PauseThenRetry(back),
        elapsed + 5_000_000 >= timeout ==> retry_step(SendOutcome::Full(back), elapsed, timeout)
            == RetryStep::GiveUp(back),
        retry_step(SendOutcome::Disconnected(back), elapsed, timeout) == RetryStep::GiveUp(back),
{
}

/// The whole of the time for a request is used: what sending did not take is left
/// for the answer. That time is two seconds.
pub proof fn the_rest_of_the_time_is_left(elapsed: u128, timeout: u128)
    ensures
        elapsed <= timeout ==> elapsed + time_left(elapsed, timeout) == timeout,
        elapsed > timeout ==> time_left(elapsed, timeout) == 0,
        elapsed <= 2_000_000_000 ==> elapsed + time_left(elapsed, CONTROL_TIMEOUT_NANOS)
            == 2_000_000_000,
        DEFAULT_CHANNEL_CAPACITY == 1024,
{
}

/// When the writer ends, sleeps and goes on: it ends after a shutdown and where
/// nothing can come any more, it looks for queued messages after every other
/// message, and it sleeps otherwise.
pub proof fn the_writer_ends_only_when_told(event: LoopEvent)
    ensures
        next_action(event) is Stop <==> event is Closed || event == (LoopEvent::Handled {
            shutdown: true,
        }),
        next_action(event) is TakeQueued <==> event == (LoopEvent::Handled { shutdown: false }),
{
}

/// A request succeeds if it was taken and acknowledged, and a reset that was taken
/// and answered has the writer's answer as its outcome; without either it fails.
pub proof fn requests_need_both(
    answer: Result<(), String>,
    acknowledged: bool,
    sent: bool,
    res: Result<(), String>,
)
    ensures
        succeeded(true, true),
        !succeeded(false, acknowledged),
        !succeeded(sent, false),
        is_reset_outcome(true, Some(answer), res) ==> res == answer,
        is_reset_outcome(true, None, res) ==> res is Err && res->Err_0@
            == "timed out waiting for log writer reset"@,
        is_reset_outcome(false, Some(answer), res) || is_reset_outcome(false, None, res) ==> res
            is Err && res->Err_0@ == "log writer channel unavailable for reset"@,
{
}

} // verus!
