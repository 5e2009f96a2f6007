//! The sink's queue, its writer, and requests to it.
use std::sync::atomic::{AtomicU64, Ordering};
use std::sync::mpsc::{sync_channel, SyncSender};

use flexi_logger::writers::FileLogWriter;
use flexi_logger::FileSpec;
use tracing_estuary::fields::{EventMeta, FieldExtractor};
use tracing_estuary::format::{file_format_with_level, PrefixCache};
use tracing_estuary::level::{Level, LevelFilter};
use tracing_estuary::pipeline::PipelineBuilder;
use tracing_estuary::sink::{
    ack_budget, acknowledge, attempt, control_outcome, drops, enqueue, handle_msg, reset_outcome, send_with_deadline,
    writer_loop, Acknowledge, Delivery, LoopAction, LoopEvent, OwnedRecord, RetryStep,
    SendOutcome, SinkMsg, WriterWork, CONTROL_TIMEOUT_NANOS, DEFAULT_CHANNEL_CAPACITY,
    RETRY_PAUSE_NANOS,
};
use tracing_estuary::time::now_millis;

fn owned_message(index: usize) -> SinkMsg {
    SinkMsg::Write(OwnedRecord::new(
        Level::Info,
        "app",
        &format!("message {index}"),
    ))
}

#[test]
fn enqueue_drops_and_counts_when_full() {
    let (tx, rx) = sync_channel(2);
    let dropped = AtomicU64::new(0);
    for index in 0..5 {
        enqueue(&tx, &dropped, owned_message(index));
    }
    assert_eq!(dropped.load(Ordering::Relaxed), 3);
    // The buffered messages are still retrievable.
    assert!(rx.try_recv().is_ok());
}

#[test]
fn records_for_nobody_are_not_counted() {
    let (tx, rx) = sync_channel(1);
    let dropped = AtomicU64::new(0);
    assert_eq!(enqueue(&tx, &dropped, owned_message(0)), Delivery::Queued);
    assert_eq!(enqueue(&tx, &dropped, owned_message(1)), Delivery::Dropped);
    drop(rx);
    assert_eq!(enqueue(&tx, &dropped, owned_message(2)), Delivery::WriterGone);
    assert_eq!(dropped.load(Ordering::Relaxed), 1);
    assert_eq!(drops(Delivery::Dropped), 1);
    assert_eq!(drops(Delivery::WriterGone), 0);
}

#[test]
fn refused_messages_come_back() {
    let (tx, rx) = sync_channel(1);
    assert!(matches!(attempt(&tx, 1), SendOutcome::Sent));
    assert!(matches!(attempt(&tx, 2), SendOutcome::Full(2)));
    assert_eq!(rx.recv(), Ok(1));
    drop(rx);
    assert!(matches!(attempt(&tx, 3), SendOutcome::Disconnected(3)));
}

#[test]
fn records_carry_the_bridged_target() {
    let meta = EventMeta {
        name: "e",
        target: "log",
        level: Level::Trace,
        module: None,
        file: None,
        line: None,
    };
    let record = OwnedRecord::of_event(FieldExtractor::message_and_target(), &meta);
    assert_eq!(record.log_record().target, "log");
    assert_eq!(record.log_record().message, "");
    let mut fields = FieldExtractor::message_and_target();
    fields.record_str("log.target", "a_target_that_is_longer_than_an_inline_string");
    fields.record_debug("message", "hello");
    let record = OwnedRecord::of_event(fields, &meta);
    let shown = record.log_record();
    assert_eq!(shown.target, "a_target_that_is_longer_than_an_inline_string");
    assert_eq!(shown.message, "hello");
    assert_eq!(shown.level, Level::Trace);
    assert_eq!(shown.line, None);
}

#[test]
fn requests_are_retried_until_their_time_is_up() {
    let step = |elapsed| send_with_deadline(SendOutcome::Full('m'), elapsed, CONTROL_TIMEOUT_NANOS);
    assert!(matches!(step(0), RetryStep::PauseThenRetry('m')));
    assert!(matches!(step(1_994_999_999), RetryStep::PauseThenRetry('m')));
    assert!(matches!(step(1_995_000_000), RetryStep::GiveUp('m')));
    assert!(matches!(step(u128::MAX), RetryStep::GiveUp('m')));
    assert!(matches!(
        send_with_deadline(SendOutcome::Full(1), 0, RETRY_PAUSE_NANOS),
        RetryStep::GiveUp(1)
    ));
    assert!(matches!(
        send_with_deadline(SendOutcome::Disconnected(1), 0, CONTROL_TIMEOUT_NANOS),
        RetryStep::GiveUp(1)
    ));
    assert!(matches!(
        send_with_deadline(SendOutcome::<u8>::Sent, u128::MAX, 0),
        RetryStep::Done
    ));
}

fn ack() -> SyncSender<()> {
    sync_channel(1).0
}

#[test]
fn messages_become_steps_of_the_writer() {
    let step = handle_msg(owned_message(4));
    assert!(matches!(&step.work, WriterWork::Write(record) if record.message == "message 4"));
    assert!(matches!(step.ack, Acknowledge::Nobody));
    assert!(!step.shutdown);

    let step = handle_msg(SinkMsg::Flush(ack()));
    assert!(matches!(step.work, WriterWork::Flush));
    assert!(matches!(step.ack, Acknowledge::Done(_)));
    assert!(!step.shutdown);

    let step = handle_msg(SinkMsg::Shutdown(ack()));
    assert!(matches!(step.work, WriterWork::Flush));
    assert!(matches!(step.ack, Acknowledge::Done(_)));
    assert!(step.shutdown);

    let builder = FileLogWriter::builder(FileSpec::default());
    let step = handle_msg(SinkMsg::Reset(Box::new(builder), sync_channel(1).0));
    assert!(matches!(step.work, WriterWork::Reset(_)));
    assert!(matches!(step.ack, Acknowledge::Outcome(_)));
    assert!(!step.shutdown);
}

#[test]
fn a_flush_drains_what_was_queued_before_it() {
    let (tx, rx) = sync_channel(DEFAULT_CHANNEL_CAPACITY);
    let dropped = AtomicU64::new(0);
    enqueue(&tx, &dropped, owned_message(0));
    enqueue(&tx, &dropped, owned_message(1));
    enqueue(&tx, &dropped, SinkMsg::Flush(ack()));
    enqueue(&tx, &dropped, SinkMsg::Shutdown(ack()));
    enqueue(&tx, &dropped, owned_message(2));
    let mut log: Vec<String> = Vec::new();
    let mut action = writer_loop(LoopEvent::Started);
    while action != LoopAction::Stop {
        let next = match action {
            LoopAction::WaitForMessage => rx.recv().map_err(|_| LoopEvent::Closed),
            _ => rx.try_recv().map_err(|_| LoopEvent::NothingQueued),
        };
        let event = match next {
            Ok(msg) => {
                let step = handle_msg(msg);
                log.push(match step.work {
                    WriterWork::Write(record) => record.message,
                    WriterWork::Flush => "flush".to_owned(),
                    WriterWork::Reset(_) => "reset".to_owned(),
                });
                LoopEvent::Handled { shutdown: step.shutdown }
            }
            Err(event) => event,
        };
        action = writer_loop(event);
    }
    assert_eq!(log, ["message 0", "message 1", "flush", "flush"]);
}

#[test]
fn the_writer_sleeps_only_on_an_empty_queue() {
    assert_eq!(writer_loop(LoopEvent::Started), LoopAction::WaitForMessage);
    assert_eq!(
        writer_loop(LoopEvent::Handled { shutdown: false }),
        LoopAction::TakeQueued
    );
    assert_eq!(
        writer_loop(LoopEvent::Handled { shutdown: true }),
        LoopAction::Stop
    );
    assert_eq!(writer_loop(LoopEvent::NothingQueued), LoopAction::WaitForMessage);
    assert_eq!(writer_loop(LoopEvent::Closed), LoopAction::Stop);
}

#[test]
fn requests_need_to_be_taken_and_answered() {
    assert!(control_outcome(true, true));
    assert!(!control_outcome(true, false));
    assert!(!control_outcome(false, true));
    assert_eq!(
        reset_outcome(false, Some(Ok(()))),
        Err("log writer channel unavailable for reset".to_owned())
    );
    assert_eq!(
        reset_outcome(true, None),
        Err("timed out waiting for log writer reset".to_owned())
    );
    assert_eq!(reset_outcome(true, Some(Ok(()))), Ok(()));
    assert_eq!(
        reset_outcome(true, Some(Err("disk".to_owned()))),
        Err("disk".to_owned())
    );
}

#[test]
fn a_bare_level_goes_before_the_configured_one() {
    let plan = PipelineBuilder::new().assemble(None);
    assert_eq!(plan.default_level, LevelFilter::Info);
    assert_eq!(plan.preserved, "");
    assert!(plan.file_writer.is_none() && plan.complaint.is_none());
    let plan = PipelineBuilder::default()
        .default_level(LevelFilter::Warn)
        .assemble(Some(" debug "));
    assert_eq!(plan.default_level, LevelFilter::Debug);
    let plan = PipelineBuilder::new()
        .default_level(LevelFilter::Warn)
        .file_writer(FileLogWriter::builder(FileSpec::default()))
        .assemble(Some("app=trace,debug,info"));
    assert_eq!(plan.default_level, LevelFilter::Warn);
    assert_eq!(plan.preserved, "app=trace");
    assert!(plan.file_writer.is_some() && plan.complaint.is_none());
    let plan = PipelineBuilder::new().assemble(Some("app=loud"));
    assert!(plan.complaint.is_some());
}

#[test]
fn a_queued_event_becomes_a_file_line() {
    let mut fields = FieldExtractor::message_and_target();
    fields.record_debug("message", "[Core] Restarting core");
    let meta = EventMeta {
        name: "e",
        target: "app",
        level: Level::Info,
        module: None,
        file: None,
        line: None,
    };
    let (tx, rx) = sync_channel(DEFAULT_CHANNEL_CAPACITY);
    let dropped = AtomicU64::new(0);
    enqueue(&tx, &dropped, SinkMsg::Write(OwnedRecord::of_event(fields, &meta)));
    let step = handle_msg(rx.recv().unwrap());
    let WriterWork::Write(record) = step.work else {
        panic!("a record is written");
    };
    let mut cache = PrefixCache::new();
    let mut now = flexi_logger::DeferredNow::default();
    let line = file_format_with_level(&mut cache, now_millis(), &mut now, &record.log_record());
    assert!(line.contains("] INFO [Core] Restarting core"), "unexpected line: {line:?}");
    let Some(timestamp) = line.strip_prefix('[').map(|rest| &rest[..23]) else {
        panic!("missing timestamp prefix in {line:?}");
    };
    let bytes = timestamp.as_bytes();
    assert_eq!(bytes[4], b'-');
    assert_eq!(bytes[7], b'-');
    assert_eq!(bytes[10], b' ');
    assert_eq!(bytes[13], b':');
    assert_eq!(bytes[16], b':');
    assert_eq!(bytes[19], b'.');
    assert_eq!(dropped.load(Ordering::Relaxed), 0);
}

#[test]
fn every_record_is_queued_or_counted_while_somebody_receives() {
    let (tx, rx) = sync_channel(3);
    let dropped = AtomicU64::new(0);
    let mut queued = 0;
    for index in 0..10 {
        if enqueue(&tx, &dropped, owned_message(index)) == Delivery::Queued {
            queued += 1;
        }
        if index == 6 {
            assert!(rx.try_recv().is_ok());
        }
    }
    assert_eq!((queued, dropped.load(Ordering::Relaxed)), (4, 6));
}

#[test]
fn requests_fail_once_the_writer_is_gone() {
    let (tx, rx) = sync_channel(4);
    drop(rx);
    let dropped = AtomicU64::new(0);
    let outcome = attempt(&tx, SinkMsg::Shutdown(ack()));
    let step = send_with_deadline(outcome, 0, CONTROL_TIMEOUT_NANOS);
    assert!(matches!(step, RetryStep::GiveUp(_)));
    assert!(!control_outcome(false, true));
    assert!(reset_outcome(false, None).is_err());
    enqueue(&tx, &dropped, owned_message(0));
    assert_eq!(dropped.load(Ordering::Relaxed), 0);
}

#[test]
fn acknowledgements_carry_what_was_asked_for() {
    assert_eq!(acknowledge(Acknowledge::Nobody, Ok(())), None);
    let (done_tx, done_rx) = sync_channel(1);
    let told = acknowledge(Acknowledge::Done(done_tx), Err("disk".to_owned()));
    assert_eq!(told, Some(Delivery::Queued));
    assert_eq!(done_rx.recv(), Ok(()));
    let (outcome_tx, outcome_rx) = sync_channel(1);
    let told = acknowledge(Acknowledge::Outcome(outcome_tx), Err("disk".to_owned()));
    assert_eq!(told, Some(Delivery::Queued));
    assert_eq!(outcome_rx.recv(), Ok(Err("disk".to_owned())));
    assert_eq!(acknowledge(Acknowledge::Done(ack()), Ok(())), Some(Delivery::WriterGone));
}

#[test]
fn sending_and_waiting_share_one_timeout() {
    assert_eq!(ack_budget(0, CONTROL_TIMEOUT_NANOS), CONTROL_TIMEOUT_NANOS);
    assert_eq!(ack_budget(1_500_000_000, CONTROL_TIMEOUT_NANOS), 500_000_000);
    assert_eq!(ack_budget(CONTROL_TIMEOUT_NANOS, CONTROL_TIMEOUT_NANOS), 0);
    assert_eq!(ack_budget(u128::MAX, CONTROL_TIMEOUT_NANOS), 0);
}
