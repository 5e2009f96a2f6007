//! The compact console format of events: the console line of the record that an
//! event stands for, and a line end.
use vstd::prelude::*;

use crate::external::compact_as_str;
use crate::fields::{event_target, str_text, EventMeta, FieldExtractor, Fields};
use crate::format::{clock_shape, console_format, console_text, told, LogRecord};
use flexi_logger::DeferredNow;

verus! {

/// Whether `record` is the record that an event stands for: what the bridge from
/// `log` attached goes before what the call site says, and an event without a
/// message has an empty one.
pub open spec fn is_record_of(record: LogRecord<'_>, fields: Fields, meta: EventMeta<'_>) -> bool {
    &&& record.level == meta.level
    &&& record.target@ == event_target(fields, meta)
    &&& record.message@ == match fields.message {
        Some(message) => message,
        None => Seq::empty(),
    }
    &&& str_text(record.module) == match fields.log_module_path {
        Some(module) => Some(module),
        None => str_text(meta.module),
    }
    &&& str_text(record.file) == match fields.log_file {
        Some(file) => Some(file),
        None => str_text(meta.file),
    }
    &&& record.line == match fields.log_line {
        Some(line) => Some(line),
        None => meta.line,
    }
}

/// The text of `own`, or `other` where there is none.
fn own_or<'a>(own: &'a Option<String>, other: Option<&'a str>) -> (res: Option<&'a str>)
    ensures
        str_text(res) == match own {
            Some(own) => Some(own@),
            None => str_text(other),
        },
{
    match own {
        Some(own) => Some(own.as_str()),
        None => other,
    }
}

/// The record that an event stands for.
pub fn event_record<'a>(fields: &'a FieldExtractor, meta: &EventMeta<'a>) -> (record: LogRecord<'a>)
    ensures
        is_record_of(record, fields@, *meta),
{
    proof {
        reveal_strlit("");
        assert(""@ =~= Seq::<char>::empty());
    }
    LogRecord {
        level: meta.level,
        target: match &fields.log_target {
            Some(target) => compact_as_str(target),
            None => meta.target,
        },
        message: match &fields.message {
            Some(message) => message.as_str(),
            None => "",
        },
        module: own_or(&fields.log_module_path, meta.module),
        file: own_or(&fields.log_file, meta.file),
        line: match fields.log_line {
            Some(line) => Some(line),
            None => meta.line,
        },
    }
}

/// Formats events as console lines.
pub struct CompactConsoleFormat {
    /// Whether to colour the lines.
    pub color: bool,
}

impl CompactConsoleFormat {
    /// The console line of an event, now, with its line end.
    pub fn format_event(
        &self,
        now: &mut DeferredNow,
        thread_name: Option<&str>,
        fields: &FieldExtractor,
        meta: &EventMeta<'_>,
    ) -> (res: String)
        ensures
            exists|clock: String, record: LogRecord<'_>|
                #![trigger told(*old(now), "%H:%M:%S%.3f", clock), is_record_of(
                    record,
                    fields@,
                    *meta,
                )]
                told(*old(now), "%H:%M:%S%.3f", clock) && clock_shape(clock@) && is_record_of(
                    record,
                    fields@,
                    *meta,
                ) && res@ == console_text(
                    self.color,
                    clock@,
                    str_text(thread_name),
                    record,
                ).push('\n'),
    {
        let record = event_record(fields, meta);
        let mut line = console_format(self.color, now, thread_name, &record);
        line.push('\n');
        line
    }
}

/// What the bridge from `log` attached goes before what the call site says, for
/// each part of the record by itself; the level is that of the event, and an event
/// without a message has an empty one.
pub proof fn bridged_parts_go_first(record: LogRecord<'_>, fields: Fields, meta: EventMeta<'_>)
    requires
        is_record_of(record, fields, meta),
    ensures
        record.level == meta.level,
        fields.message is Some ==> record.message@ == fields.message->0,
        fields.message is None ==> record.message@.len() == 0,
        fields.log_target is Some ==> record.target@ == fields.log_target->0,
        fields.log_target is None ==> record.target@ == meta.target@,
        fields.log_module_path is Some ==> record.module is Some && record.module->0@
            == fields.log_module_path->0,
        fields.log_module_path is None && meta.module is Some ==> record.module is Some
            && record.module->0@ == meta.module->0@,
        fields.log_module_path is None && meta.module is None ==> record.module is None,
        fields.log_file is Some ==> record.file is Some && record.file->0@ == fields.log_file->0,
        fields.log_file is None && meta.file is Some ==> record.file is Some && record.file->0@
            == meta.file->0@,
        fields.log_file is None && meta.file is None ==> record.file is None,
        fields.log_line is Some ==> record.line == fields.log_line,
        fields.log_line is None ==> record.line == meta.line,
{
}

} // verus!
