//! What is read from an event: its fixed metadata, its message, and the fields
//! that the bridge from `log` attaches.
use vstd::prelude::*;

use crate::external::{compact_from, compact_text, debug_text, quoted, CompactText};
use crate::level::Level;
use crate::text::{decimal, decimal_text, same_text};

verus! {

/// The metadata of an event, as its call site gives it.
pub struct EventMeta<'a> {
    pub name: &'a str,
    pub target: &'a str,
    pub level: Level,
    pub module: Option<&'a str>,
    pub file: Option<&'a str>,
    pub line: Option<u32>,
}

/// Extracts the rendered message and the `log.*` fields (if any) of an event.
///
/// Events bridged from `log` carry the real target, module path and source
/// location in fields, because their shared metadata only carries the target
/// `"log"`. The message and the target are always captured; the origin
/// (`log.module_path`, `log.file`, `log.line`) only on request, so that layers
/// which do not show it need not copy it.
pub struct FieldExtractor {
    pub message: Option<String>,
    pub log_target: Option<CompactText>,
    pub log_module_path: Option<String>,
    pub log_file: Option<String>,
    pub log_line: Option<u32>,
    pub capture_origin: bool,
}

/// What a [`FieldExtractor`] has captured.
pub struct Fields {
    pub message: Option<Seq<char>>,
    pub log_target: Option<Seq<char>>,
    pub log_module_path: Option<Seq<char>>,
    pub log_file: Option<Seq<char>>,
    pub log_line: Option<u32>,
    pub capture_origin: bool,
}

/// The text of a string, where there is one.
pub open spec fn text_of(s: Option<String>) -> Option<Seq<char>> {
    match s {
        Some(s) => Some(s@),
        None => None,
    }
}

/// The text of a string slice, where there is one.
pub open spec fn str_text(s: Option<&str>) -> Option<Seq<char>> {
    match s {
        Some(s) => Some(s@),
        None => None,
    }
}

/// The text of a compact string, where there is one.
pub open spec fn compact_text_of(s: Option<CompactText>) -> Option<Seq<char>> {
    match s {
        Some(s) => Some(compact_text(s)),
        None => None,
    }
}

/// The target of an event: the one that the bridge from `log` attached, or that
/// of its call site.
pub open spec fn event_target(fields: Fields, meta: EventMeta<'_>) -> Seq<char> {
    match fields.log_target {
        Some(target) => target,
        None => meta.target@,
    }
}

impl Fields {
    /// Nothing captured yet.
    pub open spec fn nothing(capture_origin: bool) -> Fields {
        Fields {
            message: None,
            log_target: None,
            log_module_path: None,
            log_file: None,
            log_line: None,
            capture_origin,
        }
    }

    /// Whether the captured origin is the same, and so is whether to capture it.
    pub open spec fn same_origin(self, other: Fields) -> bool {
        &&& self.log_module_path == other.log_module_path
        &&& self.log_file == other.log_file
        &&& self.log_line == other.log_line
        &&& self.capture_origin == other.capture_origin
    }

    /// With `name=rendered` behind the message.
    pub open spec fn with_extra(self, name: Seq<char>, rendered: Seq<char>) -> Fields {
        let pair = name.push('=') + rendered;
        Fields {
            message: Some(
                match self.message {
                    Some(message) => message.push(' ') + pair,
                    None => pair,
                },
            ),
            ..self
        }
    }

    /// With a field whose value is known by how it is rendered.
    pub open spec fn with_debug(self, name: Seq<char>, rendered: Seq<char>) -> Fields {
        if name == "message"@ {
            Fields { message: Some(rendered), ..self }
        } else {
            self.with_extra(name, rendered)
        }
    }

    /// With a field whose value is the text `value`, which is shown as `shown`
    /// where it is one of the extra fields.
    pub open spec fn with_str(self, name: Seq<char>, value: Seq<char>, shown: Seq<char>) -> Fields {
        if name == "message"@ {
            Fields { message: Some(value), ..self }
        } else if name == "log.target"@ {
            Fields { log_target: Some(value), ..self }
        } else if name == "log.module_path"@ {
            if self.capture_origin {
                Fields { log_module_path: Some(value), ..self }
            } else {
                self
            }
        } else if name == "log.file"@ {
            if self.capture_origin {
                Fields { log_file: Some(value), ..self }
            } else {
                self
            }
        } else {
            self.with_extra(name, shown)
        }
    }

    /// With a field whose value is the number `value`. A line number that does
    /// not fit is no line number.
    pub open spec fn with_u64(self, name: Seq<char>, value: u64) -> Fields {
        if name == "message"@ {
            Fields { message: Some(decimal(value as nat)), ..self }
        } else if name == "log.line"@ {
            if self.capture_origin {
                Fields {
                    log_line: if value <= u32::MAX {
                        Some(value as u32)
                    } else {
                        None
                    },
                    ..self
                }
            } else {
                self
            }
        } else {
            self.with_extra(name, decimal(value as nat))
        }
    }
}

/// Whether a text field has a meaning of its own.
fn has_meaning(field: &str) -> (res: bool)
    ensures
        res == (field@ == "message"@ || field@ == "log.target"@ || field@ == "log.module_path"@
            || field@ == "log.file"@),
{
    same_text(field, "message") || same_text(field, "log.target") || same_text(
        field,
        "log.module_path",
    ) || same_text(field, "log.file")
}

impl View for FieldExtractor {
    type V = Fields;

    open spec fn view(&self) -> Fields {
        Fields {
            message: text_of(self.message),
            log_target: compact_text_of(self.log_target),
            log_module_path: text_of(self.log_module_path),
            log_file: text_of(self.log_file),
            log_line: self.log_line,
            capture_origin: self.capture_origin,
        }
    }
}

impl FieldExtractor {
    /// Captures the message and the target.
    pub fn message_and_target() -> (res: Self)
        ensures
            res@ == Fields::nothing(false),
    {
        FieldExtractor {
            message: None,
            log_target: None,
            log_module_path: None,
            log_file: None,
            log_line: None,
            capture_origin: false,
        }
    }

    /// Captures the message, the target and the origin.
    pub fn full() -> (res: Self)
        ensures
            res@ == Fields::nothing(true),
    {
        FieldExtractor {
            message: None,
            log_target: None,
            log_module_path: None,
            log_file: None,
            log_line: None,
            capture_origin: true,
        }
    }

    /// The fields that have no meaning of their own are rendered as `key=value`
    /// behind the message. Events bridged from `log` have none.
    pub fn append_extra(&mut self, field: &str, rendered: &str)
        ensures
            final(self)@ == old(self)@.with_extra(field@, rendered@),
    {
        let mut line = match self.message.take() {
            Some(mut message) => {
                message.push(' ');
                message
            },
            None => String::new(),
        };
        line.append(field);
        line.push('=');
        line.append(rendered);
        proof {
            let pair = field@.push('=') + rendered@;
            match old(self)@.message {
                Some(message) => {
                    assert(line@ =~= message.push(' ') + pair);
                },
                None => {
                    assert(line@ =~= pair);
                },
            }
        }
        self.message = Some(line);
    }

    /// Takes a field by the text that its value is rendered to.
    pub fn record_debug(&mut self, field: &str, rendered: &str)
        ensures
            final(self)@ == old(self)@.with_debug(field@, rendered@),
    {
        if same_text(field, "message") {
            self.message = Some(rendered.to_owned());
        } else {
            self.append_extra(field, rendered);
        }
    }

    /// Takes a text field, given how its value is shown among the extra fields.
    pub fn record_shown_str(&mut self, field: &str, value: &str, shown: &str)
        ensures
            final(self)@ == old(self)@.with_str(field@, value@, shown@),
    {
        if same_text(field, "message") {
            self.message = Some(value.to_owned());
        } else if same_text(field, "log.target") {
            self.log_target = Some(compact_from(value));
        } else if same_text(field, "log.module_path") {
            if self.capture_origin {
                self.log_module_path = Some(value.to_owned());
            }
        } else if same_text(field, "log.file") {
            if self.capture_origin {
                self.log_file = Some(value.to_owned());
            }
        } else {
            self.append_extra(field, shown);
        }
    }

    /// Takes a text field. An extra field is shown quoted.
    pub fn record_str(&mut self, field: &str, value: &str)
        ensures
            final(self)@ == old(self)@.with_str(field@, value@, quoted(value@)),
    {
        let shown = if has_meaning(field) {
            String::new()
        } else {
            debug_text(value)
        };
        self.record_shown_str(field, value, shown.as_str());
    }

    /// Takes a field whose value is a number.
    pub fn record_u64(&mut self, field: &str, value: u64)
        ensures
            final(self)@ == old(self)@.with_u64(field@, value),
    {
        let shown = decimal_text(value);
        if same_text(field, "message") {
            self.message = Some(shown);
        } else if same_text(field, "log.line") {
            if self.capture_origin {
                self.log_line = if value <= u32::MAX as u64 {
                    Some(value as u32)
                } else {
                    None
                };
            }
        } else {
            self.append_extra(field, shown.as_str());
        }
    }
}

/// The fields that the bridge from `log` attaches leave the message alone, so a
/// bridged event shows exactly the message of its record.
pub proof fn bridge_fields_leave_message(
    fields: Fields,
    name: Seq<char>,
    value: Seq<char>,
    shown: Seq<char>,
    line: u64,
)
    requires
        name == "log.target"@ || name == "log.module_path"@ || name == "log.file"@,
    ensures
        fields.with_str(name, value, shown).message == fields.message,
        fields.with_u64("log.line"@, line).message == fields.message,
{
    reveal_strlit("message");
    reveal_strlit("log.target");
    reveal_strlit("log.module_path");
    reveal_strlit("log.file");
    reveal_strlit("log.line");
    assert("message"@.len() != "log.target"@.len());
    assert("message"@.len() != "log.module_path"@.len());
    assert("message"@.len() != "log.file"@.len());
    assert("message"@.len() != "log.line"@.len());
}

/// The origin is captured only on request: without it, no field of any kind
/// changes the captured origin.
pub proof fn origin_only_on_request(
    fields: Fields,
    name: Seq<char>,
    value: Seq<char>,
    shown: Seq<char>,
    number: u64,
)
    requires
        !fields.capture_origin,
    ensures
        fields.with_debug(name, shown).same_origin(fields),
        fields.with_str(name, value, shown).same_origin(fields),
        fields.with_u64(name, number).same_origin(fields),
{
}

/// The message and the target are captured whether or not the origin is.
pub proof fn message_and_target_always(
    fields: Fields,
    value: Seq<char>,
    shown: Seq<char>,
)
    ensures
        fields.with_str("message"@, value, shown).message == Some(value),
        fields.with_debug("message"@, shown).message == Some(shown),
        fields.with_str("log.target"@, value, shown).log_target == Some(value),
{
    reveal_strlit("message");
    reveal_strlit("log.target");
    assert("message"@.len() != "log.target"@.len());
}

/// The names of the fields that have a meaning of their own differ.
proof fn lemma_names_differ()
    ensures
        "message"@ != "log.target"@,
        "message"@ != "log.module_path"@,
        "message"@ != "log.file"@,
        "message"@ != "log.line"@,
        "log.target"@ != "log.module_path"@,
        "log.target"@ != "log.file"@,
        "log.target"@ != "log.line"@,
        "log.module_path"@ != "log.file"@,
        "log.module_path"@ != "log.line"@,
        "log.file"@ != "log.line"@,
{
    reveal_strlit("message");
    reveal_strlit("log.target");
    reveal_strlit("log.module_path");
    reveal_strlit("log.file");
    reveal_strlit("log.line");
    assert("message"@.len() == 7);
    assert("log.target"@.len() == 10);
    assert("log.module_path"@.len() == 15);
    assert("log.file"@.len() == 8);
    assert("log.line"@.len() == 8);
    assert("log.file"@[4] != "log.line"@[4]);
}

/// The fields of an event that are not the message stand behind it as `name=value`,
/// with a blank before each; without a message the first stands alone. Nothing else
/// is captured of them, and a message that comes later takes their place.
pub proof fn extra_fields_follow_the_message(
    fields: Fields,
    name: Seq<char>,
    rendered: Seq<char>,
)
    requires
        name != "message"@,
    ensures
        ({
            let after = fields.with_debug(name, rendered);
            &&& fields.message is Some ==> after.message == Some(
                fields.message->0 + seq![' '] + name + seq!['='] + rendered,
            )
            &&& fields.message is None ==> after.message == Some(name + seq!['='] + rendered)
            &&& after.log_target == fields.log_target
            &&& after.same_origin(fields)
        }),
        fields.with_extra(name, rendered) == fields.with_debug(name, rendered),
        fields.with_debug("message"@, rendered).message == Some(rendered),
        fields.with_debug("message"@, rendered).log_target == fields.log_target,
        fields.with_debug("message"@, rendered).same_origin(fields),
{
    let pair = name.push('=') + rendered;
    assert(pair =~= name + seq!['='] + rendered);
    if fields.message is Some {
        let message = fields.message->0;
        assert(message.push(' ') + pair =~= message + seq![' '] + name + seq!['='] + rendered);
    }
}

/// Where the text fields of the bridge from `log` go: each to its own place and
/// nowhere else, the module path and the file only where the origin is captured;
/// every other text field stands behind the message, shown as it is quoted.
pub proof fn text_fields_go_to_their_places(
    fields: Fields,
    value: Seq<char>,
    shown: Seq<char>,
    other: Seq<char>,
)
    requires
        other != "message"@,
        other != "log.target"@,
        other != "log.module_path"@,
        other != "log.file"@,
    ensures
        fields.with_str("message"@, value, shown) == (Fields { message: Some(value), ..fields }),
        fields.with_str("log.target"@, value, shown) == (Fields {
            log_target: Some(value),
            ..fields
        }),
        fields.capture_origin ==> fields.with_str("log.module_path"@, value, shown) == (Fields {
            log_module_path: Some(value),
            ..fields
        }),
        fields.capture_origin ==> fields.with_str("log.file"@, value, shown) == (Fields {
            log_file: Some(value),
            ..fields
        }),
        !fields.capture_origin ==> fields.with_str("log.module_path"@, value, shown) == fields,
        !fields.capture_origin ==> fields.with_str("log.file"@, value, shown) == fields,
        fields.with_str(other, value, shown) == fields.with_debug(other, shown),
{
    lemma_names_differ();
}

/// Where numbers go: the line of the bridge from `log` to its own place, where the
/// origin is captured and it is a line number; every other number stands behind the
/// message by its numeral.
pub proof fn numbers_go_to_their_places(fields: Fields, value: u64, other: Seq<char>)
    requires
        other != "message"@,
        other != "log.line"@,
    ensures
        fields.with_u64("message"@, value) == (Fields {
            message: Some(decimal(value as nat)),
            ..fields
        }),
        fields.capture_origin && value <= 0xffff_ffff ==> fields.with_u64("log.line"@, value) == (
        Fields { log_line: Some(value as u32), ..fields }),
        fields.capture_origin && value > 0xffff_ffff ==> fields.with_u64("log.line"@, value) == (
        Fields { log_line: None, ..fields }),
        !fields.capture_origin ==> fields.with_u64("log.line"@, value) == fields,
        fields.with_u64(other, value) == fields.with_debug(other, decimal(value as nat)),
{
    lemma_names_differ();
}

/// Before an event is read nothing is captured, and what a [`FieldExtractor`] has
/// captured is what its fields hold.
pub proof fn captured_fields_are_seen(extractor: FieldExtractor, capture_origin: bool)
    ensures
        Fields::nothing(capture_origin).message is None,
        Fields::nothing(capture_origin).log_target is None,
        Fields::nothing(capture_origin).log_module_path is None,
        Fields::nothing(capture_origin).log_file is None,
        Fields::nothing(capture_origin).log_line is None,
        Fields::nothing(capture_origin).capture_origin == capture_origin,
        extractor.message is Some ==> extractor@.message == Some(extractor.message->0@),
        extractor.message is None ==> extractor@.message is None,
        extractor.log_target is Some ==> extractor@.log_target == Some(
            compact_text(extractor.log_target->0),
        ),
        extractor.log_target is None ==> extractor@.log_target is None,
        extractor.log_module_path is Some ==> extractor@.log_module_path == Some(
            extractor.log_module_path->0@,
        ),
        extractor.log_module_path is None ==> extractor@.log_module_path is None,
        extractor.log_file is Some ==> extractor@.log_file == Some(extractor.log_file->0@),
        extractor.log_file is None ==> extractor@.log_file is None,
        extractor@.log_line == extractor.log_line,
        extractor@.capture_origin == extractor.capture_origin,
{
}

/// The target of an event is the one that the bridge from `log` attached; without
/// it, that of the call site.
pub proof fn bridged_targets_go_first(fields: Fields, meta: EventMeta<'_>, target: Seq<char>)
    ensures
        event_target((Fields { log_target: Some(target), ..fields }), meta) == target,
        event_target((Fields { log_target: None, ..fields }), meta) == meta.target@,
{
}

} // verus!
