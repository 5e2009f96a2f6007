//! Severity levels of records, and the level up to which records pass a filter.
use vstd::prelude::*;

verus! {

/// Severity of a record, from the gravest to the most verbose.
#[derive(Clone, Copy, Debug, PartialEq, Eq, Structural)]
pub enum Level {
    Error,
    Warn,
    Info,
    Debug,
    Trace,
}

/// Most verbose level that a filter lets through; `Off` lets nothing through.
#[derive(Clone, Copy, Debug, PartialEq, Eq, Structural)]
pub enum LevelFilter {
    Off,
    Error,
    Warn,
    Info,
    Debug,
    Trace,
}

impl Level {
    /// The filter that lets this level and everything graver through.
    pub open spec fn filter(self) -> LevelFilter {
        match self {
            Level::Error => LevelFilter::Error,
            Level::Warn => LevelFilter::Warn,
            Level::Info => LevelFilter::Info,
            Level::Debug => LevelFilter::Debug,
            Level::Trace => LevelFilter::Trace,
        }
    }

    /// The upper-case name of the level.
    pub open spec fn upper(self) -> Seq<char> {
        match self {
            Level::Error => "ERROR"@,
            Level::Warn => "WARN"@,
            Level::Info => "INFO"@,
            Level::Debug => "DEBUG"@,
            Level::Trace => "TRACE"@,
        }
    }

    /// The filter that lets this level and everything graver through.
    pub fn to_level_filter(self) -> (res: LevelFilter)
        ensures
            res == self.filter(),
    {
        match self {
            Level::Error => LevelFilter::Error,
            Level::Warn => LevelFilter::Warn,
            Level::Info => LevelFilter::Info,
            Level::Debug => LevelFilter::Debug,
            Level::Trace => LevelFilter::Trace,
        }
    }

    /// The upper-case name of the level.
    pub fn as_str(self) -> (res: &'static str)
        ensures
            res@ == self.upper(),
    {
        match self {
            Level::Error => "ERROR",
            Level::Warn => "WARN",
            Level::Info => "INFO",
            Level::Debug => "DEBUG",
            Level::Trace => "TRACE",
        }
    }
}

/// The lower-case name of a filter level, as directives spell it.
pub open spec fn level_text(level: LevelFilter) -> Seq<char> {
    match level {
        LevelFilter::Off => "off"@,
        LevelFilter::Error => "error"@,
        LevelFilter::Warn => "warn"@,
        LevelFilter::Info => "info"@,
        LevelFilter::Debug => "debug"@,
        LevelFilter::Trace => "trace"@,
    }
}

/// The lower-case name of a filter level, as directives spell it.
pub fn level_name(level: LevelFilter) -> (name: &'static str)
    ensures
        name@ == level_text(level),
{
    match level {
        LevelFilter::Off => "off",
        LevelFilter::Error => "error",
        LevelFilter::Warn => "warn",
        LevelFilter::Info => "info",
        LevelFilter::Debug => "debug",
        LevelFilter::Trace => "trace",
    }
}

/// `c` with the upper-case ASCII letters turned to lower case.
pub open spec fn ascii_lower(c: char) -> char {
    if 'A' <= c <= 'Z' {
        (c as u32 + 32) as char
    } else {
        c
    }
}

/// `s` with the upper-case ASCII letters turned to lower case.
pub open spec fn folded(s: Seq<char>) -> Seq<char> {
    s.map_values(|c: char| ascii_lower(c))
}

/// The filter level that a text names, whatever the case of its ASCII letters.
pub open spec fn level_of(s: Seq<char>) -> Option<LevelFilter> {
    if folded(s) == "off"@ {
        Some(LevelFilter::Off)
    } else if folded(s) == "error"@ {
        Some(LevelFilter::Error)
    } else if folded(s) == "warn"@ {
        Some(LevelFilter::Warn)
    } else if folded(s) == "info"@ {
        Some(LevelFilter::Info)
    } else if folded(s) == "debug"@ {
        Some(LevelFilter::Debug)
    } else if folded(s) == "trace"@ {
        Some(LevelFilter::Trace)
    } else {
        None
    }
}

impl LevelFilter {
    /// How much a filter lets through.
    pub open spec fn rank(self) -> nat {
        match self {
            LevelFilter::Off => 0,
            LevelFilter::Error => 1,
            LevelFilter::Warn => 2,
            LevelFilter::Info => 3,
            LevelFilter::Debug => 4,
            LevelFilter::Trace => 5,
        }
    }

    /// Whether records of `level` pass.
    pub open spec fn passes(self, level: Level) -> bool {
        level.filter().rank() <= self.rank()
    }
}

/// Level names consist of lower-case ASCII letters, and each names its level.
pub proof fn level_text_names_level(level: LevelFilter)
    ensures
        level_text(level).len() >= 3,
        forall|i: int|
            0 <= i < level_text(level).len() ==> 'a' <= #[trigger] level_text(level)[i] <= 'z',
        level_of(level_text(level)) == Some(level),
{
    reveal_strlit("off");
    reveal_strlit("error");
    reveal_strlit("warn");
    reveal_strlit("info");
    reveal_strlit("debug");
    reveal_strlit("trace");
    assert(folded(level_text(level)) =~= level_text(level));
    assert("info"@[0] != "warn"@[0]);
    assert("error"@[0] != "debug"@[0]);
    assert("error"@[0] != "trace"@[0]);
    assert("debug"@[0] != "trace"@[0]);
}

/// A text that names a level holds nothing but ASCII letters, and the lower-case
/// form of it is the name of that level.
pub proof fn level_of_letters(s: Seq<char>)
    requires
        level_of(s) is Some,
    ensures
        folded(s) == level_text(level_of(s)->0),
        s.len() >= 3,
        forall|i: int|
            0 <= i < s.len() ==> 'a' <= #[trigger] s[i] <= 'z' || 'A' <= s[i] <= 'Z',
{
    level_text_names_level(level_of(s)->0);
    assert forall|i: int| 0 <= i < s.len() implies 'a' <= #[trigger] s[i] <= 'z' || 'A' <= s[i]
        <= 'Z' by {
        assert(folded(s)[i] == ascii_lower(s[i]));
    }
}

/// A level has the name that it is called by, in capitals, and the filter of the
/// same name; read as a level, whatever the case of its letters, the name gives the
/// level back.
pub proof fn levels_are_called_by_their_names(level: Level)
    ensures
        level.upper() == match level {
            Level::Error => seq!['E', 'R', 'R', 'O', 'R'],
            Level::Warn => seq!['W', 'A', 'R', 'N'],
            Level::Info => seq!['I', 'N', 'F', 'O'],
            Level::Debug => seq!['D', 'E', 'B', 'U', 'G'],
            Level::Trace => seq!['T', 'R', 'A', 'C', 'E'],
        },
        level.filter() == match level {
            Level::Error => LevelFilter::Error,
            Level::Warn => LevelFilter::Warn,
            Level::Info => LevelFilter::Info,
            Level::Debug => LevelFilter::Debug,
            Level::Trace => LevelFilter::Trace,
        },
        level_of(level.upper()) == Some(level.filter()),
        folded(level.upper()) == level_text(level.filter()),
{
    reveal_strlit("ERROR");
    reveal_strlit("WARN");
    reveal_strlit("INFO");
    reveal_strlit("DEBUG");
    reveal_strlit("TRACE");
    reveal_strlit("error");
    reveal_strlit("warn");
    reveal_strlit("info");
    reveal_strlit("debug");
    reveal_strlit("trace");
    assert(folded(level.upper()) =~= level_text(level.filter()));
    level_text_names_level(level.filter());
}

/// Different levels have different names.
pub proof fn level_names_differ(a: Level, b: Level)
    requires
        a != b,
    ensures
        a.upper() != b.upper(),
        level_text(a.filter()) != level_text(b.filter()),
{
    levels_are_called_by_their_names(a);
    levels_are_called_by_their_names(b);
    level_text_names_level(a.filter());
    level_text_names_level(b.filter());
}

/// A filter level has the name that it is called by, in small letters.
pub proof fn filter_levels_are_called_by_their_names(level: LevelFilter)
    ensures
        level_text(level) == match level {
            LevelFilter::Off => seq!['o', 'f', 'f'],
            LevelFilter::Error => seq!['e', 'r', 'r', 'o', 'r'],
            LevelFilter::Warn => seq!['w', 'a', 'r', 'n'],
            LevelFilter::Info => seq!['i', 'n', 'f', 'o'],
            LevelFilter::Debug => seq!['d', 'e', 'b', 'u', 'g'],
            LevelFilter::Trace => seq!['t', 'r', 'a', 'c', 'e'],
        },
{
    reveal_strlit("off");
    reveal_strlit("error");
    reveal_strlit("warn");
    reveal_strlit("info");
    reveal_strlit("debug");
    reveal_strlit("trace");
}

/// A filter passes its own level and everything graver, and nothing else.
pub proof fn filters_pass_what_is_as_grave(filter: LevelFilter)
    ensures
        filter.passes(Level::Error) <==> !(filter is Off),
        filter.passes(Level::Warn) <==> !(filter is Off) && !(filter is Error),
        filter.passes(Level::Info) <==> filter is Info || filter is Debug || filter is Trace,
        filter.passes(Level::Debug) <==> filter is Debug || filter is Trace,
        filter.passes(Level::Trace) <==> filter is Trace,
{
}

} // verus!
