//! The pipeline's configuration: what the caller sets, what `RUST_LOG` says, and
//! the filter that follows from both.
use vstd::prelude::*;

use crate::directive::readable;
use crate::external::{all_understood, parsed_filter};
use crate::fields::str_text;
use crate::filter::{
    build_filter_checked, default_env_level, directive_list, directive_text, is_filter_for,
    level_asked_for, module_directives, preserved_module_directives,
};
use crate::level::LevelFilter;
use flexi_logger::writers::FileLogWriterBuilder;
use tracing_subscriber::filter::ParseError;
use tracing_subscriber::EnvFilter;

verus! {

/// The configuration of a pipeline.
pub struct PipelineBuilder {
    default_level: LevelFilter,
    file_writer: Option<FileLogWriterBuilder>,
}

/// What a pipeline starts with.
pub struct PipelinePlan {
    /// The filter, and its default level.
    pub filter: EnvFilter,
    pub default_level: LevelFilter,
    /// The module directives that survive every swap of the level.
    pub preserved: String,
    /// Why the module directives were dropped, if they were.
    pub complaint: Option<ParseError>,
    /// The file to write to, if any.
    pub file_writer: Option<FileLogWriterBuilder>,
}

/// The default level of a pipeline: a bare level in `RUST_LOG`, alone or beside
/// module directives, goes before the configured one.
pub open spec fn level_in_force(
    rust_log: Option<Seq<char>>,
    configured: LevelFilter,
) -> LevelFilter {
    match level_asked_for(rust_log) {
        Some(level) => level,
        None => configured,
    }
}

impl PipelineBuilder {
    /// The configured default level.
    pub closed spec fn configured_level(&self) -> LevelFilter {
        self.default_level
    }

    /// The configured file.
    pub closed spec fn configured_file(&self) -> Option<FileLogWriterBuilder> {
        self.file_writer
    }

    /// A pipeline at level `Info`, without a file.
    #[must_use]
    pub fn new() -> (res: Self)
        ensures
            res.configured_level() == LevelFilter::Info,
            res.configured_file() is None,
    {
        PipelineBuilder { default_level: LevelFilter::Info, file_writer: None }
    }

    /// Default filter level used when `RUST_LOG` carries no bare level, or several.
    #[must_use]
    pub fn default_level(self, level: LevelFilter) -> (res: Self)
        ensures
            res.configured_level() == level,
            res.configured_file() == self.configured_file(),
    {
        PipelineBuilder { default_level: level, file_writer: self.file_writer }
    }

    /// Writes to a file, with the rotation that `builder` asks for; without this
    /// call there is only the console.
    #[must_use]
    pub fn file_writer(self, builder: FileLogWriterBuilder) -> (res: Self)
        ensures
            res.configured_level() == self.configured_level(),
            res.configured_file() == Some(builder),
    {
        PipelineBuilder { default_level: self.default_level, file_writer: Some(builder) }
    }

    /// What the pipeline starts with, under the given value of `RUST_LOG`.
    pub fn assemble(self, rust_log: Option<&str>) -> (plan: PipelinePlan)
        ensures
            plan.preserved@ == module_directives(str_text(rust_log)),
            readable(plan.preserved@),
            plan.default_level == level_in_force(str_text(rust_log), self.configured_level()),
            is_filter_for(plan.filter, plan.default_level, plan.preserved@),
            match plan.complaint {
                Some(error) => parsed_filter(directive_text(plan.default_level, plan.preserved@))
                    == Err::<EnvFilter, ParseError>(error),
                None => all_understood(directive_list(plan.default_level, plan.preserved@)),
            },
            plan.file_writer == self.configured_file(),
    {
        let preserved = preserved_module_directives(rust_log);
        let default_level = match default_env_level(rust_log) {
            Some(level) => level,
            None => self.default_level,
        };
        let (filter, complaint) = build_filter_checked(default_level, preserved.as_str());
        PipelinePlan {
            filter,
            default_level,
            preserved,
            complaint,
            file_writer: self.file_writer,
        }
    }
}

impl Default for PipelineBuilder {
    fn default() -> (res: Self)
        ensures
            res.configured_level() == LevelFilter::Info,
            res.configured_file() is None,
    {
        Self::new()
    }
}

/// The level that `RUST_LOG` asks for is in force; where it asks for none, the
/// configured one is.
pub proof fn asked_levels_go_first(rust_log: Option<Seq<char>>, configured: LevelFilter)
    ensures
        level_asked_for(rust_log) is Some ==> level_in_force(rust_log, configured)
            == level_asked_for(rust_log)->0,
        level_asked_for(rust_log) is None ==> level_in_force(rust_log, configured) == configured,
        level_in_force(None, configured) == configured,
{
}

} // verus!
