//! A layered pipeline for `log` records and `tracing` events.
//!
//! ```text
//! log::Record --bridge--> tracing event
//!                             |
//!               filter with a reloadable level
//!                             |
//!    +----------------+----------------+----------------+
//!    | console lines  | file sink      | chrome trace   |
//! ```
//!
//! This crate holds what the pipeline computes and decides: which events its
//! filter lets through ([`filter`], [`directive`]), what is read from an event
//! ([`fields`]), how lines and traces look ([`format`], [`fmt_layer`], [`chrome`],
//! [`json`]), and what the file sink does with its queue ([`sink`]). Each function
//! states what it returns and is proved to; [`filter_laws`], [`format_laws`] and
//! [`chrome_laws`] hold what follows for the pipeline as a whole. What is taken from outside
//! crates stands in [`external`].
pub mod chrome;
pub mod chrome_laws;
pub mod directive;
pub mod external;
pub mod fields;
pub mod filter;
pub mod filter_laws;
pub mod fmt_layer;
pub mod format;
pub mod format_laws;
pub mod json;
pub mod level;
pub mod pipeline;
pub mod sink;
pub mod text;
pub mod time;

pub use chrome::ENV_CHROME_TRACE;
pub use filter::FilterHandle;
pub use format::{console_format, file_format_with_level, file_format_without_level};
pub use level::{Level, LevelFilter};
pub use pipeline::PipelineBuilder;
