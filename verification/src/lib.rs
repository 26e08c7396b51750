//! A per-process logging core: a severity/module filter that can be replaced
//! while other threads log, and a per-thread formatter cache that reuses its
//! render buffer between records.

pub mod directive;
pub mod filter;
pub mod fmt;
pub mod level;
pub mod logger;
pub mod record;
pub mod registry;
pub mod text;
pub mod writer;

pub use directive::{Directive, ParseError, ParseErrorKind};
pub use filter::Filter;
pub use fmt::Formatter;
pub use level::{Level, LevelFilter};
pub use logger::{
    Builder, DefaultRender, Logged, Logger, LoggerConfig, Outcome, Reconfigured, Render,
    RenderFault,
};
pub use record::{Metadata, Record};
pub use writer::{Sink, SinkFault, Tally, Target, WriteStyle};
