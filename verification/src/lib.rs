//! A structured logging engine with several sinks.
//!
//! A [`Logger`] holds handlers and callbacks and decides, for each log call,
//! who is given the record. A [`FormatConfig`] turns a record into a line of
//! text by a template, or into JSON. A [`FileSink`] keeps count of the size of
//! a log file and of the time at which it rotates, and says what has to be
//! done to write a line.
//!
//! Nothing here prints, opens a file or starts a thread: each function says
//! what is to be written where, and its caller does so. The contract of each
//! function says what it returns.

pub mod color;
pub mod context;
pub mod dict;
pub mod format;
pub mod handler;
pub mod json;
pub mod level;
pub mod logger;
pub mod markup;
pub mod render;
pub mod retention;
pub mod sink;
pub mod text;
pub mod time;
pub mod view;
pub mod writer;

pub use color::Color;
pub use context::bind_context;
pub use format::{parse_template, FormatConfig, FormatToken, TokenRequirements};
pub use handler::{
    empty_context, CallerInfo, ConsoleHandler, Context, Delivery, FileHandler, HandlerEntry,
    HandlerType, LogRecord, ProcessInfo, ThreadInfo,
};
pub use level::{
    get_color_from_name, get_level_by_no, get_level_info, register_level, LevelInfo, LevelRegistry,
    LogLevel,
};
pub use logger::{CallbackEntry, ConfigError, Dispatch, LevelArg, Logger};
pub use markup::apply_color_markup;
pub use retention::{select_expired, FileEntry};
pub use sink::{
    parse_retention, parse_rotation, parse_size, FileSink, FileSinkConfig, PathParts,
    RetentionPolicy, Rotation, RotationPlan, WritePlan,
};
pub use time::{format_elapsed, Timestamp};
pub use view::{build_record_view, RecordView, ViewValue};
pub use writer::{writer_step, WriterAction, WriterEvent, WriterMessage};
