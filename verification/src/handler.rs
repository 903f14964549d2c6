//! Log records, and the handlers that decide whether a record is written and how.

use crate::color::Color;
use crate::dict::Dict;
use crate::format::{FormatConfig, TokenRequirements, DEFAULT_FORMAT_TEMPLATE, DEFAULT_TIME_FORMAT};
use crate::level::{color_from_name, LevelInfo, LogLevel};
use crate::render::record_line;
use crate::sink::{FileSink, WritePlan};
use crate::time::Timestamp;
use crate::writer::WriterMessage;
use std::sync::Arc;
use vstd::prelude::*;

verus! {

/// The key/value pairs that a logger attaches to every record it emits.
pub type Context = Dict<String>;

/// Hands out one more owner of a shared value through `Arc::clone`, which
/// copies nothing: both owners see the same value.
#[verifier::external_body]
pub(crate) fn share<T>(a: &Arc<T>) -> (r: Arc<T>)
    ensures
        r == *a,
{
    Arc::clone(a)
}

/// A context without entries.
pub fn empty_context() -> (r: Arc<Context>)
    ensures
        r@ == Map::<Seq<char>, String>::empty(),
{
    Arc::new(Dict::new())
}

/// Where a log call was made.
#[derive(Clone, Debug)]
pub struct CallerInfo {
    pub name: String,
    pub function: String,
    pub line: u32,
    pub file: String,
}

impl Default for CallerInfo {
    fn default() -> (r: Self)
        ensures
            r.name@ == Seq::<char>::empty(),
            r.function@ == Seq::<char>::empty(),
            r.line == 0,
            r.file@ == Seq::<char>::empty(),
    {
        CallerInfo { name: String::new(), function: String::new(), line: 0, file: String::new() }
    }
}

impl CallerInfo {
    pub fn new(name: String, function: String, line: u32) -> (r: Self)
        ensures
            r.name == name,
            r.function == function,
            r.line == line,
            r.file@ == Seq::<char>::empty(),
    {
        CallerInfo { name, function, line, file: String::new() }
    }

    pub fn with_file(name: String, function: String, line: u32, file: String) -> (r: Self)
        ensures
            r.name == name,
            r.function == function,
            r.line == line,
            r.file == file,
    {
        CallerInfo { name, function, line, file }
    }
}

/// The thread that made a log call.
#[derive(Clone, Debug)]
pub struct ThreadInfo {
    pub name: String,
    pub id: u64,
}

impl Default for ThreadInfo {
    fn default() -> (r: Self)
        ensures
            r.name@ == Seq::<char>::empty(),
            r.id == 0,
    {
        ThreadInfo { name: String::new(), id: 0 }
    }
}

/// The process that made a log call.
#[derive(Clone, Debug)]
pub struct ProcessInfo {
    pub name: String,
    pub id: u32,
}

impl Default for ProcessInfo {
    fn default() -> (r: Self)
        ensures
            r.name@ == Seq::<char>::empty(),
            r.id == 0,
    {
        ProcessInfo { name: String::new(), id: 0 }
    }
}

/// Everything that is known of one log event.
#[derive(Clone, Debug)]
pub struct LogRecord {
    pub timestamp: Timestamp,
    /// The built-in level; of no meaning where `level_info` is set.
    pub level: LogLevel,
    /// The level of a record that was logged at a custom level.
    pub level_info: Option<LevelInfo>,
    pub message: String,
    pub extra: Arc<Context>,
    pub exception: Option<String>,
    pub caller: CallerInfo,
    pub thread: ThreadInfo,
    pub process: ProcessInfo,
}

impl LogRecord {
    /// The name of the record's level.
    pub open spec fn label(&self) -> Seq<char> {
        match self.level_info {
            Some(info) => info.name@,
            None => self.level.label(),
        }
    }

    /// The number of the record's level.
    pub open spec fn number(&self) -> u32 {
        match self.level_info {
            Some(info) => info.no,
            None => self.level.no(),
        }
    }

    /// The colour of the record's level.
    pub open spec fn color(&self) -> Color {
        match self.level_info {
            Some(info) => color_from_name(info.color@),
            None => self.level.default_color(),
        }
    }

    /// A record of a built-in level with nothing attached.
    pub open spec fn is_bare(&self) -> bool {
        &&& self.exception.is_none()
        &&& self.has_no_origin()
    }

    /// A record that names no caller, thread or process.
    pub open spec fn has_no_origin(&self) -> bool {
        &&& self.caller.name@ == Seq::<char>::empty()
        &&& self.caller.function@ == Seq::<char>::empty()
        &&& self.caller.line == 0
        &&& self.caller.file@ == Seq::<char>::empty()
        &&& self.thread.name@ == Seq::<char>::empty()
        &&& self.thread.id == 0
        &&& self.process.name@ == Seq::<char>::empty()
        &&& self.process.id == 0
    }

    /// A record of the present moment, as the local clock reads it, at a
    /// built-in level.
    pub fn new(level: LogLevel, message: String) -> (r: Self)
        ensures
            r.timestamp.is_reading(),
            r.level == level,
            r.level_info.is_none(),
            r.message == message,
            r.extra@ == Map::<Seq<char>, String>::empty(),
            r.is_bare(),
    {
        LogRecord {
            timestamp: Timestamp::now(),
            level,
            level_info: None,
            message,
            extra: empty_context(),
            exception: None,
            caller: CallerInfo::default(),
            thread: ThreadInfo::default(),
            process: ProcessInfo::default(),
        }
    }

    /// A record of the present moment that shares a context.
    pub fn with_extra(level: LogLevel, message: String, extra: Arc<Context>) -> (r: Self)
        ensures
            r.timestamp.is_reading(),
            r.level == level,
            r.level_info.is_none(),
            r.message == message,
            r.extra == extra,
            r.is_bare(),
    {
        LogRecord {
            timestamp: Timestamp::now(),
            level,
            level_info: None,
            message,
            extra,
            exception: None,
            caller: CallerInfo::default(),
            thread: ThreadInfo::default(),
            process: ProcessInfo::default(),
        }
    }

    /// A record of the present moment with its caller and, where there is one,
    /// the text of an exception.
    pub fn with_caller(
        level: LogLevel,
        message: String,
        extra: Arc<Context>,
        exception: Option<String>,
        caller: CallerInfo,
    ) -> (r: Self)
        ensures
            r.timestamp.is_reading(),
            r.level == level,
            r.level_info.is_none(),
            r.message == message,
            r.extra == extra,
            r.exception == exception,
            r.caller == caller,
            r.thread.name@ == Seq::<char>::empty(),
            r.thread.id == 0,
            r.process.name@ == Seq::<char>::empty(),
            r.process.id == 0,
    {
        LogRecord {
            timestamp: Timestamp::now(),
            level,
            level_info: None,
            message,
            extra,
            exception,
            caller,
            thread: ThreadInfo::default(),
            process: ProcessInfo::default(),
        }
    }

    /// A record of the present moment with every field given.
    pub fn with_all(
        level: LogLevel,
        message: String,
        extra: Arc<Context>,
        exception: Option<String>,
        caller: CallerInfo,
        thread: ThreadInfo,
        process: ProcessInfo,
    ) -> (r: Self)
        ensures
            r.timestamp.is_reading(),
            r.level == level,
            r.level_info.is_none(),
            r.message == message,
            r.extra == extra,
            r.exception == exception,
            r.caller == caller,
            r.thread == thread,
            r.process == process,
    {
        LogRecord {
            timestamp: Timestamp::now(),
            level,
            level_info: None,
            message,
            extra,
            exception,
            caller,
            thread,
            process,
        }
    }

    /// A record of the present moment with, where there is one, the text of an
    /// exception.
    pub fn with_exception(
        level: LogLevel,
        message: String,
        extra: Arc<Context>,
        exception: Option<String>,
    ) -> (r: Self)
        ensures
            r.timestamp.is_reading(),
            r.level == level,
            r.level_info.is_none(),
            r.message == message,
            r.extra == extra,
            r.exception == exception,
            r.has_no_origin(),
    {
        LogRecord {
            timestamp: Timestamp::now(),
            level,
            level_info: None,
            message,
            extra,
            exception,
            caller: CallerInfo::default(),
            thread: ThreadInfo::default(),
            process: ProcessInfo::default(),
        }
    }

    /// A record of the present moment at a custom level.
    pub fn with_custom_level(
        level_info: LevelInfo,
        message: String,
        extra: Arc<Context>,
        exception: Option<String>,
    ) -> (r: Self)
        ensures
            r.timestamp.is_reading(),
            r.level_info == Some(level_info),
            r.message == message,
            r.extra == extra,
            r.exception == exception,
            r.has_no_origin(),
    {
        LogRecord {
            timestamp: Timestamp::now(),
            level: LogLevel::Debug,
            level_info: Some(level_info),
            message,
            extra,
            exception,
            caller: CallerInfo::default(),
            thread: ThreadInfo::default(),
            process: ProcessInfo::default(),
        }
    }

    /// A record of the present moment at a custom level, with its caller.
    pub fn with_custom_level_and_caller(
        level_info: LevelInfo,
        message: String,
        extra: Arc<Context>,
        exception: Option<String>,
        caller: CallerInfo,
    ) -> (r: Self)
        ensures
            r.timestamp.is_reading(),
            r.level_info == Some(level_info),
            r.message == message,
            r.extra == extra,
            r.exception == exception,
            r.caller == caller,
            r.thread.name@ == Seq::<char>::empty(),
            r.thread.id == 0,
            r.process.name@ == Seq::<char>::empty(),
            r.process.id == 0,
    {
        LogRecord {
            timestamp: Timestamp::now(),
            level: LogLevel::Debug,
            level_info: Some(level_info),
            message,
            extra,
            exception,
            caller,
            thread: ThreadInfo::default(),
            process: ProcessInfo::default(),
        }
    }

    /// A record of the present moment at a custom level, with every field given.
    pub fn with_custom_level_full(
        level_info: LevelInfo,
        message: String,
        extra: Arc<Context>,
        exception: Option<String>,
        caller: CallerInfo,
        thread: ThreadInfo,
        process: ProcessInfo,
    ) -> (r: Self)
        ensures
            r.timestamp.is_reading(),
            r.level_info == Some(level_info),
            r.message == message,
            r.extra == extra,
            r.exception == exception,
            r.caller == caller,
            r.thread == thread,
            r.process == process,
    {
        LogRecord {
            timestamp: Timestamp::now(),
            level: LogLevel::Debug,
            level_info: Some(level_info),
            message,
            extra,
            exception,
            caller,
            thread,
            process,
        }
    }

    pub fn level_name(&self) -> (r: &str)
        ensures
            r@ == self.label(),
    {
        match &self.level_info {
            Some(info) => info.name.as_str(),
            None => self.level.as_str(),
        }
    }

    pub fn level_no(&self) -> (r: u32)
        ensures
            r == self.number(),
    {
        match &self.level_info {
            Some(info) => info.no,
            None => self.level.value() as u32,
        }
    }

    pub fn is_custom(&self) -> (r: bool)
        ensures
            r == self.level_info.is_some(),
    {
        self.level_info.is_some()
    }

    /// The colour in which the record's level is printed.
    pub fn level_color(&self) -> (r: Color)
        ensures
            r == self.color(),
    {
        match &self.level_info {
            Some(info) => info.get_color(),
            None => self.level.color(),
        }
    }
}

/// What a handler has to have done with a record.
#[derive(Debug)]
pub enum Delivery {
    /// Nothing: the record is below the handler's level.
    Skipped,
    /// The text goes to the standard output, or to the standard error stream
    /// where `use_stderr` is set, as one line.
    Console { use_stderr: bool, text: String },
    /// The line goes to the handler's file, after a rotation where one is due.
    File { plan: WritePlan },
}

/// A handler that writes to the terminal.
#[derive(Debug)]
pub struct ConsoleHandler {
    pub level: LogLevel,
    pub format: FormatConfig,
    pub colorize: bool,
    pub use_stderr: bool,
}

impl ConsoleHandler {
    /// A handler that writes to the standard output in colours, by the default
    /// template.
    pub fn new(level: LogLevel) -> (r: Self)
        ensures
            r.level == level,
            r.format.template_text() == DEFAULT_FORMAT_TEMPLATE@,
            !r.format.serializes(),
            r.format.time_format_text() == DEFAULT_TIME_FORMAT@,
            r.format.wf(),
            r.colorize,
            !r.use_stderr,
    {
        ConsoleHandler { level, format: FormatConfig::default(), colorize: true, use_stderr: false }
    }

    /// A handler that writes to the standard output, in colours unless it
    /// writes JSON.
    pub fn with_format(level: LogLevel, format: FormatConfig) -> (r: Self)
        ensures
            r.level == level,
            r.format == format,
            r.colorize == !format.serializes(),
            !r.use_stderr,
    {
        let colorize = !format.serialize();
        ConsoleHandler { level, format, colorize, use_stderr: false }
    }

    pub fn with_options(level: LogLevel, format: FormatConfig, colorize: bool, use_stderr: bool) -> (r:
        Self)
        ensures
            r.level == level,
            r.format == format,
            r.colorize == colorize,
            r.use_stderr == use_stderr,
    {
        ConsoleHandler { level, format, colorize, use_stderr }
    }

    /// What the handler does with a record.
    pub open spec fn delivery(&self, record: LogRecord, start: Timestamp, r: Delivery) -> bool {
        if record.number() >= self.level.no() {
            match r {
                Delivery::Console { use_stderr, text } => use_stderr == self.use_stderr && text@
                    == record_line(&self.format, record, self.colorize, start),
                _ => false,
            }
        } else {
            r is Skipped
        }
    }

    /// Formats the record where it is at the handler's level or above.
    pub fn handle(&self, record: &LogRecord, start: &Timestamp) -> (r: Delivery)
        ensures
            self.delivery(*record, *start, r),
    {
        if record.level_no() >= self.level.value() as u32 {
            let output = self.format.format_record(record, self.colorize, start);
            Delivery::Console { use_stderr: self.use_stderr, text: output }
        } else {
            Delivery::Skipped
        }
    }
}

/// A handler that writes to a file.
#[derive(Debug)]
pub struct FileHandler {
    pub sink: FileSink,
    pub level: LogLevel,
    pub format: FormatConfig,
}

impl FileHandler {
    /// A handler that writes by the default template.
    pub fn new(sink: FileSink, level: LogLevel) -> (r: Self)
        ensures
            r.sink == sink,
            r.level == level,
            r.format.template_text() == DEFAULT_FORMAT_TEMPLATE@,
            !r.format.serializes(),
            r.format.time_format_text() == DEFAULT_TIME_FORMAT@,
            r.format.wf(),
    {
        FileHandler { sink, level, format: FormatConfig::default() }
    }

    pub fn with_format(sink: FileSink, level: LogLevel, format: FormatConfig) -> (r: Self)
        ensures
            r.sink == sink,
            r.level == level,
            r.format == format,
    {
        FileHandler { sink, level, format }
    }

    /// What the handler does with a record at `now`.
    pub open spec fn delivery(&self, record: LogRecord, now: Timestamp, start: Timestamp, r: Delivery) -> bool {
        if record.number() >= self.level.no() {
            match r {
                Delivery::File { plan } => {
                    &&& plan.rotation.is_some() == self.sink.rotation_due(now)
                    &&& match plan.rotation {
                        Some(rotation) => self.sink.is_plan(now, rotation),
                        None => true,
                    }
                    &&& match plan.message {
                        WriterMessage::Write(line) => line@ == record_line(
                            &self.format,
                            record,
                            false,
                            start,
                        ),
                        _ => false,
                    }
                },
                _ => false,
            }
        } else {
            r is Skipped
        }
    }

    /// Formats the record without colours where it is at the handler's level
    /// or above, and plans its way into the file.
    pub fn handle(&self, record: &LogRecord, now: &Timestamp, start: &Timestamp) -> (r: Delivery)
        ensures
            self.delivery(*record, *now, *start, r),
    {
        if record.level_no() >= self.level.value() as u32 {
            let output = self.format.format_record(record, false, start);
            Delivery::File { plan: self.sink.write_owned(output, now) }
        } else {
            Delivery::Skipped
        }
    }
}

/// A handler of one of the two kinds.
#[derive(Debug)]
pub enum HandlerType {
    Console(ConsoleHandler),
    File(FileHandler),
}

impl HandlerType {
    /// The level from which the handler takes records.
    pub open spec fn threshold(&self) -> LogLevel {
        match self {
            HandlerType::Console(h) => h.level,
            HandlerType::File(h) => h.level,
        }
    }

    /// What the handler's format asks for.
    pub open spec fn needs(&self) -> TokenRequirements {
        match self {
            HandlerType::Console(h) => h.format.needs(),
            HandlerType::File(h) => h.format.needs(),
        }
    }

    /// What the handler does with a record at `now`.
    pub open spec fn delivery(&self, record: LogRecord, now: Timestamp, start: Timestamp, r: Delivery) -> bool {
        match self {
            HandlerType::Console(h) => h.delivery(record, start, r),
            HandlerType::File(h) => h.delivery(record, now, start, r),
        }
    }

    /// Whether the handler takes a record of the given number.
    pub open spec fn admits(&self, level_no: u32) -> bool {
        level_no >= self.threshold().no()
    }

    pub fn handle(&self, record: &LogRecord, now: &Timestamp, start: &Timestamp) -> (r: Delivery)
        ensures
            self.delivery(*record, *now, *start, r),
            (r is Skipped) == !self.admits(record.number()),
    {
        match self {
            HandlerType::Console(h) => h.handle(record, start),
            HandlerType::File(h) => h.handle(record, now, start),
        }
    }

    pub fn level(&self) -> (r: LogLevel)
        ensures
            r == self.threshold(),
    {
        match self {
            HandlerType::Console(h) => h.level,
            HandlerType::File(h) => h.level,
        }
    }

    pub fn requirements(&self) -> (r: TokenRequirements)
        ensures
            r == self.needs(),
    {
        match self {
            HandlerType::Console(h) => h.format.requirements(),
            HandlerType::File(h) => h.format.requirements(),
        }
    }
}

/// A handler with its id and, where it has one, its filter. The filter is a
/// value of the caller's: it is kept here and never looked into.
#[derive(Debug)]
pub struct HandlerEntry<F> {
    pub id: u64,
    pub handler: HandlerType,
    pub filter: Option<F>,
}

impl<F> HandlerEntry<F> {
    /// Whether the handler is given a record of the given number. `verdict`
    /// is what the filter said of the record: `Some(false)` where it turned the
    /// record down, `Some(true)` where it let it pass, `None` where it failed
    /// or was not asked.
    pub open spec fn invoked(&self, level_no: u32, verdict: Option<bool>) -> bool {
        self.handler.admits(level_no) && (self.filter.is_none() || verdict != Some(false))
    }

    /// Whether the filter, where there is one, lets a record pass on the
    /// verdict given.
    pub fn passes(&self, verdict: Option<bool>) -> (r: bool)
        ensures
            r == (self.filter.is_none() || verdict != Some(false)),
    {
        match &self.filter {
            None => true,
            Some(_) => match verdict {
                Some(false) => false,
                _ => true,
            },
        }
    }

    /// Hands the record to the handler unless the filter turned it down.
    pub fn deliver(&self, record: &LogRecord, verdict: Option<bool>, now: &Timestamp, start: &Timestamp) -> (r:
        Delivery)
        ensures
            !(r is Skipped) == self.invoked(record.number(), verdict),
            self.invoked(record.number(), verdict) ==> self.handler.delivery(*record, *now, *start, r),
    {
        if self.passes(verdict) {
            self.handler.handle(record, now, start)
        } else {
            Delivery::Skipped
        }
    }
}

} // verus!
