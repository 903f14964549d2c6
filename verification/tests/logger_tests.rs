use logust::format::{FormatConfig, TokenRequirements};
use logust::handler::{
    empty_context, ConsoleHandler, Delivery, FileHandler, HandlerType, LogRecord,
};
use logust::level::{register_level, LevelInfo, LevelRegistry, LogLevel};
use logust::logger::{ConfigError, Dispatch, LevelArg, Logger};
use logust::sink::{FileSink, FileSinkConfig, PathParts};
use logust::time::Timestamp;
use logust::writer::WriterMessage;

type TestLogger = Logger<&'static str, &'static str>;

fn moment() -> Timestamp {
    Timestamp { secs: 1_700_000_000, nanos: 0, offset_secs: 0 }
}

fn sink(max_size: Option<u64>) -> FileSink {
    let mut config = FileSinkConfig::default();
    config.max_size = max_size;
    let parts = PathParts::new(Some("app".to_string()), Some("log".to_string()), Some("app.log".to_string()));
    FileSink::new(config, parts, 0, moment())
}

fn call(logger: &TestLogger, level: LogLevel, message: &str) -> Option<Dispatch> {
    logger.dispatch(
        level,
        message.to_string(),
        None,
        None,
        None,
        None,
        None,
        None,
        None,
        None,
        None,
        &empty_context(),
    )
}

#[test]
fn a_new_logger_writes_to_the_standard_output() {
    let logger = TestLogger::new(None);
    assert_eq!(logger.handler_count(), 1);
    assert_eq!(logger.callback_count(), 0);
    assert_eq!(logger.get_level(), LogLevel::Debug);
    assert_eq!(logger.min_level(), 10);
    assert!(logger.is_enabled());
    assert!(logger.has_free_id());
    let entry = logger.handler_at(0);
    assert_eq!(entry.id, 0);
    assert!(entry.filter.is_none());
    match &entry.handler {
        HandlerType::Console(h) => {
            assert_eq!(h.level, LogLevel::Debug);
            assert!(h.colorize);
            assert!(!h.use_stderr);
        },
        _ => panic!("a console handler was expected"),
    }
    let logger = TestLogger::new(Some(LogLevel::Error));
    assert_eq!(logger.get_level(), LogLevel::Error);
    assert_eq!(logger.min_level(), 40);
}

#[test]
fn an_empty_logger_has_the_highest_lowest_level() {
    let logger = TestLogger::empty();
    assert_eq!(logger.handler_count(), 0);
    assert_eq!(logger.min_level(), u32::MAX);
    assert_eq!(logger.get_level(), LogLevel::Debug);
    assert!(!logger.is_enabled());
    assert!(!logger.is_level_enabled(LogLevel::Critical));
    assert_eq!(logger.requirements(), TokenRequirements::default());
    assert!(call(&logger, LogLevel::Critical, "m").is_none());
}

#[test]
fn the_lowest_level_follows_adding_and_removing() {
    let mut logger = TestLogger::new(Some(LogLevel::Warning));
    assert_eq!(logger.min_level(), 30);
    let file = logger.add(sink(None), Some(LogLevel::Error), None, None, None);
    assert_eq!(file, 1);
    assert_eq!(logger.min_level(), 30);
    let low = logger.add(sink(None), Some(LogLevel::Trace), None, None, None);
    assert_eq!(low, 2);
    assert_eq!(logger.min_level(), 5);
    let cb = logger.add_callback("cb", Some(LogLevel::Info));
    assert_eq!(cb, 3);
    assert_eq!(logger.min_level(), 5);
    assert!(logger.remove(Some(low)));
    assert_eq!(logger.min_level(), 20);
    assert!(!logger.remove(Some(low)));
    assert!(!logger.remove(Some(99)));
    assert_eq!(logger.min_level(), 20);
    assert!(logger.remove_callback(cb));
    assert!(!logger.remove_callback(cb));
    assert_eq!(logger.min_level(), 30);
    assert!(logger.remove(Some(0)));
    assert_eq!(logger.min_level(), 40);
    assert!(logger.remove(None));
    assert_eq!(logger.handler_count(), 0);
    assert_eq!(logger.min_level(), u32::MAX);
    assert!(logger.remove(None));
    let cb = logger.add_callback("cb", None);
    assert_eq!(cb, 4);
    assert_eq!(logger.min_level(), 10);
}

#[test]
fn console_streams() {
    let mut logger = TestLogger::empty();
    assert_eq!(
        logger.add_console("file", None, None, None, None, None),
        Err(ConfigError::InvalidStream)
    );
    assert_eq!(logger.add_console("", None, None, None, None, None), Err(ConfigError::InvalidStream));
    assert_eq!(
        logger.add_console("STDOUT", None, None, None, None, None),
        Err(ConfigError::InvalidStream)
    );
    assert_eq!(logger.handler_count(), 0);
    assert_eq!(ConfigError::InvalidStream.message(), "stream must be 'stdout' or 'stderr'");
    assert_eq!(ConfigError::InvalidLevel.message(), "Invalid log level");

    assert_eq!(logger.add_console("stdout", None, None, None, None, None), Ok(0));
    assert_eq!(
        logger.add_console(
            "stderr",
            Some(LogLevel::Error),
            Some("{message}".to_string()),
            Some(true),
            Some("filter"),
            None
        ),
        Ok(1)
    );
    assert_eq!(
        logger.add_console("stderr", None, None, Some(true), None, Some(true)),
        Ok(2)
    );
    match &logger.handler_at(0).handler {
        HandlerType::Console(h) => {
            assert_eq!(h.level, LogLevel::Debug);
            assert!(!h.use_stderr);
            assert!(h.colorize);
            assert!(!h.format.serialize());
        },
        _ => panic!("a console handler was expected"),
    }
    let entry = logger.handler_at(1);
    assert_eq!(entry.filter, Some("filter"));
    match &entry.handler {
        HandlerType::Console(h) => {
            assert_eq!(h.level, LogLevel::Error);
            assert!(h.use_stderr);
            assert!(!h.colorize);
            assert!(h.format.serialize());
            assert_eq!(h.format.template(), "{message}");
        },
        _ => panic!("a console handler was expected"),
    }
    match &logger.handler_at(2).handler {
        HandlerType::Console(h) => assert!(h.colorize),
        _ => panic!("a console handler was expected"),
    }
}

#[test]
fn requirements_are_kept_ready() {
    let mut logger = TestLogger::empty();
    logger.add_console("stdout", None, Some("{message}".to_string()), None, None, None).unwrap();
    assert!(!logger.needs_caller_info());
    assert!(!logger.needs_thread_info());
    assert!(!logger.needs_process_info());
    assert!(!logger.any_filters());
    let file = logger.add(sink(None), None, Some("{thread} {name}".to_string()), None, None);
    assert!(logger.needs_caller_info());
    assert!(logger.needs_thread_info());
    assert!(!logger.needs_process_info());
    assert!(logger.needs_caller_info_for_handlers());
    assert!(logger.needs_thread_info_for_handlers());
    assert!(!logger.needs_process_info_for_handlers());
    let expected = TokenRequirements {
        needs_caller: true,
        needs_thread: true,
        needs_process: false,
        needs_time: false,
        needs_level: false,
        needs_message: true,
        needs_elapsed: false,
    };
    assert_eq!(logger.requirements(), expected);
    assert_eq!(logger.handler_requirements(), expected);

    let cb = logger.add_callback("cb", None);
    assert_eq!(logger.requirements(), TokenRequirements::all());
    assert_eq!(logger.handler_requirements(), expected);
    assert!(logger.needs_process_info());
    assert!(!logger.needs_process_info_for_handlers());
    logger.remove_callback(cb);
    assert_eq!(logger.requirements(), expected);

    let filtered = logger.add_console("stderr", None, Some("x".to_string()), None, Some("f"), None).unwrap();
    assert!(logger.any_filters());
    assert_eq!(logger.requirements(), TokenRequirements::all());
    assert_eq!(logger.handler_requirements(), expected);
    logger.remove(Some(filtered));
    assert!(!logger.any_filters());
    assert_eq!(logger.requirements(), expected);
    logger.remove(Some(file));
    assert!(!logger.needs_caller_info());
    assert!(logger.requirements().needs_message);
}

#[test]
fn levels_of_console_handlers_are_set_together() {
    let mut logger = TestLogger::new(None);
    logger.add(sink(None), Some(LogLevel::Info), None, None, None);
    logger.add_console("stderr", Some(LogLevel::Trace), None, None, None, None).unwrap();
    assert_eq!(logger.min_level(), 5);
    logger.set_level(LogLevel::Critical);
    assert_eq!(logger.get_level(), LogLevel::Critical);
    assert_eq!(logger.handler_at(0).handler.level(), LogLevel::Critical);
    assert_eq!(logger.handler_at(1).handler.level(), LogLevel::Info);
    assert_eq!(logger.handler_at(2).handler.level(), LogLevel::Critical);
    assert_eq!(logger.handler_at(2).id, 2);
    assert_eq!(logger.min_level(), 20);
    assert!(logger.is_level_enabled(LogLevel::Info));
    assert!(logger.is_level_enabled(LogLevel::Critical));
    assert!(!logger.is_level_enabled(LogLevel::Debug));
}

#[test]
fn the_terminal_can_be_switched_off_and_on() {
    let mut logger = TestLogger::new(None);
    logger.add(sink(None), Some(LogLevel::Info), None, None, None);
    logger.add_console("stderr", None, None, None, None, None).unwrap();
    logger.disable();
    assert!(!logger.is_enabled());
    assert_eq!(logger.handler_count(), 1);
    assert_eq!(logger.handler_at(0).id, 1);
    assert_eq!(logger.get_level(), LogLevel::Debug);
    assert_eq!(logger.min_level(), 20);
    logger.disable();
    assert_eq!(logger.handler_count(), 1);
    logger.enable(Some(LogLevel::Warning));
    assert!(logger.is_enabled());
    assert_eq!(logger.handler_count(), 2);
    assert_eq!(logger.handler_at(1).id, 3);
    assert_eq!(logger.get_level(), LogLevel::Warning);
    logger.enable(Some(LogLevel::Trace));
    assert_eq!(logger.handler_count(), 2);
    assert_eq!(logger.get_level(), LogLevel::Warning);
    logger.disable();
    logger.enable(None);
    assert_eq!(logger.get_level(), LogLevel::Debug);
}

#[test]
fn files_to_write_out() {
    let mut logger = TestLogger::new(None);
    assert_eq!(logger.complete(), Vec::<usize>::new());
    logger.add(sink(None), None, None, None, None);
    logger.add_console("stderr", None, None, None, None, None).unwrap();
    logger.add(sink(None), None, None, None, None);
    assert_eq!(logger.complete(), vec![1, 3]);
}

#[test]
fn callbacks_are_removed_in_batches() {
    let mut logger = TestLogger::empty();
    let a = logger.add_callback("a", None);
    let b = logger.add_callback("b", Some(LogLevel::Error));
    let c = logger.add_callback("c", None);
    let d = logger.add_callback("d", None);
    assert_eq!((a, b, c, d), (0, 1, 2, 3));
    assert_eq!(logger.remove_callbacks(vec![]), 0);
    assert_eq!(logger.remove_callbacks(vec![77]), 0);
    assert_eq!(logger.callback_count(), 4);
    assert_eq!(logger.remove_callbacks(vec![c, a, a, 55]), 2);
    assert_eq!(logger.callback_count(), 2);
    assert_eq!(logger.callback_at(0).id, b);
    assert_eq!(logger.callback_at(0).callback, "b");
    assert_eq!(logger.callback_at(0).level, LogLevel::Error);
    assert_eq!(logger.callback_at(1).id, d);
    assert_eq!(logger.remove_callbacks(vec![b, d]), 2);
    assert_eq!(logger.callback_count(), 0);
    assert_eq!(logger.min_level(), u32::MAX);
}

#[test]
fn below_the_lowest_level_nothing_happens() {
    let mut logger = TestLogger::new(Some(LogLevel::Warning));
    logger.add_callback("cb", Some(LogLevel::Error));
    assert_eq!(logger.min_level(), 30);
    for level in [LogLevel::Trace, LogLevel::Debug, LogLevel::Info, LogLevel::Success] {
        assert!((level.value() as u32) < logger.min_level());
        assert!(call(&logger, level, "m").is_none());
        let record = LogRecord::new(level, "m".to_string());
        let delivery = logger.deliver(0, &record, None, &moment(), &moment());
        assert!(matches!(delivery, Delivery::Skipped));
    }
    assert!(call(&logger, LogLevel::Warning, "m").is_some());
}

#[test]
fn a_log_call_makes_a_record() {
    let mut logger = TestLogger::new(None);
    let context = empty_context();
    let d = logger
        .dispatch(
            LogLevel::Info,
            "hello".to_string(),
            Some("exc".to_string()),
            Some("mod".to_string()),
            Some("fun".to_string()),
            Some(12),
            Some("f.py".to_string()),
            Some("main".to_string()),
            Some(5),
            Some("proc".to_string()),
            Some(6),
            &context,
        )
        .unwrap();
    assert_eq!(d.record.level, LogLevel::Info);
    assert!(d.record.level_info.is_none());
    assert_eq!(d.record.message, "hello");
    assert_eq!(d.record.exception, Some("exc".to_string()));
    assert_eq!(d.record.caller.name, "mod");
    assert_eq!(d.record.caller.function, "fun");
    assert_eq!(d.record.caller.line, 12);
    assert_eq!(d.record.caller.file, "f.py");
    assert_eq!(d.record.thread.name, "main");
    assert_eq!(d.record.thread.id, 5);
    assert_eq!(d.record.process.name, "proc");
    assert_eq!(d.record.process.id, 6);
    assert!(std::sync::Arc::ptr_eq(&d.record.extra, &context));
    assert!(!d.needs_view);
    assert!(d.callbacks.is_empty());

    let d = call(&logger, LogLevel::Info, "m").unwrap();
    assert_eq!(d.record.caller.name, "");
    assert_eq!(d.record.caller.line, 0);
    assert_eq!(d.record.thread.id, 0);
    assert_eq!(d.record.process.id, 0);
    assert!(d.record.exception.is_none());

    logger.add_callback("low", Some(LogLevel::Trace));
    logger.add_callback("high", Some(LogLevel::Error));
    logger.add_callback("mid", Some(LogLevel::Info));
    let d = call(&logger, LogLevel::Info, "m").unwrap();
    assert!(d.needs_view);
    assert_eq!(d.callbacks, vec![0, 2]);
    let d = call(&logger, LogLevel::Critical, "m").unwrap();
    assert_eq!(d.callbacks, vec![0, 1, 2]);
    let d = call(&logger, LogLevel::Trace, "m").unwrap();
    assert_eq!(d.callbacks, vec![0]);
}

#[test]
fn filters_ask_for_the_view() {
    let mut logger = TestLogger::empty();
    logger.add_console("stdout", Some(LogLevel::Info), None, None, Some("f"), None).unwrap();
    logger.add_callback("cb", Some(LogLevel::Critical));
    let d = call(&logger, LogLevel::Info, "m").unwrap();
    assert!(d.needs_view);
    assert!(d.callbacks.is_empty());
    assert!(call(&logger, LogLevel::Debug, "m").is_none());
}

#[test]
fn a_handler_is_invoked_by_level_and_filter() {
    let mut logger = TestLogger::empty();
    logger.add_console("stdout", Some(LogLevel::Info), Some("{message}".to_string()), None, None, Some(false)).unwrap();
    logger.add_console("stderr", Some(LogLevel::Info), Some("{message}".to_string()), None, Some("f"), Some(false)).unwrap();
    let low = LogRecord::new(LogLevel::Debug, "m".to_string());
    let high = LogRecord::new(LogLevel::Info, "m".to_string());
    let now = moment();
    for verdict in [None, Some(true), Some(false)] {
        assert!(matches!(logger.deliver(0, &low, verdict, &now, &now), Delivery::Skipped));
        assert!(matches!(logger.deliver(1, &low, verdict, &now, &now), Delivery::Skipped));
        match logger.deliver(0, &high, verdict, &now, &now) {
            Delivery::Console { use_stderr, text } => {
                assert!(!use_stderr);
                assert_eq!(text, "m");
            },
            _ => panic!("a line was expected"),
        }
        let filtered = logger.deliver(1, &high, verdict, &now, &now);
        if verdict == Some(false) {
            assert!(matches!(filtered, Delivery::Skipped));
        } else {
            match filtered {
                Delivery::Console { use_stderr, text } => {
                    assert!(use_stderr);
                    assert_eq!(text, "m");
                },
                _ => panic!("a line was expected"),
            }
        }
        assert_eq!(logger.handler_at(1).passes(verdict), verdict != Some(false));
        assert!(logger.handler_at(0).passes(verdict));
    }
}

#[test]
fn file_handlers_plan_their_writes() {
    let mut logger = TestLogger::empty();
    logger.add(sink(Some(10)), Some(LogLevel::Info), Some("[{level}] <b>{message}</b>".to_string()), None, None);
    let record = LogRecord::new(LogLevel::Error, "boom".to_string());
    let now = moment();
    match logger.deliver(0, &record, None, &now, &now) {
        Delivery::File { plan } => {
            assert!(plan.rotation.is_none());
            match plan.message {
                WriterMessage::Write(line) => {
                    assert_eq!(line, "[ERROR] <b>boom</b>");
                    logger.note_written(0, line.len());
                },
                _ => panic!("a line was expected"),
            }
        },
        _ => panic!("a write was expected"),
    }
    match &logger.handler_at(0).handler {
        HandlerType::File(h) => assert_eq!(h.sink.current_size(), 20),
        _ => panic!("a file handler was expected"),
    }
    match logger.deliver(0, &record, None, &now, &now) {
        Delivery::File { plan } => {
            let rotation = plan.rotation.unwrap();
            assert_eq!(rotation.rotated_name, "app.2023-11-14_22-13-20.log");
            logger.note_rotated(0, &now);
        },
        _ => panic!("a write was expected"),
    }
    match &logger.handler_at(0).handler {
        HandlerType::File(h) => {
            assert_eq!(h.sink.current_size(), 0);
            assert_eq!(h.level, LogLevel::Info);
        },
        _ => panic!("a file handler was expected"),
    }
    assert_eq!(logger.handler_at(0).id, 0);
    assert_eq!(logger.min_level(), 20);
    let low = LogRecord::new(LogLevel::Debug, "m".to_string());
    assert!(matches!(logger.deliver(0, &low, None, &now, &now), Delivery::Skipped));
}

#[test]
fn notes_leave_console_handlers_alone() {
    let mut logger = TestLogger::new(Some(LogLevel::Info));
    logger.note_written(0, 4);
    logger.note_rotated(0, &moment());
    assert_eq!(logger.handler_count(), 1);
    assert_eq!(logger.get_level(), LogLevel::Info);
    assert_eq!(logger.handler_at(0).id, 0);
}

#[test]
fn handlers_on_their_own() {
    let now = moment();
    let record = LogRecord::new(LogLevel::Info, "<red>m</red>".to_string());
    let console = ConsoleHandler::with_format(
        LogLevel::Info,
        FormatConfig::new(Some("{message}".to_string()), false),
    );
    assert!(console.colorize);
    match console.handle(&record, &now) {
        Delivery::Console { use_stderr, text } => {
            assert!(!use_stderr);
            assert_eq!(text, "\x1b[31mm\x1b[0m");
        },
        _ => panic!("a line was expected"),
    }
    let json = ConsoleHandler::with_format(LogLevel::Info, FormatConfig::new(None, true));
    assert!(!json.colorize);
    let strict = ConsoleHandler::with_options(
        LogLevel::Warning,
        FormatConfig::new(Some("{message}".to_string()), false),
        false,
        true,
    );
    assert!(matches!(strict.handle(&record, &now), Delivery::Skipped));
    let plain = ConsoleHandler::new(LogLevel::Trace);
    assert!(plain.colorize && !plain.use_stderr);
    assert_eq!(plain.format.template(), logust::format::DEFAULT_FORMAT_TEMPLATE);

    let file = FileHandler::with_format(
        sink(None),
        LogLevel::Info,
        FormatConfig::new(Some("{message}".to_string()), false),
    );
    match file.handle(&record, &now, &now) {
        Delivery::File { plan } => match plan.message {
            WriterMessage::Write(line) => assert_eq!(line, "<red>m</red>"),
            _ => panic!("a line was expected"),
        },
        _ => panic!("a write was expected"),
    }
    let default_file = FileHandler::new(sink(None), LogLevel::Error);
    assert!(matches!(default_file.handle(&record, &now, &now), Delivery::Skipped));
    let kind = HandlerType::File(default_file);
    assert_eq!(kind.level(), LogLevel::Error);
    assert!(kind.requirements().needs_time);
    assert!(matches!(kind.handle(&record, &now, &now), Delivery::Skipped));
    let kind = HandlerType::Console(console);
    assert_eq!(kind.level(), LogLevel::Info);
    assert!(kind.requirements().needs_message);
    assert!(!kind.requirements().needs_time);
    assert!(matches!(kind.handle(&record, &now, &now), Delivery::Console { .. }));
}

#[test]
fn levels_are_named_or_numbered_in_log_calls() {
    let mut registry = LevelRegistry::new();
    register_level(&mut registry, LevelInfo::new("notice".to_string(), 35, None, None));
    let mut logger = TestLogger::new(Some(LogLevel::Warning));
    logger.add_callback("cb", Some(LogLevel::Error));
    let context = empty_context();
    let run = |arg: LevelArg| {
        logger.log(
            &registry,
            &arg,
            "m".to_string(),
            None,
            None,
            None,
            None,
            None,
            None,
            None,
            None,
            None,
            &context,
        )
    };
    let d = run(LevelArg::Name("Notice".to_string())).unwrap().unwrap();
    assert!(d.record.is_custom());
    assert_eq!(d.record.level_no(), 35);
    assert_eq!(d.record.level_name(), "notice");
    assert!(!d.needs_view);
    assert!(d.callbacks.is_empty());
    let d = run(LevelArg::Number(35)).unwrap().unwrap();
    assert_eq!(d.record.level_name(), "notice");
    let d = run(LevelArg::Name("error".to_string())).unwrap().unwrap();
    assert_eq!(d.record.level_name(), "ERROR");
    assert_eq!(d.record.level_no(), 40);
    assert!(d.needs_view);
    assert_eq!(d.callbacks, vec![0]);
    let d = run(LevelArg::Number(50)).unwrap().unwrap();
    assert_eq!(d.record.level_name(), "CRITICAL");
    assert!(run(LevelArg::Name("info".to_string())).unwrap().is_none());
    assert!(run(LevelArg::Number(5)).unwrap().is_none());
    assert_eq!(run(LevelArg::Name("nothing".to_string())).err(), Some(ConfigError::InvalidLevel));
    assert_eq!(run(LevelArg::Number(36)).err(), Some(ConfigError::InvalidLevel));

    let info = LevelInfo::new("TOP".to_string(), u32::MAX, None, None);
    let empty = TestLogger::empty();
    assert!(empty
        .dispatch_custom(info, "m".to_string(), None, None, None, None, None, None, None, None, None, &context)
        .is_none());
}

#[test]
fn custom_levels_in_the_registry() {
    let mut registry = LevelRegistry::new();
    assert_eq!(registry.len(), 0);
    register_level(&mut registry, LevelInfo::new("Audit".to_string(), 33, Some("yellow".to_string()), Some("!".to_string())));
    let found = logust::level::get_level_info(&registry, "AUDIT").unwrap();
    assert_eq!(found.name, "Audit");
    assert_eq!(found.no, 33);
    assert_eq!(found.color, "yellow");
    assert_eq!(found.icon, Some("!".to_string()));
    assert_eq!(found.get_color(), logust::color::Color::Yellow);
    assert_eq!(logust::level::get_level_info(&registry, "audit").unwrap().no, 33);
    assert_eq!(logust::level::get_level_by_no(&registry, 33).unwrap().name, "Audit");

    let builtin = logust::level::get_level_info(&registry, "success").unwrap();
    assert_eq!(builtin.name, "SUCCESS");
    assert_eq!(builtin.no, 25);
    assert_eq!(builtin.color, "bright_green");
    assert_eq!(builtin.icon, None);
    assert_eq!(LogLevel::default(), LogLevel::Debug);
    assert_eq!(LogLevel::Success.info().color, "bright_green");
    assert_eq!(LogLevel::Fail.name(), "FAIL");
    assert!(LogLevel::Trace < LogLevel::Critical);
}

#[test]
fn a_lookup_by_number_returns_a_level_of_that_number() {
    let mut registry = LevelRegistry::new();
    register_level(&mut registry, LevelInfo::new("NOTICE".to_string(), 35, None, None));
    register_level(&mut registry, LevelInfo::new("notice".to_string(), 36, None, None));
    assert_eq!(registry.len(), 1);
    assert!(logust::level::get_level_by_no(&registry, 35).is_none());
    let found = logust::level::get_level_by_no(&registry, 36).unwrap();
    assert_eq!(found.name, "notice");
    assert_eq!(found.no, 36);
    assert_eq!(found.color, "");

    register_level(&mut registry, LevelInfo::new("info".to_string(), 99, None, None));
    assert_eq!(logust::level::get_level_info(&registry, "INFO").unwrap().no, 99);
    let found = logust::level::get_level_by_no(&registry, 20).unwrap();
    assert_eq!(found.name, "INFO");
    assert_eq!(found.no, 20);
    assert_eq!(logust::level::get_level_by_no(&registry, 99).unwrap().name, "info");
    assert_eq!(logust::level::get_level_by_no(&registry, 10).unwrap().name, "DEBUG");

    register_level(&mut registry, LevelInfo::new("mine".to_string(), 20, None, None));
    let found = logust::level::get_level_by_no(&registry, 20).unwrap();
    assert_eq!(found.name, "mine");
    assert_eq!(found.no, 20);

    for no in 0..120u32 {
        if let Some(info) = logust::level::get_level_by_no(&registry, no) {
            assert_eq!(info.no, no);
        }
    }
}

#[test]
fn of_levels_with_one_number_the_one_registered_last_is_found() {
    let mut registry = LevelRegistry::new();
    register_level(&mut registry, LevelInfo::new("a".to_string(), 35, None, None));
    register_level(&mut registry, LevelInfo::new("b".to_string(), 35, None, None));
    assert_eq!(logust::level::get_level_by_no(&registry, 35).unwrap().name, "b");
    register_level(&mut registry, LevelInfo::new("A".to_string(), 35, None, None));
    assert_eq!(registry.len(), 2);
    assert_eq!(logust::level::get_level_by_no(&registry, 35).unwrap().name, "A");
    register_level(&mut registry, LevelInfo::new("a".to_string(), 36, None, None));
    assert_eq!(logust::level::get_level_by_no(&registry, 35).unwrap().name, "b");
    assert_eq!(logust::level::get_level_by_no(&registry, 36).unwrap().name, "a");
    register_level(&mut registry, LevelInfo::new("b".to_string(), 37, None, None));
    assert!(logust::level::get_level_by_no(&registry, 35).is_none());
    assert_eq!(logust::level::get_level_by_no(&registry, 37).unwrap().name, "b");
    register_level(&mut registry, LevelInfo::new("c".to_string(), 36, None, None));
    register_level(&mut registry, LevelInfo::new("c".to_string(), 36, Some("red".to_string()), None));
    assert_eq!(registry.len(), 3);
    let found = logust::level::get_level_by_no(&registry, 36).unwrap();
    assert_eq!(found.name, "c");
    assert_eq!(found.color, "red");
    register_level(&mut registry, LevelInfo::new("c".to_string(), 1, None, None));
    assert_eq!(logust::level::get_level_by_no(&registry, 36).unwrap().name, "a");
    assert_eq!(logust::level::get_level_by_no(&registry, 1).unwrap().name, "c");
}

#[test]
fn the_levels_and_their_numbers() {
    let table = [
        (LogLevel::Trace, 5, "TRACE", "cyan"),
        (LogLevel::Debug, 10, "DEBUG", "blue"),
        (LogLevel::Info, 20, "INFO", "green"),
        (LogLevel::Success, 25, "SUCCESS", "bright_green"),
        (LogLevel::Warning, 30, "WARNING", "yellow"),
        (LogLevel::Error, 40, "ERROR", "red"),
        (LogLevel::Fail, 45, "FAIL", "magenta"),
        (LogLevel::Critical, 50, "CRITICAL", "bright_red"),
    ];
    let registry = LevelRegistry::new();
    for (level, no, name, color) in table {
        assert_eq!(level.value(), no);
        assert_eq!(level.as_str(), name);
        assert_eq!(level.color(), logust::level::get_color_from_name(color));
        let info = logust::level::get_level_by_no(&registry, no as u32).unwrap();
        assert_eq!(info.name, name);
        assert_eq!(info.no, no as u32);
        assert_eq!(info.color, color);
        assert_eq!(info.get_color(), level.color());
    }
    for name in [
        "cyan", "blue", "green", "bright_green", "yellow", "red", "magenta", "bright_red", "white",
        "black", "bright_blue", "bright_cyan", "bright_yellow", "bright_magenta", "bright_white",
    ] {
        let color = logust::level::get_color_from_name(name);
        if name != "white" {
            assert_ne!(color, logust::color::Color::White);
        }
    }
    assert_eq!(logust::level::get_color_from_name("bright_black"), logust::color::Color::White);
}
