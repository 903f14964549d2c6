use logust::dict::Dict;
use logust::format::{
    compute_requirements, parse_template, FormatConfig, FormatToken, TokenRequirements,
    DEFAULT_FORMAT_TEMPLATE, DEFAULT_TIME_FORMAT,
};
use logust::handler::{CallerInfo, Context, LogRecord, ProcessInfo, ThreadInfo};
use logust::json::{line_of, object_of, quote};
use logust::level::{LevelInfo, LogLevel};
use logust::time::Timestamp;
use std::sync::Arc;

fn moment() -> Timestamp {
    Timestamp { secs: 1_700_000_000, nanos: 123_000_000, offset_secs: 0 }
}

fn start() -> Timestamp {
    Timestamp { secs: 1_699_999_000, nanos: 0, offset_secs: 0 }
}

fn context(pairs: &[(&str, &str)]) -> Context {
    let mut c: Context = Dict::new();
    for (k, v) in pairs {
        c.insert(k.to_string(), v.to_string());
    }
    c
}

fn record(level: LogLevel, message: &str) -> LogRecord {
    let mut r = LogRecord::with_all(
        level,
        message.to_string(),
        Arc::new(context(&[("user", "ann")])),
        None,
        CallerInfo::with_file("app.main".to_string(), "run".to_string(), 42, "main.py".to_string()),
        ThreadInfo { name: "worker".to_string(), id: 7 },
        ProcessInfo { name: "server".to_string(), id: 4321 },
    );
    r.timestamp = moment();
    r
}

fn render(template: &str, r: &LogRecord, colorize: bool) -> String {
    FormatConfig::new(Some(template.to_string()), false).format_record(r, colorize, &start())
}

#[test]
fn warning_in_brackets() {
    let config = FormatConfig::new(Some("[{level}] {message}".to_string()), false);
    let extra: Context = Dict::new();
    let result = config.format(&moment(), LogLevel::Warning, "warning!", &extra, &None, false);
    assert_eq!(result, "[WARNING] warning!");
}

#[test]
fn a_value_of_the_context() {
    let config = FormatConfig::new(Some("{message} - user={extra[user_id]}".to_string()), false);
    let extra = context(&[("user_id", "123")]);
    let result = config.format(&moment(), LogLevel::Info, "login", &extra, &None, false);
    assert_eq!(result, "login - user=123");
    let result = config.format(&moment(), LogLevel::Info, "login", &context(&[]), &None, false);
    assert_eq!(result, "login - user=");
}

#[test]
fn the_exception_follows_on_its_own_line() {
    let config = FormatConfig::new(Some("[{level}] {message}".to_string()), false);
    let extra: Context = Dict::new();
    let exception = Some("Traceback:\n  File test".to_string());
    let result = config.format(&moment(), LogLevel::Error, "Failed", &extra, &exception, false);
    assert_eq!(result, "[ERROR] Failed\nTraceback:\n  File test");
    let mut r = record(LogLevel::Error, "Failed");
    r.exception = Some("Traceback:\n  File test".to_string());
    assert_eq!(render("[{level}] {message}", &r, false), "[ERROR] Failed\nTraceback:\n  File test");
}

#[test]
fn an_unknown_placeholder_is_written_as_it_stands() {
    let r = record(LogLevel::Info, "m");
    assert_eq!(render("{foo}", &r, false), "{foo}");
    assert_eq!(render("a{foo}b{message}c", &r, false), "a{foo}bmc");
    assert_eq!(render("{}", &r, false), "{}");
    assert_eq!(render("{level:<x}", &r, false), "{level:<x}");
    assert_eq!(render("{level:<}", &r, false), "{level:<}");
    assert_eq!(render("{level:>8}", &r, false), "{level:>8}");
    assert_eq!(render("{extra[a]b]}", &r, false), "{extra[a]b]}");
    assert_eq!(render("{extra[user}", &r, false), "{extra[user}");
    assert_eq!(render("{Time}", &r, false), "{Time}");
    assert_eq!(render("{ message }", &r, false), "{ message }");
    assert_eq!(render("}{message}}", &r, false), "}m}");
}

#[test]
fn a_brace_that_is_not_closed_is_static_text() {
    let r = record(LogLevel::Info, "m");
    assert_eq!(render("x{message", &r, false), "x{message");
    assert_eq!(render("x{foo", &r, false), "x{foo");
    assert_eq!(render("a{foo", &r, false), "a{foo");
    assert_eq!(render("x{", &r, false), "x{");
    assert_eq!(render("{", &r, false), "{");
    assert_eq!(render("{level} {time", &r, false), "INFO {time");
    assert_eq!(render("{level}{{message", &r, false), "INFO{{message");
    for template in ["a{foo", "{", "x{message", "a{b{c", "{time"] {
        let tokens = parse_template(template);
        assert_eq!(tokens.len(), 1);
        assert!(matches!(&tokens[0], FormatToken::Static(s) if s == template));
    }
    let tokens = parse_template("{a}{b");
    assert_eq!(tokens.len(), 1);
    assert!(matches!(&tokens[0], FormatToken::Static(s) if s == "{a}{b"));
}

#[test]
fn every_token_without_colours() {
    let r = record(LogLevel::Info, "hello <red>x</red>");
    assert_eq!(render("{time}", &r, false), "2023-11-14 22:13:20.123");
    assert_eq!(render("{level}", &r, false), "INFO");
    assert_eq!(render("{level:<8}|", &r, false), "INFO    |");
    assert_eq!(render("{level:<2}|", &r, false), "INFO|");
    assert_eq!(render("{level:<0}|", &r, false), "INFO|");
    assert_eq!(render("{level:<+6}|", &r, false), "INFO  |");
    assert_eq!(render("{message}", &r, false), "hello <red>x</red>");
    assert_eq!(render("{extra[user]}", &r, false), "ann");
    assert_eq!(render("{extra[nobody]}", &r, false), "");
    assert_eq!(render("{extra[]}", &r, false), "");
    assert_eq!(render("{name}", &r, false), "app.main");
    assert_eq!(render("{module}", &r, false), "app.main");
    assert_eq!(render("{function}", &r, false), "run");
    assert_eq!(render("{line}", &r, false), "42");
    assert_eq!(render("{file}", &r, false), "main.py");
    assert_eq!(render("{elapsed}", &r, false), "00:16:40.123");
    assert_eq!(render("{thread}", &r, false), "worker:7");
    assert_eq!(render("{process}", &r, false), "server:4321");
    assert_eq!(render("", &r, false), "");
}

#[test]
fn every_token_in_colours() {
    let r = record(LogLevel::Info, "hello <red>x</red>");
    assert_eq!(render("{time}", &r, true), "\x1b[2m2023-11-14 22:13:20.123\x1b[0m");
    assert_eq!(render("{level}", &r, true), "\x1b[1;32mINFO\x1b[0m");
    assert_eq!(render("{level:<6}", &r, true), "\x1b[1;32mINFO  \x1b[0m");
    assert_eq!(render("{message}", &r, true), "hello \x1b[31mx\x1b[0m");
    assert_eq!(render("{extra[user]}", &r, true), "ann");
    assert_eq!(render("{name}", &r, true), "\x1b[36mapp.main\x1b[0m");
    assert_eq!(render("{module}", &r, true), "\x1b[36mapp.main\x1b[0m");
    assert_eq!(render("{function}", &r, true), "\x1b[36mrun\x1b[0m");
    assert_eq!(render("{line}", &r, true), "\x1b[36m42\x1b[0m");
    assert_eq!(render("{file}", &r, true), "\x1b[36mmain.py\x1b[0m");
    assert_eq!(render("{elapsed}", &r, true), "\x1b[2m00:16:40.123\x1b[0m");
    assert_eq!(render("{thread}", &r, true), "\x1b[36mworker:7\x1b[0m");
    assert_eq!(render("{process}", &r, true), "\x1b[36mserver:4321\x1b[0m");
    assert_eq!(render("static {foo}", &r, true), "static {foo}");
}

#[test]
fn each_level_has_its_colour() {
    let expect = [
        (LogLevel::Trace, "\x1b[1;36mTRACE\x1b[0m"),
        (LogLevel::Debug, "\x1b[1;34mDEBUG\x1b[0m"),
        (LogLevel::Info, "\x1b[1;32mINFO\x1b[0m"),
        (LogLevel::Success, "\x1b[1;92mSUCCESS\x1b[0m"),
        (LogLevel::Warning, "\x1b[1;33mWARNING\x1b[0m"),
        (LogLevel::Error, "\x1b[1;31mERROR\x1b[0m"),
        (LogLevel::Fail, "\x1b[1;35mFAIL\x1b[0m"),
        (LogLevel::Critical, "\x1b[1;91mCRITICAL\x1b[0m"),
    ];
    for (level, text) in expect {
        assert_eq!(render("{level}", &record(level, ""), true), text);
    }
}

#[test]
fn a_custom_level_is_shown_by_its_name_and_colour() {
    let info = LevelInfo::new("NOTICE".to_string(), 35, Some("Magenta".to_string()), None);
    let mut r = LogRecord::with_custom_level(info, "m".to_string(), Arc::new(context(&[])), None);
    r.timestamp = moment();
    assert_eq!(render("{level:<8}|{message}", &r, false), "NOTICE  |m");
    assert_eq!(render("{level}", &r, true), "\x1b[1;35mNOTICE\x1b[0m");
    let plain = LevelInfo::new("odd".to_string(), 1, None, None);
    let r = LogRecord::with_custom_level(plain, "m".to_string(), Arc::new(context(&[])), None);
    assert_eq!(render("{level}", &r, true), "\x1b[1;37modd\x1b[0m");
}

#[test]
fn the_default_template() {
    let r = record(LogLevel::Info, "hello");
    let line = FormatConfig::default().format_record(&r, false, &start());
    assert_eq!(line, "2023-11-14 22:13:20.123 | INFO     | app.main:run:42 - hello");
    let config = FormatConfig::new(None, false);
    assert_eq!(config.template(), DEFAULT_FORMAT_TEMPLATE);
    assert_eq!(config.time_format(), DEFAULT_TIME_FORMAT);
    assert!(!config.serialize());
    assert_eq!(DEFAULT_FORMAT_TEMPLATE, "{time} | {level:<8} | {name}:{function}:{line} - {message}");
}

#[test]
fn without_a_record_the_origin_is_left_out() {
    let config = FormatConfig::new(
        Some("{time}|{level}|{name}|{module}|{function}|{line}|{file}|{elapsed}|{thread}|{process}|{message}".to_string()),
        false,
    );
    let line = config.format(&moment(), LogLevel::Debug, "m", &context(&[]), &None, false);
    assert_eq!(line, "2023-11-14 22:13:20.123|DEBUG|||||||||m");
    let line = config.format(&moment(), LogLevel::Debug, "<b>m</b>", &context(&[]), &None, true);
    assert_eq!(
        line,
        "\x1b[2m2023-11-14 22:13:20.123\x1b[0m|\x1b[1;34mDEBUG\x1b[0m|||||||||\x1b[1mm\x1b[0m"
    );
}

#[test]
fn another_format_of_the_time() {
    let config = FormatConfig::new(Some("{time} {message}".to_string()), false)
        .with_time_format("%H:%M".to_string());
    assert_eq!(config.time_format(), "%H:%M");
    assert_eq!(config.format_record(&record(LogLevel::Info, "m"), false, &start()), "22:13 m");
    let broken = FormatConfig::new(Some("{time} {message}".to_string()), false)
        .with_time_format("%Q".to_string());
    assert_eq!(broken.format_record(&record(LogLevel::Info, "m"), false, &start()), " m");
    let copy = config.clone();
    assert_eq!(copy.template(), "{time} {message}");
    assert_eq!(copy.time_format(), "%H:%M");
    assert_eq!(copy.format_record(&record(LogLevel::Info, "m"), false, &start()), "22:13 m");
}

#[test]
fn static_texts_come_out_in_their_order() {
    let r = record(LogLevel::Info, "m");
    let template = "one {time} two {level} three {nothing} four {message} five";
    let line = render(template, &r, true);
    let mut from = 0;
    for part in ["one ", " two ", " three {nothing} four ", " five"] {
        let at = line[from..].find(part).unwrap();
        from += at + part.len();
    }
    let tokens = parse_template(template);
    let statics: Vec<&str> = tokens
        .iter()
        .filter_map(|t| match t {
            FormatToken::Static(s) => Some(s.as_str()),
            _ => None,
        })
        .collect();
    assert_eq!(statics, vec!["one ", " two ", " three {nothing} four ", " five"]);
}

#[test]
fn static_text_is_put_together() {
    let tokens = parse_template("abc{foo}def");
    assert_eq!(tokens.len(), 1);
    assert!(matches!(&tokens[0], FormatToken::Static(s) if s == "abc{foo}def"));
    let tokens = parse_template("plain text");
    assert_eq!(tokens.len(), 1);
    assert!(matches!(&tokens[0], FormatToken::Static(s) if s == "plain text"));
    assert_eq!(parse_template("").len(), 0);
    let tokens = parse_template("{time}{message}");
    assert_eq!(tokens.len(), 2);
    let tokens = parse_template("{a}{b}{level}{c}");
    assert_eq!(tokens.len(), 3);
    assert!(matches!(&tokens[0], FormatToken::Static(s) if s == "{a}{b}"));
    assert!(matches!(tokens[1], FormatToken::Level));
    assert!(matches!(&tokens[2], FormatToken::Static(s) if s == "{c}"));
}

#[test]
fn every_placeholder_has_its_token() {
    let tokens = parse_template(
        "{time}{level}{level:<12}{message}{extra[k]}{name}{function}{line}{elapsed}{thread}{process}{file}{module}",
    );
    assert_eq!(tokens.len(), 13);
    assert!(matches!(tokens[0], FormatToken::Time));
    assert!(matches!(tokens[1], FormatToken::Level));
    assert!(matches!(tokens[2], FormatToken::LevelWidth(12)));
    assert!(matches!(tokens[3], FormatToken::Message));
    assert!(matches!(&tokens[4], FormatToken::Extra(k) if k == "k"));
    assert!(matches!(tokens[5], FormatToken::Name));
    assert!(matches!(tokens[6], FormatToken::Function));
    assert!(matches!(tokens[7], FormatToken::Line));
    assert!(matches!(tokens[8], FormatToken::Elapsed));
    assert!(matches!(tokens[9], FormatToken::Thread));
    assert!(matches!(tokens[10], FormatToken::Process));
    assert!(matches!(tokens[11], FormatToken::File));
    assert!(matches!(tokens[12], FormatToken::Module));
    let tokens = parse_template("{level:<007}{level:<99999999999999999999999999}");
    assert_eq!(tokens.len(), 2);
    assert!(matches!(tokens[0], FormatToken::LevelWidth(7)));
    assert!(matches!(&tokens[1], FormatToken::Static(s) if s == "{level:<99999999999999999999999999}"));
}

#[test]
fn requirements_follow_the_tokens() {
    let none = TokenRequirements::default();
    assert_eq!(compute_requirements(&parse_template("static {foo} {extra[k]}")), none);
    let reqs = FormatConfig::default().requirements();
    assert!(reqs.needs_time && reqs.needs_level && reqs.needs_caller && reqs.needs_message);
    assert!(!reqs.needs_thread && !reqs.needs_process && !reqs.needs_elapsed);
    for (template, pick) in [
        ("{name}", 0),
        ("{module}", 0),
        ("{function}", 0),
        ("{line}", 0),
        ("{file}", 0),
        ("{thread}", 1),
        ("{process}", 2),
        ("{time}", 3),
        ("{level}", 4),
        ("{level:<3}", 4),
        ("{message}", 5),
        ("{elapsed}", 6),
    ] {
        let r = compute_requirements(&parse_template(template));
        let flags = [
            r.needs_caller,
            r.needs_thread,
            r.needs_process,
            r.needs_time,
            r.needs_level,
            r.needs_message,
            r.needs_elapsed,
        ];
        for (i, flag) in flags.iter().enumerate() {
            assert_eq!(*flag, i == pick);
        }
    }
}

#[test]
fn requirements_are_merged_by_or() {
    let a = compute_requirements(&parse_template("{time}{thread}"));
    let b = compute_requirements(&parse_template("{message}{thread}"));
    let m = a.merge(&b);
    assert!(m.needs_time && m.needs_thread && m.needs_message);
    assert!(!m.needs_caller && !m.needs_process && !m.needs_level && !m.needs_elapsed);
    assert_eq!(a.merge(&TokenRequirements::default()), a);
    assert_eq!(a.merge(&TokenRequirements::all()), TokenRequirements::all());
    let all = TokenRequirements::all();
    assert!(
        all.needs_caller
            && all.needs_thread
            && all.needs_process
            && all.needs_time
            && all.needs_level
            && all.needs_message
            && all.needs_elapsed
    );
}

#[test]
fn a_record_as_json() {
    let config = FormatConfig::new(None, true);
    let extra: Context = Dict::new();
    let line = config.format(&moment(), LogLevel::Error, "error occurred", &extra, &None, false);
    assert_eq!(
        line,
        "{\"time\":\"2023-11-14 22:13:20.123\",\"level\":\"ERROR\",\"message\":\"error occurred\"}"
    );
    assert!(line.contains("\"level\":\"ERROR\""));
    assert!(line.contains("\"message\":\"error occurred\""));
    assert!(!line.contains("extra"));
    assert!(!line.contains("exception"));
}

#[test]
fn json_with_everything() {
    let config = FormatConfig::new(None, true);
    let mut r = record(LogLevel::Info, "say \"hi\"\n");
    r.exception = Some("boom".to_string());
    let line = config.format_record(&r, true, &start());
    assert_eq!(
        line,
        "{\"time\":\"2023-11-14 22:13:20.123\",\"level\":\"INFO\",\"message\":\"say \\\"hi\\\"\\n\",\"name\":\"app.main\",\"function\":\"run\",\"line\":42,\"extra\":{\"user\":\"ann\"},\"exception\":\"boom\"}"
    );
    let extra = context(&[("a", "1"), ("b", "2")]);
    let line = config.format(&moment(), LogLevel::Info, "m", &extra, &Some("e".to_string()), true);
    assert_eq!(
        line,
        "{\"time\":\"2023-11-14 22:13:20.123\",\"level\":\"INFO\",\"message\":\"m\",\"extra\":{\"a\":\"1\",\"b\":\"2\"},\"exception\":\"e\"}"
    );
}

#[test]
fn json_leaves_out_what_is_empty() {
    let config = FormatConfig::new(None, true);
    let mut r = LogRecord::new(LogLevel::Debug, "m".to_string());
    r.timestamp = moment();
    assert_eq!(
        config.format_record(&r, false, &start()),
        "{\"time\":\"2023-11-14 22:13:20.123\",\"level\":\"DEBUG\",\"message\":\"m\"}"
    );
    r.caller.line = 3;
    assert_eq!(
        config.format_record(&r, false, &start()),
        "{\"time\":\"2023-11-14 22:13:20.123\",\"level\":\"DEBUG\",\"message\":\"m\",\"line\":3}"
    );
    r.caller.function = "f".to_string();
    assert_eq!(
        config.format_record(&r, false, &start()),
        "{\"time\":\"2023-11-14 22:13:20.123\",\"level\":\"DEBUG\",\"message\":\"m\",\"function\":\"f\",\"line\":3}"
    );
}

#[test]
fn json_reads_back_as_a_mapping() {
    let config = FormatConfig::new(None, true);
    let mut r = record(LogLevel::Warning, "tab\there \u{1f600} \\ \"q\"");
    r.exception = Some("line1\nline2".to_string());
    let line = config.format_record(&r, false, &start());
    let value: serde_json::Value = serde_json::from_str(&line).unwrap();
    let map = value.as_object().unwrap();
    assert_eq!(map.get("time").unwrap().as_str(), Some("2023-11-14 22:13:20.123"));
    assert_eq!(map.get("level").unwrap().as_str(), Some("WARNING"));
    assert_eq!(map.get("message").unwrap().as_str(), Some("tab\there \u{1f600} \\ \"q\""));
    assert_eq!(map.get("name").unwrap().as_str(), Some("app.main"));
    assert_eq!(map.get("line").unwrap().as_u64(), Some(42));
    assert_eq!(map.get("extra").unwrap().get("user").unwrap().as_str(), Some("ann"));
    assert_eq!(map.get("exception").unwrap().as_str(), Some("line1\nline2"));
}

#[test]
fn strings_are_quoted_by_serde_json() {
    assert_eq!(quote("plain"), "\"plain\"");
    assert_eq!(quote(""), "\"\"");
    assert_eq!(quote("a\"b\\c\n"), "\"a\\\"b\\\\c\\n\"");
    assert_eq!(quote("\u{1}"), "\"\\u0001\"");
    assert_eq!(quote("caf\u{e9}"), "\"caf\u{e9}\"");
}

#[test]
fn members_make_an_object() {
    assert_eq!(object_of(&vec![]), Some("{}".to_string()));
    assert_eq!(object_of(&vec![Some("\"a\":1".to_string())]), Some("{\"a\":1}".to_string()));
    assert_eq!(
        object_of(&vec![
            Some("\"a\":1".to_string()),
            Some("\"b\":\"x\"".to_string()),
            Some("\"c\":{}".to_string())
        ]),
        Some("{\"a\":1,\"b\":\"x\",\"c\":{}}".to_string())
    );
    assert_eq!(object_of(&vec![None]), None);
    assert_eq!(object_of(&vec![Some("\"a\":1".to_string()), None]), None);
    assert_eq!(object_of(&vec![None, Some("\"a\":1".to_string())]), None);
}

#[test]
fn a_missing_member_gives_the_fallback() {
    assert_eq!(line_of(&vec![], "message"), "{}");
    assert_eq!(
        line_of(&vec![Some("\"a\":1".to_string()), Some("\"b\":2".to_string())], "message"),
        "{\"a\":1,\"b\":2}"
    );
    assert_eq!(line_of(&vec![Some("\"a\":1".to_string()), None], "message"), "message");
    assert_eq!(line_of(&vec![None], ""), "");
}

#[test]
fn records_are_made_with_what_is_given() {
    let r = LogRecord::new(LogLevel::Info, "m".to_string());
    assert_eq!(r.level, LogLevel::Info);
    assert!(r.level_info.is_none());
    assert_eq!(r.message, "m");
    assert!(r.extra.is_empty());
    assert!(r.exception.is_none());
    assert_eq!(r.caller.name, "");
    assert_eq!(r.caller.line, 0);
    assert_eq!(r.thread.id, 0);
    assert_eq!(r.process.id, 0);
    assert!(r.timestamp.secs > 1_600_000_000);
    assert_eq!(r.level_name(), "INFO");
    assert_eq!(r.level_no(), 20);
    assert!(!r.is_custom());

    let shared = Arc::new(context(&[("k", "v")]));
    let r = LogRecord::with_extra(LogLevel::Error, "m".to_string(), Arc::clone(&shared));
    assert!(Arc::ptr_eq(&r.extra, &shared));
    assert_eq!(r.level_no(), 40);

    let caller = CallerInfo::new("n".to_string(), "f".to_string(), 9);
    assert_eq!(caller.file, "");
    let r = LogRecord::with_caller(
        LogLevel::Trace,
        "m".to_string(),
        Arc::clone(&shared),
        Some("e".to_string()),
        caller,
    );
    assert_eq!(r.caller.name, "n");
    assert_eq!(r.caller.function, "f");
    assert_eq!(r.caller.line, 9);
    assert_eq!(r.exception, Some("e".to_string()));
    assert_eq!(r.level_no(), 5);

    let r = LogRecord::with_exception(LogLevel::Fail, "m".to_string(), Arc::clone(&shared), None);
    assert_eq!(r.level_no(), 45);
    assert_eq!(r.level_name(), "FAIL");
    assert!(r.exception.is_none());

    let info = LevelInfo::new("NOTICE".to_string(), 35, None, None);
    let r = LogRecord::with_custom_level_and_caller(
        info.clone(),
        "m".to_string(),
        Arc::clone(&shared),
        None,
        CallerInfo::with_file("n".to_string(), "f".to_string(), 1, "x.py".to_string()),
    );
    assert!(r.is_custom());
    assert_eq!(r.level_name(), "NOTICE");
    assert_eq!(r.level_no(), 35);
    assert_eq!(r.caller.file, "x.py");
    let r = LogRecord::with_custom_level_full(
        info,
        "m".to_string(),
        shared,
        None,
        CallerInfo::default(),
        ThreadInfo { name: "t".to_string(), id: 1 },
        ProcessInfo { name: "p".to_string(), id: 2 },
    );
    assert_eq!(r.thread.name, "t");
    assert_eq!(r.process.id, 2);
    assert_eq!(r.level_color(), logust::color::Color::White);
}
