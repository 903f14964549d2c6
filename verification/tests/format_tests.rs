use logust::dict::Dict;
use logust::format::{parse_template, FormatConfig, FormatToken, DEFAULT_FORMAT_TEMPLATE};
use logust::handler::Context;
use logust::level::LogLevel;
use logust::markup::apply_color_markup;
use logust::time::Timestamp;

#[test]
fn test_default_format() {
    let config = FormatConfig::default();
    let now = Timestamp::now();
    let extra: Context = Dict::new();

    let result = config.format(&now, LogLevel::Info, "test message", &extra, &None, false);
    assert!(result.contains("INFO"));
    assert!(result.contains("test message"));
}

#[test]
fn test_json_format() {
    let config = FormatConfig::new(None, true);
    let now = Timestamp::now();
    let extra: Context = Dict::new();

    let result = config.format(&now, LogLevel::Error, "error occurred", &extra, &None, false);
    assert!(result.contains("\"level\":\"ERROR\""));
    assert!(result.contains("\"message\":\"error occurred\""));
}

#[test]
fn test_custom_template() {
    let config = FormatConfig::new(Some("[{level}] {message}".to_string()), false);
    let now = Timestamp::now();
    let extra: Context = Dict::new();

    let result = config.format(&now, LogLevel::Warning, "warning!", &extra, &None, false);
    assert_eq!(result, "[WARNING] warning!");
}

#[test]
fn test_extra_fields() {
    let config = FormatConfig::new(Some("{message} - user={extra[user_id]}".to_string()), false);
    let now = Timestamp::now();
    let mut extra: Context = Dict::new();
    extra.insert("user_id".to_string(), "123".to_string());

    let result = config.format(&now, LogLevel::Info, "login", &extra, &None, false);
    assert_eq!(result, "login - user=123");
}

#[test]
fn test_exception_in_template() {
    let config = FormatConfig::new(Some("[{level}] {message}".to_string()), false);
    let now = Timestamp::now();
    let extra: Context = Dict::new();
    let exception = Some("Traceback:\n  File test.py".to_string());

    let result = config.format(&now, LogLevel::Error, "Failed", &extra, &exception, false);
    assert!(result.contains("[ERROR] Failed"));
    assert!(result.contains("Traceback:"));
}

#[test]
fn test_exception_in_json() {
    let config = FormatConfig::new(None, true);
    let now = Timestamp::now();
    let extra: Context = Dict::new();
    let exception = Some("Traceback".to_string());

    let result = config.format(&now, LogLevel::Error, "Failed", &extra, &exception, false);
    assert!(result.contains("\"exception\":\"Traceback\""));
}

#[test]
fn test_color_markup_basic() {
    let result = apply_color_markup("<red>error</red>");
    assert!(result.contains("\x1b[31m"));
    assert!(result.contains("\x1b[0m"));
    assert!(result.contains("error"));
}

#[test]
fn test_color_markup_nested() {
    let result = apply_color_markup("<bold><green>success</green></bold>");
    assert!(result.contains("\x1b[1m"));
    assert!(result.contains("\x1b[32m"));
    assert!(result.contains("success"));
}

#[test]
fn test_color_markup_invalid_tag() {
    let result = apply_color_markup("<invalid>text</invalid>");
    assert_eq!(result, "<invalid>text</invalid>");
}

#[test]
fn test_color_markup_no_tags() {
    let result = apply_color_markup("plain text");
    assert_eq!(result, "plain text");
}

#[test]
fn test_color_markup_styles() {
    let bold = apply_color_markup("<bold>text</bold>");
    assert!(bold.contains("\x1b[1m"));

    let italic = apply_color_markup("<italic>text</italic>");
    assert!(italic.contains("\x1b[3m"));

    let underline = apply_color_markup("<underline>text</underline>");
    assert!(underline.contains("\x1b[4m"));
}

#[test]
fn test_parse_template() {
    let tokens = parse_template(DEFAULT_FORMAT_TEMPLATE);
    assert_eq!(tokens.len(), 11);
    assert!(matches!(tokens[0], FormatToken::Time));
    assert!(matches!(&tokens[1], FormatToken::Static(s) if s == " | "));
    assert!(matches!(tokens[2], FormatToken::LevelWidth(8)));
    assert!(matches!(&tokens[3], FormatToken::Static(s) if s == " | "));
    assert!(matches!(tokens[4], FormatToken::Name));
    assert!(matches!(&tokens[5], FormatToken::Static(s) if s == ":"));
    assert!(matches!(tokens[6], FormatToken::Function));
    assert!(matches!(&tokens[7], FormatToken::Static(s) if s == ":"));
    assert!(matches!(tokens[8], FormatToken::Line));
    assert!(matches!(&tokens[9], FormatToken::Static(s) if s == " - "));
    assert!(matches!(tokens[10], FormatToken::Message));
}

#[test]
fn test_parse_template_extra() {
    let tokens = parse_template("{message} user={extra[user_id]}");
    assert_eq!(tokens.len(), 3);
    assert!(matches!(tokens[0], FormatToken::Message));
    assert!(matches!(&tokens[1], FormatToken::Static(s) if s == " user="));
    assert!(matches!(&tokens[2], FormatToken::Extra(k) if k == "user_id"));
}
