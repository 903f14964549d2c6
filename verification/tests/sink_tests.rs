use logust::render::format_time;
use logust::sink::{
    calculate_next_rotation_boundary, compressed_file_name, next_local_boundary, parse_retention,
    parse_rotation, parse_size, rotated_file_name, FileSink, FileSinkConfig, PathParts, Rotation, GB,
    KB, MB, ROTATED_TIME_FORMAT, TB,
};
use logust::time::{instant_of_local, Timestamp};
use logust::writer::WriterMessage;

fn parts() -> PathParts {
    PathParts::new(Some("app".to_string()), Some("log".to_string()), Some("app.log".to_string()))
}

fn limited(max_size: u64) -> FileSinkConfig {
    let mut config = FileSinkConfig::default();
    config.max_size = Some(max_size);
    config
}

#[test]
fn test_parse_size() {
    assert_eq!(parse_size("100"), Some(100));
    assert_eq!(parse_size("100B"), Some(100));
    assert_eq!(parse_size("1 KB"), Some(KB));
    assert_eq!(parse_size("1KB"), Some(KB));
    assert_eq!(parse_size("500 MB"), Some(500 * MB));
    assert_eq!(parse_size("1 GB"), Some(GB));
}

#[test]
fn test_parse_rotation() {
    assert_eq!(parse_rotation("daily"), (Rotation::Daily, None));
    assert_eq!(parse_rotation("hourly"), (Rotation::Hourly, None));
    assert_eq!(parse_rotation("500 MB"), (Rotation::Never, Some(500 * MB)));
}

#[test]
fn test_parse_retention() {
    assert_eq!(parse_retention("10 days"), (Some(10), None));
    assert_eq!(parse_retention("5"), (None, Some(5)));
}

#[test]
fn parse_size_knows_every_unit() {
    assert_eq!(parse_size("3"), Some(3));
    assert_eq!(parse_size("3b"), Some(3));
    assert_eq!(parse_size("3k"), Some(3 * 1024));
    assert_eq!(parse_size("3 kb"), Some(3 * 1024));
    assert_eq!(parse_size("3m"), Some(3 * 1024 * 1024));
    assert_eq!(parse_size("3 Mb"), Some(3 * 1024 * 1024));
    assert_eq!(parse_size("3g"), Some(3 * 1024 * 1024 * 1024));
    assert_eq!(parse_size("3 gB"), Some(3 * GB));
    assert_eq!(parse_size("3t"), Some(3 * TB));
    assert_eq!(parse_size("3 TB"), Some(3 * 1024 * 1024 * 1024 * 1024));
}

#[test]
fn parse_size_takes_fractions() {
    assert_eq!(parse_size("1.5 KB"), Some(1536));
    assert_eq!(parse_size("0.5 MB"), Some(512 * 1024));
    assert_eq!(parse_size("2.75"), Some(2));
    assert_eq!(parse_size("0.1 KB"), Some(102));
    assert_eq!(parse_size("0.001 K"), Some(1));
    assert_eq!(parse_size("0.0009 K"), Some(0));
    assert_eq!(parse_size("1.999999999999999999999999 B"), Some(1));
}

#[test]
fn parse_size_trims_and_ignores_case() {
    assert_eq!(parse_size("  10 kb  "), Some(10 * KB));
    assert_eq!(parse_size("\t7\tMb\n"), Some(7 * MB));
    assert_eq!(parse_size("10    KB"), Some(10 * KB));
}

#[test]
fn parse_size_refuses_what_is_no_size() {
    assert_eq!(parse_size(""), None);
    assert_eq!(parse_size("   "), None);
    assert_eq!(parse_size("abc"), None);
    assert_eq!(parse_size("10 XB"), None);
    assert_eq!(parse_size("."), None);
    assert_eq!(parse_size(".5K"), None);
    assert_eq!(parse_size("5."), None);
    assert_eq!(parse_size("5. KB"), None);
    assert_eq!(parse_size("1..2"), None);
    assert_eq!(parse_size("1.2.3 KB"), None);
    assert_eq!(parse_size("KB"), None);
    assert_eq!(parse_size("-5"), None);
    assert_eq!(parse_size("5 K B"), None);
    assert_eq!(parse_size("1K2"), None);
}

#[test]
fn parse_size_stops_at_the_largest_number() {
    assert_eq!(parse_size("18446744073709551615"), Some(u64::MAX));
    assert_eq!(parse_size("18446744073709551616"), Some(u64::MAX));
    assert_eq!(parse_size("99999999999999999999999999 TB"), Some(u64::MAX));
    assert_eq!(parse_size("16777216 TB"), Some(u64::MAX));
    assert_eq!(parse_size("16777215 TB"), Some(16777215 * TB));
}

#[test]
fn parse_rotation_knows_its_words() {
    assert_eq!(parse_rotation("1 day"), (Rotation::Daily, None));
    assert_eq!(parse_rotation("1day"), (Rotation::Daily, None));
    assert_eq!(parse_rotation("DAILY"), (Rotation::Daily, None));
    assert_eq!(parse_rotation("  Daily "), (Rotation::Daily, None));
    assert_eq!(parse_rotation("1 hour"), (Rotation::Hourly, None));
    assert_eq!(parse_rotation("1hour"), (Rotation::Hourly, None));
    assert_eq!(parse_rotation("Hourly"), (Rotation::Hourly, None));
    assert_eq!(parse_rotation("1 kb"), (Rotation::Never, Some(1024)));
    assert_eq!(parse_rotation("weekly"), (Rotation::Never, None));
    assert_eq!(parse_rotation(""), (Rotation::Never, None));
    assert_eq!(parse_rotation("2 days"), (Rotation::Never, None));
}

#[test]
fn parse_retention_reads_days_and_counts() {
    assert_eq!(parse_retention("1 day"), (Some(1), None));
    assert_eq!(parse_retention("30DAYS"), (Some(30), None));
    assert_eq!(parse_retention("days: 7"), (Some(7), None));
    assert_eq!(parse_retention("1 day 2"), (Some(12), None));
    assert_eq!(parse_retention(" 12 "), (None, Some(12)));
    assert_eq!(parse_retention("+3"), (None, Some(3)));
    assert_eq!(parse_retention("0"), (None, Some(0)));
    assert_eq!(parse_retention("4294967295"), (None, Some(u32::MAX)));
    assert_eq!(parse_retention("4294967296"), (None, None));
    assert_eq!(parse_retention("days"), (None, None));
    assert_eq!(parse_retention("99999999999 days"), (None, None));
    assert_eq!(parse_retention("forever"), (None, None));
    assert_eq!(parse_retention(""), (None, None));
    assert_eq!(parse_retention("-1"), (None, None));
    assert_eq!(parse_retention("1.5"), (None, None));
}

#[test]
fn settings_are_read_from_texts() {
    let config =
        FileSinkConfig::new("logs/app.log".to_string(), Some("500 MB"), Some("10 days"), Some(true), None);
    assert_eq!(config.path, "logs/app.log");
    assert_eq!(config.rotation, Rotation::Never);
    assert_eq!(config.max_size, Some(500 * MB));
    assert_eq!(config.retention_days, Some(10));
    assert_eq!(config.retention_count, None);
    assert!(config.compression);
    assert!(!config.enqueue);

    let config = FileSinkConfig::new("a.log".to_string(), Some("daily"), Some("3"), None, Some(true));
    assert_eq!(config.rotation, Rotation::Daily);
    assert_eq!(config.max_size, None);
    assert_eq!(config.retention_days, None);
    assert_eq!(config.retention_count, Some(3));
    assert!(!config.compression);
    assert!(config.enqueue);

    let config = FileSinkConfig::new("a.log".to_string(), None, None, None, None);
    assert_eq!(config.rotation, Rotation::Never);
    assert_eq!(config.max_size, None);
    assert_eq!(config.retention_days, None);
    assert_eq!(config.retention_count, None);
}

#[test]
fn default_settings() {
    let config = FileSinkConfig::default();
    assert_eq!(config.path, "app.log");
    assert_eq!(config.rotation, Rotation::Never);
    assert_eq!(config.max_size, None);
    assert_eq!(config.retention_days, None);
    assert_eq!(config.retention_count, None);
    assert!(!config.compression);
    assert!(!config.enqueue);
    assert_eq!(Rotation::default(), Rotation::Never);
}

#[test]
fn path_parts_fall_back_to_log() {
    let parts = PathParts::new(None, None, None);
    assert_eq!(parts.stem, "log");
    assert_eq!(parts.extension, "log");
    assert_eq!(parts.file_name, "");
    let parts = PathParts::new(Some("a".to_string()), Some("txt".to_string()), Some("a.txt".to_string()));
    assert_eq!(parts.stem, "a");
    assert_eq!(parts.extension, "txt");
    assert_eq!(parts.file_name, "a.txt");
}

#[test]
fn boundaries_on_the_local_clock() {
    assert_eq!(next_local_boundary(Rotation::Never, 12345), None);
    assert_eq!(next_local_boundary(Rotation::Daily, 0), Some(86_400));
    assert_eq!(next_local_boundary(Rotation::Daily, 86_399), Some(86_400));
    assert_eq!(next_local_boundary(Rotation::Daily, 86_400), Some(172_800));
    assert_eq!(next_local_boundary(Rotation::Daily, -1), Some(0));
    assert_eq!(next_local_boundary(Rotation::Daily, -86_400), Some(0));
    assert_eq!(next_local_boundary(Rotation::Daily, -86_401), Some(-86_400));
    assert_eq!(next_local_boundary(Rotation::Hourly, 0), Some(3_600));
    assert_eq!(next_local_boundary(Rotation::Hourly, 3_599), Some(3_600));
    assert_eq!(next_local_boundary(Rotation::Hourly, 3_600), Some(7_200));
    assert_eq!(next_local_boundary(Rotation::Hourly, 86_399), Some(86_400));
    assert_eq!(next_local_boundary(Rotation::Hourly, -1), Some(0));
    assert_eq!(next_local_boundary(Rotation::Hourly, -3_601), Some(-3_600));
    assert_eq!(next_local_boundary(Rotation::Daily, i64::MAX), None);
    assert_eq!(next_local_boundary(Rotation::Hourly, i64::MAX), None);
    assert_eq!(next_local_boundary(Rotation::Daily, i64::MIN), Some((i64::MIN / 86_400) * 86_400));
}

#[test]
fn no_boundary_without_rotation_by_the_clock() {
    let now = Timestamp::now();
    assert_eq!(calculate_next_rotation_boundary(&Rotation::Never, &now), None);
    let sink = FileSink::new(limited(100), parts(), 0, now);
    assert_eq!(sink.next_rotation_boundary(), 0);
}

#[test]
fn the_next_boundary_is_on_the_local_clock() {
    let now = Timestamp::now();
    let local = now.secs + now.offset_secs as i64;
    if let Some(at) = calculate_next_rotation_boundary(&Rotation::Daily, &now) {
        assert_eq!(at.secs + at.offset_secs as i64, (local.div_euclid(86_400) + 1) * 86_400);
        assert_eq!(at.nanos, 0);
    }
    if let Some(at) = calculate_next_rotation_boundary(&Rotation::Hourly, &now) {
        assert_eq!(at.secs + at.offset_secs as i64, (local.div_euclid(3_600) + 1) * 3_600);
        assert_eq!(at.nanos, 0);
    }
}

#[test]
fn rotated_names() {
    let at = Timestamp { secs: 1_700_000_000, nanos: 0, offset_secs: 0 };
    assert_eq!(rotated_file_name(&parts(), &at), "app.2023-11-14_22-13-20.log");
    let at = Timestamp { secs: 1_700_000_000, nanos: 0, offset_secs: 3_600 };
    assert_eq!(rotated_file_name(&parts(), &at), "app.2023-11-14_23-13-20.log");
    let fallback = PathParts::new(None, None, None);
    assert_eq!(rotated_file_name(&fallback, &at), "log.2023-11-14_23-13-20.log");
    assert_eq!(compressed_file_name("app.2023-11-14_22-13-20.log"), "app.2023-11-14_22-13-20.log.gz");
}

#[test]
fn a_new_sink_starts_at_the_size_of_its_file() {
    let now = Timestamp { secs: 1_700_000_000, nanos: 5, offset_secs: 0 };
    let sink = FileSink::new(limited(100), parts(), 42, now);
    assert_eq!(sink.current_size(), 42);
    assert_eq!(sink.current_file_time(), now);
    assert_eq!(sink.config().max_size, Some(100));
    assert_eq!(sink.parts().stem, "app");
}

#[test]
fn rotation_is_checked_by_size_and_by_time() {
    let now = Timestamp { secs: 1_700_000_000, nanos: 0, offset_secs: 0 };
    let sink = FileSink::new(limited(100), parts(), 99, now);
    assert!(!sink.check_rotation_needed(1_700_000_000_000));
    let sink = FileSink::new(limited(100), parts(), 100, now);
    assert!(sink.check_rotation_needed(1_700_000_000_000));
    let sink = FileSink::new(limited(0), parts(), 0, now);
    assert!(sink.check_rotation_needed(0));

    let mut daily = FileSinkConfig::default();
    daily.rotation = Rotation::Daily;
    let sink = FileSink::new(daily, parts(), 0, now);
    let boundary = sink.next_rotation_boundary();
    if boundary > 0 {
        assert!(!sink.check_rotation_needed(boundary - 1));
        assert!(sink.check_rotation_needed(boundary));
        assert!(sink.check_rotation_needed(boundary + 1));
    }
}

#[test]
fn a_sink_without_limits_never_rotates() {
    let now = Timestamp { secs: 1_700_000_000, nanos: 0, offset_secs: 0 };
    let sink = FileSink::new(FileSinkConfig::default(), parts(), u64::MAX, now);
    assert!(sink.maybe_rotate(&now).is_none());
    let later = Timestamp { secs: 9_000_000_000, nanos: 0, offset_secs: 0 };
    assert!(sink.maybe_rotate(&later).is_none());
    assert!(sink.write("hello", &later).rotation.is_none());
}

#[test]
fn sizes_are_counted_in_bytes_with_the_line_end() {
    let now = Timestamp { secs: 1_700_000_000, nanos: 0, offset_secs: 0 };
    let mut sink = FileSink::new(FileSinkConfig::default(), parts(), 10, now);
    sink.written("hello".len());
    assert_eq!(sink.current_size(), 16);
    sink.written(0);
    assert_eq!(sink.current_size(), 17);
    sink.written("h\u{e9}llo".len());
    assert_eq!(sink.current_size(), 24);
    let mut sink = FileSink::new(FileSinkConfig::default(), parts(), u64::MAX, now);
    sink.written(2);
    assert_eq!(sink.current_size(), 2);
}

#[test]
fn a_write_plans_the_line_and_the_rotation() {
    let now = Timestamp { secs: 1_700_000_000, nanos: 0, offset_secs: 0 };
    let mut config = limited(10);
    config.compression = true;
    let sink = FileSink::new(config, parts(), 10, now);
    let plan = sink.write("hello", &now);
    match &plan.message {
        WriterMessage::Write(line) => assert_eq!(line, "hello"),
        _ => panic!("a line was expected"),
    }
    let rotation = plan.rotation.unwrap();
    assert_eq!(rotation.rotated_name, "app.2023-11-14_22-13-20.log");
    assert_eq!(rotation.compressed_name, Some("app.2023-11-14_22-13-20.log.gz".to_string()));

    let sink = FileSink::new(limited(10), parts(), 9, now);
    let plan = sink.write_owned("world".to_string(), &now);
    assert!(plan.rotation.is_none());
    match plan.message {
        WriterMessage::Write(line) => assert_eq!(line, "world"),
        _ => panic!("a line was expected"),
    }
    assert!(matches!(sink.flush(), WriterMessage::Flush));

    let sink = FileSink::new(limited(10), parts(), 10, now);
    let rotation = sink.plan_rotation(&now);
    assert_eq!(rotation.rotated_name, "app.2023-11-14_22-13-20.log");
    assert_eq!(rotation.compressed_name, None);
}

#[test]
fn ten_writes_of_twenty_bytes_rotate_a_file_of_a_hundred() {
    let mut now = Timestamp { secs: 1_700_000_000, nanos: 0, offset_secs: 0 };
    let mut sink = FileSink::new(limited(100), parts(), 0, now);
    let message = "12345678901234567890";
    let mut rotated: Vec<String> = Vec::new();
    for _ in 0..10 {
        now.secs += 1;
        let plan = sink.write(message, &now);
        if let Some(rotation) = plan.rotation {
            rotated.push(rotation.rotated_name);
            sink.rotated(&now);
            assert_eq!(sink.current_size(), 0);
            assert_eq!(sink.current_file_time(), now);
        }
        sink.written(message.len());
    }
    assert_eq!(rotated, vec!["app.2023-11-14_22-13-26.log".to_string()]);
    assert_eq!(sink.current_size(), 5 * 21);
    assert!(rotated.len() >= 1);
    let plan = sink.write(message, &now);
    assert!(plan.rotation.is_some());
    sink.rotated(&now);
    assert!(sink.current_size() < 100);
}

#[test]
fn a_daily_sink_rotates_after_midnight() {
    let offset = Timestamp::now().offset_secs as i64;
    let day: i64 = 19_800;
    let before = Timestamp { secs: day * 86_400 + 86_399 - offset, nanos: 0, offset_secs: offset as i32 };
    let midnight = match instant_of_local((day + 1) * 86_400) {
        Some(at) => at,
        None => return,
    };
    let mut config = FileSinkConfig::default();
    config.rotation = Rotation::Daily;
    let mut sink = FileSink::new(config, parts(), 0, before);
    assert_eq!(sink.next_rotation_boundary(), midnight.secs * 1000);

    assert!(sink.write("first", &before).rotation.is_none());
    sink.written(5);

    let after = Timestamp { secs: midnight.secs + 1, nanos: 0, offset_secs: midnight.offset_secs };
    let plan = sink.write("second", &after);
    let rotation = plan.rotation.unwrap();
    let stamp = format_time(&after, ROTATED_TIME_FORMAT);
    assert!(stamp.ends_with("_00-00-01"));
    assert_eq!(stamp, "2024-03-19_00-00-01");
    assert_eq!(rotation.rotated_name, "app.2024-03-19_00-00-01.log");
    sink.rotated(&after);
    assert_eq!(sink.current_size(), 0);
    assert!(sink.next_rotation_boundary() == 0 || sink.next_rotation_boundary() > after.secs * 1000);
    assert!(sink.write("third", &after).rotation.is_none());
}
