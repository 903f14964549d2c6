use logust::format::DEFAULT_TIME_FORMAT;
use logust::render::format_time;
use logust::time::{format_elapsed, instant_of_local, Timestamp};

fn at(secs: i64, nanos: u32) -> Timestamp {
    Timestamp { secs, nanos, offset_secs: 0 }
}

#[test]
fn elapsed_time_before_the_start_is_zero() {
    let start = at(1_700_000_000, 0);
    let now = at(1_699_999_999, 0);
    assert_eq!(format_elapsed(&start, &now), "00:00:00.000");
    assert_eq!(format_elapsed(&start, &start), "00:00:00.000");
    assert_eq!(format_elapsed(&at(10, 1), &at(10, 0)), "00:00:00.000");
}

#[test]
fn elapsed_time_is_written_in_hours_minutes_seconds() {
    let start = at(1_000, 0);
    assert_eq!(format_elapsed(&start, &at(1_000, 1_000_000)), "00:00:00.001");
    assert_eq!(format_elapsed(&start, &at(1_000, 999_999)), "00:00:00.000");
    assert_eq!(format_elapsed(&start, &at(1_001, 0)), "00:00:01.000");
    assert_eq!(format_elapsed(&start, &at(1_061, 500_000_000)), "00:01:01.500");
    assert_eq!(format_elapsed(&start, &at(1_000 + 3_600 + 2 * 60 + 3, 45_000_000)), "01:02:03.045");
    assert_eq!(format_elapsed(&start, &at(1_000 + 99 * 3_600 + 59 * 60 + 59, 999_000_000)), "99:59:59.999");
    assert_eq!(format_elapsed(&start, &at(1_000 + 100 * 3_600, 0)), "100:00:00.000");
    assert_eq!(format_elapsed(&at(0, 999_500_000), &at(1, 400_000)), "00:00:00.000");
    assert_eq!(format_elapsed(&at(0, 999_500_000), &at(1, 500_000)), "00:00:00.001");
}

#[test]
fn elapsed_time_does_not_look_at_offsets() {
    let start = Timestamp { secs: 100, nanos: 0, offset_secs: 3_600 };
    let now = Timestamp { secs: 160, nanos: 0, offset_secs: -7_200 };
    assert_eq!(format_elapsed(&start, &now), "00:01:00.000");
}

#[test]
fn milliseconds_since_the_epoch() {
    assert_eq!(at(0, 0).timestamp_millis(), 0);
    assert_eq!(at(1, 999_999_999).timestamp_millis(), 1_999);
    assert_eq!(at(-1, 0).timestamp_millis(), -1_000);
    assert_eq!(at(-1, 500_000_000).timestamp_millis(), -500);
    assert_eq!(at(i64::MAX, 0).timestamp_millis(), i64::MAX);
    assert_eq!(at(i64::MIN, 0).timestamp_millis(), i64::MIN);
}

#[test]
fn the_clock_gives_a_time_after_the_epoch() {
    let now = Timestamp::now();
    assert!(now.secs > 1_600_000_000);
    assert!(now.nanos < 1_000_000_000);
    assert!(-86_400 < now.offset_secs && now.offset_secs < 86_400);
    let later = Timestamp::now();
    assert!((later.secs, later.nanos) >= (now.secs, now.nanos));
}

#[test]
fn times_are_formatted_by_chrono() {
    let t = Timestamp { secs: 1_700_000_000, nanos: 123_456_789, offset_secs: 0 };
    assert_eq!(t.format(DEFAULT_TIME_FORMAT), Some("2023-11-14 22:13:20.123".to_string()));
    assert_eq!(t.format("%Y"), Some("2023".to_string()));
    assert_eq!(t.format("%H:%M:%S%.6f"), Some("22:13:20.123456".to_string()));
    assert_eq!(t.format(""), Some(String::new()));
    assert_eq!(t.format("plain"), Some("plain".to_string()));
    let east = Timestamp { secs: 1_700_000_000, nanos: 0, offset_secs: 9 * 3_600 };
    assert_eq!(east.format("%Y-%m-%d %H:%M:%S %z"), Some("2023-11-15 07:13:20 +0900".to_string()));
    let west = Timestamp { secs: 0, nanos: 0, offset_secs: -3_600 };
    assert_eq!(west.format("%Y-%m-%d %H:%M:%S"), Some("1969-12-31 23:00:00".to_string()));
}

#[test]
fn what_chrono_cannot_format_gives_nothing() {
    let t = Timestamp { secs: 1_700_000_000, nanos: 0, offset_secs: 0 };
    assert_eq!(t.format("%Q"), None);
    assert_eq!(format_time(&t, "%Q"), "");
    let far = Timestamp { secs: i64::MAX, nanos: 0, offset_secs: 0 };
    assert_eq!(far.format("%Y"), None);
    assert_eq!(far.to_rfc3339(), None);
    let skewed = Timestamp { secs: 0, nanos: 0, offset_secs: 86_400 };
    assert_eq!(skewed.format("%Y"), None);
    let dense = Timestamp { secs: 0, nanos: 2_000_000_000, offset_secs: 0 };
    assert_eq!(dense.format("%Y"), None);
    assert_eq!(format_time(&t, "%Y"), "2023");
}

#[test]
fn times_in_the_form_of_rfc_3339() {
    let t = Timestamp { secs: 1_700_000_000, nanos: 0, offset_secs: 0 };
    assert_eq!(t.to_rfc3339(), Some("2023-11-14T22:13:20+00:00".to_string()));
    let t = Timestamp { secs: 1_700_000_000, nanos: 120_000_000, offset_secs: -5 * 3_600 };
    assert_eq!(t.to_rfc3339(), Some("2023-11-14T17:13:20.120-05:00".to_string()));
}

#[test]
fn local_times_are_resolved_to_instants() {
    let now = Timestamp::now();
    let local = now.secs + now.offset_secs as i64;
    if let Some(at) = instant_of_local(local) {
        assert_eq!(at.secs + at.offset_secs as i64, local);
        assert_eq!(at.nanos, 0);
        assert!((at.secs - now.secs).abs() <= 86_400);
    }
    assert_eq!(instant_of_local(i64::MAX), None);
}
