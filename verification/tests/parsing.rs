use chrono::{Datelike, NaiveDateTime, Timelike};
use loglyzer::datetime::{format_datetime, parse_datetime, DateTime};
use loglyzer::entry::LogEntry;
use loglyzer::level::LogLevel;
use loglyzer::parser::{assemble_entry, entry_from_groups, parse_log_line};

fn entry(line: &str) -> LogEntry {
    parse_log_line(line).expect("log line should parse")
}

#[test]
fn parse_log_line_parses_fields() {
    let line = "2024-01-15 10:30:45 [ERROR] Failed to connect";
    let e = entry(line);
    assert_eq!(e.timestamp, "2024-01-15 10:30:45");
    assert_eq!(e.level, LogLevel::Error);
    assert_eq!(e.message, "Failed to connect");
    let expected =
        NaiveDateTime::parse_from_str("2024-01-15 10:30:45", "%Y-%m-%d %H:%M:%S").unwrap();
    assert_eq!(
        e.datetime,
        DateTime {
            days: expected.num_days_from_ce(),
            secs: expected.num_seconds_from_midnight(),
            nanos: expected.nanosecond(),
        }
    );
    assert_eq!(e.datetime, parse_datetime("2024-01-15 10:30:45").unwrap());
}

#[test]
fn parse_log_line_invalid_returns_none() {
    assert!(parse_log_line("not a log line").is_none());
    assert!(parse_log_line("2024-01-15 [INFO] missing time").is_none());
}

#[test]
fn parse_rejects_dates_outside_the_calendar() {
    assert!(parse_log_line("2024-13-15 10:30:45 [INFO] month thirteen").is_none());
    assert!(parse_log_line("2024-02-30 10:30:45 [INFO] february thirty").is_none());
    assert!(parse_log_line("2024-01-15 25:30:45 [INFO] hour twenty-five").is_none());
}

#[test]
fn parse_rejects_unknown_levels() {
    assert!(parse_log_line("2024-01-15 10:30:45 [TRACE] unknown").is_none());
    assert!(parse_log_line("2024-01-15 10:30:45 [] empty").is_none());
    assert!(parse_log_line("2024-01-15 10:30:45 ERROR no brackets").is_none());
}

#[test]
fn parse_accepts_level_names_in_any_case() {
    assert_eq!(entry("2024-01-15 10:30:45 [warn] a").level, LogLevel::Warning);
    assert_eq!(entry("2024-01-15 10:30:45 [Warning] a").level, LogLevel::Warning);
    assert_eq!(entry("2024-01-15 10:30:45 [info] a").level, LogLevel::Info);
    assert_eq!(entry("2024-01-15 10:30:45 [debug] a").level, LogLevel::Debug);
    assert_eq!(entry("2024-01-15 10:30:45 [eRRoR] a").level, LogLevel::Error);
}

#[test]
fn parse_keeps_message_verbatim() {
    let e = entry("2024-01-15 10:30:45   [INFO]   [core] a  b [x] ");
    assert_eq!(e.timestamp, "2024-01-15 10:30:45");
    assert_eq!(e.message, "[core] a  b [x] ");
    assert!(parse_log_line("2024-01-15 10:30:45 [INFO]").is_none());
}

#[test]
fn level_names_round_trip() {
    for level in [LogLevel::Info, LogLevel::Warning, LogLevel::Error, LogLevel::Debug] {
        assert_eq!(LogLevel::from_str(level.as_str()), Some(level));
        assert_eq!(LogLevel::from_upper(&level.as_str().to_string()), Some(level));
    }
    assert_eq!(LogLevel::Warning.as_str(), "WARNING");
    assert_eq!(LogLevel::from_str("WARN"), Some(LogLevel::Warning));
    assert_eq!(LogLevel::from_str("error"), Some(LogLevel::Error));
    assert_eq!(LogLevel::from_upper(&"error".to_string()), None);
    assert_eq!(LogLevel::from_str("FATAL"), None);
    assert_eq!(LogLevel::from_str(""), None);
}

#[test]
fn assemble_entry_needs_datetime_and_level() {
    let d = parse_datetime("2024-01-15 10:30:45").unwrap();
    let ts = "2024-01-15 10:30:45".to_string();
    let level = Some(LogLevel::Debug);
    let e = assemble_entry(ts.clone(), Some(d), Some(ts.clone()), level, "m".to_string()).unwrap();
    assert_eq!(e.timestamp, ts);
    assert_eq!(e.datetime, d);
    assert_eq!(e.level, LogLevel::Debug);
    assert_eq!(e.message, "m");
    assert!(assemble_entry(ts.clone(), None, Some(ts.clone()), level, "m".to_string()).is_none());
    assert!(assemble_entry(ts.clone(), Some(d), Some(ts.clone()), None, "m".to_string()).is_none());
    assert!(assemble_entry(ts.clone(), Some(d), None, level, "m".to_string()).is_none());
    let other = "2024-01-15  10:30:45".to_string();
    assert!(assemble_entry(other.clone(), Some(d), Some(ts.clone()), level, "m".to_string()).is_none());
    assert!(assemble_entry(ts, Some(d), Some(other), level, "m".to_string()).is_none());
}

#[test]
fn parse_rejects_timestamps_not_in_canonical_form() {
    assert!(parse_log_line("2024-01-15  10:30:45 [INFO] x").is_none());
    assert!(parse_log_line("2024-01-15\t10:30:45 [INFO] x").is_none());
    assert!(parse_log_line("2024-01-15\u{a0}10:30:45 [INFO] x").is_none());
    assert!(parse_log_line("2024-01-15 10:30:45 [INFO] x").is_some());
}

#[test]
fn entry_timestamp_is_the_rendering_of_its_datetime() {
    for line in [
        "2024-01-15 10:30:45 [ERROR] Failed to connect",
        "1999-12-31 23:59:59 [INFO] a",
        "0001-01-01 00:00:00 [DEBUG] b",
        "2016-12-31 23:59:60 [WARN] leap second",
    ] {
        let e = entry(line);
        assert_eq!(format_datetime(&e.datetime), Some(e.timestamp.clone()));
        assert_eq!(e.timestamp, line[..19]);
    }
}

#[test]
fn datetime_parses_and_formats() {
    let d = parse_datetime("2024-01-15 10:30:45").unwrap();
    assert_eq!(d.secs, 10 * 3600 + 30 * 60 + 45);
    assert_eq!(d.nanos, 0);
    assert_eq!(d.days, 738_900);
    assert_eq!(format_datetime(&d), Some("2024-01-15 10:30:45".to_string()));
    let first = DateTime { days: 1, secs: 0, nanos: 0 };
    assert_eq!(format_datetime(&first), Some("0001-01-01 00:00:00".to_string()));
    assert_eq!(format_datetime(&DateTime { days: 1, secs: 86_400, nanos: 0 }), None);
    assert_eq!(format_datetime(&DateTime { days: i32::MAX, secs: 0, nanos: 0 }), None);
}

#[test]
fn datetime_rejects_other_formats() {
    let err = parse_datetime("15/01/2024").unwrap_err();
    assert!(err.starts_with("Format attendu: YYYY-MM-DD HH:MM:SS ("));
    assert!(err.ends_with(")"));
    let detail = NaiveDateTime::parse_from_str("15/01/2024", "%Y-%m-%d %H:%M:%S")
        .unwrap_err()
        .to_string();
    assert_eq!(err, format!("Format attendu: YYYY-MM-DD HH:MM:SS ({detail})"));
    assert!(parse_datetime("2024-01-15").is_err());
    assert!(parse_datetime("2024-13-01 00:00:00").is_err());
}

#[test]
fn datetime_order_follows_the_calendar() {
    let a = parse_datetime("2024-01-15 10:30:45").unwrap();
    let b = parse_datetime("2024-01-15 10:30:46").unwrap();
    let c = parse_datetime("2024-01-16 00:00:00").unwrap();
    let d = parse_datetime("2023-12-31 23:59:59").unwrap();
    assert!(a.not_after(&a));
    assert!(a.not_after(&b) && !b.not_after(&a));
    assert!(b.not_after(&c) && !c.not_after(&b));
    assert!(d.not_after(&a) && !a.not_after(&d));
}

#[test]
fn entry_from_groups_reads_timestamp_and_level() {
    let groups = Some((
        "2024-01-15 10:30:45".to_string(),
        "warn".to_string(),
        "Disk almost full".to_string(),
    ));
    let e = entry_from_groups(&groups).unwrap();
    assert_eq!(e.timestamp, "2024-01-15 10:30:45");
    assert_eq!(e.level, LogLevel::Warning);
    assert_eq!(e.message, "Disk almost full");
    assert_eq!(e.datetime, parse_datetime("2024-01-15 10:30:45").unwrap());
    assert!(entry_from_groups(&None).is_none());
    let bad_date = Some(("2024-02-30 10:30:45".to_string(), "INFO".to_string(), "m".to_string()));
    assert!(entry_from_groups(&bad_date).is_none());
    let loose = Some(("2024-01-15  10:30:45".to_string(), "INFO".to_string(), "m".to_string()));
    assert!(entry_from_groups(&loose).is_none());
    let bad_level = Some(("2024-01-15 10:30:45".to_string(), "NOTE".to_string(), "m".to_string()));
    assert!(entry_from_groups(&bad_level).is_none());
}
