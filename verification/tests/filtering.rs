use loglyzer::datetime::parse_datetime;
use loglyzer::entry::LogEntry;
use loglyzer::filter::{entry_passes, filter_entries, render_entry};
use loglyzer::parser::parse_log_line;

fn entry(line: &str) -> LogEntry {
    parse_log_line(line).expect("log line should parse")
}

fn sample() -> Vec<LogEntry> {
    vec![
        entry("2024-01-15 10:30:45 [INFO] Application started"),
        entry("2024-01-15 10:31:15 [ERROR] Failed to connect to API: timeout"),
        entry("2024-01-15 10:32:00 [ERROR] Database query failed: syntax error"),
        entry("2024-01-15 11:00:00 [INFO] Done"),
    ]
}

fn messages(entries: &[LogEntry]) -> Vec<String> {
    entries.iter().map(|e| e.message.clone()).collect()
}

#[test]
fn filter_entries_respects_flags() {
    let entries = vec![
        entry("2024-01-15 10:30:45 [ERROR] API timeout"),
        entry("2024-01-15 10:31:45 [INFO] OK"),
        entry("2024-01-15 10:32:45 [ERROR] Database down"),
    ];

    let since = parse_datetime("2024-01-15 10:30:00").ok();
    let filtered = filter_entries(entries, true, Some("api"), since, None);
    assert_eq!(filtered.len(), 1);
    assert_eq!(filtered[0].message, "API timeout");
}

#[test]
fn filters_errors_and_search() {
    let filtered = filter_entries(sample(), true, Some("database"), None, None);
    assert_eq!(filtered.len(), 1);
    assert_eq!(filtered[0].message, "Database query failed: syntax error");
    assert_eq!(filtered[0].timestamp, "2024-01-15 10:32:00");
}

#[test]
fn respects_since_until_filters() {
    let since = parse_datetime("2024-01-15 10:31:30").ok();
    let until = parse_datetime("2024-01-15 10:31:50").ok();
    let filtered = filter_entries(sample(), false, None, since, until);
    assert!(filtered.is_empty());
}

#[test]
fn filter_without_parameters_keeps_everything() {
    let filtered = filter_entries(sample(), false, None, None, None);
    assert_eq!(messages(&filtered), messages(&sample()));
}

#[test]
fn filter_bounds_are_inclusive() {
    let since = parse_datetime("2024-01-15 10:31:15").ok();
    let until = parse_datetime("2024-01-15 10:32:00").ok();
    let filtered = filter_entries(sample(), false, None, since, until);
    assert_eq!(
        messages(&filtered),
        vec![
            "Failed to connect to API: timeout".to_string(),
            "Database query failed: syntax error".to_string(),
        ]
    );
    let only_until = filter_entries(sample(), false, None, None, since);
    assert_eq!(only_until.len(), 2);
}

#[test]
fn filter_search_reads_the_whole_rendering() {
    assert_eq!(filter_entries(sample(), false, Some("[error]"), None, None).len(), 2);
    assert_eq!(filter_entries(sample(), false, Some("11:00"), None, None).len(), 1);
    assert_eq!(filter_entries(sample(), false, Some("API"), None, None).len(), 0);
    assert_eq!(filter_entries(sample(), false, Some(""), None, None).len(), 4);
    assert_eq!(
        render_entry(&sample()[1]),
        "2024-01-15 10:31:15 [ERROR] Failed to connect to API: timeout"
    );
}

#[test]
fn filter_is_idempotent() {
    let since = parse_datetime("2024-01-15 10:31:00").ok();
    let once = filter_entries(sample(), true, Some("failed"), since, None);
    let twice = filter_entries(once.clone(), true, Some("failed"), since, None);
    assert_eq!(messages(&once), messages(&twice));
    assert_eq!(once.len(), 2);
}

#[test]
fn entry_passes_agrees_with_filter() {
    let e = entry("2024-01-15 10:31:15 [WARN] Disk almost full");
    assert!(entry_passes(&e, false, Some("[warning] disk"), None, None));
    assert!(!entry_passes(&e, true, None, None, None));
    assert!(!entry_passes(&e, false, Some("[warn] disk"), None, None));
    let later = parse_datetime("2024-01-15 10:31:16").ok();
    assert!(!entry_passes(&e, false, None, later, None));
    assert!(entry_passes(&e, false, None, None, later));
}
