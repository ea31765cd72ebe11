use loglyzer::args::{parse_top, top_from_parsed};
use loglyzer::datetime::parse_datetime;
use loglyzer::entry::LogEntry;
use loglyzer::hour::extract_hour;
use loglyzer::level::LogLevel;
use loglyzer::parser::parse_log_line;
use loglyzer::stats::analyze_logs;
use loglyzer::tally::{bump, rank, Frequency};

fn entry(line: &str) -> LogEntry {
    parse_log_line(line).expect("log line should parse")
}

fn pairs(v: &[Frequency]) -> Vec<(String, usize)> {
    v.iter().map(|f| (f.key.clone(), f.count)).collect()
}

fn freq(key: &str, count: usize) -> Frequency {
    Frequency { key: key.to_string(), count }
}

#[test]
fn analyze_logs_counts_levels_and_top() {
    let entries = vec![
        entry("2024-01-15 10:30:45 [ERROR] API timeout"),
        entry("2024-01-15 10:31:45 [ERROR] API timeout"),
        entry("2024-01-15 10:32:45 [INFO] OK"),
        entry("2024-01-15 10:33:45 [WARNING] High CPU"),
    ];

    let stats = analyze_logs(&entries, 3, None, None, 0);
    assert_eq!(stats.total_entries, 4);
    assert_eq!(stats.by_level.get("ERROR"), Some(2));
    assert_eq!(stats.by_level.get("INFO"), Some(1));
    assert_eq!(stats.by_level.get("WARNING"), Some(1));
    assert_eq!(stats.top_errors.first().map(|e| e.count), Some(2));
    assert_eq!(stats.top_errors.first().map(|e| e.key.as_str()), Some("API timeout"));
    assert_eq!(stats.by_level.get("DEBUG"), None);
    assert_eq!(stats.by_level.get("WARN"), None);
    assert_eq!(stats.by_level.get("error"), None);
    assert_eq!(stats.by_level.count_of(LogLevel::Error), Some(2));
    assert_eq!(stats.by_level.count_of(LogLevel::Debug), None);
}

#[test]
fn fails_on_top_zero() {
    assert_eq!(parse_top("0"), Err("La valeur de --top doit être au moins 1".to_string()));
    assert_eq!(top_from_parsed(Some(0)), Err("La valeur de --top doit être au moins 1".to_string()));
}

#[test]
fn parse_top_accepts_positive_numbers_only() {
    assert_eq!(parse_top("1"), Ok(1));
    assert_eq!(parse_top("5"), Ok(5));
    assert_eq!(parse_top("+12"), Ok(12));
    let not_a_count = Err("La valeur de --top doit être un entier positif".to_string());
    assert_eq!(parse_top("-1"), not_a_count);
    assert_eq!(parse_top("abc"), not_a_count);
    assert_eq!(parse_top(""), not_a_count);
    assert_eq!(parse_top("99999999999999999999999999"), not_a_count);
    assert_eq!(top_from_parsed(None), not_a_count);
    assert_eq!(top_from_parsed(Some(7)), Ok(7));
}

#[test]
fn top_zero_is_clamped_to_one() {
    let entries = vec![
        entry("2024-01-15 10:30:45 [ERROR] a"),
        entry("2024-01-15 10:31:45 [ERROR] b"),
        entry("2024-01-15 10:32:45 [ERROR] b"),
    ];
    let stats = analyze_logs(&entries, 0, None, None, 0);
    assert_eq!(pairs(&stats.top_errors), vec![("b".to_string(), 2)]);
    let stats = analyze_logs(&entries, 1, None, None, 0);
    assert_eq!(pairs(&stats.top_errors), vec![("b".to_string(), 2)]);
}

#[test]
fn level_counts_add_up_to_the_total() {
    let entries = vec![
        entry("2024-01-15 10:30:45 [ERROR] a"),
        entry("2024-01-15 10:31:45 [DEBUG] b"),
        entry("2024-01-15 10:32:45 [debug] c"),
        entry("2024-01-15 10:32:46 [warn] d"),
        entry("2024-01-15 10:32:47 [INFO] e"),
        entry("2024-01-15 10:32:48 [INFO] f"),
        entry("2024-01-15 10:32:49 [INFO] g"),
    ];
    let stats = analyze_logs(&entries, 5, None, None, 9);
    let c = stats.by_level;
    assert_eq!((c.info, c.warning, c.error, c.debug), (3, 1, 1, 2));
    assert_eq!(c.info + c.warning + c.error + c.debug, stats.total_entries);
    assert_eq!(stats.total_entries, 7);
    assert_eq!(stats.skipped_lines, 9);
}

#[test]
fn errors_are_counted_by_hour() {
    let entries = vec![
        entry("2024-01-15 10:30:45 [ERROR] a"),
        entry("2024-01-15 10:59:59 [ERROR] b"),
        entry("2024-01-15 10:40:00 [INFO] c"),
        entry("2024-01-15 11:00:00 [ERROR] d"),
    ];
    let stats = analyze_logs(&entries, 5, None, None, 0);
    assert_eq!(
        pairs(&stats.errors_by_hour),
        vec![("10:00".to_string(), 2), ("11:00".to_string(), 1)]
    );
    let rates: Vec<f64> = stats
        .errors_by_hour
        .iter()
        .map(|h| h.count as f64 / stats.total_entries as f64 * 100.0)
        .collect();
    assert_eq!(rates, vec![50.0, 25.0]);
}

#[test]
fn top_errors_rank_by_count_then_first_sighting() {
    let entries = vec![
        entry("2024-01-15 10:30:45 [ERROR] c"),
        entry("2024-01-15 10:30:46 [ERROR] a"),
        entry("2024-01-15 10:30:47 [ERROR] b"),
        entry("2024-01-15 10:30:48 [ERROR] b"),
        entry("2024-01-15 10:30:49 [ERROR] a"),
        entry("2024-01-15 10:30:50 [ERROR] d"),
        entry("2024-01-15 10:30:51 [ERROR] d"),
        entry("2024-01-15 10:30:52 [ERROR] d"),
        entry("2024-01-15 10:30:53 [INFO] d"),
    ];
    let stats = analyze_logs(&entries, 3, None, None, 0);
    assert_eq!(
        pairs(&stats.top_errors),
        vec![("d".to_string(), 3), ("a".to_string(), 2), ("b".to_string(), 2)]
    );
    let all = analyze_logs(&entries, 10, None, None, 0);
    assert_eq!(
        pairs(&all.top_errors),
        vec![
            ("d".to_string(), 3),
            ("a".to_string(), 2),
            ("b".to_string(), 2),
            ("c".to_string(), 1)
        ]
    );
    assert_eq!(analyze_logs(&entries, usize::MAX, None, None, 0).top_errors.len(), 4);
}

#[test]
fn single_entry_and_empty_batch() {
    let one = vec![entry("2024-01-15 10:30:45 [ERROR] only")];
    let stats = analyze_logs(&one, 5, None, None, 0);
    assert_eq!(stats.total_entries, 1);
    assert_eq!(pairs(&stats.top_errors), vec![("only".to_string(), 1)]);
    assert_eq!(pairs(&stats.errors_by_hour), vec![("10:00".to_string(), 1)]);
    let none = analyze_logs(&Vec::new(), 5, None, None, 2);
    assert_eq!(none.total_entries, 0);
    assert!(none.top_errors.is_empty());
    assert!(none.errors_by_hour.is_empty());
    assert_eq!(none.by_level.get("ERROR"), None);
    assert_eq!(none.skipped_lines, 2);
}

#[test]
fn bounds_are_echoed_in_canonical_form() {
    let entries = vec![entry("2024-01-15 10:30:45 [INFO] a")];
    let since = parse_datetime("2024-1-5 1:02:03").ok();
    let until = parse_datetime("2024-01-15 23:59:59").ok();
    let stats = analyze_logs(&entries, 5, since, until, 0);
    assert_eq!(stats.since, Some("2024-01-05 01:02:03".to_string()));
    assert_eq!(stats.until, Some("2024-01-15 23:59:59".to_string()));
    let stats = analyze_logs(&entries, 5, None, None, 0);
    assert_eq!(stats.since, None);
    assert_eq!(stats.until, None);
}

#[test]
fn extract_hour_reads_the_second_word() {
    assert_eq!(extract_hour("2024-01-15 10:30:45"), Some("10:00".to_string()));
    assert_eq!(extract_hour("  2024-01-15 \t 07:30:45  "), Some("07:00".to_string()));
    assert_eq!(extract_hour("2024-01-15\u{a0}23:59:59"), Some("23:00".to_string()));
    assert_eq!(extract_hour("a b"), Some("b:00".to_string()));
    assert_eq!(extract_hour("a :30"), Some(":00".to_string()));
    assert_eq!(extract_hour("a é12:30 z"), Some("é12:00".to_string()));
    assert_eq!(extract_hour("2024-01-15"), None);
    assert_eq!(extract_hour("2024-01-15   "), None);
    assert_eq!(extract_hour("   "), None);
    assert_eq!(extract_hour(""), None);
}

#[test]
fn bump_counts_sightings_in_order_of_first_sighting() {
    let mut v: Vec<Frequency> = Vec::new();
    for key in ["x", "y", "x", "z", "x", "y"] {
        bump(&mut v, key.to_string());
    }
    assert_eq!(
        pairs(&v),
        vec![("x".to_string(), 3), ("y".to_string(), 2), ("z".to_string(), 1)]
    );
}

#[test]
fn rank_is_stable_and_descending() {
    let v = vec![freq("a", 1), freq("b", 3), freq("c", 1), freq("d", 3), freq("e", 2)];
    assert_eq!(
        pairs(&rank(&v)),
        vec![
            ("b".to_string(), 3),
            ("d".to_string(), 3),
            ("e".to_string(), 2),
            ("a".to_string(), 1),
            ("c".to_string(), 1)
        ]
    );
    assert!(rank(&Vec::new()).is_empty());
}
