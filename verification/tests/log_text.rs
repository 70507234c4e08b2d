use yuru_auto_backup_gdrive::logger::{format_log_line, last_lines, log_limit, lines_of, LEVEL_INFO};

#[test]
fn tail_returns_last_n_lines() {
    let mut text = String::new();
    for i in 0..10 {
        text.push_str(&format_log_line("2026-04-24T09:00:00+09:00", LEVEL_INFO, &format!("line {i}")));
    }
    let tail = last_lines(&text, 3);
    assert_eq!(tail.len(), 3);
    assert!(tail[2].contains("line 9"));
    assert!(tail[0].contains("line 7"));
}

#[test]
fn log_lines_carry_timestamp_level_and_message() {
    let line = format_log_line("TS", "WARN", "slow io");
    assert_eq!(line, "[TS] [WARN] slow io\n");
}

#[test]
fn lines_follow_str_lines() {
    let text = "a\r\n\nb\r";
    assert_eq!(lines_of(text), text.lines().map(String::from).collect::<Vec<_>>());
    assert_eq!(lines_of(""), Vec::<String>::new());
}

#[test]
fn zero_limit_shows_no_line_and_default_is_two_hundred() {
    assert_eq!(last_lines("x\ny\nz\n", 0), Vec::<String>::new());
    assert_eq!(last_lines("x\ny\n", 5), vec!["x".to_string(), "y".to_string()]);
    assert_eq!(log_limit(None), 200);
    assert_eq!(log_limit(Some(7)), 7);
}
