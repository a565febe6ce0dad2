use mplug::logging::{
    debug_enabled, follow_step, format_line, log_tail, max_level_from, needs_rotation, should_log,
    split_lines, FollowStep, Level, MAX_LOG_BYTES,
};

#[test]
fn level_parse_accepts_known_names_case_insensitively() {
    assert_eq!(Level::parse("error"), Some(Level::Error));
    assert_eq!(Level::parse("WARN"), Some(Level::Warn));
    assert_eq!(Level::parse("Info"), Some(Level::Info));
    assert_eq!(Level::parse("debug"), Some(Level::Debug));
    assert_eq!(Level::parse("verbose"), None);
    assert_eq!(Level::parse(""), None);
}

#[test]
fn level_ordering_lets_max_level_filter() {
    // A message is emitted when its level <= the configured max level.
    assert!(Level::Error <= Level::Info);
    assert!(Level::Info <= Level::Info);
    assert!(Level::Debug > Level::Info);
}

#[test]
fn format_line_has_timestamp_level_component_message() {
    let line = format_line("2026-06-11 13:24:05", Level::Error, "clock-calendar", "boom");
    assert_eq!(line, "2026-06-11 13:24:05 [ERROR] [clock-calendar] boom");
}

#[test]
fn rotate_renames_oversized_log_and_keeps_small_one() {
    assert!(!needs_rotation(Some(64), 1024));
    assert!(needs_rotation(Some(2048), 1024));
    assert!(!needs_rotation(Some(1024), 1024));
}

#[test]
fn rotate_is_a_noop_when_log_missing() {
    assert!(!needs_rotation(None, 1024));
}

#[test]
fn severity_follows_declaration_order() {
    assert_eq!(Level::Error.severity(), 0);
    assert_eq!(Level::Warn.severity(), 1);
    assert_eq!(Level::Info.severity(), 2);
    assert_eq!(Level::Debug.severity(), 3);
    assert!(Level::Error < Level::Warn && Level::Warn < Level::Info && Level::Info < Level::Debug);
}

#[test]
fn level_names_are_upper_case() {
    assert_eq!(Level::Error.as_str(), "ERROR");
    assert_eq!(Level::Warn.as_str(), "WARN");
    assert_eq!(Level::Info.as_str(), "INFO");
    assert_eq!(Level::Debug.as_str(), "DEBUG");
}

#[test]
fn filter_uses_configured_maximum_or_info() {
    assert!(should_log(Level::Error, None));
    assert!(should_log(Level::Info, None));
    assert!(!should_log(Level::Debug, None));
    assert!(should_log(Level::Debug, Some(Level::Debug)));
    assert!(!should_log(Level::Warn, Some(Level::Error)));
    assert!(should_log(Level::Error, Some(Level::Error)));
}

#[test]
fn debug_enabled_only_at_debug() {
    assert!(!debug_enabled(None));
    assert!(!debug_enabled(Some(Level::Info)));
    assert!(debug_enabled(Some(Level::Debug)));
}

#[test]
fn max_level_setting_defaults_to_info() {
    assert_eq!(max_level_from(None), Level::Info);
    assert_eq!(max_level_from(Some("DEBUG")), Level::Debug);
    assert_eq!(max_level_from(Some("loud")), Level::Info);
    assert_eq!(MAX_LOG_BYTES, 5 * 1024 * 1024);
}

#[test]
fn lines_keep_their_breaks() {
    assert_eq!(split_lines("a\nb\n"), vec!["a\n", "b\n"]);
    assert_eq!(split_lines("a\n\nb"), vec!["a\n", "\n", "b"]);
    assert!(split_lines("").is_empty());
}

#[test]
fn tail_keeps_last_lines_trimmed() {
    let log = "one  \ntwo\nthree\t\nfour\n";
    assert_eq!(log_tail(log, 2), vec!["three", "four"]);
    assert_eq!(log_tail(log, 10), vec!["one", "two", "three", "four"]);
    // A count of zero prints no line.
    assert!(log_tail(log, 0).is_empty());
    assert!(log_tail("", 3).is_empty());
}

#[test]
fn follow_reads_new_bytes_and_restarts_after_rotation() {
    assert_eq!(follow_step(10, 25), FollowStep { read_from: Some(10), next_pos: 25 });
    assert_eq!(follow_step(10, 10), FollowStep { read_from: None, next_pos: 10 });
    assert_eq!(follow_step(10, 4), FollowStep { read_from: Some(0), next_pos: 4 });
    assert_eq!(follow_step(10, 0), FollowStep { read_from: None, next_pos: 0 });
}

#[test]
fn level_names_read_back() {
    for level in [Level::Error, Level::Warn, Level::Info, Level::Debug] {
        assert_eq!(Level::parse(level.as_str()), Some(level));
    }
}

#[test]
fn lines_put_back_together_are_the_log() {
    for log in ["", "a", "a\nb", "a\n\n\nb\n", "\n", "x y\r\nz"] {
        assert_eq!(split_lines(log).concat(), log);
    }
}
