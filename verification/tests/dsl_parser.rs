use std::time::Duration;

use ophan::config::dsl::blocks::RawWorkers;
use ophan::config::dsl::errors::ConfigError;
use ophan::config::dsl::parser::{parse_duration_millis, parse_rate, parse_raw_master};

#[test]
fn test_parse_minimal_master() {
    let input = r#"
master "ophan-01" {
    user = "www-data"
    workers = "auto"
    pid = "/run/ophan.pid"
    error_log = "/var/log/ophan/error.log"
    includes = "/etc/ophan/gateways/*.conf"
}
"#;
    let m = parse_raw_master(input).unwrap();
    assert_eq!(m.name, "ophan-01");
    assert_eq!(m.user, "www-data");
    assert!(matches!(m.workers, RawWorkers::Auto));
    assert_eq!(m.pid, "/run/ophan.pid");
    assert_eq!(m.error_log, "/var/log/ophan/error.log");
    assert_eq!(m.includes.len(), 1);
    assert_eq!(m.includes[0], "/etc/ophan/gateways/*.conf");
}

#[test]
fn test_parse_master_numeric_workers() {
    let input = r#"
master "test" {
    workers = 4
}
"#;
    let m = parse_raw_master(input).unwrap();
    assert!(matches!(m.workers, RawWorkers::Count(4)));
}

#[test]
fn test_parse_duration_millis() {
    assert_eq!(parse_duration_millis("100ms").unwrap(), 100);
    assert_eq!(parse_duration_millis("5s").unwrap(), 5000);
    assert_eq!(parse_duration_millis("2m").unwrap(), 120000);
    assert_eq!(parse_duration_millis("1h").unwrap(), 3600000);
    assert_eq!(parse_duration_millis("30").unwrap(), 30000);
}

#[test]
fn test_parse_rate() {
    assert_eq!(parse_rate("100/s").unwrap(), (100, Duration::from_secs(1)));
    assert_eq!(parse_rate("500/m").unwrap(), (500, Duration::from_mins(1)));
    assert_eq!(parse_rate("10000/h").unwrap(), (10000, Duration::from_hours(1)));
    assert_eq!(parse_rate("100/d").unwrap(), (100, Duration::from_hours(24)));
}

#[test]
fn test_error_invalid_workers_value() {
    let input = r#"
master "test" {
    workers = "foo"
}
"#;
    let result = parse_raw_master(input);
    assert!(result.is_err());
    let err = result.unwrap_err();
    let msg = err.to_display_string();
    assert!(msg.contains("workers"), "error should mention workers: {}", msg);
    assert!(msg.contains("foo"), "error should mention bad value: {}", msg);
}

#[test]
fn test_error_invalid_workers_message_contains_value() {
    let input = r#"
master "test" {
    workers = "not_a_number_or_auto"
}
"#;
    let err = parse_raw_master(input).unwrap_err();
    let msg = err.to_display_string();
    assert!(msg.contains("not_a_number_or_auto"), "should contain bad value: {}", msg);
    assert!(msg.contains("workers"), "should mention workers: {}", msg);
}

#[test]
fn master_defaults_and_comments() {
    let input = "# main file\nmaster \"edge\" { // nothing else\n}\n";
    let m = parse_raw_master(input).unwrap();
    assert_eq!(m.name, "edge");
    assert_eq!(m.user, "www-data");
    assert!(matches!(m.workers, RawWorkers::Count(1)));
    assert_eq!(m.pid, "/run/ophan.pid");
    assert_eq!(m.error_log, "/var/log/ophan/error.log");
    assert!(m.includes.is_empty());
}

#[test]
fn master_repeated_fields() {
    let input = "master \"m\" {\n user = a\n user = \"b\"\n includes = \"x\"\n includes = y\n workers = +8\n}";
    let m = parse_raw_master(input).unwrap();
    assert_eq!(m.user, "b");
    assert_eq!(m.includes, vec!["x", "y"]);
    assert!(matches!(m.workers, RawWorkers::Count(8)));
}

#[test]
fn master_syntax_errors() {
    let err = parse_raw_master("master \"m\" {\n  user \"x\"\n}").unwrap_err();
    match &err {
        ConfigError::Parse { message, line, col, file_path } => {
            assert_eq!(message, "syntax error in master file");
            assert_eq!((*line, *col), (2, 9));
            assert!(file_path.is_none());
        },
        _ => panic!("expected a parse error"),
    }
    assert_eq!(err.to_display_string(), "error: syntax error in master file\n --> config:2:9");
    let err = parse_raw_master("master \"m\" {\n user = \"x\n}").unwrap_err();
    match err {
        ConfigError::Parse { message, line, col, .. } => {
            assert_eq!(message, "unterminated string");
            assert_eq!((line, col), (2, 9));
        },
        _ => panic!("expected a parse error"),
    }
    assert!(parse_raw_master("master \"m\" { }  extra").is_err());
    assert!(parse_raw_master("gateway \"m\" { }").is_err());
    assert!(parse_raw_master("master \"m\" {").is_err());
}

#[test]
fn master_unknown_field() {
    let err = parse_raw_master("master \"m\" {\n  color = red\n}").unwrap_err();
    let text = err.with_file("/etc/ophan/master.conf".to_string()).to_display_string();
    assert_eq!(text, "error: unexpected field 'color' in master block\n --> /etc/ophan/master.conf:2:3");
}

#[test]
fn workers_error_text() {
    let err = parse_raw_master("master \"m\" { workers = -1 }").unwrap_err();
    assert_eq!(
        err.to_display_string(),
        "error[PARSE]: workers: invalid value '-1', expected 'auto' or a positive integer\n --> config"
    );
}

#[test]
fn duration_edge_cases() {
    assert_eq!(parse_duration_millis("  7s ").unwrap(), 7000);
    assert_eq!(parse_duration_millis("+3ms").unwrap(), 3);
    assert_eq!(parse_duration_millis("abc").unwrap_err(), "invalid duration 'abc'");
    assert_eq!(parse_duration_millis("ms").unwrap_err(), "invalid duration 'ms'");
    assert_eq!(
        parse_duration_millis("18446744073709551615s").unwrap_err(),
        "duration overflow in '18446744073709551615s'"
    );
    assert_eq!(parse_duration_millis("18446744073709551615ms").unwrap(), u64::MAX);
}

#[test]
fn rate_errors() {
    assert_eq!(parse_rate(" 5 / s").unwrap_err(), "invalid rate number '5 ' in '5 / s'");
    assert_eq!(parse_rate("5/ s ").unwrap(), (5, Duration::from_secs(1)));
    assert_eq!(parse_rate("5/w").unwrap_err(), "invalid rate period 'w' in '5/w'");
    assert_eq!(parse_rate("5").unwrap_err(), "invalid rate format '5': expected N/s, N/m, N/h, or N/d");
}

#[test]
fn io_error_text() {
    let e = ConfigError::Io { message: "not found".to_string(), path: Some("/x".to_string()) };
    assert_eq!(e.to_display_string(), "I/O error: not found at /x");
    let v = ConfigError::validation("E001", "bad".to_string());
    assert_eq!(v.to_display_string(), "error[E001]: bad\n --> config");
}
