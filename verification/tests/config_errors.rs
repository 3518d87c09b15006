use ophan::config::errors::ConfigError;
use ophan::config::validate::{ConfigError as CheckError, ErrorCode};

#[test]
fn parse_error_alone_shows_its_message() {
    let e = ConfigError::parse("unexpected token".to_string());
    assert_eq!(e.to_display_string(), "unexpected token");
}

#[test]
fn parse_error_with_position_and_no_file() {
    let e = ConfigError::parse("unexpected token".to_string()).with_pos(3, 14);
    assert_eq!(e.to_display_string(), "line 3:14: unexpected token");
}

#[test]
fn parse_error_with_file_and_position() {
    let e = ConfigError::parse("bad value".to_string()).with_pos(12, 5).with_file("gw.conf".to_string());
    assert_eq!(e.to_display_string(), "gw.conf:12:5:\n  bad value");
}

#[test]
fn parse_error_with_file_and_no_position() {
    let e = ConfigError::parse("bad value".to_string()).with_file("gw.conf".to_string());
    assert_eq!(e.to_display_string(), "gw.conf:\n  bad value");
}

#[test]
fn validation_and_io_errors_ignore_file_and_position() {
    let v = ConfigError::validation("E002", "unknown policy".to_string()).with_file("x".to_string()).with_pos(1, 1);
    assert_eq!(v.to_display_string(), "error[E002]: unknown policy");
    let i = ConfigError::io("permission denied".to_string()).with_pos(1, 1);
    assert_eq!(i.to_display_string(), "permission denied");
}

#[test]
fn validation_error_from_a_failed_check() {
    let e = ConfigError::from_validation(CheckError::new(ErrorCode::E005, "Duplicate upstream 'api'".to_string()));
    assert_eq!(e.to_display_string(), "error[E005]: Duplicate upstream 'api'");
}
