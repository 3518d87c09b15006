use std::time::Duration;

use ophan::cli::{CliApp, Command};
use ophan::config::dsl::blocks::{RawHealthCheck, RawMaster, RawTokenSource, RawUriRewrite, RawWorkers};
use ophan::config::dsl::compile::{
    compile_health_check, compile_master, compile_rewrite, compile_token_source, config_pid,
    validate_upstream_names, CompileError,
};
use ophan::config::dsl::errors::ConfigError;
use ophan::config::dsl::files::{check_config_size, include_kind, ConfigFileTracker, IncludeKind, MAX_CONFIG_FILE_SIZE};
use ophan::config::dsl::parser::{line_col, parse_raw_gateway, split_csv_values};
use ophan::config::parts::{
    CorsConfig, LimiterConfig, LimiterIdentifier, LimiterRate, OAuthConfig, RateLimitAlgorithm,
    TokenSource,
};
use ophan::config::validate::{ConfigError as ValidationError, ErrorCode};

fn master(workers: RawWorkers) -> RawMaster<'static> {
    RawMaster {
        name: "edge",
        user: "www-data",
        workers,
        pid: "/run/ophan.pid",
        error_log: "/var/log/ophan/error.log",
        includes: vec!["/etc/ophan/a.conf", "/etc/ophan/b.conf"],
    }
}

#[test]
fn compile_master_copies_fields_and_resolves_auto() {
    let mut errors = Vec::new();
    let c = compile_master(&master(RawWorkers::Auto), 8, &mut errors);
    assert_eq!(c.name, "edge");
    assert_eq!(c.workers, 8);
    assert_eq!(c.includes, vec!["/etc/ophan/a.conf".to_string(), "/etc/ophan/b.conf".to_string()]);
    assert!(errors.is_empty());
}

#[test]
fn compile_master_caps_excessive_workers() {
    let mut errors = Vec::new();
    let c = compile_master(&master(RawWorkers::Count(100)), 4, &mut errors);
    assert_eq!(c.workers, 4);
    assert_eq!(errors.len(), 1);
    assert_eq!(errors[0].to_display_string(), "workers count 100 exceeds reasonable limit (16), using 4");
}

#[test]
fn compile_master_rejects_zero_workers() {
    let mut errors = Vec::new();
    let c = compile_master(&master(RawWorkers::Count(0)), 4, &mut errors);
    assert_eq!(c.workers, 1);
    assert_eq!(errors[0].to_display_string(), "workers count must be at least 1");
    let mut errors = Vec::new();
    let c = compile_master(&master(RawWorkers::Count(16)), 4, &mut errors);
    assert_eq!(c.workers, 16);
    assert!(errors.is_empty());
}

#[test]
fn config_pid_reads_trimmed_pid() {
    assert_eq!(config_pid("master \"m\" {\n pid = \" /tmp/x.pid \"\n}\n"), Some("/tmp/x.pid".to_string()));
    assert_eq!(config_pid("master \"m\" {\n pid = \"  \"\n}\n"), None);
    assert_eq!(config_pid("not a master file"), None);
    assert_eq!(config_pid("master \"m\" {\n}\n"), Some("/run/ophan.pid".to_string()));
}

#[test]
fn health_check_defaults() {
    let raw = RawHealthCheck {
        path: None,
        interval: None,
        timeout: Some(Duration::from_secs(1)),
        healthy_threshold: None,
        unhealthy_threshold: Some(7),
    };
    let h = compile_health_check(&raw).unwrap();
    assert_eq!(h.path, "/");
    assert_eq!(h.interval, Duration::from_secs(10));
    assert_eq!(h.timeout, Duration::from_secs(1));
    assert_eq!(h.unhealthy_threshold, 7);
    assert_eq!(h.healthy_threshold, 2);
}

#[test]
fn rewrite_block_is_copied() {
    let raw = RawUriRewrite {
        strip_prefix: Some("/api"),
        strip_suffix: None,
        replaces: vec![("/v1/*", "/v2/$1"), ("/a", "/b")],
        trailing_slash: Some("ensure"),
    };
    let r = compile_rewrite(&raw);
    assert_eq!(r.strip_prefix, Some("/api".to_string()));
    assert_eq!(r.strip_suffix, None);
    assert_eq!(r.replaces, vec![("/v1/*".to_string(), "/v2/$1".to_string()), ("/a".to_string(), "/b".to_string())]);
    assert_eq!(r.trailing_slash, Some("ensure".to_string()));
}

#[test]
fn duplicate_upstream_names_are_reported_once_per_repeat() {
    let names = vec!["api".to_string(), "web".to_string(), "api".to_string(), "api".to_string()];
    let mut errors = vec![CompileError::new("earlier".to_string())];
    validate_upstream_names(&names, &mut errors);
    let msgs: Vec<String> = errors.iter().map(|e| e.to_display_string()).collect();
    assert_eq!(
        msgs,
        vec![
            "earlier".to_string(),
            "upstream 'api' defined multiple times".to_string(),
            "upstream 'api' defined multiple times".to_string(),
        ]
    );
}

#[test]
fn csv_values_split_and_unquote() {
    assert_eq!(split_csv_values("a, b ,c"), vec!["a", "b", "c"]);
    assert_eq!(split_csv_values("[\"x\", \"y\"]"), vec!["x", "y"]);
    assert!(split_csv_values("").is_empty());
}

#[test]
fn line_and_column_of_positions() {
    let v: Vec<char> = "ab\ncd\n".chars().collect();
    assert_eq!(line_col(&v, 0), (1, 1));
    assert_eq!(line_col(&v, 4), (2, 2));
}

#[test]
fn config_error_display_forms() {
    let e = ConfigError::parse("bad thing".to_string());
    assert_eq!(e.to_display_string(), "error[PARSE]: bad thing\n --> config");
    let e = ConfigError::validation("E042", "broken".to_string()).with_file("gw.conf".to_string());
    assert_eq!(e.to_display_string(), "error[E042]: broken\n --> gw.conf");
    let e = ConfigError::Io { message: "denied".to_string(), path: Some("/etc/x".to_string()) };
    assert_eq!(e.to_display_string(), "I/O error: denied at /etc/x");
}

#[test]
fn gateway_errors_carry_positions() {
    let err = parse_raw_gateway("name = \"x\"\nbogus = \"y\"\n").unwrap_err();
    assert_eq!(err.to_display_string(), "error[PARSE]: unexpected block 'bogus' in gateway\n --> config");
    let err = parse_raw_gateway("name = \"x\n").unwrap_err();
    assert_eq!(err.to_display_string(), "error: unterminated string\n --> config:1:8");
    let err = parse_raw_gateway("policy ratelimit \"p\" {\n}\n").unwrap_err();
    assert_eq!(err.to_display_string(), "error[PARSE]: unknown policy type 'ratelimit'\n --> config");
}

#[test]
fn gateway_without_entries_is_empty() {
    let gw = parse_raw_gateway("").unwrap();
    assert_eq!(gw.name, "");
    assert!(gw.listeners.is_empty() && gw.routes.is_empty() && gw.policies.is_empty());
}

#[test]
fn gateway_later_blocks_replace_earlier_ones() {
    let gw = parse_raw_gateway(
        "name = \"a\"\nname = \"b\"\nupstreams {\n upstream \"x\" { static_servers = [\"1:1\"] }\n}\nupstreams {\n}\n",
    )
    .unwrap();
    assert_eq!(gw.name, "b");
    assert!(gw.upstreams.is_empty());
}

#[test]
fn validation_error_display() {
    let e = ValidationError::new(ErrorCode::E003, "missing upstream".to_string());
    assert_eq!(e.to_display_string(), "error[E003]: missing upstream");
    assert_eq!(ErrorCode::E001.as_str(), "E001");
}

#[test]
fn cli_test_needs_config() {
    let app = CliApp { config: None, pid_file: None, cmd: Some(Command::Test) };
    assert_eq!(
        app.validate(),
        Err("The '--test' flag requires a configuration file via '-c' or '--config'.".to_string())
    );
    let app = CliApp { config: Some("/etc/ophan.conf".to_string()), pid_file: None, cmd: Some(Command::Test) };
    assert_eq!(app.validate(), Ok(()));
    let app = CliApp { config: None, pid_file: None, cmd: Some(Command::Signal("reload".to_string())) };
    assert_eq!(app.validate(), Ok(()));
}

fn oauth(issuer: &str, scopes: Vec<&str>, secret: Option<&str>) -> OAuthConfig {
    OAuthConfig {
        issuer: issuer.to_string(),
        client_id: String::new(),
        client_secret: secret.map(|s| s.to_string()),
        scopes: scopes.into_iter().map(|s| s.to_string()).collect(),
        sources: vec![TokenSource::Header { name: "Authorization".to_string(), prefix: None }],
        jwk_uri: String::new(),
        refresh_token: None,
        excludes: Vec::new(),
    }
}

#[test]
fn oauth_merge_keeps_unset_fields() {
    let mut base = oauth("https://a", vec!["read"], Some("s1"));
    base.merge(oauth("", vec![], None));
    assert_eq!(base.issuer, "https://a");
    assert_eq!(base.scopes, vec!["read".to_string()]);
    assert_eq!(base.client_secret, Some("s1".to_string()));
    base.merge(oauth("https://b", vec!["write"], Some("s2")));
    assert_eq!(base.issuer, "https://b");
    assert_eq!(base.scopes, vec!["write".to_string()]);
    assert_eq!(base.client_secret, Some("s2".to_string()));
}

fn limiter(burst: u64, excludes: Vec<&str>) -> LimiterConfig {
    LimiterConfig {
        rate: LimiterRate { requests: 10, per_seconds: 1 },
        burst,
        algorithm: RateLimitAlgorithm::TokenBucket,
        identifier: LimiterIdentifier::Ip,
        excludes: excludes.into_iter().map(|s| s.to_string()).collect(),
    }
}

#[test]
fn limiter_merge_takes_other_but_keeps_excludes() {
    let mut base = limiter(5, vec!["/health"]);
    base.merge(limiter(9, vec![]));
    assert_eq!(base.burst, 9);
    assert_eq!(base.excludes, vec!["/health".to_string()]);
    base.merge(limiter(1, vec!["/metrics"]));
    assert_eq!(base.excludes, vec!["/metrics".to_string()]);
}

#[test]
fn limiter_override_merges() {
    let mock = || LimiterConfig {
        rate: LimiterRate { requests: 100, per_seconds: 60 },
        burst: 20,
        algorithm: RateLimitAlgorithm::SlidingWindow,
        identifier: LimiterIdentifier::Ip,
        excludes: vec!["/health".to_string()],
    };
    let mut lim = LimiterConfig { rate: LimiterRate { requests: 10, per_seconds: 60 }, ..mock() };
    lim.merge(LimiterConfig { burst: 50, ..mock() });
    assert_eq!(lim.burst, 50);
    assert_eq!(lim.rate.requests, 10);
    assert_eq!(lim.rate.per_seconds, 60);
}

fn cors(origins: Vec<&str>, credentials: bool, max_age: Option<u64>) -> CorsConfig {
    CorsConfig {
        allow_origins: origins.into_iter().map(|s| s.to_string()).collect(),
        allow_methods: Vec::new(),
        allow_headers: Vec::new(),
        expose_headers: Vec::new(),
        allow_credentials: credentials,
        max_age,
        excludes: Vec::new(),
    }
}

#[test]
fn cors_merge_overrides_set_fields() {
    let mut base = cors(vec!["https://a"], true, Some(60));
    base.merge(cors(vec![], false, None));
    assert_eq!(base.allow_origins, vec!["https://a".to_string()]);
    assert!(!base.allow_credentials);
    assert_eq!(base.max_age, Some(60));
    base.merge(cors(vec!["https://b"], true, Some(5)));
    assert_eq!(base.allow_origins, vec!["https://b".to_string()]);
    assert_eq!(base.max_age, Some(5));
}

#[test]
fn config_files_over_two_mebibytes_are_refused() {
    assert_eq!(MAX_CONFIG_FILE_SIZE, 2_097_152);
    assert!(check_config_size("/etc/ophan/master.conf", 2_097_152).is_ok());
    let err = check_config_size("/etc/ophan/big.conf", 3_000_000).unwrap_err();
    assert_eq!(
        err.to_display_string(),
        "I/O error: Config file too large: /etc/ophan/big.conf (3000000 bytes, max: 2097152 bytes) at /etc/ophan/big.conf"
    );
}

#[test]
fn include_kinds_by_file_name() {
    assert_eq!(include_kind("*"), IncludeKind::Every);
    assert_eq!(include_kind("*.conf"), IncludeKind::ConfFiles);
    assert_eq!(include_kind("edge.conf"), IncludeKind::Single);
    assert_eq!(include_kind("*.json"), IncludeKind::Single);
}

#[test]
fn tracker_sees_newer_modifications_only() {
    let mut t = ConfigFileTracker::new("/etc/ophan/master.conf".to_string(), 100);
    assert!(!t.has_changed(100));
    assert!(!t.has_changed(99));
    assert!(t.has_changed(101));
    t.refresh_mtime(101);
    assert!(!t.has_changed(101));
    assert_eq!(t.path, "/etc/ophan/master.conf");
}

#[test]
fn token_sources_compile_to_the_same_kind() {
    match compile_token_source(&RawTokenSource::Cookie { name: "sid", prefix: None }) {
        TokenSource::Cookie { name, prefix } => {
            assert_eq!(name, "sid");
            assert_eq!(prefix, None);
        },
        _ => panic!("expected a cookie source"),
    }
    match compile_token_source(&RawTokenSource::Header { name: "Authorization", prefix: Some("Bearer ") }) {
        TokenSource::Header { name, prefix } => {
            assert_eq!(name, "Authorization");
            assert_eq!(prefix, Some("Bearer ".to_string()));
        },
        _ => panic!("expected a header source"),
    }
}

#[test]
fn nested_errors_name_the_field_and_block() {
    let err = parse_raw_gateway("listeners {\n listener \"l\" {\n  tls {\n   bogus = \"x\"\n  }\n }\n}\n").unwrap_err();
    assert_eq!(err.to_display_string(), "error: unexpected field 'bogus' in ssl block\n --> config:4:4");
    let err = parse_raw_gateway("routes {\n path \"/\" {\n  timeouts { read = \"soon\" }\n }\n}\n").unwrap_err();
    assert_eq!(err.to_display_string(), "error[PARSE]: invalid duration 'soon'\n --> config");
    let err = parse_raw_gateway("upstreams {\n upstream \"u\" {\n  static_servers = [true]\n }\n}\n").unwrap_err();
    assert_eq!(
        err.to_display_string(),
        "error[PARSE]: invalid server entry 'true', expected a string or object\n --> config"
    );
}
