use ophan::gateway::error::{build_error_body, description, ErrorKind, GatewayError};
use ophan::gateway::errors::GatewayError as StatusError;
use ophan::gateway::rewrite::{is_plain_path, RewriteEngine};
use ophan::gateway::status::{canonical_reason, memmem_find, status_as_u16, status_from_u16};
use ophan::gateway::utils::{get_real_client_ip, ClientIpHeaders, StackString};

fn no_headers<'a>() -> ClientIpHeaders<'a> {
    ClientIpHeaders {
        cf_connecting_ip: None,
        true_client_ip: None,
        forwarded: None,
        x_real_ip: None,
        x_forwarded_for: None,
    }
}

#[test]
fn error_kind_codes_round_trip() {
    let kinds = [
        ErrorKind::BadRequest,
        ErrorKind::Unauthorized,
        ErrorKind::Forbidden,
        ErrorKind::NotFound,
        ErrorKind::MethodNotAllowed,
        ErrorKind::Conflict,
        ErrorKind::TooManyRequests,
        ErrorKind::PayloadTooLarge,
        ErrorKind::UnsupportedMediaType,
        ErrorKind::BadGateway,
        ErrorKind::ServiceUnavailable,
        ErrorKind::GatewayTimeout,
        ErrorKind::InternalServerError,
    ];
    for k in kinds {
        assert_eq!(ErrorKind::from_code(k.code()), k);
    }
    assert_eq!(ErrorKind::NotFound.code(), 404);
    assert_eq!(ErrorKind::TooManyRequests.code(), 429);
    assert_eq!(ErrorKind::from_code(418), ErrorKind::InternalServerError);
}

#[test]
fn error_kind_status_conversions() {
    let status: http::StatusCode = ErrorKind::GatewayTimeout.into();
    assert_eq!(status.as_u16(), 504);
    let kind: ErrorKind = http::StatusCode::PAYLOAD_TOO_LARGE.into();
    assert_eq!(kind, ErrorKind::PayloadTooLarge);
    let kind: ErrorKind = http::StatusCode::IM_A_TEAPOT.into();
    assert_eq!(kind, ErrorKind::InternalServerError);
    let e: GatewayError = http::StatusCode::FORBIDDEN.into();
    assert_eq!(e.kind, ErrorKind::Forbidden);
    assert_eq!(e.message(), "Access denied");
}

#[test]
fn gateway_error_message_default_and_explained() {
    let e = GatewayError::new(ErrorKind::NotFound);
    assert_eq!(e.message(), "The requested resource was not found");
    let e = GatewayError::explain(ErrorKind::BadRequest, "missing header".to_string());
    assert_eq!(e.kind, ErrorKind::BadRequest);
    assert_eq!(e.message(), "missing header");
    assert_eq!(ErrorKind::GatewayTimeout.default_message(), "Upstream server timeout");
}

#[test]
fn error_body_json_when_accepted() {
    let e = GatewayError::new(ErrorKind::NotFound);
    let (status, body, content_type) =
        build_error_body(&e, Some(b"text/html, application/json;q=0.9"), "req-1");
    assert_eq!(status.as_u16(), 404);
    assert_eq!(content_type, "application/json");
    assert_eq!(
        body,
        r#"{"status_code":404,"message":"The requested resource was not found","error":"Not Found","request_id":"req-1"}"#
    );
}

#[test]
fn error_body_html_otherwise() {
    let e = GatewayError::explain(ErrorKind::TooManyRequests, "slow down".to_string());
    let (status, body, content_type) = build_error_body(&e, Some(b"text/html"), "abc");
    assert_eq!(status.as_u16(), 429);
    assert_eq!(content_type, "text/html; charset=utf-8");
    assert!(body.starts_with("<!DOCTYPE html>"));
    assert!(body.contains("<title>429 Too Many Requests</title>"));
    assert!(body.contains("<h1>429 Too Many Requests</h1>"));
    assert!(body.contains("<p>slow down</p>"));
    assert!(body.contains("<code>abc</code>"));
    assert!(body.ends_with("</html>"));
    let (_, body, content_type) = build_error_body(&e, None, "abc");
    assert_eq!(content_type, "text/html; charset=utf-8");
    assert!(body.contains("<title>429 Too Many Requests</title>"));
}

#[test]
fn status_wrappers() {
    let s = status_from_u16(503);
    assert_eq!(status_as_u16(&s), 503);
    assert_eq!(canonical_reason(&s), Some("Service Unavailable"));
    assert_eq!(canonical_reason(&status_from_u16(599)), None);
    assert_eq!(memmem_find(b"abcabc", b"ca"), Some(2));
    assert_eq!(memmem_find(b"abc", b"x"), None);
}

#[test]
fn internal_error_descriptions() {
    assert_eq!(description("GW-0001"), "Matched route missing from request context.");
    assert_eq!(description("GW-0004"), "Response generated more than once.");
    assert_eq!(description("XX-9999"), "Unknown internal error.");
}

#[test]
fn status_errors_codes_names_messages() {
    let e = StatusError::NotFound;
    assert_eq!(e.code(), 404);
    assert_eq!(e.status_code().as_u16(), 404);
    assert_eq!(e.error_name(), "Not Found");
    assert_eq!(e.message(), "The requested resource was not found");
    let e = StatusError::BadGateway("upstream down".to_string());
    assert_eq!(e.code(), 502);
    assert_eq!(e.message(), "upstream down");
    let e = StatusError::Unauthorized("token expired".to_string());
    assert_eq!(e.message(), "Authentication required");
    let e = StatusError::Unauthorized(String::new());
    assert_eq!(e.message(), "");
    assert!(matches!(StatusError::from_code(429), StatusError::TooManyRequests));
}

#[test]
fn client_ip_prefers_cloudflare_header() {
    let mut h = no_headers();
    h.cf_connecting_ip = Some(" 1.1.1.1 ");
    h.x_real_ip = Some("2.2.2.2");
    assert_eq!(get_real_client_ip(&h, Some("9.9.9.9".to_string())), Some("1.1.1.1".to_string()));
}

#[test]
fn client_ip_from_forwarded_header() {
    let mut h = no_headers();
    h.forwarded = Some("proto=https; For=\"203.0.113.7\"; by=10.0.0.1");
    h.x_forwarded_for = Some("5.5.5.5");
    assert_eq!(get_real_client_ip(&h, None), Some("203.0.113.7".to_string()));
}

#[test]
fn client_ip_from_first_forwarded_for_entry() {
    let mut h = no_headers();
    h.x_forwarded_for = Some(" 7.7.7.7 , 8.8.8.8");
    assert_eq!(get_real_client_ip(&h, None), Some("7.7.7.7".to_string()));
}

#[test]
fn client_ip_falls_back_to_peer() {
    let h = no_headers();
    assert_eq!(get_real_client_ip(&h, Some("10.1.2.3".to_string())), Some("10.1.2.3".to_string()));
    assert_eq!(get_real_client_ip(&h, None), None);
}

#[test]
fn stack_string_keeps_at_most_fifty_bytes() {
    assert_eq!(StackString::new("hello").len(), 5);
    let long = "x".repeat(80);
    assert_eq!(StackString::new(&long).len(), 50);
    assert_eq!(StackString::new("").len(), 0);
}

fn rules(pairs: &[(&str, &str)]) -> Vec<(String, String)> {
    pairs.iter().map(|(a, b)| (a.to_string(), b.to_string())).collect()
}

#[test]
fn rewrite_exact_prefix_suffix_and_regex() {
    let engine = RewriteEngine::new(
        &rules(&[
            ("/old", "/new"),
            ("/api/*", "/v2/"),
            ("*.php", "/index.html"),
            ("^/users/(\\d+)$", "/u/$1"),
        ]),
        None,
    );
    assert_eq!(engine.execute("/old"), "/new");
    assert_eq!(engine.execute("/api/items/3"), "/v2/items/3");
    assert_eq!(engine.execute("/page.php"), "/index.html");
    assert_eq!(engine.execute("/users/42"), "/u/42");
    assert_eq!(engine.execute("/other"), "/other");
}

#[test]
fn rewrite_exact_rules_win_over_prefixes() {
    let engine = RewriteEngine::new(&rules(&[("/a*", "/prefix"), ("/ab", "/exact")]), None);
    assert_eq!(engine.execute("/ab"), "/exact");
    assert_eq!(engine.execute("/abc"), "/prefixbc");
}

#[test]
fn rewrite_drops_patterns_that_do_not_compile() {
    let engine = RewriteEngine::new(&rules(&[("/broken(", "/x")]), None);
    assert_eq!(engine.execute("/broken("), "/broken(");
}

#[test]
fn rewrite_trailing_slash_policies() {
    let add = RewriteEngine::new(&Vec::new(), Some(true));
    assert_eq!(add.execute("/docs"), "/docs/");
    assert_eq!(add.execute("/docs/"), "/docs/");
    let remove = RewriteEngine::new(&Vec::new(), Some(false));
    assert_eq!(remove.execute("/docs/"), "/docs");
    assert_eq!(remove.execute("/"), "/");
    assert_eq!(remove.execute("/docs"), "/docs");
    let keep = RewriteEngine::new(&Vec::new(), None);
    assert_eq!(keep.execute("/docs/"), "/docs/");
}

#[test]
fn plain_paths_have_no_pattern_characters() {
    assert!(is_plain_path("/api/v1/users"));
    assert!(!is_plain_path("^/api$"));
    assert!(!is_plain_path("/a(b)"));
    assert!(!is_plain_path("/a\\b"));
}

#[test]
fn stack_string_as_str_keeps_whole_characters() {
    assert_eq!(StackString::new("hello").as_str(), "hello");
    let long = "x".repeat(60);
    assert_eq!(StackString::new(&long).as_str(), &long[..50]);
    let accents = "é".repeat(30);
    assert_eq!(StackString::new(&accents).as_str(), "é".repeat(25));
    let split = format!("a{}", "é".repeat(30));
    let s = StackString::new(&split);
    assert_eq!(s.len(), 50);
    assert_eq!(s.as_str(), format!("a{}", "é".repeat(24)));
}
