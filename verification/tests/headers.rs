use ophan::config::dsl::blocks::{RawHeadersOps, RawHeadersRemove, RawRouteHeadersOpts};
use ophan::config::dsl::compile::compile_headers;

#[test]
fn compile_headers_none_when_nothing_given() {
    let inbound = Some(RawRouteHeadersOpts {
        opts: RawHeadersOps { set: vec![], remove: vec![] },
        upstream: RawHeadersOps { set: vec![], remove: vec![] },
    });
    assert!(compile_headers(&inbound, &None).is_none());
    assert!(compile_headers(&None, &None).is_none());
}

#[test]
fn compile_headers_keeps_valid_headers() {
    let inbound = Some(RawRouteHeadersOpts {
        opts: RawHeadersOps {
            set: vec![("X-Custom", "one"), ("bad name", "x"), ("X-Line", "a\nb"), ("x-custom", "two")],
            remove: vec!["Server", "no good"],
        },
        upstream: RawHeadersOps { set: vec![("X-Forwarded-Host", "edge")], remove: vec!["Cookie"] },
    });
    let outbound = Some(RawRouteHeadersOpts {
        opts: RawHeadersOps { set: vec![("Cache-Control", "no-store")], remove: vec!["X-Powered-By"] },
        upstream: RawHeadersRemove { remove: vec!["Set-Cookie"] },
    });
    let m = compile_headers(&inbound, &outbound).unwrap();
    assert_eq!(m.inbound.client_set, vec![("x-custom".to_string(), "two".to_string())]);
    assert_eq!(m.inbound.client_remove, vec!["server".to_string()]);
    assert_eq!(m.inbound.to_upstream_set, vec![("x-forwarded-host".to_string(), "edge".to_string())]);
    assert_eq!(m.inbound.to_upstream_remove, vec!["cookie".to_string()]);
    assert_eq!(m.outbound.from_upstream_set, vec![("cache-control".to_string(), "no-store".to_string())]);
    assert_eq!(m.outbound.from_upstream_remove, vec!["x-powered-by".to_string()]);
    assert!(m.outbound.client_set.is_empty());
    assert_eq!(m.outbound.client_remove, vec!["set-cookie".to_string()]);
}

#[test]
fn compile_headers_outbound_only() {
    let outbound = Some(RawRouteHeadersOpts {
        opts: RawHeadersOps { set: vec![], remove: vec![] },
        upstream: RawHeadersRemove { remove: vec!["Server"] },
    });
    let m = compile_headers(&None, &outbound).unwrap();
    assert!(m.inbound.client_set.is_empty() && m.inbound.to_upstream_remove.is_empty());
    assert_eq!(m.outbound.client_remove, vec!["server".to_string()]);
}
