use std::time::Duration;

use ophan::config::dsl::blocks::{RawListener, RawListenerLimits, RawListenerTimeouts, RawTls};
use ophan::config::dsl::compile::{compile_listener, CompileError};
use ophan::config::domain::{ListenerAddress, NetworkProtocol, SecurityConfig};

fn raw<'a>(address: &'a str, protocols: Vec<&'a str>, tls: Option<RawTls<'a>>) -> RawListener<'a> {
    RawListener {
        name: "edge",
        address,
        protocols,
        tls,
        network_policy: None,
        limits: Some(RawListenerLimits { connections: Some(5000), request_size: Some("10mb") }),
        timeouts: Some(RawListenerTimeouts { idle: Some(Duration::from_secs(30)), keepalive: None }),
    }
}

fn messages(errors: &[CompileError]) -> Vec<String> {
    errors.iter().map(|e| e.message.clone()).collect()
}

#[test]
fn compile_listener_plain_with_limits() {
    let mut errors = Vec::new();
    let l = compile_listener(&raw(":8080", vec!["http1", "h2"], None), true, true, true, &mut errors).unwrap();
    assert!(errors.is_empty());
    assert_eq!(l.name, "edge");
    assert_eq!(l.address, ListenerAddress::AnyInterface(8080));
    assert_eq!(
        l.protocols,
        vec![
            NetworkProtocol::Http1 { allow_websocket_upgrade: false },
            NetworkProtocol::Http2 { mode: ophan::config::domain::Http2Mode::Standard }
        ]
    );
    assert_eq!(l.security, SecurityConfig::Plaintext);
    assert_eq!(l.connection.max_connections, Some(5000));
    assert_eq!(l.connection.max_request_size.as_deref(), Some("10mb"));
    assert_eq!(l.connection.idle_timeout, Some(Duration::from_secs(30)));
    assert_eq!(l.connection.keepalive_timeout, None);
}

#[test]
fn compile_listener_reports_bad_protocols_and_missing_files() {
    let tls = RawTls { cert: "/c.pem", key: "/k.pem", versions: vec!["1.3"], client_auth: None, client_ca: Some("CA"), ciphers: vec![] };
    let mut errors = Vec::new();
    let l = compile_listener(&raw("127.0.0.1:443", vec!["quic", "h1"], Some(tls)), true, false, false, &mut errors).unwrap();
    assert_eq!(
        messages(&errors),
        vec![
            "listener 'edge': invalid protocol 'quic': expected http1, http2, websocket, or grpc",
            "listener 'edge': ssl cert '/c.pem' not found",
            "listener 'edge': ssl key '/k.pem' not found",
        ]
    );
    assert_eq!(l.address, ListenerAddress::Ip("127.0.0.1:443".to_string()));
    assert_eq!(l.protocols, vec![NetworkProtocol::Http1 { allow_websocket_upgrade: false }]);
    match l.security {
        SecurityConfig::Tls { certs, versions } => {
            assert_eq!(certs.cert, "/c.pem");
            assert_eq!(certs.client_ca, Some(b"CA".to_vec()));
            assert_eq!(versions, vec!["1.3".to_string()]);
        },
        SecurityConfig::Plaintext => panic!("expected TLS"),
    }
}

#[test]
fn compile_listener_refuses_hosts_and_bad_addresses() {
    let mut errors = Vec::new();
    assert!(compile_listener(&raw("example.com:80", vec![], None), false, true, true, &mut errors).is_none());
    assert!(compile_listener(&raw(":0", vec![], None), true, true, true, &mut errors).is_none());
    assert_eq!(
        messages(&errors),
        vec![
            "listener 'edge': listener addresses must use an IP address, got hostname 'example.com:80'",
            "listener 'edge': port 0 is reserved and cannot be used for explicit routing",
        ]
    );
    let mut errors = Vec::new();
    let l = compile_listener(&raw("unix:/run/o.sock", vec![], None), false, true, true, &mut errors).unwrap();
    assert_eq!(l.address, ListenerAddress::Uds("/run/o.sock".to_string()));
    assert!(l.protocols.is_empty());
}
