use ophan::balancer::BalanceStrategy;
use std::str::FromStr;

use ophan::config::domain::{Http2Mode, NetworkProtocol, NetworkTransport};

#[test]
fn test_protocol_http1() {
    let p = NetworkProtocol::try_from("http1").unwrap();
    assert_eq!(p, NetworkProtocol::Http1 { allow_websocket_upgrade: false });
}

#[test]
fn test_protocol_h1() {
    let p = NetworkProtocol::try_from("h1").unwrap();
    assert_eq!(p, NetworkProtocol::Http1 { allow_websocket_upgrade: false });
}

#[test]
fn test_protocol_websocket() {
    let p = NetworkProtocol::try_from("websocket").unwrap();
    assert_eq!(p, NetworkProtocol::Http1 { allow_websocket_upgrade: true });
}

#[test]
fn test_protocol_ws() {
    let p = NetworkProtocol::try_from("ws").unwrap();
    assert_eq!(p, NetworkProtocol::Http1 { allow_websocket_upgrade: true });
}

#[test]
fn test_protocol_http2() {
    let p = NetworkProtocol::try_from("http2").unwrap();
    assert_eq!(p, NetworkProtocol::Http2 { mode: Http2Mode::Standard });
}

#[test]
fn test_protocol_h2() {
    let p = NetworkProtocol::try_from("h2").unwrap();
    assert_eq!(p, NetworkProtocol::Http2 { mode: Http2Mode::Standard });
}

#[test]
fn test_protocol_grpc() {
    let p = NetworkProtocol::try_from("grpc").unwrap();
    assert_eq!(p, NetworkProtocol::Http2 { mode: Http2Mode::Grpc });
}

#[test]
fn test_protocol_invalid() {
    let err = NetworkProtocol::try_from("quic").unwrap_err();
    assert!(err.contains("invalid protocol"));
}

#[test]
fn test_network_protocol_default() {
    let p = NetworkProtocol::default();
    assert_eq!(p, NetworkProtocol::Http1 { allow_websocket_upgrade: false });
}

#[test]
fn test_balance_strategy_default() {
    assert_eq!(BalanceStrategy::default(), BalanceStrategy::RoundRobin);
}

#[test]
fn protocol_names_are_exact() {
    let err = "HTTP1".parse::<NetworkProtocol>().unwrap_err();
    assert_eq!(err, "invalid protocol 'HTTP1': expected http1, http2, websocket, or grpc");
}

#[test]
fn protocol_queries() {
    let ws = NetworkProtocol::try_from("ws").unwrap();
    assert!(ws.is_http1() && ws.is_websocket() && ws.allow_websocket_upgrade());
    assert!(!ws.is_http2() && !ws.is_grpc());
    assert_eq!(ws.http2_mode(), None);
    let g = NetworkProtocol::try_from("grpc").unwrap();
    assert!(g.is_http2() && g.is_grpc() && !g.allow_websocket_upgrade());
    assert_eq!(g.http2_mode(), Some(Http2Mode::Grpc));
    assert!(Http2Mode::Grpc.is_grpc() && Http2Mode::Standard.is_standard());
    assert!(!Http2Mode::Grpc.is_standard());
}

#[test]
fn transport_forms() {
    assert_eq!(NetworkTransport::from_str("  unix:/run/ophan.sock ").unwrap(), NetworkTransport::Uds("/run/ophan.sock".to_string()));
    assert_eq!(NetworkTransport::from_str(":8080").unwrap(), NetworkTransport::AnyInterface(8080));
    assert_eq!(NetworkTransport::from_str("127.0.0.1:8080").unwrap(), NetworkTransport::Address("127.0.0.1:8080".to_string()));
    assert_eq!(NetworkTransport::from_str(" azure.com:443").unwrap(), NetworkTransport::Address("azure.com:443".to_string()));
    assert!(NetworkTransport::from_str("unix:/x").unwrap().is_uds());
}

#[test]
fn transport_errors() {
    assert_eq!(NetworkTransport::from_str("   ").unwrap_err(), "network transport cannot be empty");
    assert_eq!(
        NetworkTransport::from_str("unix:").unwrap_err(),
        "invalid unix domain socket path, expected unix:/path/to/socket"
    );
    assert_eq!(
        NetworkTransport::from_str(":70000").unwrap_err(),
        "invalid port syntax or out of range (0-65535): ':70000'"
    );
    assert_eq!(
        NetworkTransport::from_str(":0").unwrap_err(),
        "port 0 is reserved and cannot be used for explicit routing"
    );
}

#[test]
fn protocol_names_match_case_and_space_exactly() {
    assert!(NetworkProtocol::from_str("HTTP1").is_err());
    assert!(NetworkProtocol::from_str(" h1").is_err());
    assert_eq!(NetworkProtocol::from_str("grpc").unwrap(), NetworkProtocol::Http2 { mode: Http2Mode::Grpc });
}
