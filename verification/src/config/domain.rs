use std::time::Duration;
use vstd::prelude::*;

use vstd::string::StringExecFns;

use crate::text::{chars_of, parse_unsigned, parse_unsigned_range, range_eq, trim, trim_bounds};

verus! {

/// The HTTP protocol a listener accepts or an upstream server speaks.
#[derive(Debug, Clone, Copy, PartialEq, Eq, Structural)]
pub enum NetworkProtocol {
    Http1 { allow_websocket_upgrade: bool },
    Http2 { mode: Http2Mode },
}

/// The flavour of HTTP/2 in use.
#[derive(Debug, Clone, Copy, PartialEq, Eq, Structural)]
pub enum Http2Mode {
    Standard,
    Grpc,
}

impl Default for Http2Mode {
    fn default() -> (m: Self)
        ensures
            m == Http2Mode::Standard,
    {
        Http2Mode::Standard
    }
}

impl Default for NetworkProtocol {
    fn default() -> (p: Self)
        ensures
            p == (NetworkProtocol::Http1 { allow_websocket_upgrade: false }),
    {
        NetworkProtocol::Http1 { allow_websocket_upgrade: false }
    }
}

// ============================================================================
// TRANSPORT
// ============================================================================

/// Where a listener listens or an upstream server is reached, as the
/// configuration writes it.
#[derive(Debug, Clone, PartialEq, Eq)]
pub enum NetworkTransport {
    /// Every interface (`0.0.0.0`) on a port: the `:port` shorthand.
    AnyInterface(u16),
    /// An IP address with or without a port, or a host name with a port:
    /// the text that the socket address reader resolves.
    Address(String),
    /// A Unix domain socket at a path.
    Uds(String),
}

/// `t` names a Unix domain socket: it starts with `unix:`.
pub open spec fn is_unix_text(t: Seq<char>) -> bool {
    t.len() >= 5 && t.take(5) == "unix:"@
}

/// Why a transport text is refused, if it is: it is empty once trimmed, a
/// `unix:` with no path, or a `:port` whose port is not a number from 1 to
/// 65535.
pub open spec fn spec_transport_error(s: Seq<char>) -> Option<Seq<char>> {
    let t = trim(s);
    if t.len() == 0 {
        Some("network transport cannot be empty"@)
    } else if is_unix_text(t) {
        if t.len() == 5 {
            Some("invalid unix domain socket path, expected unix:/path/to/socket"@)
        } else {
            None
        }
    } else if t[0] == ':' {
        match parse_unsigned(t.skip(1), 65535) {
            None => Some("invalid port syntax or out of range (0-65535): '"@ + t + "'"@),
            Some(p) => if p == 0 {
                Some("port 0 is reserved and cannot be used for explicit routing"@)
            } else {
                None
            },
        }
    } else {
        None
    }
}

/// `n` is the transport that the accepted text `s` writes, once trimmed: a
/// socket path after `unix:`, a port after `:`, or else the address text.
pub open spec fn transport_written(n: NetworkTransport, s: Seq<char>) -> bool {
    let t = trim(s);
    match n {
        NetworkTransport::Uds(p) => is_unix_text(t) && p@ == t.skip(5),
        NetworkTransport::AnyInterface(port) => !is_unix_text(t) && t[0] == ':' && parse_unsigned(
            t.skip(1),
            65535,
        ) == Some(port as int),
        NetworkTransport::Address(a) => !is_unix_text(t) && t[0] != ':' && a@ == t,
    }
}

impl NetworkTransport {
    pub fn is_uds(&self) -> (b: bool)
        ensures
            b == (self is Uds),
    {
        matches!(self, NetworkTransport::Uds(_))
    }
}

impl std::str::FromStr for NetworkTransport {
    type Err = String;

    /// Reads a transport (see `spec_transport_error` and
    /// `transport_written`).
    fn from_str(value: &str) -> (r: Result<Self, Self::Err>)
        ensures
            match r {
                Ok(n) => spec_transport_error(value@) is None && transport_written(n, value@),
                Err(e) => spec_transport_error(value@) == Some(e@),
            },
    {
        let v = chars_of(value);
        let (a, b) = trim_bounds(&v, 0, v.len());
        assert(v@.subrange(0, v.len() as int) =~= value@);
        let ghost t = trim(value@);
        assert(t == v@.subrange(a as int, b as int));
        let tv = value.substring_char(a, b);
        assert(tv@ == t);
        if a == b {
            return Err("network transport cannot be empty".to_owned());
        }
        if b - a >= 5 && range_eq(&v, a, a + 5, "unix:") {
            assert(t.take(5) =~= v@.subrange(a as int, a + 5));
            if b - a == 5 {
                return Err("invalid unix domain socket path, expected unix:/path/to/socket".to_owned());
            }
            let path = value.substring_char(a + 5, b).to_owned();
            assert(path@ =~= t.skip(5));
            return Ok(NetworkTransport::Uds(path));
        }
        proof {
            if is_unix_text(t) {
                assert(t.take(5) =~= v@.subrange(a as int, a + 5));
            }
        }
        if v[a] == ':' {
            assert(t.skip(1) =~= v@.subrange(a + 1, b as int));
            match parse_unsigned_range(&v, a + 1, b, 65535) {
                None => {
                    let mut e = "invalid port syntax or out of range (0-65535): '".to_owned();
                    e.append(tv);
                    e.append("'");
                    return Err(e);
                },
                Some(p) => {
                    if p == 0 {
                        return Err(
                            "port 0 is reserved and cannot be used for explicit routing".to_owned(),
                        );
                    }
                    return Ok(NetworkTransport::AnyInterface(p as u16));
                },
            }
        }
        Ok(NetworkTransport::Address(tv.to_owned()))
    }
}

/// The protocol that a protocol name denotes, if it is one of the accepted names.
pub open spec fn spec_parse_protocol(s: Seq<char>) -> Option<NetworkProtocol> {
    if s == "http1"@ || s == "h1"@ {
        Some(NetworkProtocol::Http1 { allow_websocket_upgrade: false })
    } else if s == "websocket"@ || s == "ws"@ {
        Some(NetworkProtocol::Http1 { allow_websocket_upgrade: true })
    } else if s == "http2"@ || s == "h2"@ {
        Some(NetworkProtocol::Http2 { mode: Http2Mode::Standard })
    } else if s == "grpc"@ {
        Some(NetworkProtocol::Http2 { mode: Http2Mode::Grpc })
    } else {
        None
    }
}

/// The message of a rejected protocol name.
pub open spec fn spec_protocol_error(s: Seq<char>) -> Seq<char> {
    "invalid protocol '"@ + s + "': expected http1, http2, websocket, or grpc"@
}

impl NetworkProtocol {
    pub fn is_http1(&self) -> (b: bool)
        ensures
            b == (self is Http1),
    {
        matches!(self, Self::Http1 { .. })
    }

    pub fn is_http2(&self) -> (b: bool)
        ensures
            b == (self is Http2),
    {
        matches!(self, Self::Http2 { .. })
    }

    /// An HTTP/1 protocol that allows the WebSocket upgrade.
    pub fn is_websocket(&self) -> (b: bool)
        ensures
            b == (*self == NetworkProtocol::Http1 { allow_websocket_upgrade: true }),
    {
        matches!(self, Self::Http1 { allow_websocket_upgrade: true })
    }

    /// HTTP/2 in gRPC mode.
    pub fn is_grpc(&self) -> (b: bool)
        ensures
            b == (*self == NetworkProtocol::Http2 { mode: Http2Mode::Grpc }),
    {
        matches!(self, Self::Http2 { mode: Http2Mode::Grpc })
    }

    pub fn http2_mode(&self) -> (m: Option<Http2Mode>)
        ensures
            m == (match *self {
                NetworkProtocol::Http2 { mode } => Some(mode),
                _ => None,
            }),
    {
        match self {
            Self::Http2 { mode } => Some(*mode),
            _ => None,
        }
    }

    pub fn allow_websocket_upgrade(&self) -> (b: bool)
        ensures
            b == (match *self {
                NetworkProtocol::Http1 { allow_websocket_upgrade } => allow_websocket_upgrade,
                _ => false,
            }),
    {
        match self {
            Self::Http1 { allow_websocket_upgrade } => *allow_websocket_upgrade,
            _ => false,
        }
    }

    /// Reads a protocol name: `http1`/`h1`, `websocket`/`ws`, `http2`/`h2` or `grpc`.
    pub fn parse(s: &str) -> (r: Result<NetworkProtocol, String>)
        ensures
            match r {
                Ok(p) => spec_parse_protocol(s@) == Some(p),
                Err(e) => spec_parse_protocol(s@) is None && e@ == spec_protocol_error(s@),
            },
    {
        let v = chars_of(s);
        let n = v.len();
        assert(v@.subrange(0, n as int) =~= s@);
        if range_eq(&v, 0, n, "http1") || range_eq(&v, 0, n, "h1") {
            Ok(NetworkProtocol::Http1 { allow_websocket_upgrade: false })
        } else if range_eq(&v, 0, n, "websocket") || range_eq(&v, 0, n, "ws") {
            Ok(NetworkProtocol::Http1 { allow_websocket_upgrade: true })
        } else if range_eq(&v, 0, n, "http2") || range_eq(&v, 0, n, "h2") {
            Ok(NetworkProtocol::Http2 { mode: Http2Mode::Standard })
        } else if range_eq(&v, 0, n, "grpc") {
            Ok(NetworkProtocol::Http2 { mode: Http2Mode::Grpc })
        } else {
            let mut e = "invalid protocol '".to_owned();
            e.append(s);
            e.append("': expected http1, http2, websocket, or grpc");
            Err(e)
        }
    }
}

impl std::str::FromStr for NetworkProtocol {
    type Err = String;

    fn from_str(s: &str) -> (r: Result<Self, Self::Err>)
        ensures
            match r {
                Ok(p) => spec_parse_protocol(s@) == Some(p),
                Err(e) => spec_parse_protocol(s@) is None && e@ == spec_protocol_error(s@),
            },
    {
        NetworkProtocol::parse(s)
    }
}

impl<'a> TryFrom<&'a str> for NetworkProtocol {
    type Error = String;

    fn try_from(value: &'a str) -> (r: Result<Self, Self::Error>)
        ensures
            match r {
                Ok(p) => spec_parse_protocol(value@) == Some(p),
                Err(e) => spec_parse_protocol(value@) is None && e@ == spec_protocol_error(value@),
            },
    {
        NetworkProtocol::parse(value)
    }
}

/// `try_from` is specified by its own `ensures` above: the error is a
/// `String` whose text that contract states, and no spec value of `String`
/// can be written from a text, so the generic spec is not claimed.
impl<'a> vstd::std_specs::convert::TryFromSpecImpl<&'a str> for NetworkProtocol {
    open spec fn obeys_try_from_spec() -> bool {
        false
    }

    open spec fn try_from_spec(v: &'a str) -> Result<Self, String> {
        match spec_parse_protocol(v@) {
            Some(p) => Ok(p),
            None => Err(vstd::pervasive::arbitrary()),
        }
    }
}

impl Http2Mode {
    pub fn is_standard(self) -> (b: bool)
        ensures
            b == (self == Http2Mode::Standard),
    {
        matches!(self, Self::Standard)
    }

    pub fn is_grpc(self) -> (b: bool)
        ensures
            b == (self == Http2Mode::Grpc),
    {
        matches!(self, Self::Grpc)
    }
}

/// Master process configuration (process name, user, workers, logging).
#[derive(Debug, Clone)]
pub struct MasterConfig {
    pub name: String,
    pub user: String,
    pub workers: usize,
    pub pid: String,
    pub error_log: String,
    pub includes: Vec<String>,
}

/// The certificate material of a TLS listener.
#[derive(Debug, Clone, PartialEq, Eq)]
pub struct TlsCerts {
    pub cert: String,
    pub key: String,
    /// The client CA, as PEM bytes.
    pub client_ca: Option<Vec<u8>>,
}

/// Where a listener accepts connections.
#[derive(Debug, Clone, PartialEq, Eq)]
pub enum ListenerAddress {
    /// Every interface (`0.0.0.0`) on a port.
    AnyInterface(u16),
    /// An IP address, with or without a port, as written.
    Ip(String),
    /// A Unix domain socket path.
    Uds(String),
}

/// How a listener secures its connections.
#[derive(Debug, Clone, PartialEq, Eq)]
pub enum SecurityConfig {
    Plaintext,
    /// TLS with these certificates, accepting the TLS versions listed (as
    /// the configuration names them).
    Tls { certs: TlsCerts, versions: Vec<String> },
}

/// The limits and timeouts of a listener's connections.
#[derive(Debug, Clone)]
pub struct ConnectionConfig {
    pub max_connections: Option<u32>,
    /// The largest request, as the configuration writes it.
    pub max_request_size: Option<String>,
    pub idle_timeout: Option<Duration>,
    pub keepalive_timeout: Option<Duration>,
}

/// A listener, ready to be bound.
#[derive(Debug, Clone)]
pub struct ListenerConfig {
    pub name: String,
    pub address: ListenerAddress,
    pub protocols: Vec<NetworkProtocol>,
    pub security: SecurityConfig,
    pub connection: ConnectionConfig,
}

/// The position of an upstream in the compiled configuration.
#[derive(Debug, Clone, Copy, PartialEq, Eq, Structural)]
pub struct UpstreamId(pub usize);

/// TLS towards the servers of an upstream.
#[derive(Debug, Clone, Default)]
pub struct UpstreamTlsConfig {
    pub insecure_skip_verify: bool,
    pub hosts: Option<Vec<String>>,
    pub ca_cert: Option<Vec<u8>>,
    pub client_cert: Option<Vec<u8>>,
    pub client_key: Option<Vec<u8>>,
}

/// Health check configuration for upstream servers (path, interval, thresholds).
#[derive(Debug, Clone)]
pub struct HealthCheckConfig {
    pub path: String,
    pub interval: Duration,
    pub timeout: Duration,
    pub unhealthy_threshold: u32,
    pub healthy_threshold: u32,
}

/// When to stop sending traffic to a failing server, and for how long.
#[derive(Debug, Clone, Copy)]
pub struct CircuitBreakerConfig {
    pub consecutive_failures: u32,
    pub ejection_time: Duration,
    pub max_ejection_percent: u32,
}

/// How the gateway authenticates to a service registry.
#[derive(Debug, Clone)]
pub enum RegistrySecurityConfig {
    Mtls { cert: Vec<u8>, key: Vec<u8>, client_ca: Vec<u8> },
    ApiKey { key: String, algo: String },
}

/// URI rewriting of a route. The trailing-slash action is kept as the text
/// that the configuration gives for it.
#[derive(Debug, Clone)]
pub struct RouteRewrites {
    pub strip_prefix: Option<String>,
    pub strip_suffix: Option<String>,
    pub replaces: Vec<(String, String)>,
    pub trailing_slash: Option<String>,
}

/// Per-route timeouts.
#[derive(Debug, Clone, Default)]
pub struct RouteTimeouts {
    pub connect: Option<Duration>,
    pub read: Option<Duration>,
    pub send: Option<Duration>,
    pub idle: Option<Duration>,
    pub total_connect: Option<Duration>,
}

/// Whether a route buffers bodies and uses chunked transfer.
#[derive(Debug, Clone, Copy, PartialEq, Eq, Structural)]
pub struct RouteStreaming {
    pub buffering: bool,
    pub chunked: bool,
}

/// Headers a route sets and removes on the way to the upstream and back.
/// Names are the canonical (lower-case) header names; a name occurs at most
/// once among the headers set.
#[derive(Debug, Clone)]
pub struct HeaderMutations {
    pub inbound: InboundHeaderMutations,
    pub outbound: OutboundHeaderMutations,
}

#[derive(Debug, Clone)]
pub struct InboundHeaderMutations {
    pub client_set: Vec<(String, String)>,
    pub client_remove: Vec<String>,
    pub to_upstream_set: Vec<(String, String)>,
    pub to_upstream_remove: Vec<String>,
}

#[derive(Debug, Clone)]
pub struct OutboundHeaderMutations {
    pub from_upstream_set: Vec<(String, String)>,
    pub from_upstream_remove: Vec<String>,
    pub client_set: Vec<(String, String)>,
    pub client_remove: Vec<String>,
}

impl Default for InboundHeaderMutations {
    fn default() -> (m: Self)
        ensures
            m.client_set@.len() == 0,
            m.client_remove@.len() == 0,
            m.to_upstream_set@.len() == 0,
            m.to_upstream_remove@.len() == 0,
    {
        InboundHeaderMutations {
            client_set: Vec::new(),
            client_remove: Vec::new(),
            to_upstream_set: Vec::new(),
            to_upstream_remove: Vec::new(),
        }
    }
}

impl Default for OutboundHeaderMutations {
    fn default() -> (m: Self)
        ensures
            m.from_upstream_set@.len() == 0,
            m.from_upstream_remove@.len() == 0,
            m.client_set@.len() == 0,
            m.client_remove@.len() == 0,
    {
        OutboundHeaderMutations {
            from_upstream_set: Vec::new(),
            from_upstream_remove: Vec::new(),
            client_set: Vec::new(),
            client_remove: Vec::new(),
        }
    }
}

} // verus!
