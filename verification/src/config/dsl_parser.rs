//! The gateway and master files, read as trees of entries (see `tree`) and
//! turned into configuration: `listeners`, `upstreams` and `routes` blocks,
//! `policy kind "name" { ... }` declarations, and the `master "name" { ... }`
//! block.
//!
//! Within a block, an entry that sets a field again replaces what an earlier
//! one set. Blocks that list their fields reject any other entry; the
//! top-level gateway entries, upstream and route bodies, and the settings
//! that a route gives a policy skip entries they do not know. A field whose
//! value does not have the expected form (a word or string, a list of them,
//! a block) counts as an entry the block does not know.
use std::time::Duration;
use vstd::prelude::*;

use crate::config::domain::{
    spec_parse_protocol, spec_protocol_error, NetworkProtocol, RouteStreaming,
};
use crate::config::parts::{
    BackendTarget, BalanceStrategy, CorsConfig, GatewayConfig, HealthCheckConfig,
    LimiterConfig, LimiterIdentifier, LimiterRate, ListenerConfig, NetworkTransport, OAuthConfig,
    PolicyConfig, RateLimitAlgorithm, RefreshTokenConfig, RouteAuthPolicy, RouteCorsPolicy,
    RouteLimiterPolicy, RouteRewrites, RouteTimeouts, RouteWafPolicy, RoutesConfig, SSLConfig,
    SecurityConfig, StaticUpstream, TlsVersion, TokenSource, UpstreamConfig, UpstreamServer,
    WafAction, WafCondition, WafConfig, WafMode, WafPhase, WafRule, MAX_LISTENERS, MAX_POLICIES,
    MAX_ROUTES, MAX_UPSTREAMS, key_index, keyed, put, put_named, put_text_pair, text_pairs,
};
use crate::config::tree::{Atom, Body, Entry, Field, Value};
use crate::text::{
    chars_of, ends_with, find_char, parse_unsigned, parse_unsigned_range, range_eq, starts_with, trim,
};
use crate::time::{duration_from_secs, spec_duration_from_secs};

verus! {

/// The words that the configuration gives a meaning to.
#[derive(Debug, Clone, Copy, PartialEq, Eq, Structural)]
pub enum Keyword {
    Name,
    Listeners,
    Listener,
    Address,
    Protocols,
    Ssl,
    Cert,
    Key,
    ClientCa,
    Upstreams,
    Upstream,
    Servers,
    LoadBalance,
    HealthCheck,
    Endpoint,
    Weight,
    Protocol,
    Path,
    Interval,
    Timeout,
    UnhealthyThreshold,
    HealthyThreshold,
    Routes,
    Route,
    Backend,
    Policies,
    Rewrite,
    Headers,
    Add,
    SetHeaders,
    Remove,
    Timeouts,
    Connect,
    Read,
    Send,
    Streaming,
    Buffering,
    Chunked,
    Hosts,
    Methods,
    Static,
    Root,
    Listing,
    Dotfiles,
    Permissions,
    Disallow,
    Policy,
    Auth,
    Waf,
    Cors,
    Limiter,
    Extends,
    Issuer,
    ClientId,
    ClientSecret,
    JwksUri,
    Audience,
    Excludes,
    Sources,
    Refresh,
    Header,
    Cookie,
    Query,
    Prefix,
    Enabled,
    Mode,
    MaxBodySize,
    AnomalyThreshold,
    Rules,
    Rule,
    Phase,
    Condition,
    Action,
    Score,
    AllowOrigin,
    AllowMethods,
    AllowHeaders,
    AllowCredentials,
    MaxAge,
    Rate,
    Burst,
    Algorithm,
    Identifier,
    Master,
    User,
    Workers,
    Pid,
    ErrorLog,
    Includes,
    DetectionOnly,
    Blocking,
    TokenBucket,
    SlidingWindow,
    Ip,
    RequestHeaders,
    RequestBody,
    ResponseHeaders,
    ResponseBody,
    SqlTokenMatch,
    Block,
    Log,
    Challenge,
    Allow,
    RoundRobin,
    LeastConnections,
    IpHash,
    Random,
    True,
    Arrow,
    Other,
}

/// The keyword that a text is, if any.
#[verifier::opaque]
pub open spec fn spec_keyword(s: Seq<char>) -> Keyword {
    if s == "name"@ {
        Keyword::Name
    } else if s == "listeners"@ {
        Keyword::Listeners
    } else if s == "listener"@ {
        Keyword::Listener
    } else if s == "address"@ {
        Keyword::Address
    } else if s == "protocols"@ {
        Keyword::Protocols
    } else if s == "ssl"@ {
        Keyword::Ssl
    } else if s == "cert"@ {
        Keyword::Cert
    } else if s == "key"@ {
        Keyword::Key
    } else if s == "client_ca"@ {
        Keyword::ClientCa
    } else if s == "upstreams"@ {
        Keyword::Upstreams
    } else if s == "upstream"@ {
        Keyword::Upstream
    } else if s == "servers"@ {
        Keyword::Servers
    } else if s == "load_balance"@ {
        Keyword::LoadBalance
    } else if s == "health_check"@ {
        Keyword::HealthCheck
    } else if s == "endpoint"@ {
        Keyword::Endpoint
    } else if s == "weight"@ {
        Keyword::Weight
    } else if s == "protocol"@ {
        Keyword::Protocol
    } else if s == "path"@ {
        Keyword::Path
    } else if s == "interval"@ {
        Keyword::Interval
    } else if s == "timeout"@ {
        Keyword::Timeout
    } else if s == "unhealthy_threshold"@ {
        Keyword::UnhealthyThreshold
    } else if s == "healthy_threshold"@ {
        Keyword::HealthyThreshold
    } else if s == "routes"@ {
        Keyword::Routes
    } else if s == "route"@ {
        Keyword::Route
    } else if s == "backend"@ {
        Keyword::Backend
    } else if s == "policies"@ {
        Keyword::Policies
    } else if s == "rewrite"@ {
        Keyword::Rewrite
    } else if s == "headers"@ {
        Keyword::Headers
    } else if s == "add"@ {
        Keyword::Add
    } else if s == "set"@ {
        Keyword::SetHeaders
    } else if s == "remove"@ {
        Keyword::Remove
    } else if s == "timeouts"@ {
        Keyword::Timeouts
    } else if s == "connect"@ {
        Keyword::Connect
    } else if s == "read"@ {
        Keyword::Read
    } else if s == "send"@ {
        Keyword::Send
    } else if s == "streaming"@ {
        Keyword::Streaming
    } else if s == "buffering"@ {
        Keyword::Buffering
    } else if s == "chunked"@ {
        Keyword::Chunked
    } else if s == "hosts"@ {
        Keyword::Hosts
    } else if s == "methods"@ {
        Keyword::Methods
    } else if s == "static"@ {
        Keyword::Static
    } else if s == "root"@ {
        Keyword::Root
    } else if s == "listing"@ {
        Keyword::Listing
    } else if s == "dotfiles"@ {
        Keyword::Dotfiles
    } else if s == "permissions"@ {
        Keyword::Permissions
    } else if s == "disallow"@ {
        Keyword::Disallow
    } else if s == "policy"@ {
        Keyword::Policy
    } else if s == "auth"@ {
        Keyword::Auth
    } else if s == "waf"@ {
        Keyword::Waf
    } else if s == "cors"@ {
        Keyword::Cors
    } else if s == "limiter"@ {
        Keyword::Limiter
    } else if s == "extends"@ {
        Keyword::Extends
    } else if s == "issuer"@ {
        Keyword::Issuer
    } else if s == "client_id"@ {
        Keyword::ClientId
    } else if s == "client_secret"@ {
        Keyword::ClientSecret
    } else if s == "jwks_uri"@ {
        Keyword::JwksUri
    } else if s == "audience"@ {
        Keyword::Audience
    } else if s == "excludes"@ {
        Keyword::Excludes
    } else if s == "sources"@ {
        Keyword::Sources
    } else if s == "refresh"@ {
        Keyword::Refresh
    } else if s == "header"@ {
        Keyword::Header
    } else if s == "cookie"@ {
        Keyword::Cookie
    } else if s == "query"@ {
        Keyword::Query
    } else if s == "prefix"@ {
        Keyword::Prefix
    } else if s == "enabled"@ {
        Keyword::Enabled
    } else if s == "mode"@ {
        Keyword::Mode
    } else if s == "max_body_size"@ {
        Keyword::MaxBodySize
    } else if s == "anomaly_threshold"@ {
        Keyword::AnomalyThreshold
    } else if s == "rules"@ {
        Keyword::Rules
    } else if s == "rule"@ {
        Keyword::Rule
    } else if s == "phase"@ {
        Keyword::Phase
    } else if s == "condition"@ {
        Keyword::Condition
    } else if s == "action"@ {
        Keyword::Action
    } else if s == "score"@ {
        Keyword::Score
    } else if s == "allow_origin"@ {
        Keyword::AllowOrigin
    } else if s == "allow_methods"@ {
        Keyword::AllowMethods
    } else if s == "allow_headers"@ {
        Keyword::AllowHeaders
    } else if s == "allow_credentials"@ {
        Keyword::AllowCredentials
    } else if s == "max_age"@ {
        Keyword::MaxAge
    } else if s == "rate"@ {
        Keyword::Rate
    } else if s == "burst"@ {
        Keyword::Burst
    } else if s == "algorithm"@ {
        Keyword::Algorithm
    } else if s == "identifier"@ {
        Keyword::Identifier
    } else if s == "master"@ {
        Keyword::Master
    } else if s == "user"@ {
        Keyword::User
    } else if s == "workers"@ {
        Keyword::Workers
    } else if s == "pid"@ {
        Keyword::Pid
    } else if s == "error_log"@ {
        Keyword::ErrorLog
    } else if s == "includes"@ {
        Keyword::Includes
    } else if s == "detection_only"@ {
        Keyword::DetectionOnly
    } else if s == "blocking"@ {
        Keyword::Blocking
    } else if s == "token_bucket"@ {
        Keyword::TokenBucket
    } else if s == "sliding_window"@ {
        Keyword::SlidingWindow
    } else if s == "ip"@ {
        Keyword::Ip
    } else if s == "request_headers"@ {
        Keyword::RequestHeaders
    } else if s == "request_body"@ {
        Keyword::RequestBody
    } else if s == "response_headers"@ {
        Keyword::ResponseHeaders
    } else if s == "response_body"@ {
        Keyword::ResponseBody
    } else if s == "sql_token_match"@ {
        Keyword::SqlTokenMatch
    } else if s == "block"@ {
        Keyword::Block
    } else if s == "log"@ {
        Keyword::Log
    } else if s == "challenge"@ {
        Keyword::Challenge
    } else if s == "allow"@ {
        Keyword::Allow
    } else if s == "round_robin"@ {
        Keyword::RoundRobin
    } else if s == "least_connections"@ {
        Keyword::LeastConnections
    } else if s == "ip_hash"@ {
        Keyword::IpHash
    } else if s == "random"@ {
        Keyword::Random
    } else if s == "true"@ {
        Keyword::True
    } else if s == "->"@ {
        Keyword::Arrow
    } else {
        Keyword::Other
    }
}

/// The keyword that `s` is.
pub fn keyword(s: &str) -> (k: Keyword)
    ensures
        k == spec_keyword(s@),
{
    proof {
        reveal(spec_keyword);
    }
    let v = chars_of(s);
    let n = v.len();
    assert(v@.subrange(0, n as int) =~= s@);
    if range_eq(&v, 0, n, "name") {
        Keyword::Name
    } else if range_eq(&v, 0, n, "listeners") {
        Keyword::Listeners
    } else if range_eq(&v, 0, n, "listener") {
        Keyword::Listener
    } else if range_eq(&v, 0, n, "address") {
        Keyword::Address
    } else if range_eq(&v, 0, n, "protocols") {
        Keyword::Protocols
    } else if range_eq(&v, 0, n, "ssl") {
        Keyword::Ssl
    } else if range_eq(&v, 0, n, "cert") {
        Keyword::Cert
    } else if range_eq(&v, 0, n, "key") {
        Keyword::Key
    } else if range_eq(&v, 0, n, "client_ca") {
        Keyword::ClientCa
    } else if range_eq(&v, 0, n, "upstreams") {
        Keyword::Upstreams
    } else if range_eq(&v, 0, n, "upstream") {
        Keyword::Upstream
    } else if range_eq(&v, 0, n, "servers") {
        Keyword::Servers
    } else if range_eq(&v, 0, n, "load_balance") {
        Keyword::LoadBalance
    } else if range_eq(&v, 0, n, "health_check") {
        Keyword::HealthCheck
    } else if range_eq(&v, 0, n, "endpoint") {
        Keyword::Endpoint
    } else if range_eq(&v, 0, n, "weight") {
        Keyword::Weight
    } else if range_eq(&v, 0, n, "protocol") {
        Keyword::Protocol
    } else if range_eq(&v, 0, n, "path") {
        Keyword::Path
    } else if range_eq(&v, 0, n, "interval") {
        Keyword::Interval
    } else if range_eq(&v, 0, n, "timeout") {
        Keyword::Timeout
    } else if range_eq(&v, 0, n, "unhealthy_threshold") {
        Keyword::UnhealthyThreshold
    } else if range_eq(&v, 0, n, "healthy_threshold") {
        Keyword::HealthyThreshold
    } else if range_eq(&v, 0, n, "routes") {
        Keyword::Routes
    } else if range_eq(&v, 0, n, "route") {
        Keyword::Route
    } else if range_eq(&v, 0, n, "backend") {
        Keyword::Backend
    } else if range_eq(&v, 0, n, "policies") {
        Keyword::Policies
    } else if range_eq(&v, 0, n, "rewrite") {
        Keyword::Rewrite
    } else if range_eq(&v, 0, n, "headers") {
        Keyword::Headers
    } else if range_eq(&v, 0, n, "add") {
        Keyword::Add
    } else if range_eq(&v, 0, n, "set") {
        Keyword::SetHeaders
    } else if range_eq(&v, 0, n, "remove") {
        Keyword::Remove
    } else if range_eq(&v, 0, n, "timeouts") {
        Keyword::Timeouts
    } else if range_eq(&v, 0, n, "connect") {
        Keyword::Connect
    } else if range_eq(&v, 0, n, "read") {
        Keyword::Read
    } else if range_eq(&v, 0, n, "send") {
        Keyword::Send
    } else if range_eq(&v, 0, n, "streaming") {
        Keyword::Streaming
    } else if range_eq(&v, 0, n, "buffering") {
        Keyword::Buffering
    } else if range_eq(&v, 0, n, "chunked") {
        Keyword::Chunked
    } else if range_eq(&v, 0, n, "hosts") {
        Keyword::Hosts
    } else if range_eq(&v, 0, n, "methods") {
        Keyword::Methods
    } else if range_eq(&v, 0, n, "static") {
        Keyword::Static
    } else if range_eq(&v, 0, n, "root") {
        Keyword::Root
    } else if range_eq(&v, 0, n, "listing") {
        Keyword::Listing
    } else if range_eq(&v, 0, n, "dotfiles") {
        Keyword::Dotfiles
    } else if range_eq(&v, 0, n, "permissions") {
        Keyword::Permissions
    } else if range_eq(&v, 0, n, "disallow") {
        Keyword::Disallow
    } else if range_eq(&v, 0, n, "policy") {
        Keyword::Policy
    } else if range_eq(&v, 0, n, "auth") {
        Keyword::Auth
    } else if range_eq(&v, 0, n, "waf") {
        Keyword::Waf
    } else if range_eq(&v, 0, n, "cors") {
        Keyword::Cors
    } else if range_eq(&v, 0, n, "limiter") {
        Keyword::Limiter
    } else if range_eq(&v, 0, n, "extends") {
        Keyword::Extends
    } else if range_eq(&v, 0, n, "issuer") {
        Keyword::Issuer
    } else if range_eq(&v, 0, n, "client_id") {
        Keyword::ClientId
    } else if range_eq(&v, 0, n, "client_secret") {
        Keyword::ClientSecret
    } else if range_eq(&v, 0, n, "jwks_uri") {
        Keyword::JwksUri
    } else if range_eq(&v, 0, n, "audience") {
        Keyword::Audience
    } else if range_eq(&v, 0, n, "excludes") {
        Keyword::Excludes
    } else if range_eq(&v, 0, n, "sources") {
        Keyword::Sources
    } else if range_eq(&v, 0, n, "refresh") {
        Keyword::Refresh
    } else if range_eq(&v, 0, n, "header") {
        Keyword::Header
    } else if range_eq(&v, 0, n, "cookie") {
        Keyword::Cookie
    } else if range_eq(&v, 0, n, "query") {
        Keyword::Query
    } else if range_eq(&v, 0, n, "prefix") {
        Keyword::Prefix
    } else if range_eq(&v, 0, n, "enabled") {
        Keyword::Enabled
    } else if range_eq(&v, 0, n, "mode") {
        Keyword::Mode
    } else if range_eq(&v, 0, n, "max_body_size") {
        Keyword::MaxBodySize
    } else if range_eq(&v, 0, n, "anomaly_threshold") {
        Keyword::AnomalyThreshold
    } else if range_eq(&v, 0, n, "rules") {
        Keyword::Rules
    } else if range_eq(&v, 0, n, "rule") {
        Keyword::Rule
    } else if range_eq(&v, 0, n, "phase") {
        Keyword::Phase
    } else if range_eq(&v, 0, n, "condition") {
        Keyword::Condition
    } else if range_eq(&v, 0, n, "action") {
        Keyword::Action
    } else if range_eq(&v, 0, n, "score") {
        Keyword::Score
    } else if range_eq(&v, 0, n, "allow_origin") {
        Keyword::AllowOrigin
    } else if range_eq(&v, 0, n, "allow_methods") {
        Keyword::AllowMethods
    } else if range_eq(&v, 0, n, "allow_headers") {
        Keyword::AllowHeaders
    } else if range_eq(&v, 0, n, "allow_credentials") {
        Keyword::AllowCredentials
    } else if range_eq(&v, 0, n, "max_age") {
        Keyword::MaxAge
    } else if range_eq(&v, 0, n, "rate") {
        Keyword::Rate
    } else if range_eq(&v, 0, n, "burst") {
        Keyword::Burst
    } else if range_eq(&v, 0, n, "algorithm") {
        Keyword::Algorithm
    } else if range_eq(&v, 0, n, "identifier") {
        Keyword::Identifier
    } else if range_eq(&v, 0, n, "master") {
        Keyword::Master
    } else if range_eq(&v, 0, n, "user") {
        Keyword::User
    } else if range_eq(&v, 0, n, "workers") {
        Keyword::Workers
    } else if range_eq(&v, 0, n, "pid") {
        Keyword::Pid
    } else if range_eq(&v, 0, n, "error_log") {
        Keyword::ErrorLog
    } else if range_eq(&v, 0, n, "includes") {
        Keyword::Includes
    } else if range_eq(&v, 0, n, "detection_only") {
        Keyword::DetectionOnly
    } else if range_eq(&v, 0, n, "blocking") {
        Keyword::Blocking
    } else if range_eq(&v, 0, n, "token_bucket") {
        Keyword::TokenBucket
    } else if range_eq(&v, 0, n, "sliding_window") {
        Keyword::SlidingWindow
    } else if range_eq(&v, 0, n, "ip") {
        Keyword::Ip
    } else if range_eq(&v, 0, n, "request_headers") {
        Keyword::RequestHeaders
    } else if range_eq(&v, 0, n, "request_body") {
        Keyword::RequestBody
    } else if range_eq(&v, 0, n, "response_headers") {
        Keyword::ResponseHeaders
    } else if range_eq(&v, 0, n, "response_body") {
        Keyword::ResponseBody
    } else if range_eq(&v, 0, n, "sql_token_match") {
        Keyword::SqlTokenMatch
    } else if range_eq(&v, 0, n, "block") {
        Keyword::Block
    } else if range_eq(&v, 0, n, "log") {
        Keyword::Log
    } else if range_eq(&v, 0, n, "challenge") {
        Keyword::Challenge
    } else if range_eq(&v, 0, n, "allow") {
        Keyword::Allow
    } else if range_eq(&v, 0, n, "round_robin") {
        Keyword::RoundRobin
    } else if range_eq(&v, 0, n, "least_connections") {
        Keyword::LeastConnections
    } else if range_eq(&v, 0, n, "ip_hash") {
        Keyword::IpHash
    } else if range_eq(&v, 0, n, "random") {
        Keyword::Random
    } else if range_eq(&v, 0, n, "true") {
        Keyword::True
    } else if range_eq(&v, 0, n, "->") {
        Keyword::Arrow
    } else {
        Keyword::Other
    }
}

// ============================================================================
// VALUES
// ============================================================================

/// The text of a word or string value.
pub open spec fn value_text(x: Value) -> Option<Seq<char>> {
    match x {
        Value::Text(a) => Some(a.text@),
        _ => None,
    }
}

/// A word or string value as it is written: a string with its quotes.
pub open spec fn value_written(x: Value) -> Option<Seq<char>> {
    match x {
        Value::Text(a) => Some(
            if a.quoted {
                seq!['"'] + a.text@ + seq!['"']
            } else {
                a.text@
            },
        ),
        _ => None,
    }
}

pub open spec fn view_strings(v: Seq<String>) -> Seq<Seq<char>> {
    v.map_values(|x: String| x@)
}

/// The texts of a list of words and strings.
pub open spec fn value_texts(x: Value) -> Option<Seq<Seq<char>>> {
    match x {
        Value::List(xs) => if forall|i: int| 0 <= i < xs@.len() ==> (#[trigger] xs@[i]) is Text {
            Some(xs@.map_values(|y: Value| y->Text_0.text@))
        } else {
            None
        },
        _ => None,
    }
}

/// What `str::parse::<u64>` gives, or 0 when it fails.
pub open spec fn spec_number(w: Seq<char>) -> u64 {
    match parse_unsigned(w, u64::MAX as int) {
        Some(n) => n as u64,
        None => 0,
    }
}

/// What `str::parse::<usize>` gives, or 0 when it fails.
pub open spec fn spec_size_number(w: Seq<char>) -> usize {
    match parse_unsigned(w, usize::MAX as int) {
        Some(n) => n as usize,
        None => 0,
    }
}

/// Seconds of a duration written `Nms` (rounded down), `Ns`, `Nm`, `Nh` or
/// `N`, where a count that does not read as a number is 0 and a product
/// wraps around.
pub open spec fn spec_duration_secs(w: Seq<char>) -> u64 {
    if ends_with(w, "ms"@) {
        (spec_number(w.take(w.len() - 2)) / 1000) as u64
    } else if ends_with(w, "s"@) {
        spec_number(w.drop_last())
    } else if ends_with(w, "m"@) {
        spec_number(w.drop_last()).wrapping_mul(60)
    } else if ends_with(w, "h"@) {
        spec_number(w.drop_last()).wrapping_mul(3600)
    } else {
        spec_number(w)
    }
}

/// Bytes of a size written `Ngb`, `Nmb`, `Nkb`, `Nb` or `N`, where a count
/// that does not read as a number is 0 and a product wraps around.
pub open spec fn spec_size_bytes(w: Seq<char>) -> usize {
    if ends_with(w, "gb"@) {
        spec_size_number(w.take(w.len() - 2)).wrapping_mul(1073741824)
    } else if ends_with(w, "mb"@) {
        spec_size_number(w.take(w.len() - 2)).wrapping_mul(1048576)
    } else if ends_with(w, "kb"@) {
        spec_size_number(w.take(w.len() - 2)).wrapping_mul(1024)
    } else if ends_with(w, "b"@) {
        spec_size_number(w.drop_last())
    } else {
        spec_size_number(w)
    }
}

/// The rate written `N/p`: `N` requests (60 when `N` does not read as a
/// number) per second, minute, hour or day for `p` = `s`, `m`, `h`, `d`
/// (a minute for any other `p`); 60 per minute without a `/`. Blanks around
/// the whole text are ignored.
pub open spec fn spec_rate(w: Seq<char>) -> LimiterRate {
    let s = trim(w);
    match find_char(s, '/') {
        Some(i) => {
            let num = s.take(i);
            let period = s.skip(i + 1);
            LimiterRate {
                requests: match parse_unsigned(num, u64::MAX as int) {
                    Some(n) => n as u64,
                    None => 60,
                },
                per_seconds: if period == "s"@ {
                    1
                } else if period == "m"@ {
                    60
                } else if period == "h"@ {
                    3600
                } else if period == "d"@ {
                    86400
                } else {
                    60
                },
            }
        },
        None => LimiterRate { requests: 60, per_seconds: 60 },
    }
}

/// Why an address gives no transport: `unix:path` is a socket, and
/// `host:port` with a port that reads as a `u16` is TCP.
pub open spec fn transport_error(addr: Seq<char>) -> Option<Seq<char>> {
    if starts_with(addr, "unix:"@) {
        None
    } else {
        match last_colon(addr) {
            Some(i) => if parse_unsigned(addr.skip(i + 1), u16::MAX as int) is Some {
                None
            } else {
                Some("invalid address '"@ + addr + "': invalid port"@)
            },
            None => Some("invalid address '"@ + addr + "': expected ip:port or unix:path"@),
        }
    }
}

/// The transport that `addr` gives, with the path or address it holds.
pub open spec fn transport_is(tr: NetworkTransport, addr: Seq<char>) -> bool {
    match tr {
        NetworkTransport::Uds(p) => starts_with(addr, "unix:"@) && p@ == addr.skip(5),
        NetworkTransport::Tcp(a) => !starts_with(addr, "unix:"@) && transport_error(addr) is None
            && a@ == addr,
    }
}

/// The position of the last `:` in `s`.
pub open spec fn last_colon(s: Seq<char>) -> Option<int>
    decreases s.len(),
{
    if s.len() == 0 {
        None
    } else if s.last() == ':' {
        Some(s.len() - 1)
    } else {
        last_colon(s.drop_last())
    }
}

/// The strategy a `load_balance` name denotes.
pub open spec fn spec_balance(k: Keyword) -> Option<BalanceStrategy> {
    match k {
        Keyword::RoundRobin => Some(BalanceStrategy::RoundRobin),
        Keyword::LeastConnections => Some(BalanceStrategy::LeastConnections),
        Keyword::IpHash => Some(BalanceStrategy::IpHash),
        Keyword::Random => Some(BalanceStrategy::Random),
        _ => None,
    }
}

pub open spec fn spec_balance_error(s: Seq<char>) -> Seq<char> {
    "invalid load_balance '"@ + s
        + "': expected round_robin, least_connections, ip_hash, or random"@
}

fn extract_string(x: &Value) -> (r: Option<String>)
    ensures
        match r {
            Some(t) => value_text(*x) == Some(t@),
            None => value_text(*x) is None,
        },
{
    match x {
        Value::Text(a) => Some(a.text.clone()),
        _ => None,
    }
}

fn written_value(x: &Value) -> (r: Option<String>)
    ensures
        match r {
            Some(t) => value_written(*x) == Some(t@),
            None => value_written(*x) is None,
        },
{
    match x {
        Value::Text(a) => if a.quoted {
            let mut t = "\"".to_owned();
            t.append(a.text.as_str());
            t.append("\"");
            proof {
                reveal_strlit("\"");
                assert(t@ =~= seq!['"'] + a.text@ + seq!['"']);
            }
            Some(t)
        } else {
            Some(a.text.clone())
        },
        _ => None,
    }
}

fn extract_array(x: &Value) -> (r: Option<Vec<String>>)
    ensures
        match r {
            Some(v) => value_texts(*x) == Some(view_strings(v@)),
            None => value_texts(*x) is None,
        },
{
    match x {
        Value::List(xs) => {
            let mut out: Vec<String> = Vec::new();
            let mut i: usize = 0;
            while i < xs.len()
                invariant
                    *x == Value::List(*xs),
                    0 <= i <= xs@.len(),
                    out@.len() == i,
                    forall|j: int| 0 <= j < i ==> (#[trigger] xs@[j]) is Text && out@[j]@
                        == xs@[j]->Text_0.text@,
                decreases xs@.len() - i,
            {
                match &xs[i] {
                    Value::Text(a) => {
                        out.push(a.text.clone());
                    },
                    _ => {
                        assert(!(xs@[i as int] is Text));
                        assert(!(forall|j: int| 0 <= j < xs@.len() ==> (#[trigger] xs@[j]) is Text));
                        return None;
                    },
                }
                i = i + 1;
            }
            assert(view_strings(out@) =~= xs@.map_values(|y: Value| y->Text_0.text@));
            Some(out)
        },
        _ => None,
    }
}

fn extract_number(w: &str) -> (n: u64)
    ensures
        n == spec_number(w@),
{
    let v = chars_of(w);
    let n = v.len();
    assert(v@.subrange(0, n as int) =~= w@);
    match crate::text::parse_unsigned_range(&v, 0, n, u64::MAX) {
        Some(x) => x,
        None => 0,
    }
}

fn size_number_of(v: &Vec<char>, lo: usize, hi: usize) -> (n: usize)
    requires
        lo <= hi <= v.len(),
    ensures
        n == spec_size_number(v@.subrange(lo as int, hi as int)),
{
    match crate::text::parse_unsigned_range(v, lo, hi, usize::MAX as u64) {
        Some(x) => x as usize,
        None => 0,
    }
}

fn number_in(v: &Vec<char>, lo: usize, hi: usize) -> (n: u64)
    requires
        lo <= hi <= v.len(),
    ensures
        n == spec_number(v@.subrange(lo as int, hi as int)),
{
    match crate::text::parse_unsigned_range(v, lo, hi, u64::MAX) {
        Some(x) => x,
        None => 0,
    }
}

/// Seconds of a written duration (see `spec_duration_secs`).
pub fn parse_duration_to_secs(w: &str) -> (n: u64)
    ensures
        n == spec_duration_secs(w@),
{
    let v = chars_of(w);
    let n = v.len();
    assert(v@.subrange(0, n as int) =~= w@);
    if crate::text::range_ends_with(&v, 0, n, "ms") {
        proof {
            reveal_strlit("ms");
            assert(v@.subrange(0, n - 2) =~= w@.take(w@.len() - 2));
        }
        number_in(&v, 0, n - 2) / 1000
    } else if crate::text::range_ends_with(&v, 0, n, "s") {
        proof {
            reveal_strlit("s");
            assert(v@.subrange(0, n - 1) =~= w@.drop_last());
        }
        number_in(&v, 0, n - 1)
    } else if crate::text::range_ends_with(&v, 0, n, "m") {
        proof {
            reveal_strlit("m");
            assert(v@.subrange(0, n - 1) =~= w@.drop_last());
        }
        number_in(&v, 0, n - 1).wrapping_mul(60)
    } else if crate::text::range_ends_with(&v, 0, n, "h") {
        proof {
            reveal_strlit("h");
            assert(v@.subrange(0, n - 1) =~= w@.drop_last());
        }
        number_in(&v, 0, n - 1).wrapping_mul(3600)
    } else {
        number_in(&v, 0, n)
    }
}

/// Bytes of a written size (see `spec_size_bytes`).
pub fn parse_size_to_bytes(w: &str) -> (n: usize)
    ensures
        n == spec_size_bytes(w@),
{
    let v = chars_of(w);
    let n = v.len();
    assert(v@.subrange(0, n as int) =~= w@);
    if crate::text::range_ends_with(&v, 0, n, "gb") {
        proof {
            reveal_strlit("gb");
            assert(v@.subrange(0, n - 2) =~= w@.take(w@.len() - 2));
        }
        size_number_of(&v, 0, n - 2).wrapping_mul(1073741824)
    } else if crate::text::range_ends_with(&v, 0, n, "mb") {
        proof {
            reveal_strlit("mb");
            assert(v@.subrange(0, n - 2) =~= w@.take(w@.len() - 2));
        }
        size_number_of(&v, 0, n - 2).wrapping_mul(1048576)
    } else if crate::text::range_ends_with(&v, 0, n, "kb") {
        proof {
            reveal_strlit("kb");
            assert(v@.subrange(0, n - 2) =~= w@.take(w@.len() - 2));
        }
        size_number_of(&v, 0, n - 2).wrapping_mul(1024)
    } else if crate::text::range_ends_with(&v, 0, n, "b") {
        proof {
            reveal_strlit("b");
            assert(v@.subrange(0, n - 1) =~= w@.drop_last());
        }
        size_number_of(&v, 0, n - 1)
    } else {
        size_number_of(&v, 0, n)
    }
}

/// The rate that a text denotes (see `spec_rate`).
pub fn parse_rate(w: &str) -> (r: LimiterRate)
    ensures
        r == spec_rate(w@),
{
    let v = chars_of(w);
    let n = v.len();
    assert(v@.subrange(0, n as int) =~= w@);
    let (a, b) = crate::text::trim_bounds(&v, 0, n);
    let ghost s = v@.subrange(a as int, b as int);
    match crate::text::find_char_in(&v, a, b, '/') {
        Some(i) => {
            proof {
                crate::text::lemma_find_char_props(s, '/');
            }
            assert(s.take(i as int) =~= v@.subrange(a as int, a + i));
            assert(s.skip(i + 1) =~= v@.subrange(a + i + 1, b as int));
            let requests = match crate::text::parse_unsigned_range(&v, a, a + i, u64::MAX) {
                Some(x) => x,
                None => 60,
            };
            let per_seconds = if range_eq(&v, a + i + 1, b, "s") {
                1
            } else if range_eq(&v, a + i + 1, b, "m") {
                60
            } else if range_eq(&v, a + i + 1, b, "h") {
                3600
            } else if range_eq(&v, a + i + 1, b, "d") {
                86400
            } else {
                60
            };
            LimiterRate { requests, per_seconds }
        },
        None => LimiterRate { requests: 60, per_seconds: 60 },
    }
}

/// Reads the transport of an address (see `transport_error`).
pub fn parse_transport(addr: &str) -> (r: Result<NetworkTransport, String>)
    ensures
        match r {
            Ok(tr) => transport_error(addr@) is None && transport_is(tr, addr@),
            Err(e) => transport_error(addr@) == Some(e@),
        },
{
    let v = chars_of(addr);
    let n = v.len();
    assert(v@.subrange(0, n as int) =~= addr@);
    if n >= 5 && range_eq(&v, 0, 5, "unix:") {
        proof {
            reveal_strlit("unix:");
            assert(addr@.take(5) =~= v@.subrange(0, 5));
        }
        return Ok(NetworkTransport::Uds(addr.substring_char(5, n).to_owned()));
    }
    proof {
        reveal_strlit("unix:");
        if starts_with(addr@, "unix:"@) {
            assert(v@.subrange(0, 5) =~= addr@.take(5));
        }
    }
    let mut i = n;
    while i > 0 && v[i - 1] != ':'
        invariant
            i <= n == v.len(),
            v@ == addr@,
            last_colon(addr@) == last_colon(addr@.take(i as int)),
        decreases i,
    {
        assert(addr@.take(i - 1) =~= addr@.take(i as int).drop_last());
        i = i - 1;
    }
    if i == 0 {
        assert(addr@.take(0) =~= Seq::<char>::empty());
        let mut e = "invalid address '".to_owned();
        e.append(addr);
        e.append("': expected ip:port or unix:path");
        return Err(e);
    }
    assert(last_colon(addr@.take(i as int)) == Some(i - 1));
    assert(addr@.skip(i as int) =~= v@.subrange(i as int, n as int));
    match crate::text::parse_unsigned_range(&v, i, n, 65535) {
        Some(_) => Ok(NetworkTransport::Tcp(addr.to_owned())),
        None => {
            let mut e = "invalid address '".to_owned();
            e.append(addr);
            e.append("': invalid port");
            Err(e)
        },
    }
}

/// Reads a `load_balance` name.
pub fn parse_balance_strategy(s: &str) -> (r: Result<BalanceStrategy, String>)
    ensures
        match r {
            Ok(b) => spec_balance(spec_keyword(s@)) == Some(b),
            Err(e) => spec_balance(spec_keyword(s@)) is None && e@ == spec_balance_error(s@),
        },
{
    match keyword(s) {
        Keyword::RoundRobin => Ok(BalanceStrategy::RoundRobin),
        Keyword::LeastConnections => Ok(BalanceStrategy::LeastConnections),
        Keyword::IpHash => Ok(BalanceStrategy::IpHash),
        Keyword::Random => Ok(BalanceStrategy::Random),
        _ => {
            let mut e = "invalid load_balance '".to_owned();
            e.append(s);
            e.append("': expected round_robin, least_connections, ip_hash, or random");
            Err(e)
        },
    }
}

// ============================================================================
// ENTRIES
// ============================================================================

/// The last of `es` that satisfies `p`.
pub open spec fn last_where(es: Seq<Entry>, p: spec_fn(Entry) -> bool) -> Option<Entry>
    decreases es.len(),
{
    if es.len() == 0 {
        None
    } else if p(es.last()) {
        Some(es.last())
    } else {
        last_where(es.drop_last(), p)
    }
}

pub proof fn lemma_last_where_step(es: Seq<Entry>, i: int, p: spec_fn(Entry) -> bool)
    requires
        0 <= i < es.len(),
    ensures
        last_where(es.take(i + 1), p) == (if p(es[i]) {
            Some(es[i])
        } else {
            last_where(es.take(i), p)
        }),
{
    assert(es.take(i + 1).drop_last() =~= es.take(i));
}

/// The error of the first of `es` for which `f` gives one.
pub open spec fn first_error(es: Seq<Entry>, f: spec_fn(Entry) -> Option<Seq<char>>) -> Option<
    Seq<char>,
>
    decreases es.len(),
{
    if es.len() == 0 {
        None
    } else {
        match first_error(es.drop_last(), f) {
            Some(m) => Some(m),
            None => f(es.last()),
        }
    }
}

pub proof fn lemma_first_error_step(
    es: Seq<Entry>,
    i: int,
    f: spec_fn(Entry) -> Option<Seq<char>>,
)
    requires
        0 <= i < es.len(),
    ensures
        first_error(es.take(i + 1), f) == (match first_error(es.take(i), f) {
            Some(m) => Some(m),
            None => f(es[i]),
        }),
{
    assert(es.take(i + 1).drop_last() =~= es.take(i));
}

/// The keyword of the first word of the head of `en`.
pub open spec fn head_key(en: Entry) -> Keyword {
    if en.head@.len() > 0 {
        spec_keyword(en.head@[0].text@)
    } else {
        Keyword::Other
    }
}

/// `en` is `k = value`.
pub open spec fn assigns(en: Entry, k: Keyword) -> bool {
    en.head@.len() == 1 && head_key(en) == k && en.body is Assign
}

/// `en` is `k = value` with a word or string value.
pub open spec fn assigns_text(en: Entry, k: Keyword) -> bool {
    assigns(en, k) && en.body->Assign_0 is Text
}

/// `en` is `k = [ ... ]` with words and strings in the list.
pub open spec fn assigns_texts(en: Entry, k: Keyword) -> bool {
    assigns(en, k) && value_texts(en.body->Assign_0) is Some
}

/// `en` is `k { ... }`.
pub open spec fn opens(en: Entry, k: Keyword) -> bool {
    en.head@.len() == 1 && head_key(en) == k && en.body is Block
}

/// `en` is `k "label" { ... }`.
pub open spec fn opens_labelled(en: Entry, k: Keyword) -> bool {
    en.head@.len() == 2 && head_key(en) == k && en.body is Block
}

/// The text of the value of `k = value`.
pub open spec fn assigned_text(en: Entry) -> Seq<char> {
    en.body->Assign_0->Text_0.text@
}

/// The value of `k = value` as written.
pub open spec fn assigned_written(en: Entry) -> Seq<char> {
    value_written(en.body->Assign_0)->0
}

/// The texts of the list of `k = [ ... ]`.
pub open spec fn assigned_texts(en: Entry) -> Seq<Seq<char>> {
    value_texts(en.body->Assign_0)->0
}

/// The entries of `k { ... }`.
pub open spec fn block_of(en: Entry) -> Seq<Entry> {
    en.body->Block_0@
}

fn head_keyword(en: &Entry) -> (k: Keyword)
    ensures
        k == head_key(*en),
{
    if en.head.len() > 0 {
        keyword(en.head[0].text.as_str())
    } else {
        Keyword::Other
    }
}

pub open spec fn text_pred(k: Keyword) -> spec_fn(Entry) -> bool {
    |en: Entry| assigns_text(en, k)
}

pub open spec fn texts_pred(k: Keyword) -> spec_fn(Entry) -> bool {
    |en: Entry| assigns_texts(en, k)
}

pub open spec fn block_pred(k: Keyword) -> spec_fn(Entry) -> bool {
    |en: Entry| opens(en, k)
}

/// The text of the last `k = text` of `es`, if any.
pub open spec fn last_text(es: Seq<Entry>, k: Keyword) -> Option<Seq<char>> {
    match last_where(es, text_pred(k)) {
        Some(en) => Some(assigned_text(en)),
        None => None,
    }
}

/// The last `k = text` of `es`, as written, if any.
pub open spec fn last_written(es: Seq<Entry>, k: Keyword) -> Option<Seq<char>> {
    match last_where(es, text_pred(k)) {
        Some(en) => Some(assigned_written(en)),
        None => None,
    }
}

/// The texts of the last `k = [ ... ]` of `es`, if any.
pub open spec fn last_texts(es: Seq<Entry>, k: Keyword) -> Option<Seq<Seq<char>>> {
    match last_where(es, texts_pred(k)) {
        Some(en) => Some(assigned_texts(en)),
        None => None,
    }
}

/// The entries of the last `k { ... }` of `es`, if any.
pub open spec fn last_block(es: Seq<Entry>, k: Keyword) -> Option<Seq<Entry>> {
    match last_where(es, block_pred(k)) {
        Some(en) => Some(block_of(en)),
        None => None,
    }
}

pub open spec fn opt_view(o: Option<String>) -> Option<Seq<char>> {
    match o {
        Some(s) => Some(s@),
        None => None,
    }
}

pub open spec fn or_empty(o: Option<Seq<char>>) -> Seq<char> {
    match o {
        Some(s) => s,
        None => Seq::empty(),
    }
}

pub open spec fn or_none(o: Option<Seq<Seq<char>>>) -> Seq<Seq<char>> {
    match o {
        Some(s) => s,
        None => Seq::empty(),
    }
}

/// `w` is the word `true`.
pub open spec fn is_true(o: Option<Seq<char>>) -> bool {
    o == Some("true"@)
}

fn last_text_of(es: &Vec<Entry>, k: Keyword) -> (r: Option<String>)
    ensures
        opt_view(r) == last_text(es@, k),
{
    let mut r: Option<String> = None;
    let mut i: usize = 0;
    while i < es.len()
        invariant
            0 <= i <= es@.len(),
            opt_view(r) == last_text(es@.take(i as int), k),
        decreases es@.len() - i,
    {
        proof {
            lemma_last_where_step(es@, i as int, text_pred(k));
        }
        let en = &es[i];
        if en.head.len() == 1 && head_keyword(en) == k {
            if let Body::Assign(Value::Text(a)) = &en.body {
                r = Some(a.text.clone());
            }
        }
        i = i + 1;
    }
    assert(es@.take(es@.len() as int) =~= es@);
    r
}

fn last_written_of(es: &Vec<Entry>, k: Keyword) -> (r: Option<String>)
    ensures
        opt_view(r) == last_written(es@, k),
{
    let mut r: Option<String> = None;
    let mut i: usize = 0;
    while i < es.len()
        invariant
            0 <= i <= es@.len(),
            opt_view(r) == last_written(es@.take(i as int), k),
        decreases es@.len() - i,
    {
        proof {
            lemma_last_where_step(es@, i as int, text_pred(k));
        }
        let en = &es[i];
        if en.head.len() == 1 && head_keyword(en) == k {
            if let Body::Assign(x) = &en.body {
                if let Value::Text(_) = x {
                    r = written_value(x);
                }
            }
        }
        i = i + 1;
    }
    assert(es@.take(es@.len() as int) =~= es@);
    r
}

pub open spec fn opt_strings(o: Option<Vec<String>>) -> Option<Seq<Seq<char>>> {
    match o {
        Some(v) => Some(view_strings(v@)),
        None => None,
    }
}

fn last_texts_of(es: &Vec<Entry>, k: Keyword) -> (r: Option<Vec<String>>)
    ensures
        opt_strings(r) == last_texts(es@, k),
{
    let mut r: Option<Vec<String>> = None;
    let mut i: usize = 0;
    while i < es.len()
        invariant
            0 <= i <= es@.len(),
            opt_strings(r) == last_texts(es@.take(i as int), k),
        decreases es@.len() - i,
    {
        proof {
            lemma_last_where_step(es@, i as int, texts_pred(k));
        }
        let en = &es[i];
        if en.head.len() == 1 && head_keyword(en) == k {
            if let Body::Assign(x) = &en.body {
                match extract_array(x) {
                    Some(v) => {
                        r = Some(v);
                    },
                    None => {},
                }
            }
        }
        i = i + 1;
    }
    assert(es@.take(es@.len() as int) =~= es@);
    r
}

fn last_block_of<'a>(es: &'a Vec<Entry>, k: Keyword) -> (r: Option<&'a Vec<Entry>>)
    ensures
        match r {
            Some(b) => last_block(es@, k) == Some(b@),
            None => last_block(es@, k) is None,
        },
{
    let mut r: Option<&'a Vec<Entry>> = None;
    let mut i: usize = 0;
    while i < es.len()
        invariant
            0 <= i <= es@.len(),
            match r {
                Some(b) => last_block(es@.take(i as int), k) == Some(b@),
                None => last_block(es@.take(i as int), k) is None,
            },
        decreases es@.len() - i,
    {
        proof {
            lemma_last_where_step(es@, i as int, block_pred(k));
        }
        let en = &es[i];
        if en.head.len() == 1 && head_keyword(en) == k {
            if let Body::Block(b) = &en.body {
                r = Some(b);
            }
        }
        i = i + 1;
    }
    assert(es@.take(es@.len() as int) =~= es@);
    r
}

fn text_or_empty(o: Option<String>) -> (s: String)
    ensures
        s@ == or_empty(opt_view(o)),
{
    match o {
        Some(s) => s,
        None => String::new(),
    }
}

fn texts_or_none(o: Option<Vec<String>>) -> (v: Vec<String>)
    ensures
        view_strings(v@) == or_none(opt_strings(o)),
{
    match o {
        Some(v) => v,
        None => {
            let v: Vec<String> = Vec::new();
            assert(view_strings(v@) =~= Seq::<Seq<char>>::empty());
            v
        },
    }
}

fn is_true_exec(o: &Option<String>) -> (b: bool)
    ensures
        b == is_true(opt_view(*o)),
{
    match o {
        Some(s) => {
            let t = "true".to_owned();
            *s == t
        },
        None => false,
    }
}

// ============================================================================
// TOKEN SOURCES
// ============================================================================

/// `en` is `header { ... }`, `cookie { ... }` or `query { ... }`.
pub open spec fn is_source(en: Entry) -> bool {
    ||| opens(en, Keyword::Header)
    ||| opens(en, Keyword::Cookie)
    ||| opens(en, Keyword::Query)
}

/// The token source entries of `es`, in order.
pub open spec fn source_entries(es: Seq<Entry>) -> Seq<Entry>
    decreases es.len(),
{
    if es.len() == 0 {
        Seq::empty()
    } else if is_source(es.last()) {
        source_entries(es.drop_last()).push(es.last())
    } else {
        source_entries(es.drop_last())
    }
}

/// `ts` is the token source that `en` describes: its kind, its `name`
/// (empty when not given) and its `prefix`.
pub open spec fn source_is(ts: TokenSource, en: Entry) -> bool {
    let b = block_of(en);
    let name = or_empty(last_text(b, Keyword::Name));
    let prefix = last_text(b, Keyword::Prefix);
    match ts {
        TokenSource::Header { name: n, prefix: p } => head_key(en) == Keyword::Header && n@ == name
            && opt_view(p) == prefix,
        TokenSource::Cookie { name: n, prefix: p } => head_key(en) == Keyword::Cookie && n@ == name
            && opt_view(p) == prefix,
        TokenSource::QueryParam { name: n, prefix: p } => head_key(en) == Keyword::Query && n@
            == name && opt_view(p) == prefix,
    }
}

/// `ts` are the token sources of the entries `es`, in order.
pub open spec fn sources_are(ts: Seq<TokenSource>, es: Seq<Entry>) -> bool {
    &&& ts.len() == source_entries(es).len()
    &&& forall|i: int| 0 <= i < ts.len() ==> source_is(#[trigger] ts[i], source_entries(es)[i])
}

fn read_source(en: &Entry) -> (ts: TokenSource)
    requires
        is_source(*en),
    ensures
        source_is(ts, *en),
{
    let b = match &en.body {
        Body::Block(b) => b,
        _ => {
            assert(false);
            return TokenSource::Header { name: String::new(), prefix: None };
        },
    };
    let name = text_or_empty(last_text_of(b, Keyword::Name));
    let prefix = last_text_of(b, Keyword::Prefix);
    match head_keyword(en) {
        Keyword::Header => TokenSource::Header { name, prefix },
        Keyword::Cookie => TokenSource::Cookie { name, prefix },
        _ => TokenSource::QueryParam { name, prefix },
    }
}

/// The token sources of a `sources { ... }` block.
pub fn parse_sources_block(es: &Vec<Entry>) -> (r: Vec<TokenSource>)
    ensures
        sources_are(r@, es@),
{
    let mut out: Vec<TokenSource> = Vec::new();
    let mut i: usize = 0;
    while i < es.len()
        invariant
            0 <= i <= es@.len(),
            sources_are(out@, es@.take(i as int)),
        decreases es@.len() - i,
    {
        let ghost before = out@;
        proof {
            assert(es@.take(i + 1).drop_last() =~= es@.take(i as int));
        }
        let en = &es[i];
        let k = head_keyword(en);
        if en.head.len() == 1 && (k == Keyword::Header || k == Keyword::Cookie || k == Keyword::Query) {
            if let Body::Block(_) = &en.body {
                let ts = read_source(en);
                out.push(ts);
                proof {
                    assert forall|j: int| 0 <= j < out@.len() implies source_is(
                        #[trigger] out@[j],
                        source_entries(es@.take(i + 1))[j],
                    ) by {
                        if j < before.len() {
                            assert(out@[j] == before[j]);
                        }
                    }
                }
            }
        }
        i = i + 1;
    }
    assert(es@.take(es@.len() as int) =~= es@);
    out
}

// ============================================================================
// REFRESH TOKENS
// ============================================================================

pub open spec fn nonempty_sources_pred() -> spec_fn(Entry) -> bool {
    |en: Entry| opens(en, Keyword::Sources) && source_entries(block_of(en)).len() > 0
}

/// `r` is the refresh token setting of the entries `es`: `enabled` when the
/// last `enabled` is `true`, the `endpoint`, and the first source of the
/// last `sources` block that has one (a cookie `refresh_token` without
/// one); a response always rotates the token.
pub open spec fn refresh_is(r: RefreshTokenConfig, es: Seq<Entry>) -> bool {
    &&& r.enabled == is_true(last_written(es, Keyword::Enabled))
    &&& r.token_endpoint@ == or_empty(last_text(es, Keyword::Endpoint))
    &&& r.auto_rotate_response
    &&& match last_where(es, nonempty_sources_pred()) {
        Some(en) => source_is(r.source, source_entries(block_of(en))[0]),
        None => r.source matches TokenSource::Cookie { name, prefix } && name@ == "refresh_token"@
            && prefix is None,
    }
}

/// The refresh token setting of a `refresh { ... }` block.
pub fn parse_refresh_block(es: &Vec<Entry>) -> (r: RefreshTokenConfig)
    ensures
        refresh_is(r, es@),
{
    let enabled = is_true_exec(&last_written_of(es, Keyword::Enabled));
    let token_endpoint = text_or_empty(last_text_of(es, Keyword::Endpoint));
    let mut source = TokenSource::Cookie { name: "refresh_token".to_owned(), prefix: None };
    let mut i: usize = 0;
    while i < es.len()
        invariant
            0 <= i <= es@.len(),
            match last_where(es@.take(i as int), nonempty_sources_pred()) {
                Some(en) => source_is(source, source_entries(block_of(en))[0]),
                None => source matches TokenSource::Cookie { name, prefix } && name@
                    == "refresh_token"@ && prefix is None,
            },
        decreases es@.len() - i,
    {
        proof {
            lemma_last_where_step(es@, i as int, nonempty_sources_pred());
        }
        let en = &es[i];
        if en.head.len() == 1 && head_keyword(en) == Keyword::Sources {
            if let Body::Block(b) = &en.body {
                let mut srcs = parse_sources_block(b);
                if srcs.len() > 0 {
                    source = srcs.remove(0);
                }
            }
        }
        i = i + 1;
    }
    assert(es@.take(es@.len() as int) =~= es@);
    RefreshTokenConfig { enabled, source, token_endpoint, auto_rotate_response: true }
}

// ============================================================================
// POLICY SETTINGS
// ============================================================================

/// The error of the first entry of `es` whose error `f` gives, found when
/// only the first `j` are looked at, is the error of all of them.
pub proof fn lemma_first_error_prefix(es: Seq<Entry>, j: int, f: spec_fn(Entry) -> Option<Seq<char>>)
    requires
        0 <= j <= es.len(),
        first_error(es.take(j), f) is Some,
    ensures
        first_error(es, f) == first_error(es.take(j), f),
    decreases es.len() - j,
{
    if j < es.len() {
        lemma_first_error_step(es, j, f);
        lemma_first_error_prefix(es, j + 1, f);
    } else {
        assert(es.take(j) =~= es);
    }
}

/// When no entry of `es` has an error, the last entry that satisfies `p`
/// has none either.
pub proof fn lemma_no_error_last(es: Seq<Entry>, f: spec_fn(Entry) -> Option<Seq<char>>, p: spec_fn(Entry) -> bool)
    requires
        first_error(es, f) is None,
    ensures
        last_where(es, p) matches Some(en) ==> f(en) is None && p(en),
    decreases es.len(),
{
    if es.len() > 0 {
        lemma_no_error_last(es.drop_last(), f, p);
    }
}

/// `c` holds the authentication settings of `es`; with `blocks`, also its
/// `sources` and `refresh` blocks.
pub open spec fn auth_is(c: OAuthConfig, es: Seq<Entry>, blocks: bool) -> bool {
    &&& c.issuer@ == or_empty(last_text(es, Keyword::Issuer))
    &&& c.client_id@ == or_empty(last_text(es, Keyword::ClientId))
    &&& opt_view(c.client_secret) == last_text(es, Keyword::ClientSecret)
    &&& c.jwk_uri@ == or_empty(last_text(es, Keyword::JwksUri))
    &&& c.scopes@.len() == 0
    &&& view_strings(c.excludes@) == or_none(last_texts(es, Keyword::Excludes))
    &&& if blocks {
        match last_block(es, Keyword::Sources) {
            Some(b) => sources_are(c.sources@, b),
            None => c.sources@.len() == 0,
        }
    } else {
        c.sources@.len() == 0
    }
    &&& if blocks {
        match last_block(es, Keyword::Refresh) {
            Some(b) => c.refresh_token matches Some(r) && refresh_is(r, b),
            None => c.refresh_token is None,
        }
    } else {
        c.refresh_token is None
    }
}

/// The authentication settings of `es` (see `auth_is`).
pub fn auth_settings(es: &Vec<Entry>, blocks: bool) -> (c: OAuthConfig)
    ensures
        auth_is(c, es@, blocks),
{
    let issuer = text_or_empty(last_text_of(es, Keyword::Issuer));
    let client_id = text_or_empty(last_text_of(es, Keyword::ClientId));
    let client_secret = last_text_of(es, Keyword::ClientSecret);
    let jwk_uri = text_or_empty(last_text_of(es, Keyword::JwksUri));
    let excludes = texts_or_none(last_texts_of(es, Keyword::Excludes));
    let sources = if blocks {
        match last_block_of(es, Keyword::Sources) {
            Some(b) => parse_sources_block(b),
            None => Vec::new(),
        }
    } else {
        Vec::new()
    };
    let refresh_token = if blocks {
        match last_block_of(es, Keyword::Refresh) {
            Some(b) => Some(parse_refresh_block(b)),
            None => None,
        }
    } else {
        None
    };
    OAuthConfig {
        issuer,
        client_id,
        client_secret,
        scopes: Vec::new(),
        sources,
        jwk_uri,
        refresh_token,
        excludes,
    }
}

/// `c` holds the CORS settings of `es`: the lists given (the methods `GET`
/// and `HEAD` when none), credentials when the last `allow_credentials` is
/// `true`, the `max_age` in seconds (600 when not given).
pub open spec fn cors_is(c: CorsConfig, es: Seq<Entry>) -> bool {
    &&& view_strings(c.allow_origins@) == or_none(last_texts(es, Keyword::AllowOrigin))
    &&& view_strings(c.allow_methods@) == match last_texts(es, Keyword::AllowMethods) {
        Some(m) => m,
        None => seq!["GET"@, "HEAD"@],
    }
    &&& view_strings(c.allow_headers@) == or_none(last_texts(es, Keyword::AllowHeaders))
    &&& c.expose_headers@.len() == 0
    &&& c.allow_credentials == is_true(last_written(es, Keyword::AllowCredentials))
    &&& c.max_age == Some(
        match last_written(es, Keyword::MaxAge) {
            Some(w) => spec_duration_secs(w),
            None => 600u64,
        },
    )
    &&& view_strings(c.excludes@) == or_none(last_texts(es, Keyword::Excludes))
}

/// The CORS settings of `es` (see `cors_is`).
pub fn cors_settings(es: &Vec<Entry>) -> (c: CorsConfig)
    ensures
        cors_is(c, es@),
{
    let allow_origins = texts_or_none(last_texts_of(es, Keyword::AllowOrigin));
    let allow_methods = match last_texts_of(es, Keyword::AllowMethods) {
        Some(m) => m,
        None => {
            let mut m: Vec<String> = Vec::new();
            m.push("GET".to_owned());
            m.push("HEAD".to_owned());
            assert(view_strings(m@) =~= seq!["GET"@, "HEAD"@]);
            m
        },
    };
    let allow_headers = texts_or_none(last_texts_of(es, Keyword::AllowHeaders));
    let allow_credentials = is_true_exec(&last_written_of(es, Keyword::AllowCredentials));
    let max_age = match last_written_of(es, Keyword::MaxAge) {
        Some(w) => parse_duration_to_secs(w.as_str()),
        None => 600,
    };
    let excludes = texts_or_none(last_texts_of(es, Keyword::Excludes));
    CorsConfig {
        allow_origins,
        allow_methods,
        allow_headers,
        expose_headers: Vec::new(),
        allow_credentials,
        max_age: Some(max_age),
        excludes,
    }
}

/// What a limiter `identifier` names: the client address for `ip`, else a
/// header.
pub open spec fn identifier_is(id: LimiterIdentifier, t: Seq<char>) -> bool {
    if spec_keyword(t) == Keyword::Ip {
        id is Ip
    } else {
        id matches LimiterIdentifier::Header(h) && h@ == t
    }
}

/// `c` holds the rate limiter settings of `es`, with the defaults of
/// `LimiterConfig` for what they do not give; any `algorithm` but
/// `token_bucket` is a sliding window.
pub open spec fn limiter_is(c: LimiterConfig, es: Seq<Entry>) -> bool {
    &&& c.rate == match last_text(es, Keyword::Rate) {
        Some(t) => spec_rate(t),
        None => LimiterRate { requests: 60, per_seconds: 60 },
    }
    &&& c.burst == match last_written(es, Keyword::Burst) {
        Some(w) => spec_number(w),
        None => 15u64,
    }
    &&& c.algorithm == match last_text(es, Keyword::Algorithm) {
        Some(t) => if spec_keyword(t) == Keyword::TokenBucket {
            RateLimitAlgorithm::TokenBucket
        } else {
            RateLimitAlgorithm::SlidingWindow
        },
        None => RateLimitAlgorithm::SlidingWindow,
    }
    &&& match last_text(es, Keyword::Identifier) {
        Some(t) => identifier_is(c.identifier, t),
        None => c.identifier is Ip,
    }
    &&& view_strings(c.excludes@) == or_none(last_texts(es, Keyword::Excludes))
}

/// The rate limiter settings of `es` (see `limiter_is`).
pub fn limiter_settings(es: &Vec<Entry>) -> (c: LimiterConfig)
    ensures
        limiter_is(c, es@),
{
    let rate = match last_text_of(es, Keyword::Rate) {
        Some(t) => parse_rate(t.as_str()),
        None => LimiterRate { requests: 60, per_seconds: 60 },
    };
    let burst = match last_written_of(es, Keyword::Burst) {
        Some(w) => extract_number(w.as_str()),
        None => 15,
    };
    let algorithm = match last_text_of(es, Keyword::Algorithm) {
        Some(t) => if keyword(t.as_str()) == Keyword::TokenBucket {
            RateLimitAlgorithm::TokenBucket
        } else {
            RateLimitAlgorithm::SlidingWindow
        },
        None => RateLimitAlgorithm::SlidingWindow,
    };
    let identifier = match last_text_of(es, Keyword::Identifier) {
        Some(t) => if keyword(t.as_str()) == Keyword::Ip {
            LimiterIdentifier::Ip
        } else {
            LimiterIdentifier::Header(t)
        },
        None => LimiterIdentifier::Ip,
    };
    let excludes = texts_or_none(last_texts_of(es, Keyword::Excludes));
    LimiterConfig { rate, burst, algorithm, identifier, excludes }
}

/// The last `enabled` of `es` is something other than `true`.
pub open spec fn waf_disabled(es: Seq<Entry>) -> bool {
    last_written(es, Keyword::Enabled) is Some && !is_true(last_written(es, Keyword::Enabled))
}

/// `c` holds the firewall settings of `es`, with the defaults of
/// `WafConfig` for what they do not give; any `mode` but `detection_only`
/// blocks. With `rules`, the rules are those of the last `rules` block.
pub open spec fn waf_is(c: WafConfig, es: Seq<Entry>, rules: bool) -> bool {
    &&& c.enabled == match last_written(es, Keyword::Enabled) {
        Some(w) => w == "true"@,
        None => true,
    }
    &&& c.mode == match last_text(es, Keyword::Mode) {
        Some(t) => if spec_keyword(t) == Keyword::DetectionOnly {
            WafMode::DetectionOnly
        } else {
            WafMode::Blocking
        },
        None => WafMode::Blocking,
    }
    &&& c.max_body_size == match last_written(es, Keyword::MaxBodySize) {
        Some(w) => spec_size_bytes(w),
        None => 1048576usize,
    }
    &&& c.anomaly_threshold == match last_written(es, Keyword::AnomalyThreshold) {
        Some(w) => spec_number(w) as u32,
        None => 5u32,
    }
    &&& view_strings(c.excludes@) == or_none(last_texts(es, Keyword::Excludes))
    &&& if rules {
        match last_block(es, Keyword::Rules) {
            Some(b) => rules_error(b) is None && rules_are(c.rules@, b),
            None => c.rules@.len() == 0,
        }
    } else {
        c.rules@.len() == 0
    }
}

/// The firewall settings of `es` without rules (see `waf_is`).
pub fn waf_settings(es: &Vec<Entry>) -> (c: WafConfig)
    ensures
        waf_is(c, es@, false),
{
    let enabled = match last_written_of(es, Keyword::Enabled) {
        Some(w) => {
            let t = "true".to_owned();
            w == t
        },
        None => true,
    };
    let mode = match last_text_of(es, Keyword::Mode) {
        Some(t) => if keyword(t.as_str()) == Keyword::DetectionOnly {
            WafMode::DetectionOnly
        } else {
            WafMode::Blocking
        },
        None => WafMode::Blocking,
    };
    let max_body_size = match last_written_of(es, Keyword::MaxBodySize) {
        Some(w) => parse_size_to_bytes(w.as_str()),
        None => 1048576,
    };
    let anomaly_threshold = match last_written_of(es, Keyword::AnomalyThreshold) {
        Some(w) => extract_number(w.as_str()) as u32,
        None => 5,
    };
    let excludes = texts_or_none(last_texts_of(es, Keyword::Excludes));
    WafConfig { enabled, mode, max_body_size, anomaly_threshold, excludes, rules: Vec::new() }
}

// ============================================================================
// FIREWALL RULES
// ============================================================================

/// The label of `k "label" { ... }`.
pub open spec fn label_of(en: Entry) -> Seq<char> {
    en.head@[1].text@
}

pub open spec fn spec_phase(k: Keyword) -> Option<WafPhase> {
    match k {
        Keyword::RequestHeaders => Some(WafPhase::RequestHeaders),
        Keyword::RequestBody => Some(WafPhase::RequestBody),
        Keyword::ResponseHeaders => Some(WafPhase::ResponseHeaders),
        Keyword::ResponseBody => Some(WafPhase::ResponseBody),
        _ => None,
    }
}

pub open spec fn spec_action(k: Keyword) -> Option<WafAction> {
    match k {
        Keyword::Block => Some(WafAction::Block),
        Keyword::Log => Some(WafAction::Log),
        Keyword::Challenge => Some(WafAction::Challenge),
        Keyword::Allow => Some(WafAction::Allow),
        _ => None,
    }
}

/// The error of an entry of the rule `id`: a phase, condition or action
/// that is not one of theirs, or an entry a rule does not have.
pub open spec fn rule_entry_error(en: Entry, id: Seq<char>) -> Option<Seq<char>> {
    if assigns_text(en, Keyword::Phase) {
        if spec_phase(spec_keyword(assigned_text(en))) is None {
            Some(
                "invalid phase '"@ + assigned_text(en)
                    + "': expected request_headers, request_body, response_headers, or response_body"@,
            )
        } else {
            None
        }
    } else if assigns_text(en, Keyword::Condition) {
        if assigned_written(en) == "sql_token_match"@ {
            None
        } else {
            Some("invalid condition '"@ + assigned_written(en) + "': expected sql_token_match"@)
        }
    } else if assigns_text(en, Keyword::Action) {
        if spec_action(spec_keyword(assigned_text(en))) is None {
            Some(
                "invalid action '"@ + assigned_text(en)
                    + "': expected block, log, challenge, or allow"@,
            )
        } else {
            None
        }
    } else if assigns_text(en, Keyword::Score) {
        None
    } else {
        Some("unexpected entry in rule '"@ + id + "'"@)
    }
}

pub open spec fn rule_err_fn(id: Seq<char>) -> spec_fn(Entry) -> Option<Seq<char>> {
    |en: Entry| rule_entry_error(en, id)
}

/// The error of an entry of a `rules` block: that of the first entry of a
/// rule that has one.
pub open spec fn rules_entry_error(en: Entry) -> Option<Seq<char>> {
    if opens_labelled(en, Keyword::Rule) {
        first_error(block_of(en), rule_err_fn(label_of(en)))
    } else {
        None
    }
}

pub open spec fn rules_err_fn() -> spec_fn(Entry) -> Option<Seq<char>> {
    |en: Entry| rules_entry_error(en)
}

pub open spec fn rules_error(es: Seq<Entry>) -> Option<Seq<char>> {
    first_error(es, rules_err_fn())
}

/// The `rule "id" { ... }` entries of `es`, in order.
pub open spec fn rule_entries(es: Seq<Entry>) -> Seq<Entry>
    decreases es.len(),
{
    if es.len() == 0 {
        Seq::empty()
    } else if opens_labelled(es.last(), Keyword::Rule) {
        rule_entries(es.drop_last()).push(es.last())
    } else {
        rule_entries(es.drop_last())
    }
}

/// `r` is the rule of `en`: its id, and its phase, action and score
/// (request body, block and 5 when not given).
pub open spec fn rule_is(r: WafRule, en: Entry) -> bool {
    let b = block_of(en);
    &&& r.id@ == label_of(en)
    &&& r.phase == match last_text(b, Keyword::Phase) {
        Some(t) => spec_phase(spec_keyword(t))->0,
        None => WafPhase::RequestBody,
    }
    &&& r.condition == WafCondition::SqlTokenMatch
    &&& r.action == match last_text(b, Keyword::Action) {
        Some(t) => spec_action(spec_keyword(t))->0,
        None => WafAction::Block,
    }
    &&& r.score == match last_written(b, Keyword::Score) {
        Some(w) => spec_number(w) as u32,
        None => 5u32,
    }
}

pub open spec fn rules_are(rs: Seq<WafRule>, es: Seq<Entry>) -> bool {
    &&& rs.len() == rule_entries(es).len()
    &&& forall|i: int| 0 <= i < rs.len() ==> rule_is(#[trigger] rs[i], rule_entries(es)[i])
}

fn rule_entry_error_of(en: &Entry, id: &String) -> (r: Option<String>)
    ensures
        opt_view(r) == rule_entry_error(*en, id@),
{
    let k = head_keyword(en);
    let single = en.head.len() == 1;
    if let Body::Assign(x) = &en.body {
        if let Value::Text(a) = x {
            if single && k == Keyword::Phase {
                return match keyword(a.text.as_str()) {
                    Keyword::RequestHeaders | Keyword::RequestBody | Keyword::ResponseHeaders
                    | Keyword::ResponseBody => None,
                    _ => {
                        let mut m = "invalid phase '".to_owned();
                        m.append(a.text.as_str());
                        m.append(
                            "': expected request_headers, request_body, response_headers, or response_body",
                        );
                        Some(m)
                    },
                };
            } else if single && k == Keyword::Condition {
                let w = written_value(x).unwrap();
                let expected = "sql_token_match".to_owned();
                if w == expected {
                    return None;
                } else {
                    let mut m = "invalid condition '".to_owned();
                    m.append(w.as_str());
                    m.append("': expected sql_token_match");
                    return Some(m);
                }
            } else if single && k == Keyword::Action {
                return match keyword(a.text.as_str()) {
                    Keyword::Block | Keyword::Log | Keyword::Challenge | Keyword::Allow => None,
                    _ => {
                        let mut m = "invalid action '".to_owned();
                        m.append(a.text.as_str());
                        m.append("': expected block, log, challenge, or allow");
                        Some(m)
                    },
                };
            } else if single && k == Keyword::Score {
                return None;
            }
        }
    }
    let mut m = "unexpected entry in rule '".to_owned();
    m.append(id.as_str());
    m.append("'");
    Some(m)
}

/// The first error among `es` that `rule_entry_error` gives for the rule `id`.
fn rule_error_of(es: &Vec<Entry>, id: &String) -> (r: Option<String>)
    ensures
        opt_view(r) == first_error(es@, rule_err_fn(id@)),
{
    let mut i: usize = 0;
    while i < es.len()
        invariant
            0 <= i <= es@.len(),
            first_error(es@.take(i as int), rule_err_fn(id@)) is None,
        decreases es@.len() - i,
    {
        proof {
            lemma_first_error_step(es@, i as int, rule_err_fn(id@));
        }
        match rule_entry_error_of(&es[i], id) {
            Some(m) => {
                proof {
                    lemma_first_error_prefix(es@, i + 1, rule_err_fn(id@));
                }
                return Some(m);
            },
            None => {},
        }
        i = i + 1;
    }
    assert(es@.take(es@.len() as int) =~= es@);
    None
}

fn read_rule(en: &Entry) -> (r: Result<WafRule, String>)
    requires
        opens_labelled(*en, Keyword::Rule),
    ensures
        match r {
            Ok(rule) => rules_entry_error(*en) is None && rule_is(rule, *en),
            Err(m) => rules_entry_error(*en) == Some(m@),
        },
{
    let id = en.head[1].text.clone();
    let b = match &en.body {
        Body::Block(b) => b,
        _ => {
            return Err(String::new());
        },
    };
    match rule_error_of(b, &id) {
        Some(m) => {
            return Err(m);
        },
        None => {},
    }
    let phase = match last_text_of(b, Keyword::Phase) {
        Some(t) => match keyword(t.as_str()) {
            Keyword::RequestHeaders => WafPhase::RequestHeaders,
            Keyword::ResponseHeaders => WafPhase::ResponseHeaders,
            Keyword::ResponseBody => WafPhase::ResponseBody,
            _ => WafPhase::RequestBody,
        },
        None => WafPhase::RequestBody,
    };
    let action = match last_text_of(b, Keyword::Action) {
        Some(t) => match keyword(t.as_str()) {
            Keyword::Log => WafAction::Log,
            Keyword::Challenge => WafAction::Challenge,
            Keyword::Allow => WafAction::Allow,
            _ => WafAction::Block,
        },
        None => WafAction::Block,
    };
    let score = match last_written_of(b, Keyword::Score) {
        Some(w) => extract_number(w.as_str()) as u32,
        None => 5,
    };
    proof {
        lemma_no_error_last(b@, rule_err_fn(id@), text_pred(Keyword::Phase));
        lemma_no_error_last(b@, rule_err_fn(id@), text_pred(Keyword::Action));
    }
    Ok(WafRule { id, phase, condition: WafCondition::SqlTokenMatch, action, score })
}

/// The rules of a `rules { ... }` block.
pub fn parse_rules_block(es: &Vec<Entry>) -> (r: Result<Vec<WafRule>, String>)
    ensures
        match r {
            Ok(rs) => rules_error(es@) is None && rules_are(rs@, es@),
            Err(m) => rules_error(es@) == Some(m@),
        },
{
    let mut out: Vec<WafRule> = Vec::new();
    let mut i: usize = 0;
    while i < es.len()
        invariant
            0 <= i <= es@.len(),
            first_error(es@.take(i as int), rules_err_fn()) is None,
            rules_are(out@, es@.take(i as int)),
        decreases es@.len() - i,
    {
        proof {
            lemma_first_error_step(es@, i as int, rules_err_fn());
            assert(es@.take(i + 1).drop_last() =~= es@.take(i as int));
        }
        let en = &es[i];
        let ghost before = out@;
        if en.head.len() == 2 && head_keyword(en) == Keyword::Rule {
            if let Body::Block(_) = &en.body {
                match read_rule(en) {
                    Ok(rule) => {
                        out.push(rule);
                        proof {
                            assert forall|j: int| 0 <= j < out@.len() implies rule_is(
                                #[trigger] out@[j],
                                rule_entries(es@.take(i + 1))[j],
                            ) by {
                                if j < before.len() {
                                    assert(out@[j] == before[j]);
                                }
                            }
                        }
                    },
                    Err(m) => {
                        proof {
                            lemma_first_error_prefix(es@, i + 1, rules_err_fn());
                        }
                        return Err(m);
                    },
                }
            }
        }
        i = i + 1;
    }
    assert(es@.take(es@.len() as int) =~= es@);
    Ok(out)
}

// ============================================================================
// POLICY DECLARATIONS
// ============================================================================

pub open spec fn unexpected(kind: Seq<char>, name: Seq<char>) -> Seq<char> {
    "unexpected entry in "@ + kind + " policy '"@ + name + "'"@
}

pub open spec fn auth_entry_error(en: Entry, name: Seq<char>) -> Option<Seq<char>> {
    if assigns_text(en, Keyword::Issuer) || assigns_text(en, Keyword::ClientId) || assigns_text(
        en,
        Keyword::ClientSecret,
    ) || assigns_text(en, Keyword::JwksUri) || assigns(en, Keyword::Audience) || assigns_texts(
        en,
        Keyword::Excludes,
    ) || opens(en, Keyword::Sources) || opens(en, Keyword::Refresh) {
        None
    } else {
        Some(unexpected("auth"@, name))
    }
}

pub open spec fn waf_entry_error(en: Entry, name: Seq<char>) -> Option<Seq<char>> {
    if assigns_text(en, Keyword::Enabled) || assigns_text(en, Keyword::MaxBodySize) || assigns_text(
        en,
        Keyword::AnomalyThreshold,
    ) || assigns_texts(en, Keyword::Excludes) {
        None
    } else if assigns_text(en, Keyword::Mode) {
        let k = spec_keyword(assigned_text(en));
        if k == Keyword::DetectionOnly || k == Keyword::Blocking {
            None
        } else {
            Some(
                "invalid waf mode '"@ + assigned_text(en)
                    + "': expected detection_only or blocking"@,
            )
        }
    } else if opens(en, Keyword::Rules) {
        rules_error(block_of(en))
    } else {
        Some(unexpected("waf"@, name))
    }
}

pub open spec fn cors_entry_error(en: Entry, name: Seq<char>) -> Option<Seq<char>> {
    if assigns_texts(en, Keyword::AllowOrigin) || assigns_texts(en, Keyword::AllowMethods)
        || assigns_texts(en, Keyword::AllowHeaders) || assigns_texts(en, Keyword::Excludes)
        || assigns_text(en, Keyword::AllowCredentials) || assigns_text(en, Keyword::MaxAge) {
        None
    } else {
        Some(unexpected("cors"@, name))
    }
}

pub open spec fn limiter_entry_error(en: Entry, name: Seq<char>) -> Option<Seq<char>> {
    if assigns_text(en, Keyword::Rate) || assigns_text(en, Keyword::Burst) || assigns_text(
        en,
        Keyword::Identifier,
    ) || assigns_texts(en, Keyword::Excludes) {
        None
    } else if assigns_text(en, Keyword::Algorithm) {
        let k = spec_keyword(assigned_text(en));
        if k == Keyword::TokenBucket || k == Keyword::SlidingWindow {
            None
        } else {
            Some(
                "invalid limiter algorithm '"@ + assigned_text(en)
                    + "': expected token_bucket or sliding_window"@,
            )
        }
    } else {
        Some(unexpected("limiter"@, name))
    }
}

pub open spec fn auth_err_fn(name: Seq<char>) -> spec_fn(Entry) -> Option<Seq<char>> {
    |en: Entry| auth_entry_error(en, name)
}

pub open spec fn waf_err_fn(name: Seq<char>) -> spec_fn(Entry) -> Option<Seq<char>> {
    |en: Entry| waf_entry_error(en, name)
}

pub open spec fn cors_err_fn(name: Seq<char>) -> spec_fn(Entry) -> Option<Seq<char>> {
    |en: Entry| cors_entry_error(en, name)
}

pub open spec fn limiter_err_fn(name: Seq<char>) -> spec_fn(Entry) -> Option<Seq<char>> {
    |en: Entry| limiter_entry_error(en, name)
}

/// `en` is `policy kind "name" { ... }`.
pub open spec fn is_policy(en: Entry) -> bool {
    en.head@.len() == 3 && head_key(en) == Keyword::Policy && en.body is Block
}

pub open spec fn policy_kind(en: Entry) -> Keyword {
    spec_keyword(en.head@[1].text@)
}

pub open spec fn policy_name(en: Entry) -> Seq<char> {
    en.head@[2].text@
}

/// The error of a policy declaration: an unknown kind, or the first error
/// among its entries.
pub open spec fn policy_error(en: Entry) -> Option<Seq<char>> {
    let name = policy_name(en);
    let b = block_of(en);
    match policy_kind(en) {
        Keyword::Auth => first_error(b, auth_err_fn(name)),
        Keyword::Waf => first_error(b, waf_err_fn(name)),
        Keyword::Cors => first_error(b, cors_err_fn(name)),
        Keyword::Limiter => first_error(b, limiter_err_fn(name)),
        _ => Some("unknown policy type '"@ + en.head@[1].text@ + "'"@),
    }
}

/// `p` holds the one policy that `en` declares.
pub open spec fn policy_config_is(p: PolicyConfig, en: Entry) -> bool {
    let name = policy_name(en);
    let b = block_of(en);
    match policy_kind(en) {
        Keyword::Auth => p.auth matches Some(v) && v@.len() == 1 && v@[0].0@ == name && auth_is(
            v@[0].1,
            b,
            true,
        ) && p.waf is None && p.cors is None && p.limiter is None,
        Keyword::Waf => p.waf matches Some(v) && v@.len() == 1 && v@[0].0@ == name && waf_is(
            v@[0].1,
            b,
            true,
        ) && p.auth is None && p.cors is None && p.limiter is None,
        Keyword::Cors => p.cors matches Some(v) && v@.len() == 1 && v@[0].0@ == name && cors_is(
            v@[0].1,
            b,
        ) && p.auth is None && p.waf is None && p.limiter is None,
        _ => p.limiter matches Some(v) && v@.len() == 1 && v@[0].0@ == name && limiter_is(
            v@[0].1,
            b,
        ) && p.auth is None && p.waf is None && p.cors is None,
    }
}

fn unexpected_of(kind: &str, name: &String) -> (m: String)
    ensures
        m@ == unexpected(kind@, name@),
{
    let mut m = "unexpected entry in ".to_owned();
    m.append(kind);
    m.append(" policy '");
    m.append(name.as_str());
    m.append("'");
    m
}

fn is_text_entry(en: &Entry, k: Keyword) -> (b: bool)
    ensures
        b == assigns_text(*en, k),
{
    if en.head.len() == 1 && head_keyword(en) == k {
        if let Body::Assign(Value::Text(_)) = &en.body {
            return true;
        }
    }
    false
}

fn is_assign_entry(en: &Entry, k: Keyword) -> (b: bool)
    ensures
        b == assigns(*en, k),
{
    if en.head.len() == 1 && head_keyword(en) == k {
        if let Body::Assign(_) = &en.body {
            return true;
        }
    }
    false
}

fn is_texts_entry(en: &Entry, k: Keyword) -> (b: bool)
    ensures
        b == assigns_texts(*en, k),
{
    if en.head.len() == 1 && head_keyword(en) == k {
        if let Body::Assign(x) = &en.body {
            return extract_array(x).is_some();
        }
    }
    false
}

fn is_block_entry(en: &Entry, k: Keyword) -> (b: bool)
    ensures
        b == opens(*en, k),
{
    if en.head.len() == 1 && head_keyword(en) == k {
        if let Body::Block(_) = &en.body {
            return true;
        }
    }
    false
}

fn assigned_text_of(en: &Entry) -> (t: String)
    requires
        en.body is Assign && en.body->Assign_0 is Text,
    ensures
        t@ == assigned_text(*en),
{
    match &en.body {
        Body::Assign(Value::Text(a)) => a.text.clone(),
        _ => String::new(),
    }
}

fn auth_entry_error_of(en: &Entry, name: &String) -> (r: Option<String>)
    ensures
        opt_view(r) == auth_entry_error(*en, name@),
{
    if is_text_entry(en, Keyword::Issuer) || is_text_entry(en, Keyword::ClientId) || is_text_entry(
        en,
        Keyword::ClientSecret,
    ) || is_text_entry(en, Keyword::JwksUri) || is_assign_entry(en, Keyword::Audience)
        || is_texts_entry(en, Keyword::Excludes) || is_block_entry(en, Keyword::Sources)
        || is_block_entry(en, Keyword::Refresh) {
        None
    } else {
        Some(unexpected_of("auth", name))
    }
}

fn waf_entry_error_of(en: &Entry, name: &String) -> (r: Option<String>)
    ensures
        opt_view(r) == waf_entry_error(*en, name@),
{
    if is_text_entry(en, Keyword::Enabled) || is_text_entry(en, Keyword::MaxBodySize)
        || is_text_entry(en, Keyword::AnomalyThreshold) || is_texts_entry(en, Keyword::Excludes) {
        None
    } else if is_text_entry(en, Keyword::Mode) {
        let t = assigned_text_of(en);
        let k = keyword(t.as_str());
        if k == Keyword::DetectionOnly || k == Keyword::Blocking {
            None
        } else {
            let mut m = "invalid waf mode '".to_owned();
            m.append(t.as_str());
            m.append("': expected detection_only or blocking");
            Some(m)
        }
    } else if is_block_entry(en, Keyword::Rules) {
        match &en.body {
            Body::Block(b) => match parse_rules_block(b) {
                Ok(_) => None,
                Err(m) => Some(m),
            },
            _ => None,
        }
    } else {
        Some(unexpected_of("waf", name))
    }
}

fn cors_entry_error_of(en: &Entry, name: &String) -> (r: Option<String>)
    ensures
        opt_view(r) == cors_entry_error(*en, name@),
{
    if is_texts_entry(en, Keyword::AllowOrigin) || is_texts_entry(en, Keyword::AllowMethods)
        || is_texts_entry(en, Keyword::AllowHeaders) || is_texts_entry(en, Keyword::Excludes)
        || is_text_entry(en, Keyword::AllowCredentials) || is_text_entry(en, Keyword::MaxAge) {
        None
    } else {
        Some(unexpected_of("cors", name))
    }
}

fn limiter_entry_error_of(en: &Entry, name: &String) -> (r: Option<String>)
    ensures
        opt_view(r) == limiter_entry_error(*en, name@),
{
    if is_text_entry(en, Keyword::Rate) || is_text_entry(en, Keyword::Burst) || is_text_entry(
        en,
        Keyword::Identifier,
    ) || is_texts_entry(en, Keyword::Excludes) {
        None
    } else if is_text_entry(en, Keyword::Algorithm) {
        let t = assigned_text_of(en);
        let k = keyword(t.as_str());
        if k == Keyword::TokenBucket || k == Keyword::SlidingWindow {
            None
        } else {
            let mut m = "invalid limiter algorithm '".to_owned();
            m.append(t.as_str());
            m.append("': expected token_bucket or sliding_window");
            Some(m)
        }
    } else {
        Some(unexpected_of("limiter", name))
    }
}

/// The first error among the entries of a policy of kind `kind` named `name`.
fn policy_entries_error(es: &Vec<Entry>, kind: Keyword, name: &String) -> (r: Option<String>)
    requires
        kind == Keyword::Auth || kind == Keyword::Waf || kind == Keyword::Cors || kind
            == Keyword::Limiter,
    ensures
        opt_view(r) == first_error(
            es@,
            match kind {
                Keyword::Auth => auth_err_fn(name@),
                Keyword::Waf => waf_err_fn(name@),
                Keyword::Cors => cors_err_fn(name@),
                _ => limiter_err_fn(name@),
            },
        ),
{
    let ghost f = match kind {
        Keyword::Auth => auth_err_fn(name@),
        Keyword::Waf => waf_err_fn(name@),
        Keyword::Cors => cors_err_fn(name@),
        _ => limiter_err_fn(name@),
    };
    let mut i: usize = 0;
    while i < es.len()
        invariant
            0 <= i <= es@.len(),
            f == match kind {
                Keyword::Auth => auth_err_fn(name@),
                Keyword::Waf => waf_err_fn(name@),
                Keyword::Cors => cors_err_fn(name@),
                _ => limiter_err_fn(name@),
            },
            first_error(es@.take(i as int), f) is None,
        decreases es@.len() - i,
    {
        proof {
            lemma_first_error_step(es@, i as int, f);
        }
        let e = match kind {
            Keyword::Auth => auth_entry_error_of(&es[i], name),
            Keyword::Waf => waf_entry_error_of(&es[i], name),
            Keyword::Cors => cors_entry_error_of(&es[i], name),
            _ => limiter_entry_error_of(&es[i], name),
        };
        match e {
            Some(m) => {
                proof {
                    lemma_first_error_prefix(es@, i + 1, f);
                }
                return Some(m);
            },
            None => {},
        }
        i = i + 1;
    }
    assert(es@.take(es@.len() as int) =~= es@);
    None
}

/// The firewall settings of a declared `waf` policy, rules included.
fn waf_policy_settings(es: &Vec<Entry>) -> (r: Result<WafConfig, String>)
    ensures
        match r {
            Ok(c) => waf_is(c, es@, true),
            Err(m) => match last_block(es@, Keyword::Rules) {
                Some(b) => rules_error(b) == Some(m@),
                None => false,
            },
        },
{
    let mut c = waf_settings(es);
    match last_block_of(es, Keyword::Rules) {
        Some(b) => match parse_rules_block(b) {
            Ok(rs) => {
                c.rules = rs;
            },
            Err(m) => {
                return Err(m);
            },
        },
        None => {},
    }
    Ok(c)
}

/// Reads a declaration `policy kind "name" { ... }` of an authentication
/// (`auth`), firewall (`waf`), CORS (`cors`) or rate limiting (`limiter`)
/// policy: its kind, its name, and the policy, alone in its list.
pub fn parse_policy_block(en: &Entry) -> (r: Result<(String, String, PolicyConfig), String>)
    requires
        is_policy(*en),
    ensures
        match r {
            Ok((kind, name, p)) => policy_error(*en) is None && kind@ == en.head@[1].text@
                && name@ == policy_name(*en) && policy_config_is(p, *en),
            Err(m) => policy_error(*en) == Some(m@),
        },
{
    let kind = en.head[1].text.clone();
    let name = en.head[2].text.clone();
    let b = match &en.body {
        Body::Block(b) => b,
        _ => {
            return Err(String::new());
        },
    };
    let k = keyword(kind.as_str());
    if !(k == Keyword::Auth || k == Keyword::Waf || k == Keyword::Cors || k == Keyword::Limiter) {
        let mut m = "unknown policy type '".to_owned();
        m.append(kind.as_str());
        m.append("'");
        return Err(m);
    }
    match policy_entries_error(b, k, &name) {
        Some(m) => {
            return Err(m);
        },
        None => {},
    }
    let mut auth: Option<Vec<(String, OAuthConfig)>> = None;
    let mut waf: Option<Vec<(String, WafConfig)>> = None;
    let mut cors: Option<Vec<(String, CorsConfig)>> = None;
    let mut limiter: Option<Vec<(String, LimiterConfig)>> = None;
    if k == Keyword::Auth {
        let mut v = Vec::new();
        v.push((name.clone(), auth_settings(b, true)));
        auth = Some(v);
    } else if k == Keyword::Waf {
        proof {
            lemma_no_error_last(b@, waf_err_fn(name@), block_pred(Keyword::Rules));
        }
        let c = match waf_policy_settings(b) {
            Ok(c) => c,
            Err(m) => {
                return Err(m);
            },
        };
        let mut v = Vec::new();
        v.push((name.clone(), c));
        waf = Some(v);
    } else if k == Keyword::Cors {
        let mut v = Vec::new();
        v.push((name.clone(), cors_settings(b)));
        cors = Some(v);
    } else {
        let mut v = Vec::new();
        v.push((name.clone(), limiter_settings(b)));
        limiter = Some(v);
    }
    Ok((kind, name, PolicyConfig { auth, cors, waf, limiter }))
}

// ============================================================================
// ROUTE POLICIES
// ============================================================================

/// `en` is `kind extends "base" { ... }`.
pub open spec fn extends_entry(en: Entry, k: Keyword) -> bool {
    &&& en.head@.len() == 3
    &&& head_key(en) == k
    &&& spec_keyword(en.head@[1].text@) == Keyword::Extends
    &&& en.body is Block
}

/// `en` gives the route a policy of kind `k`: `k = "name"`, `k extends
/// "base" { ... }` or `k { ... }`; a firewall whose settings turn it off
/// (`enabled` other than `true`) gives none.
pub open spec fn sets_policy(en: Entry, k: Keyword) -> bool {
    ||| assigns_text(en, k)
    ||| (extends_entry(en, k) || opens(en, k)) && !(k == Keyword::Waf && waf_disabled(block_of(en)))
}

pub open spec fn policy_pred(k: Keyword) -> spec_fn(Entry) -> bool {
    |en: Entry| sets_policy(en, k)
}

/// The authentication policy of the entries `es` of a route's `policies`
/// block: that of the last entry that gives one.
pub open spec fn route_auth_is(p: Option<RouteAuthPolicy>, es: Seq<Entry>) -> bool {
    match last_where(es, policy_pred(Keyword::Auth)) {
        None => p is None,
        Some(en) => match p {
            Some(RouteAuthPolicy::Reference(n)) => assigns_text(en, Keyword::Auth) && n@
                == assigned_text(en),
            Some(RouteAuthPolicy::Override { base, config }) => extends_entry(en, Keyword::Auth)
                && base@ == en.head@[2].text@ && auth_is(config, block_of(en), true),
            Some(RouteAuthPolicy::Local(c)) => opens(en, Keyword::Auth) && auth_is(
                c,
                block_of(en),
                false,
            ),
            None => false,
        },
    }
}

pub open spec fn route_waf_is(p: Option<RouteWafPolicy>, es: Seq<Entry>) -> bool {
    match last_where(es, policy_pred(Keyword::Waf)) {
        None => p is None,
        Some(en) => match p {
            Some(RouteWafPolicy::Reference(n)) => assigns_text(en, Keyword::Waf) && n@
                == assigned_text(en),
            Some(RouteWafPolicy::Override { base, config }) => extends_entry(en, Keyword::Waf)
                && base@ == en.head@[2].text@ && waf_is(config, block_of(en), false),
            Some(RouteWafPolicy::Local(c)) => opens(en, Keyword::Waf) && waf_is(
                c,
                block_of(en),
                false,
            ),
            None => false,
        },
    }
}

pub open spec fn route_cors_is(p: Option<RouteCorsPolicy>, es: Seq<Entry>) -> bool {
    match last_where(es, policy_pred(Keyword::Cors)) {
        None => p is None,
        Some(en) => match p {
            Some(RouteCorsPolicy::Reference(n)) => assigns_text(en, Keyword::Cors) && n@
                == assigned_text(en),
            Some(RouteCorsPolicy::Override { base, config }) => extends_entry(en, Keyword::Cors)
                && base@ == en.head@[2].text@ && cors_is(config, block_of(en)),
            Some(RouteCorsPolicy::Local(c)) => opens(en, Keyword::Cors) && cors_is(
                c,
                block_of(en),
            ),
            None => false,
        },
    }
}

pub open spec fn route_limiter_is(p: Option<RouteLimiterPolicy>, es: Seq<Entry>) -> bool {
    match last_where(es, policy_pred(Keyword::Limiter)) {
        None => p is None,
        Some(en) => match p {
            Some(RouteLimiterPolicy::Reference(n)) => assigns_text(en, Keyword::Limiter) && n@
                == assigned_text(en),
            Some(RouteLimiterPolicy::Override { base, config }) => extends_entry(
                en,
                Keyword::Limiter,
            ) && base@ == en.head@[2].text@ && limiter_is(config, block_of(en)),
            Some(RouteLimiterPolicy::Local(c)) => opens(en, Keyword::Limiter) && limiter_is(
                c,
                block_of(en),
            ),
            None => false,
        },
    }
}

fn is_extends_entry(en: &Entry, k: Keyword) -> (b: bool)
    ensures
        b == extends_entry(*en, k),
{
    if en.head.len() == 3 && head_keyword(en) == k && keyword(en.head[1].text.as_str())
        == Keyword::Extends {
        if let Body::Block(_) = &en.body {
            return true;
        }
    }
    false
}

fn waf_disabled_exec(es: &Vec<Entry>) -> (b: bool)
    ensures
        b == waf_disabled(es@),
{
    let w = last_written_of(es, Keyword::Enabled);
    match &w {
        Some(_) => !is_true_exec(&w),
        None => false,
    }
}

fn block_entries_of(en: &Entry) -> (b: &Vec<Entry>)
    requires
        en.body is Block,
    ensures
        b@ == block_of(*en),
{
    match &en.body {
        Body::Block(b) => b,
        _ => vstd::pervasive::unreached(),
    }
}

fn route_auth(es: &Vec<Entry>) -> (p: Option<RouteAuthPolicy>)
    ensures
        route_auth_is(p, es@),
{
    let mut p: Option<RouteAuthPolicy> = None;
    let mut i: usize = 0;
    while i < es.len()
        invariant
            0 <= i <= es@.len(),
            route_auth_is(p, es@.take(i as int)),
        decreases es@.len() - i,
    {
        proof {
            lemma_last_where_step(es@, i as int, policy_pred(Keyword::Auth));
        }
        let en = &es[i];
        if is_text_entry(en, Keyword::Auth) {
            p = Some(RouteAuthPolicy::Reference(assigned_text_of(en)));
        } else if is_extends_entry(en, Keyword::Auth) {
            p = Some(
                RouteAuthPolicy::Override {
                    base: en.head[2].text.clone(),
                    config: auth_settings(block_entries_of(en), true),
                },
            );
        } else if is_block_entry(en, Keyword::Auth) {
            p = Some(RouteAuthPolicy::Local(auth_settings(block_entries_of(en), false)));
        }
        i = i + 1;
    }
    assert(es@.take(es@.len() as int) =~= es@);
    p
}

fn route_waf(es: &Vec<Entry>) -> (p: Option<RouteWafPolicy>)
    ensures
        route_waf_is(p, es@),
{
    let mut p: Option<RouteWafPolicy> = None;
    let mut i: usize = 0;
    while i < es.len()
        invariant
            0 <= i <= es@.len(),
            route_waf_is(p, es@.take(i as int)),
        decreases es@.len() - i,
    {
        proof {
            lemma_last_where_step(es@, i as int, policy_pred(Keyword::Waf));
        }
        let en = &es[i];
        if is_text_entry(en, Keyword::Waf) {
            p = Some(RouteWafPolicy::Reference(assigned_text_of(en)));
        } else if is_extends_entry(en, Keyword::Waf) {
            let b = block_entries_of(en);
            if !waf_disabled_exec(b) {
                p = Some(
                    RouteWafPolicy::Override {
                        base: en.head[2].text.clone(),
                        config: waf_settings(b),
                    },
                );
            }
        } else if is_block_entry(en, Keyword::Waf) {
            let b = block_entries_of(en);
            if !waf_disabled_exec(b) {
                p = Some(RouteWafPolicy::Local(waf_settings(b)));
            }
        }
        i = i + 1;
    }
    assert(es@.take(es@.len() as int) =~= es@);
    p
}

fn route_cors(es: &Vec<Entry>) -> (p: Option<RouteCorsPolicy>)
    ensures
        route_cors_is(p, es@),
{
    let mut p: Option<RouteCorsPolicy> = None;
    let mut i: usize = 0;
    while i < es.len()
        invariant
            0 <= i <= es@.len(),
            route_cors_is(p, es@.take(i as int)),
        decreases es@.len() - i,
    {
        proof {
            lemma_last_where_step(es@, i as int, policy_pred(Keyword::Cors));
        }
        let en = &es[i];
        if is_text_entry(en, Keyword::Cors) {
            p = Some(RouteCorsPolicy::Reference(assigned_text_of(en)));
        } else if is_extends_entry(en, Keyword::Cors) {
            p = Some(
                RouteCorsPolicy::Override {
                    base: en.head[2].text.clone(),
                    config: cors_settings(block_entries_of(en)),
                },
            );
        } else if is_block_entry(en, Keyword::Cors) {
            p = Some(RouteCorsPolicy::Local(cors_settings(block_entries_of(en))));
        }
        i = i + 1;
    }
    assert(es@.take(es@.len() as int) =~= es@);
    p
}

fn route_limiter(es: &Vec<Entry>) -> (p: Option<RouteLimiterPolicy>)
    ensures
        route_limiter_is(p, es@),
{
    let mut p: Option<RouteLimiterPolicy> = None;
    let mut i: usize = 0;
    while i < es.len()
        invariant
            0 <= i <= es@.len(),
            route_limiter_is(p, es@.take(i as int)),
        decreases es@.len() - i,
    {
        proof {
            lemma_last_where_step(es@, i as int, policy_pred(Keyword::Limiter));
        }
        let en = &es[i];
        if is_text_entry(en, Keyword::Limiter) {
            p = Some(RouteLimiterPolicy::Reference(assigned_text_of(en)));
        } else if is_extends_entry(en, Keyword::Limiter) {
            p = Some(
                RouteLimiterPolicy::Override {
                    base: en.head[2].text.clone(),
                    config: limiter_settings(block_entries_of(en)),
                },
            );
        } else if is_block_entry(en, Keyword::Limiter) {
            p = Some(RouteLimiterPolicy::Local(limiter_settings(block_entries_of(en))));
        }
        i = i + 1;
    }
    assert(es@.take(es@.len() as int) =~= es@);
    p
}

/// Reads the entries of a route's `policies` block: for each kind of
/// policy (authentication, firewall, CORS, rate limiting), the last entry
/// that gives one decides it, as a reference `kind = "name"`, an override
/// `kind extends "base" { ... }` or local settings `kind { ... }`. Other
/// entries are skipped.
pub fn parse_route_policies(es: &Vec<Entry>) -> (r: (
    Option<RouteAuthPolicy>,
    Option<RouteWafPolicy>,
    Option<RouteCorsPolicy>,
    Option<RouteLimiterPolicy>,
))
    ensures
        route_auth_is(r.0, es@),
        route_waf_is(r.1, es@),
        route_cors_is(r.2, es@),
        route_limiter_is(r.3, es@),
{
    (route_auth(es), route_waf(es), route_cors(es), route_limiter(es))
}

// ============================================================================
// ROUTES
// ============================================================================

/// `en` is a rewrite rule `"pattern" -> "replacement"`.
pub open spec fn arrow_rule(en: Entry) -> bool {
    en.head@.len() == 3 && spec_keyword(en.head@[1].text@) == Keyword::Arrow && en.body is Bare
}

/// The rewrite rules of the entries `es`, a later rule for a pattern
/// replacing an earlier one; other entries are skipped.
pub open spec fn rewrite_rules(es: Seq<Entry>) -> Seq<(Seq<char>, Seq<char>)>
    decreases es.len(),
{
    if es.len() == 0 {
        Seq::empty()
    } else {
        let prev = rewrite_rules(es.drop_last());
        let en = es.last();
        if arrow_rule(en) {
            put(prev, en.head@[0].text@, en.head@[2].text@)
        } else {
            prev
        }
    }
}

/// The rewrite rules of a `rewrite { ... }` block.
pub fn read_rewrite_rules(es: &Vec<Entry>) -> (r: Vec<(String, String)>)
    ensures
        text_pairs(r@) == rewrite_rules(es@),
{
    let mut out: Vec<(String, String)> = Vec::new();
    let mut i: usize = 0;
    assert(text_pairs(out@) =~= Seq::<(Seq<char>, Seq<char>)>::empty());
    while i < es.len()
        invariant
            0 <= i <= es@.len(),
            text_pairs(out@) == rewrite_rules(es@.take(i as int)),
        decreases es@.len() - i,
    {
        assert(es@.take(i + 1).drop_last() =~= es@.take(i as int));
        let en = &es[i];
        if en.head.len() == 3 && keyword(en.head[1].text.as_str()) == Keyword::Arrow {
            if let Body::Bare = &en.body {
                put_text_pair(&mut out, en.head[0].text.clone(), en.head[2].text.clone());
            }
        }
        i = i + 1;
    }
    assert(es@.take(es@.len() as int) =~= es@);
    out
}

/// An object whose values are all words or strings.
pub open spec fn text_object(x: Value) -> bool {
    x matches Value::Object(fs) && forall|i: int| 0 <= i < fs@.len() ==> (#[trigger] fs@[i]).value is Text
}

/// `en` is `add = { ... }` or `set = { ... }` with text values.
pub open spec fn header_add(en: Entry) -> bool {
    (assigns(en, Keyword::Add) || assigns(en, Keyword::SetHeaders)) && text_object(en.body->Assign_0)
}

pub open spec fn headers_entry_error(en: Entry) -> Option<Seq<char>> {
    if header_add(en) || assigns_texts(en, Keyword::Remove) {
        None
    } else {
        Some("unexpected entry in headers block"@)
    }
}

pub open spec fn headers_err_fn() -> spec_fn(Entry) -> Option<Seq<char>> {
    |en: Entry| headers_entry_error(en)
}

/// A key as written: a string with its quotes.
pub open spec fn atom_written(a: Atom) -> Seq<char> {
    if a.quoted {
        seq!['"'] + a.text@ + seq!['"']
    } else {
        a.text@
    }
}

/// `prev` with the headers of the fields `fs` put in, in order.
pub open spec fn put_fields(prev: Seq<(Seq<char>, Seq<char>)>, fs: Seq<Field>) -> Seq<
    (Seq<char>, Seq<char>),
>
    decreases fs.len(),
{
    if fs.len() == 0 {
        prev
    } else {
        put(
            put_fields(prev, fs.drop_last()),
            atom_written(fs.last().key),
            fs.last().value->Text_0.text@,
        )
    }
}

/// The headers that the `add` and `set` entries of `es` add.
pub open spec fn added_headers(es: Seq<Entry>) -> Seq<(Seq<char>, Seq<char>)>
    decreases es.len(),
{
    if es.len() == 0 {
        Seq::empty()
    } else {
        let prev = added_headers(es.drop_last());
        let en = es.last();
        if header_add(en) {
            put_fields(prev, en.body->Assign_0->Object_0@)
        } else {
            prev
        }
    }
}

fn atom_written_of(a: &Atom) -> (t: String)
    ensures
        t@ == atom_written(*a),
{
    if a.quoted {
        let mut t = "\"".to_owned();
        t.append(a.text.as_str());
        t.append("\"");
        proof {
            reveal_strlit("\"");
            assert(t@ =~= seq!['"'] + a.text@ + seq!['"']);
        }
        t
    } else {
        a.text.clone()
    }
}

fn text_object_exec(x: &Value) -> (b: bool)
    ensures
        b == text_object(*x),
{
    match x {
        Value::Object(fs) => {
            let mut i: usize = 0;
            while i < fs.len()
                invariant
                    *x == Value::Object(*fs),
                    0 <= i <= fs@.len(),
                    forall|j: int| 0 <= j < i ==> (#[trigger] fs@[j]).value is Text,
                decreases fs@.len() - i,
            {
                match &fs[i].value {
                    Value::Text(_) => {},
                    _ => {
                        return false;
                    },
                }
                i = i + 1;
            }
            true
        },
        _ => false,
    }
}

/// Reads a route's `headers { ... }` block: the headers that `add` and
/// `set` give, a later value for a name replacing an earlier one.
pub fn read_headers(es: &Vec<Entry>) -> (r: Result<Vec<(String, String)>, String>)
    ensures
        match r {
            Ok(h) => first_error(es@, headers_err_fn()) is None && text_pairs(h@) == added_headers(
                es@,
            ),
            Err(m) => first_error(es@, headers_err_fn()) == Some(m@),
        },
{
    let mut out: Vec<(String, String)> = Vec::new();
    assert(text_pairs(out@) =~= Seq::<(Seq<char>, Seq<char>)>::empty());
    let mut i: usize = 0;
    while i < es.len()
        invariant
            0 <= i <= es@.len(),
            first_error(es@.take(i as int), headers_err_fn()) is None,
            text_pairs(out@) == added_headers(es@.take(i as int)),
        decreases es@.len() - i,
    {
        proof {
            lemma_first_error_step(es@, i as int, headers_err_fn());
            assert(es@.take(i + 1).drop_last() =~= es@.take(i as int));
        }
        let en = &es[i];
        let single = en.head.len() == 1;
        let k = head_keyword(en);
        let mut ok = false;
        if single && (k == Keyword::Add || k == Keyword::SetHeaders) {
            if let Body::Assign(x) = &en.body {
                if text_object_exec(x) {
                    if let Value::Object(fs) = x {
                        let mut j: usize = 0;
                        let ghost base = text_pairs(out@);
                        assert(fs@.take(0) =~= Seq::<Field>::empty());
                        while j < fs.len()
                            invariant
                                0 <= j <= fs@.len(),
                                text_object(Value::Object(*fs)),
                                text_pairs(out@) == put_fields(base, fs@.take(j as int)),
                            decreases fs@.len() - j,
                        {
                            assert(fs@.take(j + 1).drop_last() =~= fs@.take(j as int));
                            let f = &fs[j];
                            let name = atom_written_of(&f.key);
                            let value = match &f.value {
                                Value::Text(a) => a.text.clone(),
                                _ => String::new(),
                            };
                            put_text_pair(&mut out, name, value);
                            j = j + 1;
                        }
                        assert(fs@.take(fs@.len() as int) =~= fs@);
                        ok = true;
                    }
                }
            }
        }
        if !ok && !is_texts_entry(en, Keyword::Remove) {
            proof {
                lemma_first_error_prefix(es@, i + 1, headers_err_fn());
            }
            return Err("unexpected entry in headers block".to_owned());
        }
        i = i + 1;
    }
    assert(es@.take(es@.len() as int) =~= es@);
    Ok(out)
}

pub open spec fn timeouts_entry_error(en: Entry) -> Option<Seq<char>> {
    if assigns_text(en, Keyword::Connect) || assigns_text(en, Keyword::Read) || assigns_text(
        en,
        Keyword::Send,
    ) {
        None
    } else {
        Some("unexpected key in timeouts block"@)
    }
}

pub open spec fn timeouts_err_fn() -> spec_fn(Entry) -> Option<Seq<char>> {
    |en: Entry| timeouts_entry_error(en)
}

pub open spec fn timeout_of(es: Seq<Entry>, k: Keyword) -> Option<Duration> {
    match last_text(es, k) {
        Some(w) => Some(spec_duration_from_secs(spec_duration_secs(w))),
        None => None,
    }
}

pub open spec fn timeouts_is(t: RouteTimeouts, es: Seq<Entry>) -> bool {
    &&& t.connect == timeout_of(es, Keyword::Connect)
    &&& t.read == timeout_of(es, Keyword::Read)
    &&& t.send == timeout_of(es, Keyword::Send)
}

fn timeout_exec(es: &Vec<Entry>, k: Keyword) -> (d: Option<Duration>)
    ensures
        d == timeout_of(es@, k),
{
    match last_text_of(es, k) {
        Some(w) => Some(duration_from_secs(parse_duration_to_secs(w.as_str()))),
        None => None,
    }
}

/// Reads a route's `timeouts { ... }` block: `connect`, `read` and `send`,
/// each a duration in whole seconds.
pub fn parse_timeouts_block(es: &Vec<Entry>) -> (r: Result<RouteTimeouts, String>)
    ensures
        match r {
            Ok(t) => first_error(es@, timeouts_err_fn()) is None && timeouts_is(t, es@),
            Err(m) => first_error(es@, timeouts_err_fn()) == Some(m@),
        },
{
    let mut i: usize = 0;
    while i < es.len()
        invariant
            0 <= i <= es@.len(),
            first_error(es@.take(i as int), timeouts_err_fn()) is None,
        decreases es@.len() - i,
    {
        proof {
            lemma_first_error_step(es@, i as int, timeouts_err_fn());
        }
        let en = &es[i];
        if !(is_text_entry(en, Keyword::Connect) || is_text_entry(en, Keyword::Read)
            || is_text_entry(en, Keyword::Send)) {
            proof {
                lemma_first_error_prefix(es@, i + 1, timeouts_err_fn());
            }
            return Err("unexpected key in timeouts block".to_owned());
        }
        i = i + 1;
    }
    assert(es@.take(es@.len() as int) =~= es@);
    Ok(
        RouteTimeouts {
            connect: timeout_exec(es, Keyword::Connect),
            read: timeout_exec(es, Keyword::Read),
            send: timeout_exec(es, Keyword::Send),
        },
    )
}

pub open spec fn streaming_entry_error(en: Entry) -> Option<Seq<char>> {
    if assigns_text(en, Keyword::Buffering) || assigns_text(en, Keyword::Chunked) {
        None
    } else {
        Some("unexpected key in streaming block"@)
    }
}

pub open spec fn streaming_err_fn() -> spec_fn(Entry) -> Option<Seq<char>> {
    |en: Entry| streaming_entry_error(en)
}

/// A flag that is on unless its last setting is other than `true`.
pub open spec fn flag_on(es: Seq<Entry>, k: Keyword) -> bool {
    match last_written(es, k) {
        Some(w) => w == "true"@,
        None => true,
    }
}

fn flag_on_exec(es: &Vec<Entry>, k: Keyword) -> (b: bool)
    ensures
        b == flag_on(es@, k),
{
    match last_written_of(es, k) {
        Some(w) => {
            let t = "true".to_owned();
            w == t
        },
        None => true,
    }
}

/// Reads a route's `streaming { ... }` block: `buffering` and `chunked`,
/// both on unless set to something other than `true`.
pub fn parse_streaming_block(es: &Vec<Entry>) -> (r: Result<RouteStreaming, String>)
    ensures
        match r {
            Ok(st) => first_error(es@, streaming_err_fn()) is None && st.buffering == flag_on(
                es@,
                Keyword::Buffering,
            ) && st.chunked == flag_on(es@, Keyword::Chunked),
            Err(m) => first_error(es@, streaming_err_fn()) == Some(m@),
        },
{
    let mut i: usize = 0;
    while i < es.len()
        invariant
            0 <= i <= es@.len(),
            first_error(es@.take(i as int), streaming_err_fn()) is None,
        decreases es@.len() - i,
    {
        proof {
            lemma_first_error_step(es@, i as int, streaming_err_fn());
        }
        let en = &es[i];
        if !(is_text_entry(en, Keyword::Buffering) || is_text_entry(en, Keyword::Chunked)) {
            proof {
                lemma_first_error_prefix(es@, i + 1, streaming_err_fn());
            }
            return Err("unexpected key in streaming block".to_owned());
        }
        i = i + 1;
    }
    assert(es@.take(es@.len() as int) =~= es@);
    Ok(
        RouteStreaming {
            buffering: flag_on_exec(es, Keyword::Buffering),
            chunked: flag_on_exec(es, Keyword::Chunked),
        },
    )
}

pub open spec fn static_entry_error(en: Entry) -> Option<Seq<char>> {
    if assigns_text(en, Keyword::Root) || assigns_text(en, Keyword::Listing) || assigns_text(
        en,
        Keyword::Dotfiles,
    ) || assigns_text(en, Keyword::Permissions) || assigns_texts(en, Keyword::Disallow) {
        None
    } else {
        Some("unexpected key in static backend"@)
    }
}

pub open spec fn static_err_fn() -> spec_fn(Entry) -> Option<Seq<char>> {
    |en: Entry| static_entry_error(en)
}

/// The error of a backend: anything but `upstream("name")` and
/// `static { ... }`, or an entry a static backend does not have.
pub open spec fn backend_error(x: Value) -> Option<Seq<char>> {
    match x {
        Value::Call(a, args) => if spec_keyword(a.text@) == Keyword::Upstream && args@.len() > 0
            && args@[0] is Text {
            None
        } else {
            Some("Unknown backend type"@)
        },
        Value::Named(a, es) => if spec_keyword(a.text@) == Keyword::Static {
            first_error(es@, static_err_fn())
        } else {
            Some("Unknown backend type"@)
        },
        _ => Some("Unknown backend type"@),
    }
}

/// `b` is the backend `x` names: the upstream named by the first argument,
/// or files under `root` (listing and dot files only when `true`, the
/// `permissions` as written, the `disallow`ed paths).
pub open spec fn backend_is(b: BackendTarget, x: Value) -> bool {
    match x {
        Value::Call(a, args) => b matches BackendTarget::Upstream(n) && n@ == args@[0]->Text_0.text@,
        Value::Named(a, es) => b matches BackendTarget::Static(
            StaticUpstream::Local { path, permissions, listing, dotfiles, blacklist },
        ) && path@ == or_empty(last_text(es@, Keyword::Root)) && opt_view(permissions)
            == last_written(es@, Keyword::Permissions) && listing == is_true(
            last_written(es@, Keyword::Listing),
        ) && dotfiles == is_true(last_written(es@, Keyword::Dotfiles)) && view_strings(
            blacklist@,
        ) == or_none(last_texts(es@, Keyword::Disallow)),
        _ => false,
    }
}

/// Reads the value of a route's `backend`: `upstream("name")` or
/// `static { root = ..., listing = ..., dotfiles = ..., permissions = ...,
/// disallow = [...] }`.
pub fn parse_backend(x: &Value) -> (r: Result<BackendTarget, String>)
    ensures
        match r {
            Ok(b) => backend_error(*x) is None && backend_is(b, *x),
            Err(m) => backend_error(*x) == Some(m@),
        },
{
    match x {
        Value::Call(a, args) => {
            if keyword(a.text.as_str()) == Keyword::Upstream && args.len() > 0 {
                if let Value::Text(n) = &args[0] {
                    return Ok(BackendTarget::Upstream(n.text.clone()));
                }
            }
            Err("Unknown backend type".to_owned())
        },
        Value::Named(a, es) => {
            if keyword(a.text.as_str()) != Keyword::Static {
                return Err("Unknown backend type".to_owned());
            }
            let mut i: usize = 0;
            while i < es.len()
                invariant
                    *x == Value::Named(*a, *es),
                    spec_keyword(a.text@) == Keyword::Static,
                    0 <= i <= es@.len(),
                    first_error(es@.take(i as int), static_err_fn()) is None,
                decreases es@.len() - i,
            {
                proof {
                    lemma_first_error_step(es@, i as int, static_err_fn());
                }
                let en = &es[i];
                if !(is_text_entry(en, Keyword::Root) || is_text_entry(en, Keyword::Listing)
                    || is_text_entry(en, Keyword::Dotfiles) || is_text_entry(
                    en,
                    Keyword::Permissions,
                ) || is_texts_entry(en, Keyword::Disallow)) {
                    proof {
                        lemma_first_error_prefix(es@, i + 1, static_err_fn());
                    }
                    return Err("unexpected key in static backend".to_owned());
                }
                i = i + 1;
            }
            assert(es@.take(es@.len() as int) =~= es@);
            Ok(
                BackendTarget::Static(
                    StaticUpstream::Local {
                        path: text_or_empty(last_text_of(es, Keyword::Root)),
                        permissions: last_written_of(es, Keyword::Permissions),
                        listing: is_true_exec(&last_written_of(es, Keyword::Listing)),
                        dotfiles: is_true_exec(&last_written_of(es, Keyword::Dotfiles)),
                        blacklist: texts_or_none(last_texts_of(es, Keyword::Disallow)),
                    },
                ),
            )
        },
        _ => Err("Unknown backend type".to_owned()),
    }
}

pub open spec fn assign_pred(k: Keyword) -> spec_fn(Entry) -> bool {
    |en: Entry| assigns(en, k)
}

/// The error of an entry of a route: that of its backend, or of its
/// `headers`, `timeouts` or `streaming` block.
pub open spec fn route_entry_error(en: Entry) -> Option<Seq<char>> {
    if assigns(en, Keyword::Backend) {
        backend_error(en.body->Assign_0)
    } else if opens(en, Keyword::Headers) {
        first_error(block_of(en), headers_err_fn())
    } else if opens(en, Keyword::Timeouts) {
        first_error(block_of(en), timeouts_err_fn())
    } else if opens(en, Keyword::Streaming) {
        first_error(block_of(en), streaming_err_fn())
    } else {
        None
    }
}

pub open spec fn route_err_fn() -> spec_fn(Entry) -> Option<Seq<char>> {
    |en: Entry| route_entry_error(en)
}

/// `policies { ... }` that gives a policy of kind `k`.
pub open spec fn policies_with(k: Keyword) -> spec_fn(Entry) -> bool {
    |en: Entry| opens(en, Keyword::Policies) && last_where(block_of(en), policy_pred(k)) is Some
}

/// The rewrite rules and added headers that the entries `es` of a route
/// leave: a `rewrite` block sets the rules and clears the headers; a
/// `headers` block that adds some replaces the headers.
pub open spec fn rewrite_state(es: Seq<Entry>) -> Option<
    (Option<Seq<(Seq<char>, Seq<char>)>>, Seq<(Seq<char>, Seq<char>)>),
>
    decreases es.len(),
{
    if es.len() == 0 {
        None
    } else {
        let prev = rewrite_state(es.drop_last());
        let en = es.last();
        if opens(en, Keyword::Rewrite) {
            Some((Some(rewrite_rules(block_of(en))), Seq::empty()))
        } else if opens(en, Keyword::Headers) {
            let add = added_headers(block_of(en));
            match prev {
                Some((rules, hs)) => Some(
                    (
                        rules,
                        if add.len() > 0 {
                            add
                        } else {
                            hs
                        },
                    ),
                ),
                None => Some((None, add)),
            }
        } else {
            prev
        }
    }
}

pub open spec fn rewrites_is(
    r: Option<RouteRewrites>,
    st: Option<(Option<Seq<(Seq<char>, Seq<char>)>>, Seq<(Seq<char>, Seq<char>)>)>,
) -> bool {
    match st {
        None => r is None,
        Some((rules, hs)) => r matches Some(rw) && (match rules {
            Some(rs) => rw.rules matches Some(v) && text_pairs(v@) == rs,
            None => rw.rules is None,
        }) && text_pairs(rw.append_headers@) == hs && rw.prepend_headers@.len() == 0,
    }
}

/// `r` is the route that `en`, a `route "path" { ... }`, declares.
pub open spec fn route_is(r: RoutesConfig, en: Entry) -> bool {
    let es = block_of(en);
    &&& r.path@ == label_of(en)
    &&& view_strings(r.hosts@) == or_none(last_texts(es, Keyword::Hosts))
    &&& view_strings(r.methods@) == or_none(last_texts(es, Keyword::Methods))
    &&& match last_where(es, assign_pred(Keyword::Backend)) {
        Some(b) => backend_is(r.backend, b.body->Assign_0),
        None => r.backend matches BackendTarget::Upstream(n) && n@ == "default"@,
    }
    &&& match last_where(es, policies_with(Keyword::Auth)) {
        Some(p) => route_auth_is(r.auth_policy, block_of(p)),
        None => r.auth_policy is None,
    }
    &&& match last_where(es, policies_with(Keyword::Waf)) {
        Some(p) => route_waf_is(r.waf_policy, block_of(p)),
        None => r.waf_policy is None,
    }
    &&& match last_where(es, policies_with(Keyword::Cors)) {
        Some(p) => route_cors_is(r.cors_policy, block_of(p)),
        None => r.cors_policy is None,
    }
    &&& match last_where(es, policies_with(Keyword::Limiter)) {
        Some(p) => route_limiter_is(r.limiter_policy, block_of(p)),
        None => r.limiter_policy is None,
    }
    &&& r.priority == 1
    &&& rewrites_is(r.rewrite, rewrite_state(es))
    &&& match last_block(es, Keyword::Timeouts) {
        Some(b) => r.timeouts matches Some(t) && timeouts_is(t, b),
        None => r.timeouts is None,
    }
    &&& match last_block(es, Keyword::Streaming) {
        Some(b) => r.streaming matches Some(st) && st.buffering == flag_on(b, Keyword::Buffering)
            && st.chunked == flag_on(b, Keyword::Chunked),
        None => r.streaming is None,
    }
}

fn route_entry_error_of(en: &Entry) -> (r: Option<String>)
    ensures
        opt_view(r) == route_entry_error(*en),
{
    if is_assign_entry(en, Keyword::Backend) {
        match &en.body {
            Body::Assign(x) => match parse_backend(x) {
                Ok(_) => None,
                Err(m) => Some(m),
            },
            _ => None,
        }
    } else if is_block_entry(en, Keyword::Headers) {
        match read_headers(block_entries_of(en)) {
            Ok(_) => None,
            Err(m) => Some(m),
        }
    } else if is_block_entry(en, Keyword::Timeouts) {
        match parse_timeouts_block(block_entries_of(en)) {
            Ok(_) => None,
            Err(m) => Some(m),
        }
    } else if is_block_entry(en, Keyword::Streaming) {
        match parse_streaming_block(block_entries_of(en)) {
            Ok(_) => None,
            Err(m) => Some(m),
        }
    } else {
        None
    }
}

/// The first error among the entries of a route.
fn route_error_of(es: &Vec<Entry>) -> (r: Option<String>)
    ensures
        opt_view(r) == first_error(es@, route_err_fn()),
{
    let mut i: usize = 0;
    while i < es.len()
        invariant
            0 <= i <= es@.len(),
            first_error(es@.take(i as int), route_err_fn()) is None,
        decreases es@.len() - i,
    {
        proof {
            lemma_first_error_step(es@, i as int, route_err_fn());
        }
        match route_entry_error_of(&es[i]) {
            Some(m) => {
                proof {
                    lemma_first_error_prefix(es@, i + 1, route_err_fn());
                }
                return Some(m);
            },
            None => {},
        }
        i = i + 1;
    }
    assert(es@.take(es@.len() as int) =~= es@);
    None
}

fn route_backend(es: &Vec<Entry>) -> (b: BackendTarget)
    requires
        first_error(es@, route_err_fn()) is None,
    ensures
        match last_where(es@, assign_pred(Keyword::Backend)) {
            Some(en) => backend_is(b, en.body->Assign_0),
            None => b matches BackendTarget::Upstream(n) && n@ == "default"@,
        },
{
    proof {
        lemma_no_error_last(es@, route_err_fn(), assign_pred(Keyword::Backend));
    }
    let mut last: Option<&Value> = None;
    let mut i: usize = 0;
    while i < es.len()
        invariant
            0 <= i <= es@.len(),
            match last_where(es@.take(i as int), assign_pred(Keyword::Backend)) {
                Some(en) => last matches Some(x) && *x == en.body->Assign_0,
                None => last is None,
            },
        decreases es@.len() - i,
    {
        proof {
            lemma_last_where_step(es@, i as int, assign_pred(Keyword::Backend));
        }
        let en = &es[i];
        if en.head.len() == 1 && head_keyword(en) == Keyword::Backend {
            if let Body::Assign(x) = &en.body {
                last = Some(x);
            }
        }
        i = i + 1;
    }
    assert(es@.take(es@.len() as int) =~= es@);
    match last {
        Some(x) => match parse_backend(x) {
            Ok(b) => b,
            Err(_) => BackendTarget::Upstream(String::new()),
        },
        None => BackendTarget::Upstream("default".to_owned()),
    }
}

fn route_rewrites(es: &Vec<Entry>) -> (r: Option<RouteRewrites>)
    requires
        first_error(es@, route_err_fn()) is None,
    ensures
        rewrites_is(r, rewrite_state(es@)),
{
    let mut r: Option<RouteRewrites> = None;
    let mut i: usize = 0;
    while i < es.len()
        invariant
            0 <= i <= es@.len(),
            first_error(es@, route_err_fn()) is None,
            rewrites_is(r, rewrite_state(es@.take(i as int))),
        decreases es@.len() - i,
    {
        assert(es@.take(i + 1).drop_last() =~= es@.take(i as int));
        let en = &es[i];
        if is_block_entry(en, Keyword::Rewrite) {
            let rules = read_rewrite_rules(block_entries_of(en));
            let hs: Vec<(String, String)> = Vec::new();
            assert(text_pairs(hs@) =~= Seq::<(Seq<char>, Seq<char>)>::empty());
            r = Some(RouteRewrites { rules: Some(rules), append_headers: hs, prepend_headers: Vec::new() });
        } else if is_block_entry(en, Keyword::Headers) {
            proof {
                lemma_no_error_entry(es@, route_err_fn(), i as int);
            }
            let add = match read_headers(block_entries_of(en)) {
                Ok(h) => h,
                Err(_) => Vec::new(),
            };
            let n = add.len();
            r = match r {
                Some(rw) => Some(
                    RouteRewrites {
                        rules: rw.rules,
                        append_headers: if n > 0 {
                            add
                        } else {
                            rw.append_headers
                        },
                        prepend_headers: rw.prepend_headers,
                    },
                ),
                None => Some(RouteRewrites { rules: None, append_headers: add, prepend_headers: Vec::new() }),
            };
        }
        i = i + 1;
    }
    assert(es@.take(es@.len() as int) =~= es@);
    r
}

/// When no entry of `es` has an error, entry `i` has none.
pub proof fn lemma_no_error_entry(es: Seq<Entry>, f: spec_fn(Entry) -> Option<Seq<char>>, i: int)
    requires
        first_error(es, f) is None,
        0 <= i < es.len(),
    ensures
        f(es[i]) is None,
    decreases es.len(),
{
    if i < es.len() - 1 {
        lemma_no_error_entry(es.drop_last(), f, i);
    }
}

/// Reads `route "path" { ... }`: its `hosts`, `methods`, `backend`
/// (`upstream("default")` when none), `policies`, `rewrite` rules and
/// `headers`, `timeouts` and `streaming`. The first error among its entries
/// is the route's; entries a route does not have are skipped.
pub fn parse_single_route(en: &Entry) -> (r: Result<RoutesConfig, String>)
    requires
        opens_labelled(*en, Keyword::Route),
    ensures
        match r {
            Ok(route) => first_error(block_of(*en), route_err_fn()) is None && route_is(route, *en),
            Err(m) => first_error(block_of(*en), route_err_fn()) == Some(m@),
        },
{
    let es = block_entries_of(en);
    match route_error_of(es) {
        Some(m) => {
            return Err(m);
        },
        None => {},
    }
    let path = en.head[1].text.clone();
    let hosts = texts_or_none(last_texts_of(es, Keyword::Hosts));
    let methods = texts_or_none(last_texts_of(es, Keyword::Methods));
    let backend = route_backend(es);
    let mut auth_policy: Option<RouteAuthPolicy> = None;
    let mut waf_policy: Option<RouteWafPolicy> = None;
    let mut cors_policy: Option<RouteCorsPolicy> = None;
    let mut limiter_policy: Option<RouteLimiterPolicy> = None;
    let mut i: usize = 0;
    while i < es.len()
        invariant
            0 <= i <= es@.len(),
            match last_where(es@.take(i as int), policies_with(Keyword::Auth)) {
                Some(p) => route_auth_is(auth_policy, block_of(p)),
                None => auth_policy is None,
            },
            match last_where(es@.take(i as int), policies_with(Keyword::Waf)) {
                Some(p) => route_waf_is(waf_policy, block_of(p)),
                None => waf_policy is None,
            },
            match last_where(es@.take(i as int), policies_with(Keyword::Cors)) {
                Some(p) => route_cors_is(cors_policy, block_of(p)),
                None => cors_policy is None,
            },
            match last_where(es@.take(i as int), policies_with(Keyword::Limiter)) {
                Some(p) => route_limiter_is(limiter_policy, block_of(p)),
                None => limiter_policy is None,
            },
        decreases es@.len() - i,
    {
        proof {
            lemma_last_where_step(es@, i as int, policies_with(Keyword::Auth));
            lemma_last_where_step(es@, i as int, policies_with(Keyword::Waf));
            lemma_last_where_step(es@, i as int, policies_with(Keyword::Cors));
            lemma_last_where_step(es@, i as int, policies_with(Keyword::Limiter));
        }
        let e = &es[i];
        if is_block_entry(e, Keyword::Policies) {
            let (a, w, c, l) = parse_route_policies(block_entries_of(e));
            if a.is_some() {
                auth_policy = a;
            }
            if w.is_some() {
                waf_policy = w;
            }
            if c.is_some() {
                cors_policy = c;
            }
            if l.is_some() {
                limiter_policy = l;
            }
        }
        i = i + 1;
    }
    assert(es@.take(es@.len() as int) =~= es@);
    let rewrite = route_rewrites(es);
    proof {
        lemma_no_error_last(es@, route_err_fn(), block_pred(Keyword::Timeouts));
        lemma_no_error_last(es@, route_err_fn(), block_pred(Keyword::Streaming));
    }
    let timeouts = match last_block_of(es, Keyword::Timeouts) {
        Some(b) => match parse_timeouts_block(b) {
            Ok(t) => Some(t),
            Err(_) => None,
        },
        None => None,
    };
    let streaming = match last_block_of(es, Keyword::Streaming) {
        Some(b) => match parse_streaming_block(b) {
            Ok(st) => Some(st),
            Err(_) => None,
        },
        None => None,
    };
    Ok(
        RoutesConfig {
            path,
            hosts,
            methods,
            backend,
            auth_policy,
            waf_policy,
            cors_policy,
            limiter_policy,
            priority: 1,
            rewrite,
            timeouts,
            streaming,
        },
    )
}

// ============================================================================
// LISTENERS
// ============================================================================

/// The error of the first protocol name of `ts` that is not one.
pub open spec fn protocols_error(ts: Seq<Seq<char>>) -> Option<Seq<char>>
    decreases ts.len(),
{
    if ts.len() == 0 {
        None
    } else {
        match protocols_error(ts.drop_last()) {
            Some(m) => Some(m),
            None => if spec_parse_protocol(ts.last()) is None {
                Some(spec_protocol_error(ts.last()))
            } else {
                None
            },
        }
    }
}

/// A listener's protocol names read as `NetworkProtocol::from_str` reads
/// them: the list is accepted exactly when each name is, and a refused list
/// gives the error that `from_str` gives for its first refused name.
pub proof fn law_listener_protocols_as_from_str(ts: Seq<Seq<char>>)
    ensures
        protocols_error(ts) is None <==> forall|i: int|
            0 <= i < ts.len() ==> (#[trigger] spec_parse_protocol(ts[i])) is Some,
        protocols_error(ts) matches Some(m) ==> exists|i: int|
            0 <= i < ts.len() && (#[trigger] spec_parse_protocol(ts[i])) is None && m
                == spec_protocol_error(ts[i]) && forall|j: int|
                0 <= j < i ==> (#[trigger] spec_parse_protocol(ts[j])) is Some,
    decreases ts.len(),
{
    if ts.len() > 0 {
        let p = ts.drop_last();
        law_listener_protocols_as_from_str(p);
        assert forall|i: int| 0 <= i < p.len() implies p[i] == ts[i] by {}
        match protocols_error(p) {
            Some(m) => {
                let i = choose|i: int|
                    0 <= i < p.len() && (#[trigger] spec_parse_protocol(p[i])) is None && m
                        == spec_protocol_error(p[i]) && forall|j: int|
                        0 <= j < i ==> (#[trigger] spec_parse_protocol(p[j])) is Some;
                assert(p[i] == ts[i]);
                assert forall|j: int| 0 <= j < i implies (#[trigger] spec_parse_protocol(ts[j])) is Some by {
                    assert(p[j] == ts[j]);
                    assert(spec_parse_protocol(p[j]) is Some);
                }
            },
            None => {
                if spec_parse_protocol(ts.last()) is None {
                    let i = ts.len() - 1;
                    assert forall|j: int| 0 <= j < i implies (#[trigger] spec_parse_protocol(ts[j])) is Some by {
                        assert(p[j] == ts[j]);
                        assert(spec_parse_protocol(p[j]) is Some);
                    }
                } else {
                    assert forall|i: int| 0 <= i < ts.len() implies (#[trigger] spec_parse_protocol(ts[i])) is Some by {
                        if i < p.len() {
                            assert(p[i] == ts[i]);
                            assert(spec_parse_protocol(p[i]) is Some);
                        }
                    }
                }
            },
        }
    }
}

pub open spec fn ssl_entry_error(en: Entry) -> Option<Seq<char>> {
    if assigns_text(en, Keyword::Cert) || assigns_text(en, Keyword::Key) || assigns_text(
        en,
        Keyword::ClientCa,
    ) {
        None
    } else {
        Some("unexpected entry in ssl block"@)
    }
}

pub open spec fn ssl_err_fn() -> spec_fn(Entry) -> Option<Seq<char>> {
    |en: Entry| ssl_entry_error(en)
}

/// The error of an entry of the listener `name`: an address or protocol
/// that does not read, an error in its `ssl` block, or an entry a listener
/// does not have.
pub open spec fn listener_entry_error(en: Entry, name: Seq<char>) -> Option<Seq<char>> {
    if assigns_text(en, Keyword::Address) {
        match transport_error(assigned_text(en)) {
            Some(e) => Some("listener '"@ + name + "': "@ + e),
            None => None,
        }
    } else if assigns_texts(en, Keyword::Protocols) {
        match protocols_error(assigned_texts(en)) {
            Some(e) => Some("listener '"@ + name + "': "@ + e),
            None => None,
        }
    } else if opens(en, Keyword::Ssl) {
        first_error(block_of(en), ssl_err_fn())
    } else {
        Some("unexpected entry in listener '"@ + name + "'"@)
    }
}

pub open spec fn listener_err_fn(name: Seq<char>) -> spec_fn(Entry) -> Option<Seq<char>> {
    |en: Entry| listener_entry_error(en, name)
}

/// `l` is the listener that `en`, a `listener "name" { ... }`, declares:
/// its address (empty when not given) and the transport it gives (TCP on
/// 127.0.0.1:80 when not given), its protocols (HTTP/1.1 when not given),
/// and TLS with the certificates of its `ssl` block, when it has one.
pub open spec fn listener_is(l: ListenerConfig, en: Entry) -> bool {
    let es = block_of(en);
    let address = or_empty(last_text(es, Keyword::Address));
    &&& l.name@ == label_of(en)
    &&& view_strings(l.listen@) == seq![address]
    &&& match last_text(es, Keyword::Address) {
        Some(a) => transport_is(l.transport, a),
        None => l.transport matches NetworkTransport::Tcp(t) && t@ == "127.0.0.1:80"@,
    }
    &&& l.protocols@ == match last_texts(es, Keyword::Protocols) {
        Some(ts) => ts.map_values(|t: Seq<char>| spec_parse_protocol(t)->0),
        None => seq![NetworkProtocol::Http1 { allow_websocket_upgrade: false }],
    }
    &&& match last_block(es, Keyword::Ssl) {
        Some(sb) => l.security matches SecurityConfig::Tls { certs, alpn_protocols, min_version }
            && certs.cert@ == or_empty(last_text(sb, Keyword::Cert)) && certs.key@ == or_empty(
            last_text(sb, Keyword::Key),
        ) && opt_view(certs.client_ca) == last_text(sb, Keyword::ClientCa) && view_strings(
            alpn_protocols@,
        ) == seq!["h2"@, "http/1.1"@] && min_version == TlsVersion::Tls13,
        None => l.security is Plaintext,
    }
}

/// The protocols of a list of names, or the error of the first that is
/// not one.
fn parse_protocols(ts: &Vec<String>) -> (r: Result<Vec<NetworkProtocol>, String>)
    ensures
        match r {
            Ok(ps) => protocols_error(view_strings(ts@)) is None && ps@ == view_strings(ts@).map_values(
                |t: Seq<char>| spec_parse_protocol(t)->0,
            ),
            Err(m) => protocols_error(view_strings(ts@)) == Some(m@),
        },
{
    let mut out: Vec<NetworkProtocol> = Vec::new();
    let mut i: usize = 0;
    while i < ts.len()
        invariant
            0 <= i <= ts@.len(),
            protocols_error(view_strings(ts@).take(i as int)) is None,
            out@ == view_strings(ts@).take(i as int).map_values(
                |t: Seq<char>| spec_parse_protocol(t)->0,
            ),
        decreases ts@.len() - i,
    {
        let ghost vs = view_strings(ts@);
        assert(vs.take(i + 1).drop_last() =~= vs.take(i as int));
        match NetworkProtocol::parse(ts[i].as_str()) {
            Ok(p) => {
                out.push(p);
                assert(out@ =~= vs.take(i + 1).map_values(|t: Seq<char>| spec_parse_protocol(t)->0));
            },
            Err(m) => {
                proof {
                    lemma_protocols_error_prefix(vs, i + 1);
                }
                return Err(m);
            },
        }
        i = i + 1;
    }
    assert(view_strings(ts@).take(ts@.len() as int) =~= view_strings(ts@));
    Ok(out)
}

pub proof fn lemma_protocols_error_prefix(ts: Seq<Seq<char>>, j: int)
    requires
        0 <= j <= ts.len(),
        protocols_error(ts.take(j)) is Some,
    ensures
        protocols_error(ts) == protocols_error(ts.take(j)),
    decreases ts.len() - j,
{
    if j < ts.len() {
        assert(ts.take(j + 1).drop_last() =~= ts.take(j));
        lemma_protocols_error_prefix(ts, j + 1);
    } else {
        assert(ts.take(j) =~= ts);
    }
}

fn prefixed(name: &String, e: String) -> (m: String)
    ensures
        m@ == "listener '"@ + name@ + "': "@ + e@,
{
    let mut m = "listener '".to_owned();
    m.append(name.as_str());
    m.append("': ");
    m.append(e.as_str());
    m
}

fn listener_entry_error_of(en: &Entry, name: &String) -> (r: Option<String>)
    ensures
        opt_view(r) == listener_entry_error(*en, name@),
{
    if is_text_entry(en, Keyword::Address) {
        let t = assigned_text_of(en);
        match parse_transport(t.as_str()) {
            Ok(_) => None,
            Err(e) => Some(prefixed(name, e)),
        }
    } else if is_texts_entry(en, Keyword::Protocols) {
        let ts = match &en.body {
            Body::Assign(x) => match extract_array(x) {
                Some(ts) => ts,
                None => Vec::new(),
            },
            _ => Vec::new(),
        };
        match parse_protocols(&ts) {
            Ok(_) => None,
            Err(e) => Some(prefixed(name, e)),
        }
    } else if is_block_entry(en, Keyword::Ssl) {
        let b = block_entries_of(en);
        let mut i: usize = 0;
        while i < b.len()
            invariant
                0 <= i <= b@.len(),
                b@ == block_of(*en),
                opens(*en, Keyword::Ssl),
                first_error(b@.take(i as int), ssl_err_fn()) is None,
            decreases b@.len() - i,
        {
            proof {
                lemma_first_error_step(b@, i as int, ssl_err_fn());
            }
            let e = &b[i];
            if !(is_text_entry(e, Keyword::Cert) || is_text_entry(e, Keyword::Key) || is_text_entry(
                e,
                Keyword::ClientCa,
            )) {
                proof {
                    lemma_first_error_prefix(b@, i + 1, ssl_err_fn());
                }
                return Some("unexpected entry in ssl block".to_owned());
            }
            i = i + 1;
        }
        assert(b@.take(b@.len() as int) =~= b@);
        None
    } else {
        let mut m = "unexpected entry in listener '".to_owned();
        m.append(name.as_str());
        m.append("'");
        Some(m)
    }
}

/// Reads `listener "name" { ... }` (see `listener_is`); the first error
/// among its entries is the listener's.
pub fn parse_listener(en: &Entry) -> (r: Result<ListenerConfig, String>)
    requires
        opens_labelled(*en, Keyword::Listener),
    ensures
        match r {
            Ok(l) => first_error(block_of(*en), listener_err_fn(label_of(*en))) is None
                && listener_is(l, *en),
            Err(m) => first_error(block_of(*en), listener_err_fn(label_of(*en))) == Some(m@),
        },
{
    let name = en.head[1].text.clone();
    let es = block_entries_of(en);
    let mut i: usize = 0;
    while i < es.len()
        invariant
            0 <= i <= es@.len(),
            name@ == label_of(*en),
            es@ == block_of(*en),
            first_error(es@.take(i as int), listener_err_fn(name@)) is None,
        decreases es@.len() - i,
    {
        proof {
            lemma_first_error_step(es@, i as int, listener_err_fn(name@));
        }
        match listener_entry_error_of(&es[i], &name) {
            Some(m) => {
                proof {
                    lemma_first_error_prefix(es@, i + 1, listener_err_fn(name@));
                }
                return Err(m);
            },
            None => {},
        }
        i = i + 1;
    }
    assert(es@.take(es@.len() as int) =~= es@);
    proof {
        lemma_no_error_last(es@, listener_err_fn(name@), text_pred(Keyword::Address));
        lemma_no_error_last(es@, listener_err_fn(name@), texts_pred(Keyword::Protocols));
    }
    let addr = last_text_of(es, Keyword::Address);
    let address = match &addr {
        Some(a) => a.clone(),
        None => String::new(),
    };
    let transport = match &addr {
        Some(a) => match parse_transport(a.as_str()) {
            Ok(t) => t,
            Err(_) => NetworkTransport::Tcp(String::new()),
        },
        None => NetworkTransport::Tcp("127.0.0.1:80".to_owned()),
    };
    let protocols = match last_texts_of(es, Keyword::Protocols) {
        Some(ts) => match parse_protocols(&ts) {
            Ok(ps) => ps,
            Err(_) => Vec::new(),
        },
        None => {
            let mut ps: Vec<NetworkProtocol> = Vec::new();
            ps.push(NetworkProtocol::Http1 { allow_websocket_upgrade: false });
            assert(ps@ =~= seq![NetworkProtocol::Http1 { allow_websocket_upgrade: false }]);
            ps
        },
    };
    let security = match last_block_of(es, Keyword::Ssl) {
        Some(sb) => {
            let mut alpn: Vec<String> = Vec::new();
            alpn.push("h2".to_owned());
            alpn.push("http/1.1".to_owned());
            assert(view_strings(alpn@) =~= seq!["h2"@, "http/1.1"@]);
            SecurityConfig::Tls {
                certs: SSLConfig {
                    cert: text_or_empty(last_text_of(sb, Keyword::Cert)),
                    key: text_or_empty(last_text_of(sb, Keyword::Key)),
                    client_ca: last_text_of(sb, Keyword::ClientCa),
                },
                alpn_protocols: alpn,
                min_version: TlsVersion::Tls13,
            }
        },
        None => SecurityConfig::Plaintext,
    };
    let mut listen: Vec<String> = Vec::new();
    listen.push(address);
    assert(view_strings(listen@) =~= seq![or_empty(last_text(es@, Keyword::Address))]);
    Ok(ListenerConfig { name, listen, transport, security, protocols })
}

/// The `listener` entries of `es`, in order.
pub open spec fn labelled_entries(es: Seq<Entry>, k: Keyword) -> Seq<Entry>
    decreases es.len(),
{
    if es.len() == 0 {
        Seq::empty()
    } else if opens_labelled(es.last(), k) {
        labelled_entries(es.drop_last(), k).push(es.last())
    } else {
        labelled_entries(es.drop_last(), k)
    }
}

pub open spec fn listeners_entry_error(en: Entry) -> Option<Seq<char>> {
    if opens_labelled(en, Keyword::Listener) {
        first_error(block_of(en), listener_err_fn(label_of(en)))
    } else {
        None
    }
}

pub open spec fn listeners_err_fn() -> spec_fn(Entry) -> Option<Seq<char>> {
    |en: Entry| listeners_entry_error(en)
}

pub open spec fn listeners_are(ls: Seq<ListenerConfig>, es: Seq<Entry>) -> bool {
    &&& ls.len() == labelled_entries(es, Keyword::Listener).len()
    &&& forall|i: int| 0 <= i < ls.len() ==> listener_is(#[trigger] ls[i], labelled_entries(es, Keyword::Listener)[i])
}

/// Reads a `listeners { ... }` block: its `listener "name" { ... }`
/// entries, in order; other entries are skipped.
pub fn parse_listeners(es: &Vec<Entry>) -> (r: Result<Vec<ListenerConfig>, String>)
    ensures
        match r {
            Ok(ls) => first_error(es@, listeners_err_fn()) is None && listeners_are(ls@, es@),
            Err(m) => first_error(es@, listeners_err_fn()) == Some(m@),
        },
{
    let mut out: Vec<ListenerConfig> = Vec::new();
    let mut i: usize = 0;
    while i < es.len()
        invariant
            0 <= i <= es@.len(),
            first_error(es@.take(i as int), listeners_err_fn()) is None,
            listeners_are(out@, es@.take(i as int)),
        decreases es@.len() - i,
    {
        proof {
            lemma_first_error_step(es@, i as int, listeners_err_fn());
            assert(es@.take(i + 1).drop_last() =~= es@.take(i as int));
        }
        let en = &es[i];
        let ghost before = out@;
        if en.head.len() == 2 && head_keyword(en) == Keyword::Listener {
            if let Body::Block(_) = &en.body {
                match parse_listener(en) {
                    Ok(l) => {
                        out.push(l);
                        proof {
                            assert forall|j: int| 0 <= j < out@.len() implies listener_is(
                                #[trigger] out@[j],
                                labelled_entries(es@.take(i + 1), Keyword::Listener)[j],
                            ) by {
                                if j < before.len() {
                                    assert(out@[j] == before[j]);
                                }
                            }
                        }
                    },
                    Err(m) => {
                        proof {
                            lemma_first_error_prefix(es@, i + 1, listeners_err_fn());
                        }
                        return Err(m);
                    },
                }
            }
        }
        i = i + 1;
    }
    assert(es@.take(es@.len() as int) =~= es@);
    Ok(out)
}

// ============================================================================
// UPSTREAMS
// ============================================================================

/// The keyword of a field's key as written (a quoted key is none).
pub open spec fn field_key(f: Field) -> Keyword {
    spec_keyword(atom_written(f.key))
}

/// The text of the last field `k = text` of `fs`.
pub open spec fn last_field_text(fs: Seq<Field>, k: Keyword) -> Option<Seq<char>>
    decreases fs.len(),
{
    if fs.len() == 0 {
        None
    } else if field_key(fs.last()) == k && fs.last().value is Text {
        Some(fs.last().value->Text_0.text@)
    } else {
        last_field_text(fs.drop_last(), k)
    }
}

/// The last field `k = text` of `fs`, as written.
pub open spec fn last_field_written(fs: Seq<Field>, k: Keyword) -> Option<Seq<char>>
    decreases fs.len(),
{
    if fs.len() == 0 {
        None
    } else if field_key(fs.last()) == k && fs.last().value is Text {
        value_written(fs.last().value)
    } else {
        last_field_written(fs.drop_last(), k)
    }
}

pub open spec fn unexpected_key(f: Field, what: Seq<char>) -> Seq<char> {
    "unexpected key '"@ + atom_written(f.key) + "' in "@ + what
}

/// The error of a field of a server whose endpoint is `endpoint` so far.
pub open spec fn server_field_error(f: Field, endpoint: Seq<char>) -> Option<Seq<char>> {
    let k = field_key(f);
    if f.value is Text && (k == Keyword::Endpoint || k == Keyword::Weight) {
        None
    } else if f.value is Text && k == Keyword::Protocol {
        let t = f.value->Text_0.text@;
        if spec_parse_protocol(t) is None {
            Some("server endpoint '"@ + endpoint + "': "@ + spec_protocol_error(t))
        } else {
            None
        }
    } else {
        Some(unexpected_key(f, "server definition"@))
    }
}

/// The error of the first field of `fs` that has one.
pub open spec fn server_fields_error(fs: Seq<Field>) -> Option<Seq<char>>
    decreases fs.len(),
{
    if fs.len() == 0 {
        None
    } else {
        match server_fields_error(fs.drop_last()) {
            Some(m) => Some(m),
            None => server_field_error(
                fs.last(),
                or_empty(last_field_text(fs.drop_last(), Keyword::Endpoint)),
            ),
        }
    }
}

/// The error of a server given by the fields `fs`: that of a field, or of
/// its endpoint's address.
pub open spec fn server_error(fs: Seq<Field>) -> Option<Seq<char>> {
    match server_fields_error(fs) {
        Some(m) => Some(m),
        None => transport_error(or_empty(last_field_text(fs, Keyword::Endpoint))),
    }
}

/// `s` is the server with the endpoint `addr`, the weight `weight` and the
/// protocol `protocol` (HTTP/1.1 when not given).
pub open spec fn server_at(s: UpstreamServer, addr: Seq<char>, weight: u32, protocol: Option<NetworkProtocol>) -> bool {
    &&& s.address@ == addr
    &&& transport_is(s.transport, addr)
    &&& s.weight == weight
    &&& s.protocol == match protocol {
        Some(p) => p,
        None => NetworkProtocol::Http1 { allow_websocket_upgrade: false },
    }
    &&& s.ssl is None
    &&& s.is_healthy
}

/// `s` is the server that the fields `fs` give: its `endpoint`, its
/// `weight` (1 when not given) and its `protocol`.
pub open spec fn server_is(s: UpstreamServer, fs: Seq<Field>) -> bool {
    server_at(
        s,
        or_empty(last_field_text(fs, Keyword::Endpoint)),
        match last_field_written(fs, Keyword::Weight) {
            Some(w) => spec_number(w) as u32,
            None => 1u32,
        },
        match last_field_text(fs, Keyword::Protocol) {
            Some(t) => Some(spec_parse_protocol(t)->0),
            None => None,
        },
    )
}

/// The fields of a list item: those of an object, none for anything else.
pub open spec fn item_fields(x: Value) -> Seq<Field> {
    match x {
        Value::Object(fs) => fs@,
        _ => Seq::empty(),
    }
}

/// The error of the first item of `xs` whose server has one.
pub open spec fn items_error(xs: Seq<Value>) -> Option<Seq<char>>
    decreases xs.len(),
{
    if xs.len() == 0 {
        None
    } else {
        match items_error(xs.drop_last()) {
            Some(m) => Some(m),
            None => server_error(item_fields(xs.last())),
        }
    }
}

/// The error of a `servers` value: an address, an object of server fields,
/// or a list of such objects.
pub open spec fn servers_error(x: Value) -> Option<Seq<char>> {
    match x {
        Value::Text(a) => transport_error(a.text@),
        Value::Object(fs) => server_error(fs@),
        Value::List(xs) => items_error(xs@),
        _ => Some("unexpected servers value format"@),
    }
}

pub open spec fn servers_is(ss: Seq<UpstreamServer>, x: Value) -> bool {
    match x {
        Value::Text(a) => ss.len() == 1 && server_at(ss[0], a.text@, 1, None),
        Value::Object(fs) => ss.len() == 1 && server_is(ss[0], fs@),
        Value::List(xs) => ss.len() == xs@.len() && forall|i: int|
            0 <= i < ss.len() ==> server_is(#[trigger] ss[i], item_fields(xs@[i])),
        _ => false,
    }
}

/// A server at `addr`, when its address reads.
pub fn make_upstream_server(addr: &str, weight: u32, protocol: Option<NetworkProtocol>) -> (r: Result<UpstreamServer, String>)
    ensures
        match r {
            Ok(s) => transport_error(addr@) is None && server_at(s, addr@, weight, protocol),
            Err(e) => transport_error(addr@) == Some(e@),
        },
{
    let transport = match parse_transport(addr) {
        Ok(t) => t,
        Err(e) => {
            return Err(e);
        },
    };
    Ok(
        UpstreamServer {
            protocol: match protocol {
                Some(p) => p,
                None => NetworkProtocol::Http1 { allow_websocket_upgrade: false },
            },
            address: addr.to_owned(),
            transport,
            ssl: None,
            weight,
            is_healthy: true,
        },
    )
}

fn field_keyword(f: &Field) -> (k: Keyword)
    ensures
        k == field_key(*f),
{
    let w = atom_written_of(&f.key);
    keyword(w.as_str())
}

fn unexpected_key_of(f: &Field, what: &str) -> (m: String)
    ensures
        m@ == unexpected_key(*f, what@),
{
    let mut m = "unexpected key '".to_owned();
    let w = atom_written_of(&f.key);
    m.append(w.as_str());
    m.append("' in ");
    m.append(what);
    m
}

/// Reads the fields of an inline server `{ endpoint = ..., weight = ...,
/// protocol = ... }` (see `server_is`).
pub fn parse_inline_server(fs: &Vec<Field>) -> (r: Result<UpstreamServer, String>)
    ensures
        match r {
            Ok(s) => server_error(fs@) is None && server_is(s, fs@),
            Err(m) => server_error(fs@) == Some(m@),
        },
{
    let mut endpoint = String::new();
    let mut weight: Option<String> = None;
    let mut protocol: Option<NetworkProtocol> = None;
    let mut i: usize = 0;
    while i < fs.len()
        invariant
            0 <= i <= fs@.len(),
            server_fields_error(fs@.take(i as int)) is None,
            endpoint@ == or_empty(last_field_text(fs@.take(i as int), Keyword::Endpoint)),
            opt_view(weight) == last_field_written(fs@.take(i as int), Keyword::Weight),
            protocol == match last_field_text(fs@.take(i as int), Keyword::Protocol) {
                Some(t) => Some(spec_parse_protocol(t)->0),
                None => None,
            },
        decreases fs@.len() - i,
    {
        assert(fs@.take(i + 1).drop_last() =~= fs@.take(i as int));
        let f = &fs[i];
        let k = field_keyword(f);
        let mut ok = false;
        if let Value::Text(a) = &f.value {
            if k == Keyword::Endpoint {
                endpoint = a.text.clone();
                ok = true;
            } else if k == Keyword::Weight {
                weight = written_value(&f.value);
                ok = true;
            } else if k == Keyword::Protocol {
                match NetworkProtocol::parse(a.text.as_str()) {
                    Ok(p) => {
                        protocol = Some(p);
                        ok = true;
                    },
                    Err(e) => {
                        let mut m = "server endpoint '".to_owned();
                        m.append(endpoint.as_str());
                        m.append("': ");
                        m.append(e.as_str());
                        proof {
                            lemma_server_fields_error_prefix(fs@, i + 1);
                        }
                        return Err(m);
                    },
                }
            }
        }
        if !ok {
            proof {
                lemma_server_fields_error_prefix(fs@, i + 1);
            }
            return Err(unexpected_key_of(f, "server definition"));
        }
        i = i + 1;
    }
    assert(fs@.take(fs@.len() as int) =~= fs@);
    let w: u32 = match weight {
        Some(w) => extract_number(w.as_str()) as u32,
        None => 1,
    };
    make_upstream_server(endpoint.as_str(), w, protocol)
}

pub proof fn lemma_server_fields_error_prefix(fs: Seq<Field>, j: int)
    requires
        0 <= j <= fs.len(),
        server_fields_error(fs.take(j)) is Some,
    ensures
        server_fields_error(fs) == server_fields_error(fs.take(j)),
    decreases fs.len() - j,
{
    if j < fs.len() {
        assert(fs.take(j + 1).drop_last() =~= fs.take(j));
        lemma_server_fields_error_prefix(fs, j + 1);
    } else {
        assert(fs.take(j) =~= fs);
    }
}

pub proof fn lemma_items_error_prefix(xs: Seq<Value>, j: int)
    requires
        0 <= j <= xs.len(),
        items_error(xs.take(j)) is Some,
    ensures
        items_error(xs) == items_error(xs.take(j)),
    decreases xs.len() - j,
{
    if j < xs.len() {
        assert(xs.take(j + 1).drop_last() =~= xs.take(j));
        lemma_items_error_prefix(xs, j + 1);
    } else {
        assert(xs.take(j) =~= xs);
    }
}

/// Reads the value of `servers`: an address, an inline server, or a list
/// of inline servers.
pub fn parse_servers_value(x: &Value) -> (r: Result<Vec<UpstreamServer>, String>)
    ensures
        match r {
            Ok(ss) => servers_error(*x) is None && servers_is(ss@, *x),
            Err(m) => servers_error(*x) == Some(m@),
        },
{
    match x {
        Value::Text(a) => {
            let s = match make_upstream_server(a.text.as_str(), 1, None) {
                Ok(s) => s,
                Err(e) => {
                    return Err(e);
                },
            };
            let mut out = Vec::new();
            out.push(s);
            Ok(out)
        },
        Value::Object(fs) => {
            let s = match parse_inline_server(fs) {
                Ok(s) => s,
                Err(e) => {
                    return Err(e);
                },
            };
            let mut out = Vec::new();
            out.push(s);
            Ok(out)
        },
        Value::List(xs) => {
            let mut out: Vec<UpstreamServer> = Vec::new();
            let empty: Vec<Field> = Vec::new();
            let mut i: usize = 0;
            while i < xs.len()
                invariant
                    *x == Value::List(*xs),
                    empty@.len() == 0,
                    0 <= i <= xs@.len(),
                    items_error(xs@.take(i as int)) is None,
                    out@.len() == i,
                    forall|j: int| 0 <= j < i ==> server_is(#[trigger] out@[j], item_fields(xs@[j])),
                decreases xs@.len() - i,
            {
                assert(xs@.take(i + 1).drop_last() =~= xs@.take(i as int));
                let fs = match &xs[i] {
                    Value::Object(fs) => fs,
                    _ => &empty,
                };
                assert(fs@ =~= item_fields(xs@[i as int]));
                match parse_inline_server(fs) {
                    Ok(s) => {
                        out.push(s);
                    },
                    Err(e) => {
                        proof {
                            lemma_items_error_prefix(xs@, i + 1);
                        }
                        return Err(e);
                    },
                }
                i = i + 1;
            }
            assert(xs@.take(xs@.len() as int) =~= xs@);
            Ok(out)
        },
        _ => Err("unexpected servers value format".to_owned()),
    }
}

/// The error of a field of a `health_check` object.
pub open spec fn health_field_error(f: Field) -> Option<Seq<char>> {
    let k = field_key(f);
    if f.value is Text && (k == Keyword::Path || k == Keyword::Interval || k == Keyword::Timeout
        || k == Keyword::UnhealthyThreshold || k == Keyword::HealthyThreshold) {
        None
    } else {
        Some(unexpected_key(f, "health_check block"@))
    }
}

pub open spec fn health_error(fs: Seq<Field>) -> Option<Seq<char>>
    decreases fs.len(),
{
    if fs.len() == 0 {
        None
    } else {
        match health_error(fs.drop_last()) {
            Some(m) => Some(m),
            None => health_field_error(fs.last()),
        }
    }
}

/// `h` is the health check of the fields `fs`: the `path` ("/" when not
/// given), `interval` and `timeout` in seconds (10 and 5), and the
/// thresholds (3 failures, 2 successes).
pub open spec fn health_is(h: HealthCheckConfig, fs: Seq<Field>) -> bool {
    &&& h.path@ == match last_field_text(fs, Keyword::Path) {
        Some(t) => t,
        None => "/"@,
    }
    &&& h.interval == match last_field_written(fs, Keyword::Interval) {
        Some(w) => spec_duration_secs(w),
        None => 10u64,
    }
    &&& h.timeout == match last_field_written(fs, Keyword::Timeout) {
        Some(w) => spec_duration_secs(w),
        None => 5u64,
    }
    &&& h.unhealthy_threshold == match last_field_written(fs, Keyword::UnhealthyThreshold) {
        Some(w) => spec_number(w) as u32,
        None => 3u32,
    }
    &&& h.healthy_threshold == match last_field_written(fs, Keyword::HealthyThreshold) {
        Some(w) => spec_number(w) as u32,
        None => 2u32,
    }
}

pub proof fn lemma_health_error_prefix(fs: Seq<Field>, j: int)
    requires
        0 <= j <= fs.len(),
        health_error(fs.take(j)) is Some,
    ensures
        health_error(fs) == health_error(fs.take(j)),
    decreases fs.len() - j,
{
    if j < fs.len() {
        assert(fs.take(j + 1).drop_last() =~= fs.take(j));
        lemma_health_error_prefix(fs, j + 1);
    } else {
        assert(fs.take(j) =~= fs);
    }
}

/// Reads the fields of a `health_check` object (see `health_is`).
pub fn parse_health_check(fs: &Vec<Field>) -> (r: Result<HealthCheckConfig, String>)
    ensures
        match r {
            Ok(h) => health_error(fs@) is None && health_is(h, fs@),
            Err(m) => health_error(fs@) == Some(m@),
        },
{
    let mut path: Option<String> = None;
    let mut interval: Option<String> = None;
    let mut timeout: Option<String> = None;
    let mut unhealthy: Option<String> = None;
    let mut healthy: Option<String> = None;
    let mut i: usize = 0;
    while i < fs.len()
        invariant
            0 <= i <= fs@.len(),
            health_error(fs@.take(i as int)) is None,
            opt_view(path) == last_field_text(fs@.take(i as int), Keyword::Path),
            opt_view(interval) == last_field_written(fs@.take(i as int), Keyword::Interval),
            opt_view(timeout) == last_field_written(fs@.take(i as int), Keyword::Timeout),
            opt_view(unhealthy) == last_field_written(fs@.take(i as int), Keyword::UnhealthyThreshold),
            opt_view(healthy) == last_field_written(fs@.take(i as int), Keyword::HealthyThreshold),
        decreases fs@.len() - i,
    {
        assert(fs@.take(i + 1).drop_last() =~= fs@.take(i as int));
        let f = &fs[i];
        let k = field_keyword(f);
        let mut ok = false;
        if let Value::Text(a) = &f.value {
            if k == Keyword::Path {
                path = Some(a.text.clone());
                ok = true;
            } else if k == Keyword::Interval {
                interval = written_value(&f.value);
                ok = true;
            } else if k == Keyword::Timeout {
                timeout = written_value(&f.value);
                ok = true;
            } else if k == Keyword::UnhealthyThreshold {
                unhealthy = written_value(&f.value);
                ok = true;
            } else if k == Keyword::HealthyThreshold {
                healthy = written_value(&f.value);
                ok = true;
            }
        }
        if !ok {
            proof {
                lemma_health_error_prefix(fs@, i + 1);
            }
            return Err(unexpected_key_of(f, "health_check block"));
        }
        i = i + 1;
    }
    assert(fs@.take(fs@.len() as int) =~= fs@);
    Ok(
        HealthCheckConfig {
            path: match path {
                Some(p) => p,
                None => "/".to_owned(),
            },
            interval: match interval {
                Some(w) => parse_duration_to_secs(w.as_str()),
                None => 10,
            },
            timeout: match timeout {
                Some(w) => parse_duration_to_secs(w.as_str()),
                None => 5,
            },
            unhealthy_threshold: match unhealthy {
                Some(w) => extract_number(w.as_str()) as u32,
                None => 3,
            },
            healthy_threshold: match healthy {
                Some(w) => extract_number(w.as_str()) as u32,
                None => 2,
            },
        },
    )
}

/// The error of an entry of the upstream `name`: that of its `servers`, of
/// a `load_balance` that is not a strategy, or of its `health_check`.
pub open spec fn upstream_entry_error(en: Entry, name: Seq<char>) -> Option<Seq<char>> {
    if assigns(en, Keyword::Servers) {
        servers_error(en.body->Assign_0)
    } else if assigns_text(en, Keyword::LoadBalance) {
        if spec_balance(spec_keyword(assigned_text(en))) is None {
            Some("upstream '"@ + name + "': "@ + spec_balance_error(assigned_text(en)))
        } else {
            None
        }
    } else if health_entry(en) {
        health_error(en.body->Assign_0->Object_0@)
    } else {
        None
    }
}

/// `en` is `health_check = { ... }`.
pub open spec fn health_entry(en: Entry) -> bool {
    assigns(en, Keyword::HealthCheck) && en.body->Assign_0 is Object
}

pub open spec fn health_pred() -> spec_fn(Entry) -> bool {
    |en: Entry| health_entry(en)
}

pub open spec fn upstream_err_fn(name: Seq<char>) -> spec_fn(Entry) -> Option<Seq<char>> {
    |en: Entry| upstream_entry_error(en, name)
}

/// `u` is the upstream that `en`, an `upstream "name" { ... }`, declares:
/// the servers of its last `servers`, its `load_balance` (least
/// connections when not given) and its `health_check`.
pub open spec fn upstream_is(u: UpstreamConfig, en: Entry) -> bool {
    let es = block_of(en);
    &&& u.name@ == label_of(en)
    &&& match last_where(es, assign_pred(Keyword::Servers)) {
        Some(s) => servers_is(u.servers@, s.body->Assign_0),
        None => u.servers@.len() == 0,
    }
    &&& u.balance_strategy == match last_text(es, Keyword::LoadBalance) {
        Some(t) => spec_balance(spec_keyword(t))->0,
        None => BalanceStrategy::LeastConnections,
    }
    &&& match last_where(es, health_pred()) {
        Some(h) => u.health_check matches Some(hc) && health_is(hc, h.body->Assign_0->Object_0@),
        None => u.health_check is None,
    }
}

fn upstream_entry_error_of(en: &Entry, name: &String) -> (r: Option<String>)
    ensures
        opt_view(r) == upstream_entry_error(*en, name@),
{
    if is_assign_entry(en, Keyword::Servers) {
        match &en.body {
            Body::Assign(x) => match parse_servers_value(x) {
                Ok(_) => None,
                Err(m) => Some(m),
            },
            _ => None,
        }
    } else if is_text_entry(en, Keyword::LoadBalance) {
        let t = assigned_text_of(en);
        match parse_balance_strategy(t.as_str()) {
            Ok(_) => None,
            Err(e) => {
                let mut m = "upstream '".to_owned();
                m.append(name.as_str());
                m.append("': ");
                m.append(e.as_str());
                Some(m)
            },
        }
    } else if is_assign_entry(en, Keyword::HealthCheck) {
        match &en.body {
            Body::Assign(Value::Object(fs)) => match parse_health_check(fs) {
                Ok(_) => None,
                Err(m) => Some(m),
            },
            _ => None,
        }
    } else {
        None
    }
}

/// Reads `upstream "name" { ... }` (see `upstream_is`); the first error
/// among its entries is the upstream's; other entries are skipped.
pub fn parse_upstream(en: &Entry) -> (r: Result<UpstreamConfig, String>)
    requires
        opens_labelled(*en, Keyword::Upstream),
    ensures
        match r {
            Ok(u) => first_error(block_of(*en), upstream_err_fn(label_of(*en))) is None
                && upstream_is(u, *en),
            Err(m) => first_error(block_of(*en), upstream_err_fn(label_of(*en))) == Some(m@),
        },
{
    let name = en.head[1].text.clone();
    let es = block_entries_of(en);
    let mut i: usize = 0;
    while i < es.len()
        invariant
            0 <= i <= es@.len(),
            name@ == label_of(*en),
            es@ == block_of(*en),
            first_error(es@.take(i as int), upstream_err_fn(name@)) is None,
        decreases es@.len() - i,
    {
        proof {
            lemma_first_error_step(es@, i as int, upstream_err_fn(name@));
        }
        match upstream_entry_error_of(&es[i], &name) {
            Some(m) => {
                proof {
                    lemma_first_error_prefix(es@, i + 1, upstream_err_fn(name@));
                }
                return Err(m);
            },
            None => {},
        }
        i = i + 1;
    }
    assert(es@.take(es@.len() as int) =~= es@);
    proof {
        lemma_no_error_last(es@, upstream_err_fn(name@), assign_pred(Keyword::Servers));
        lemma_no_error_last(es@, upstream_err_fn(name@), text_pred(Keyword::LoadBalance));
        lemma_no_error_last(es@, upstream_err_fn(name@), health_pred());
    }
    let mut servers_value: Option<&Value> = None;
    let mut health_fields: Option<&Vec<Field>> = None;
    let mut j: usize = 0;
    while j < es.len()
        invariant
            0 <= j <= es@.len(),
            match last_where(es@.take(j as int), assign_pred(Keyword::Servers)) {
                Some(s) => servers_value matches Some(x) && *x == s.body->Assign_0,
                None => servers_value is None,
            },
            match last_where(es@.take(j as int), health_pred()) {
                Some(h) => health_fields matches Some(fs) && fs@ == h.body->Assign_0->Object_0@,
                None => health_fields is None,
            },
        decreases es@.len() - j,
    {
        proof {
            lemma_last_where_step(es@, j as int, assign_pred(Keyword::Servers));
            lemma_last_where_step(es@, j as int, health_pred());
        }
        let e = &es[j];
        if e.head.len() == 1 {
            let k = head_keyword(e);
            if let Body::Assign(x) = &e.body {
                if k == Keyword::Servers {
                    servers_value = Some(x);
                } else if k == Keyword::HealthCheck {
                    if let Value::Object(fs) = x {
                        health_fields = Some(fs);
                    }
                }
            }
        }
        j = j + 1;
    }
    assert(es@.take(es@.len() as int) =~= es@);
    let servers = match servers_value {
        Some(x) => match parse_servers_value(x) {
            Ok(ss) => ss,
            Err(_) => Vec::new(),
        },
        None => Vec::new(),
    };
    let balance_strategy = match last_text_of(es, Keyword::LoadBalance) {
        Some(t) => match parse_balance_strategy(t.as_str()) {
            Ok(b) => b,
            Err(_) => BalanceStrategy::LeastConnections,
        },
        None => BalanceStrategy::LeastConnections,
    };
    let health_check = match health_fields {
        Some(fs) => match parse_health_check(fs) {
            Ok(h) => Some(h),
            Err(_) => None,
        },
        None => None,
    };
    Ok(UpstreamConfig { name, servers, balance_strategy, health_check })
}

pub open spec fn upstreams_entry_error(en: Entry) -> Option<Seq<char>> {
    if opens_labelled(en, Keyword::Upstream) {
        first_error(block_of(en), upstream_err_fn(label_of(en)))
    } else {
        None
    }
}

pub open spec fn upstreams_err_fn() -> spec_fn(Entry) -> Option<Seq<char>> {
    |en: Entry| upstreams_entry_error(en)
}

pub open spec fn upstreams_are(us: Seq<UpstreamConfig>, es: Seq<Entry>) -> bool {
    &&& us.len() == labelled_entries(es, Keyword::Upstream).len()
    &&& forall|i: int| 0 <= i < us.len() ==> upstream_is(#[trigger] us[i], labelled_entries(es, Keyword::Upstream)[i])
}

/// Reads an `upstreams { ... }` block: its `upstream "name" { ... }`
/// entries, in order; other entries are skipped.
pub fn parse_upstreams(es: &Vec<Entry>) -> (r: Result<Vec<UpstreamConfig>, String>)
    ensures
        match r {
            Ok(us) => first_error(es@, upstreams_err_fn()) is None && upstreams_are(us@, es@),
            Err(m) => first_error(es@, upstreams_err_fn()) == Some(m@),
        },
{
    let mut out: Vec<UpstreamConfig> = Vec::new();
    let mut i: usize = 0;
    while i < es.len()
        invariant
            0 <= i <= es@.len(),
            first_error(es@.take(i as int), upstreams_err_fn()) is None,
            upstreams_are(out@, es@.take(i as int)),
        decreases es@.len() - i,
    {
        proof {
            lemma_first_error_step(es@, i as int, upstreams_err_fn());
            assert(es@.take(i + 1).drop_last() =~= es@.take(i as int));
        }
        let en = &es[i];
        let ghost before = out@;
        if en.head.len() == 2 && head_keyword(en) == Keyword::Upstream {
            if let Body::Block(_) = &en.body {
                match parse_upstream(en) {
                    Ok(u) => {
                        out.push(u);
                        proof {
                            assert forall|j: int| 0 <= j < out@.len() implies upstream_is(
                                #[trigger] out@[j],
                                labelled_entries(es@.take(i + 1), Keyword::Upstream)[j],
                            ) by {
                                if j < before.len() {
                                    assert(out@[j] == before[j]);
                                }
                            }
                        }
                    },
                    Err(m) => {
                        proof {
                            lemma_first_error_prefix(es@, i + 1, upstreams_err_fn());
                        }
                        return Err(m);
                    },
                }
            }
        }
        i = i + 1;
    }
    assert(es@.take(es@.len() as int) =~= es@);
    Ok(out)
}

pub open spec fn routes_entry_error(en: Entry) -> Option<Seq<char>> {
    if opens_labelled(en, Keyword::Route) {
        first_error(block_of(en), route_err_fn())
    } else {
        None
    }
}

pub open spec fn routes_err_fn() -> spec_fn(Entry) -> Option<Seq<char>> {
    |en: Entry| routes_entry_error(en)
}

pub open spec fn routes_are(rs: Seq<RoutesConfig>, es: Seq<Entry>) -> bool {
    &&& rs.len() == labelled_entries(es, Keyword::Route).len()
    &&& forall|i: int| 0 <= i < rs.len() ==> route_is(#[trigger] rs[i], labelled_entries(es, Keyword::Route)[i])
}

/// Reads a `routes { ... }` block: its `route "path" { ... }` entries, in
/// order; other entries are skipped.
pub fn parse_routes(es: &Vec<Entry>) -> (r: Result<Vec<RoutesConfig>, String>)
    ensures
        match r {
            Ok(rs) => first_error(es@, routes_err_fn()) is None && routes_are(rs@, es@),
            Err(m) => first_error(es@, routes_err_fn()) == Some(m@),
        },
{
    let mut out: Vec<RoutesConfig> = Vec::new();
    let mut i: usize = 0;
    while i < es.len()
        invariant
            0 <= i <= es@.len(),
            first_error(es@.take(i as int), routes_err_fn()) is None,
            routes_are(out@, es@.take(i as int)),
        decreases es@.len() - i,
    {
        proof {
            lemma_first_error_step(es@, i as int, routes_err_fn());
            assert(es@.take(i + 1).drop_last() =~= es@.take(i as int));
        }
        let en = &es[i];
        let ghost before = out@;
        if en.head.len() == 2 && head_keyword(en) == Keyword::Route {
            if let Body::Block(_) = &en.body {
                match parse_single_route(en) {
                    Ok(r) => {
                        out.push(r);
                        proof {
                            assert forall|j: int| 0 <= j < out@.len() implies route_is(
                                #[trigger] out@[j],
                                labelled_entries(es@.take(i + 1), Keyword::Route)[j],
                            ) by {
                                if j < before.len() {
                                    assert(out@[j] == before[j]);
                                }
                            }
                        }
                    },
                    Err(m) => {
                        proof {
                            lemma_first_error_prefix(es@, i + 1, routes_err_fn());
                        }
                        return Err(m);
                    },
                }
            }
        }
        i = i + 1;
    }
    assert(es@.take(es@.len() as int) =~= es@);
    Ok(out)
}

// ============================================================================
// GATEWAY FILES
// ============================================================================

/// The declarations of policies of kind `k` among `es`, by name: a later
/// declaration of a name replaces an earlier one.
pub open spec fn named_policies(es: Seq<Entry>, k: Keyword) -> Seq<(Seq<char>, Entry)>
    decreases es.len(),
{
    if es.len() == 0 {
        Seq::empty()
    } else {
        let prev = named_policies(es.drop_last(), k);
        let en = es.last();
        if is_policy(en) && policy_kind(en) == k {
            put(prev, policy_name(en), en)
        } else {
            prev
        }
    }
}

/// `v` holds, name for name, the settings of the declarations `np`.
pub open spec fn named_is<T>(v: Seq<(String, T)>, np: Seq<(Seq<char>, Entry)>, ok: spec_fn(T, Entry) -> bool) -> bool {
    &&& v.len() == np.len()
    &&& forall|i: int| 0 <= i < v.len() ==> (#[trigger] v[i]).0@ == np[i].0 && ok(v[i].1, np[i].1)
}

pub open spec fn policies_is<T>(p: Option<Vec<(String, T)>>, np: Seq<(Seq<char>, Entry)>, ok: spec_fn(T, Entry) -> bool) -> bool {
    if np.len() == 0 {
        p is None
    } else {
        p matches Some(v) && named_is(v@, np, ok)
    }
}

pub open spec fn auth_ok() -> spec_fn(OAuthConfig, Entry) -> bool {
    |c: OAuthConfig, en: Entry| auth_is(c, block_of(en), true)
}

pub open spec fn waf_ok() -> spec_fn(WafConfig, Entry) -> bool {
    |c: WafConfig, en: Entry| waf_is(c, block_of(en), true)
}

pub open spec fn cors_ok() -> spec_fn(CorsConfig, Entry) -> bool {
    |c: CorsConfig, en: Entry| cors_is(c, block_of(en))
}

pub open spec fn limiter_ok() -> spec_fn(LimiterConfig, Entry) -> bool {
    |c: LimiterConfig, en: Entry| limiter_is(c, block_of(en))
}

pub proof fn lemma_key_index_same<A, B>(a: Seq<(Seq<char>, A)>, b: Seq<(Seq<char>, B)>, k: Seq<char>)
    requires
        a.len() == b.len(),
        forall|i: int| 0 <= i < a.len() ==> (#[trigger] a[i]).0 == b[i].0,
    ensures
        key_index(a, k) == key_index(b, k),
    decreases a.len(),
{
    if a.len() > 0 {
        assert(a.last().0 == b.last().0);
        lemma_key_index_same(a.drop_last(), b.drop_last(), k);
    }
}

pub proof fn lemma_key_index_in<A>(a: Seq<(Seq<char>, A)>, k: Seq<char>)
    ensures
        key_index(a, k) matches Some(i) ==> 0 <= i < a.len() && a[i].0 == k,
    decreases a.len(),
{
    if a.len() > 0 {
        lemma_key_index_in(a.drop_last(), k);
    }
}

/// Putting a named setting in `v` and its declaration in `np` keeps them
/// in step.
pub proof fn lemma_named_put<T>(
    v: Seq<(String, T)>,
    w: Seq<(String, T)>,
    np: Seq<(Seq<char>, Entry)>,
    k: Seq<char>,
    x: T,
    en: Entry,
    ok: spec_fn(T, Entry) -> bool,
)
    requires
        named_is(v, np, ok),
        keyed(w) == put(keyed(v), k, x),
        ok(x, en),
    ensures
        named_is(w, put(np, k, en), ok),
{
    let kv = keyed(v);
    assert forall|i: int| 0 <= i < kv.len() implies (#[trigger] kv[i]).0 == np[i].0 by {
        assert(kv[i].0 == v[i].0@);
    }
    lemma_key_index_same(kv, np, k);
    lemma_key_index_in(kv, k);
    let np2 = put(np, k, en);
    let kw = keyed(w);
    assert(w.len() == kw.len());
    assert forall|i: int| 0 <= i < w.len() implies (#[trigger] w[i]).0@ == np2[i].0 && ok(
        w[i].1,
        np2[i].1,
    ) by {
        assert(kw[i] == (w[i].0@, w[i].1));
        if i < v.len() {
            assert(kv[i] == (v[i].0@, v[i].1));
        }
    }
}

pub open spec fn top_entry_error(en: Entry) -> Option<Seq<char>> {
    if opens(en, Keyword::Listeners) {
        first_error(block_of(en), listeners_err_fn())
    } else if opens(en, Keyword::Upstreams) {
        first_error(block_of(en), upstreams_err_fn())
    } else if is_policy(en) {
        policy_error(en)
    } else {
        None
    }
}

pub open spec fn top_err_fn() -> spec_fn(Entry) -> Option<Seq<char>> {
    |en: Entry| top_entry_error(en)
}

pub open spec fn count_of(b: Option<Seq<Entry>>, k: Keyword) -> nat {
    match b {
        Some(es) => labelled_entries(es, k).len(),
        None => 0,
    }
}

/// The number of named policies of `es`, of all kinds, as a `usize` sum
/// that saturates.
pub open spec fn policy_count(es: Seq<Entry>) -> usize {
    let n = named_policies(es, Keyword::Auth).len() + named_policies(es, Keyword::Waf).len()
        + named_policies(es, Keyword::Cors).len() + named_policies(es, Keyword::Limiter).len();
    if n > usize::MAX {
        usize::MAX
    } else {
        n as usize
    }
}

/// The error of a gateway with too many listeners, upstreams, routes or
/// policies.
pub open spec fn limits_error(es: Seq<Entry>) -> Option<Seq<char>> {
    let nl = count_of(last_block(es, Keyword::Listeners), Keyword::Listener);
    let nu = count_of(last_block(es, Keyword::Upstreams), Keyword::Upstream);
    let nr = count_of(last_block(es, Keyword::Routes), Keyword::Route);
    let np = policy_count(es);
    if nl > MAX_LISTENERS {
        Some("Too many listeners: "@ + crate::config::dsl::errors::spec_decimal(nl) + " (max: 100)"@)
    } else if nu > MAX_UPSTREAMS {
        Some("Too many upstreams: "@ + crate::config::dsl::errors::spec_decimal(nu) + " (max: 500)"@)
    } else if nr > MAX_ROUTES {
        Some("Too many routes: "@ + crate::config::dsl::errors::spec_decimal(nr) + " (max: 5000)"@)
    } else if np > MAX_POLICIES {
        Some("Too many policies: "@ + crate::config::dsl::errors::spec_decimal(np as nat) + " (max: 500)"@)
    } else {
        None
    }
}

/// The error of a gateway file's entries: the first among its `listeners`
/// and `upstreams` blocks and policy declarations, then that of its last
/// `routes` block, then its limits.
pub open spec fn gateway_error(es: Seq<Entry>) -> Option<Seq<char>> {
    match first_error(es, top_err_fn()) {
        Some(m) => Some(m),
        None => match last_block(es, Keyword::Routes) {
            Some(b) => match first_error(b, routes_err_fn()) {
                Some(m) => Some(m),
                None => limits_error(es),
            },
            None => limits_error(es),
        },
    }
}

/// `g` is the gateway of the entries `es`: its last `name`, the listeners,
/// upstreams and routes of its last blocks of each, and its policies by
/// kind and name.
pub open spec fn gateway_is(g: GatewayConfig, es: Seq<Entry>) -> bool {
    &&& g.name@ == or_empty(last_text(es, Keyword::Name))
    &&& match last_block(es, Keyword::Listeners) {
        Some(b) => listeners_are(g.listeners@, b),
        None => g.listeners@.len() == 0,
    }
    &&& match last_block(es, Keyword::Upstreams) {
        Some(b) => upstreams_are(g.upstreams@, b),
        None => g.upstreams@.len() == 0,
    }
    &&& match last_block(es, Keyword::Routes) {
        Some(b) => routes_are(g.routes@, b),
        None => g.routes@.len() == 0,
    }
    &&& policies_is(g.policies.auth, named_policies(es, Keyword::Auth), auth_ok())
    &&& policies_is(g.policies.waf, named_policies(es, Keyword::Waf), waf_ok())
    &&& policies_is(g.policies.cors, named_policies(es, Keyword::Cors), cors_ok())
    &&& policies_is(g.policies.limiter, named_policies(es, Keyword::Limiter), limiter_ok())
}

fn too_many(what: &str, n: u64, max: &str) -> (m: String)
    ensures
        m@ == "Too many "@ + what@ + ": "@ + crate::config::dsl::errors::spec_decimal(n as nat)
            + " (max: "@ + max@ + ")"@,
{
    let mut m = "Too many ".to_owned();
    m.append(what);
    m.append(": ");
    crate::config::dsl::errors::push_decimal(&mut m, n);
    m.append(" (max: ");
    m.append(max);
    m.append(")");
    m
}

fn validate_limits(g: &GatewayConfig) -> (r: Result<(), String>)
    ensures
        match r {
            Ok(_) => g.listeners@.len() <= MAX_LISTENERS && g.upstreams@.len() <= MAX_UPSTREAMS
                && g.routes@.len() <= MAX_ROUTES && policy_total(g) <= MAX_POLICIES,
            Err(m) => m@ == (if g.listeners@.len() > MAX_LISTENERS {
                "Too many listeners: "@ + crate::config::dsl::errors::spec_decimal(g.listeners@.len()) + " (max: 100)"@
            } else if g.upstreams@.len() > MAX_UPSTREAMS {
                "Too many upstreams: "@ + crate::config::dsl::errors::spec_decimal(g.upstreams@.len()) + " (max: 500)"@
            } else if g.routes@.len() > MAX_ROUTES {
                "Too many routes: "@ + crate::config::dsl::errors::spec_decimal(g.routes@.len()) + " (max: 5000)"@
            } else {
                "Too many policies: "@ + crate::config::dsl::errors::spec_decimal(policy_total(g) as nat) + " (max: 500)"@
            }) && (g.listeners@.len() > MAX_LISTENERS || g.upstreams@.len() > MAX_UPSTREAMS
                || g.routes@.len() > MAX_ROUTES || policy_total(g) > MAX_POLICIES),
        },
{
    proof {
        reveal_strlit("listeners");
        reveal_strlit("upstreams");
        reveal_strlit("routes");
        reveal_strlit("policies");
        reveal_strlit("100");
        reveal_strlit("500");
        reveal_strlit("5000");
        reveal_strlit("Too many ");
        reveal_strlit(": ");
        reveal_strlit(" (max: ");
        reveal_strlit(")");
        reveal_strlit("Too many listeners: ");
        reveal_strlit("Too many upstreams: ");
        reveal_strlit("Too many routes: ");
        reveal_strlit("Too many policies: ");
        reveal_strlit(" (max: 100)");
        reveal_strlit(" (max: 500)");
        reveal_strlit(" (max: 5000)");
    }
    if g.listeners.len() > MAX_LISTENERS {
        let m = too_many("listeners", g.listeners.len() as u64, "100");
        assert(m@ =~= "Too many listeners: "@ + crate::config::dsl::errors::spec_decimal(g.listeners@.len()) + " (max: 100)"@);
        return Err(m);
    }
    if g.upstreams.len() > MAX_UPSTREAMS {
        let m = too_many("upstreams", g.upstreams.len() as u64, "500");
        assert(m@ =~= "Too many upstreams: "@ + crate::config::dsl::errors::spec_decimal(g.upstreams@.len()) + " (max: 500)"@);
        return Err(m);
    }
    if g.routes.len() > MAX_ROUTES {
        let m = too_many("routes", g.routes.len() as u64, "5000");
        assert(m@ =~= "Too many routes: "@ + crate::config::dsl::errors::spec_decimal(g.routes@.len()) + " (max: 5000)"@);
        return Err(m);
    }
    let n = policy_total_exec(g);
    if n > MAX_POLICIES {
        let m = too_many("policies", n as u64, "500");
        assert(m@ =~= "Too many policies: "@ + crate::config::dsl::errors::spec_decimal(n as nat) + " (max: 500)"@);
        return Err(m);
    }
    Ok(())
}

pub open spec fn opt_len<T>(o: Option<Vec<T>>) -> nat {
    match o {
        Some(v) => v@.len(),
        None => 0,
    }
}

/// The number of named policies of `g`, as a `usize` sum that saturates.
pub open spec fn policy_total(g: &GatewayConfig) -> usize {
    let n = opt_len(g.policies.auth) + opt_len(g.policies.waf) + opt_len(g.policies.cors) + opt_len(
        g.policies.limiter,
    );
    if n > usize::MAX {
        usize::MAX
    } else {
        n as usize
    }
}

fn policy_total_exec(g: &GatewayConfig) -> (n: usize)
    ensures
        n == policy_total(g),
{
    let a = match &g.policies.auth {
        Some(v) => v.len(),
        None => 0,
    };
    let w = match &g.policies.waf {
        Some(v) => v.len(),
        None => 0,
    };
    let c = match &g.policies.cors {
        Some(v) => v.len(),
        None => 0,
    };
    let l = match &g.policies.limiter {
        Some(v) => v.len(),
        None => 0,
    };
    a.saturating_add(w).saturating_add(c).saturating_add(l)
}

/// The message of a text that has no tree.
pub open spec fn tree_error_message(e: crate::config::tree::TreeError) -> Seq<char> {
    match e {
        crate::config::tree::TreeError::Unterminated(p) => "unterminated string at character "@
            + crate::config::dsl::errors::spec_decimal(p as nat),
        crate::config::tree::TreeError::Syntax => "syntax error"@,
    }
}

fn tree_error_message_of(e: crate::config::tree::TreeError) -> (m: String)
    ensures
        m@ == tree_error_message(e),
{
    match e {
        crate::config::tree::TreeError::Unterminated(p) => {
            let mut m = "unterminated string at character ".to_owned();
            crate::config::dsl::errors::push_decimal(&mut m, p as u64);
            m
        },
        crate::config::tree::TreeError::Syntax => "syntax error".to_owned(),
    }
}

/// Why a text is not a gateway file, or how its entries fail.
pub open spec fn gateway_text_error(s: Seq<char>, m: Seq<char>) -> bool {
    ||| (exists|p: int| crate::config::dsl::lexer::lex(s) == Err::<Seq<crate::config::dsl::lexer::Token>, int>(p)
        && m == tree_error_message(crate::config::tree::TreeError::Unterminated(p as usize)))
    ||| crate::config::dsl::lexer::lex(s) is Ok && (forall|es: Seq<Entry>| !crate::config::tree::tree_of(es, s))
        && m == "syntax error"@
    ||| exists|es: Seq<Entry>| crate::config::tree::tree_of(es, s) && gateway_error(es) == Some(m)
}

/// Reads a gateway file: `name = "..."`, `listeners { ... }`, `upstreams
/// { ... }` and `routes { ... }` blocks, and `policy kind "name" { ... }`
/// declarations, in any order. The gateway is that of the file's entries
/// (see `gateway_is`); a file that does not read gives its error (see
/// `gateway_error`).
pub fn parse_gateway_config(input: &str) -> (r: Result<GatewayConfig, String>)
    requires
        input@.len() < usize::MAX,
    ensures
        match r {
            Ok(g) => exists|es: Seq<Entry>| crate::config::tree::tree_of(es, input@)
                && gateway_error(es) is None && gateway_is(g, es),
            Err(m) => gateway_text_error(input@, m@),
        },
{
    let es = match crate::config::tree::read_tree(input) {
        Ok(es) => es,
        Err(e) => {
            let m = tree_error_message_of(e);
            proof {
                match e {
                    crate::config::tree::TreeError::Unterminated(p) => {
                        assert(crate::config::dsl::lexer::lex(input@) == Err::<Seq<crate::config::dsl::lexer::Token>, int>(p as int));
                    },
                    _ => {},
                }
            }
            return Err(m);
        },
    };
    let r = gateway_of_entries(&es);
    match r {
        Ok(g) => Ok(g),
        Err(m) => Err(m),
    }
}

/// The gateway of the entries of a gateway file (see `gateway_is`).
pub fn gateway_of_entries(es: &Vec<Entry>) -> (r: Result<GatewayConfig, String>)
    ensures
        match r {
            Ok(g) => gateway_error(es@) is None && gateway_is(g, es@),
            Err(m) => gateway_error(es@) == Some(m@),
        },
{
    let mut listeners: Vec<ListenerConfig> = Vec::new();
    let mut upstreams: Vec<UpstreamConfig> = Vec::new();
    let mut routes_block: Option<&Vec<Entry>> = None;
    let mut auth: Vec<(String, OAuthConfig)> = Vec::new();
    let mut waf: Vec<(String, WafConfig)> = Vec::new();
    let mut cors: Vec<(String, CorsConfig)> = Vec::new();
    let mut limiter: Vec<(String, LimiterConfig)> = Vec::new();
    let mut i: usize = 0;
    while i < es.len()
        invariant
            0 <= i <= es@.len(),
            first_error(es@.take(i as int), top_err_fn()) is None,
            match last_block(es@.take(i as int), Keyword::Listeners) {
                Some(b) => listeners_are(listeners@, b),
                None => listeners@.len() == 0,
            },
            match last_block(es@.take(i as int), Keyword::Upstreams) {
                Some(b) => upstreams_are(upstreams@, b),
                None => upstreams@.len() == 0,
            },
            match last_block(es@.take(i as int), Keyword::Routes) {
                Some(b) => routes_block matches Some(rb) && rb@ == b,
                None => routes_block is None,
            },
            named_is(auth@, named_policies(es@.take(i as int), Keyword::Auth), auth_ok()),
            named_is(waf@, named_policies(es@.take(i as int), Keyword::Waf), waf_ok()),
            named_is(cors@, named_policies(es@.take(i as int), Keyword::Cors), cors_ok()),
            named_is(limiter@, named_policies(es@.take(i as int), Keyword::Limiter), limiter_ok()),
        decreases es@.len() - i,
    {
        proof {
            lemma_first_error_step(es@, i as int, top_err_fn());
            lemma_last_where_step(es@, i as int, block_pred(Keyword::Listeners));
            lemma_last_where_step(es@, i as int, block_pred(Keyword::Upstreams));
            lemma_last_where_step(es@, i as int, block_pred(Keyword::Routes));
            assert(es@.take(i + 1).drop_last() =~= es@.take(i as int));
        }
        let en = &es[i];
        if is_block_entry(en, Keyword::Listeners) {
            match parse_listeners(block_entries_of(en)) {
                Ok(ls) => {
                    listeners = ls;
                },
                Err(m) => {
                    proof {
                        lemma_first_error_prefix(es@, i + 1, top_err_fn());
                    }
                    return Err(m);
                },
            }
        } else if is_block_entry(en, Keyword::Upstreams) {
            match parse_upstreams(block_entries_of(en)) {
                Ok(us) => {
                    upstreams = us;
                },
                Err(m) => {
                    proof {
                        lemma_first_error_prefix(es@, i + 1, top_err_fn());
                    }
                    return Err(m);
                },
            }
        } else if is_block_entry(en, Keyword::Routes) {
            routes_block = Some(block_entries_of(en));
        } else if en.head.len() == 3 && head_keyword(en) == Keyword::Policy && is_block(en) {
            match parse_policy_block(en) {
                Ok((_, _, p)) => {
                    let ghost ge = *en;
                    let k = keyword(en.head[1].text.as_str());
                    if k == Keyword::Auth {
                        let mut v = p.auth.unwrap();
                        let (n, c) = v.remove(0);
                        let ghost old_auth = auth@;
                        put_named(&mut auth, n, c);
                        proof {
                            lemma_named_put(old_auth, auth@, named_policies(es@.take(i as int), Keyword::Auth), n@, c, ge, auth_ok());
                        }
                    } else if k == Keyword::Waf {
                        let mut v = p.waf.unwrap();
                        let (n, c) = v.remove(0);
                        let ghost old_waf = waf@;
                        put_named(&mut waf, n, c);
                        proof {
                            lemma_named_put(old_waf, waf@, named_policies(es@.take(i as int), Keyword::Waf), n@, c, ge, waf_ok());
                        }
                    } else if k == Keyword::Cors {
                        let mut v = p.cors.unwrap();
                        let (n, c) = v.remove(0);
                        let ghost old_cors = cors@;
                        put_named(&mut cors, n, c);
                        proof {
                            lemma_named_put(old_cors, cors@, named_policies(es@.take(i as int), Keyword::Cors), n@, c, ge, cors_ok());
                        }
                    } else {
                        let mut v = p.limiter.unwrap();
                        let (n, c) = v.remove(0);
                        let ghost old_limiter = limiter@;
                        put_named(&mut limiter, n, c);
                        proof {
                            lemma_named_put(old_limiter, limiter@, named_policies(es@.take(i as int), Keyword::Limiter), n@, c, ge, limiter_ok());
                        }
                    }
                },
                Err(m) => {
                    proof {
                        lemma_first_error_prefix(es@, i + 1, top_err_fn());
                    }
                    return Err(m);
                },
            }
        }
        i = i + 1;
    }
    assert(es@.take(es@.len() as int) =~= es@);
    let routes = match routes_block {
        Some(b) => match parse_routes(b) {
            Ok(rs) => rs,
            Err(m) => {
                return Err(m);
            },
        },
        None => Vec::new(),
    };
    let name = text_or_empty(last_text_of(es, Keyword::Name));
    let g = GatewayConfig {
        name,
        listeners,
        upstreams,
        routes,
        policies: PolicyConfig {
            auth: if auth.len() > 0 {
                Some(auth)
            } else {
                None
            },
            cors: if cors.len() > 0 {
                Some(cors)
            } else {
                None
            },
            waf: if waf.len() > 0 {
                Some(waf)
            } else {
                None
            },
            limiter: if limiter.len() > 0 {
                Some(limiter)
            } else {
                None
            },
        },
    };
    match validate_limits(&g) {
        Ok(_) => Ok(g),
        Err(m) => Err(m),
    }
}

fn is_block(en: &Entry) -> (b: bool)
    ensures
        b == en.body is Block,
{
    match &en.body {
        Body::Block(_) => true,
        _ => false,
    }
}

// ============================================================================
// MASTER FILE
// ============================================================================

/// The master process settings as the master file writes them.
#[derive(Debug, Clone)]
pub struct MasterConfig {
    pub name: String,
    pub user: String,
    /// The number of worker processes.
    pub workers: usize,
    pub pid: String,
    pub error_log: String,
    pub includes: Vec<String>,
}

/// The texts of every `k = text` of `es`, in order.
pub open spec fn all_texts(es: Seq<Entry>, k: Keyword) -> Seq<Seq<char>>
    decreases es.len(),
{
    if es.len() == 0 {
        Seq::empty()
    } else if assigns_text(es.last(), k) {
        all_texts(es.drop_last(), k).push(assigned_text(es.last()))
    } else {
        all_texts(es.drop_last(), k)
    }
}

pub open spec fn master_entry_error(en: Entry) -> Option<Seq<char>> {
    if assigns_text(en, Keyword::User) || assigns_text(en, Keyword::Workers) || assigns_text(
        en,
        Keyword::Pid,
    ) || assigns_text(en, Keyword::ErrorLog) || assigns_text(en, Keyword::Includes) {
        None
    } else {
        Some("unexpected entry in master block"@)
    }
}

pub open spec fn master_err_fn() -> spec_fn(Entry) -> Option<Seq<char>> {
    |en: Entry| master_entry_error(en)
}

/// `es` is a master file: one `master "name" { ... }` block.
pub open spec fn master_file(es: Seq<Entry>) -> bool {
    es.len() == 1 && opens_labelled(es[0], Keyword::Master)
}

pub open spec fn master_error(es: Seq<Entry>) -> Option<Seq<char>> {
    if !master_file(es) {
        Some("expected a master block"@)
    } else {
        first_error(block_of(es[0]), master_err_fn())
    }
}

/// The number of workers that the text `t` of `workers` asks for: a whole
/// decimal number as written, else (`auto`, or no `workers` at all) the
/// available parallelism `parallelism`.
pub open spec fn spec_workers(t: Option<Seq<char>>, parallelism: usize) -> usize {
    match t {
        Some(t) => match parse_unsigned(t, usize::MAX as int) {
            Some(n) => n as usize,
            None => parallelism,
        },
        None => parallelism,
    }
}

/// `m` holds the settings of the master block `en`: its name, `user`
/// (`www-data`), `pid` (`/run/ophan.pid`) and `error_log`
/// (`/var/log/ophan/error.log`) when not given, the workers resolved from
/// `workers` and the available parallelism `parallelism` (see
/// `spec_workers`), and every `includes`, in order.
pub open spec fn master_is(m: MasterConfig, en: Entry, parallelism: usize) -> bool {
    let es = block_of(en);
    &&& m.name@ == label_of(en)
    &&& m.user@ == match last_text(es, Keyword::User) {
        Some(t) => t,
        None => "www-data"@,
    }
    &&& m.workers == spec_workers(last_text(es, Keyword::Workers), parallelism)
    &&& m.pid@ == match last_text(es, Keyword::Pid) {
        Some(t) => t,
        None => "/run/ophan.pid"@,
    }
    &&& m.error_log@ == match last_text(es, Keyword::ErrorLog) {
        Some(t) => t,
        None => "/var/log/ophan/error.log"@,
    }
    &&& view_strings(m.includes@) == all_texts(es, Keyword::Includes)
}

fn workers_of(o: Option<String>, parallelism: usize) -> (w: usize)
    ensures
        w == spec_workers(opt_view(o), parallelism),
{
    match o {
        Some(t) => {
            let v = chars_of(t.as_str());
            let n = v.len();
            assert(v@.subrange(0, n as int) =~= t@);
            match parse_unsigned_range(&v, 0, n, usize::MAX as u64) {
                Some(k) => k as usize,
                None => parallelism,
            }
        },
        None => parallelism,
    }
}

fn text_or(o: Option<String>, d: &str) -> (s: String)
    ensures
        s@ == match opt_view(o) {
            Some(t) => t,
            None => d@,
        },
{
    match o {
        Some(s) => s,
        None => d.to_owned(),
    }
}

/// The master settings of the entries of a master file.
pub fn master_of_entries(es: &Vec<Entry>, parallelism: usize) -> (r: Result<MasterConfig, String>)
    ensures
        match r {
            Ok(m) => master_error(es@) is None && master_is(m, es@[0], parallelism),
            Err(e) => master_error(es@) == Some(e@),
        },
{
    if es.len() != 1 || !(es[0].head.len() == 2 && head_keyword(&es[0]) == Keyword::Master
        && is_block(&es[0])) {
        return Err("expected a master block".to_owned());
    }
    let en = &es[0];
    let b = block_entries_of(en);
    let mut includes: Vec<String> = Vec::new();
    let mut i: usize = 0;
    assert(view_strings(includes@) =~= Seq::<Seq<char>>::empty());
    while i < b.len()
        invariant
            0 <= i <= b@.len(),
            b@ == block_of(es@[0]),
            master_file(es@),
            first_error(b@.take(i as int), master_err_fn()) is None,
            view_strings(includes@) == all_texts(b@.take(i as int), Keyword::Includes),
        decreases b@.len() - i,
    {
        proof {
            lemma_first_error_step(b@, i as int, master_err_fn());
            assert(b@.take(i + 1).drop_last() =~= b@.take(i as int));
        }
        let e = &b[i];
        if is_text_entry(e, Keyword::Includes) {
            includes.push(assigned_text_of(e));
            assert(view_strings(includes@) =~= all_texts(b@.take(i + 1), Keyword::Includes));
        } else if !(is_text_entry(e, Keyword::User) || is_text_entry(e, Keyword::Workers)
            || is_text_entry(e, Keyword::Pid) || is_text_entry(e, Keyword::ErrorLog)) {
            proof {
                lemma_first_error_prefix(b@, i + 1, master_err_fn());
            }
            return Err("unexpected entry in master block".to_owned());
        }
        i = i + 1;
    }
    assert(b@.take(b@.len() as int) =~= b@);
    Ok(
        MasterConfig {
            name: en.head[1].text.clone(),
            user: text_or(last_text_of(b, Keyword::User), "www-data"),
            workers: workers_of(last_text_of(b, Keyword::Workers), parallelism),
            pid: text_or(last_text_of(b, Keyword::Pid), "/run/ophan.pid"),
            error_log: text_or(last_text_of(b, Keyword::ErrorLog), "/var/log/ophan/error.log"),
            includes,
        },
    )
}

/// Why a text is not a master file, or how its entries fail.
pub open spec fn master_text_error(s: Seq<char>, m: Seq<char>) -> bool {
    ||| (exists|p: int| crate::config::dsl::lexer::lex(s) == Err::<Seq<crate::config::dsl::lexer::Token>, int>(p)
        && m == tree_error_message(crate::config::tree::TreeError::Unterminated(p as usize)))
    ||| crate::config::dsl::lexer::lex(s) is Ok && (forall|es: Seq<Entry>| !crate::config::tree::tree_of(es, s))
        && m == "syntax error"@
    ||| exists|es: Seq<Entry>| crate::config::tree::tree_of(es, s) && master_error(es) == Some(m)
}

/// Reads a master file: `master "name" { user = ..., workers = ..., pid =
/// ..., error_log = ..., includes = ... }` (see `master_is`), with
/// `parallelism` the number of threads the machine can run at once.
pub fn parse_master_config(input: &str, parallelism: usize) -> (r: Result<MasterConfig, String>)
    requires
        input@.len() < usize::MAX,
    ensures
        match r {
            Ok(m) => exists|es: Seq<Entry>| crate::config::tree::tree_of(es, input@)
                && master_error(es) is None && master_is(m, es[0], parallelism),
            Err(e) => master_text_error(input@, e@),
        },
{
    let es = match crate::config::tree::read_tree(input) {
        Ok(es) => es,
        Err(e) => {
            let m = tree_error_message_of(e);
            proof {
                match e {
                    crate::config::tree::TreeError::Unterminated(p) => {
                        assert(crate::config::dsl::lexer::lex(input@) == Err::<Seq<crate::config::dsl::lexer::Token>, int>(p as int));
                    },
                    _ => {},
                }
            }
            return Err(m);
        },
    };
    master_of_entries(&es, parallelism)
}

} // verus!
