//! The gateway configuration as the block reader of `dsl_parser` yields it:
//! listeners, upstreams, routes and the policies they refer to, with the
//! policy settings (authentication, web application firewall, rate
//! limiting, CORS). Overriding a policy merges two settings field by field,
//! the override winning wherever it sets a field.
use std::time::Duration;
use vstd::prelude::*;

use crate::config::domain::{Http2Mode, NetworkProtocol, RouteStreaming};
use crate::config::dsl::errors::{push_decimal, spec_decimal};

verus! {

pub const MAX_CONFIG_FILE_SIZE: u64 = 2097152;

pub const MAX_ROUTES: usize = 5000;

pub const MAX_LISTENERS: usize = 100;

pub const MAX_UPSTREAMS: usize = 500;

pub const MAX_POLICIES: usize = 500;

// ============================================================
// NETWORK
// ============================================================

/// How a listener talks to its clients.
#[derive(Debug, Clone)]
pub enum SecurityConfig {
    Plaintext,
    Tls { certs: SSLConfig, alpn_protocols: Vec<String>, min_version: TlsVersion },
}

/// Where a listener or a server is reached: a TCP address as written
/// (`host:port`, resolved when connecting) or the path of a Unix socket.
#[derive(Debug, Clone, PartialEq, Eq)]
pub enum NetworkTransport {
    Tcp(String),
    Uds(String),
}

/// The least TLS version a listener accepts.
#[derive(Debug, Clone, Copy, PartialEq, Eq, Structural)]
pub enum TlsVersion {
    Tls12,
    Tls13,
}

impl Default for TlsVersion {
    fn default() -> (v: Self)
        ensures
            v == TlsVersion::Tls13,
    {
        TlsVersion::Tls13
    }
}

#[derive(Debug, Clone)]
pub struct SSLConfig {
    pub cert: String,
    pub key: String,
    pub client_ca: Option<String>,
}

#[derive(Debug, Clone, Default)]
pub struct UpstreamSSLConfig {
    pub insecure_skip_verify: bool,
    pub hosts: Option<Vec<String>>,
    pub ca_cert: Option<String>,
    pub client_cert: Option<String>,
    pub client_key: Option<String>,
}

// ============================================================
// AUTH
// ============================================================

#[derive(Debug, Clone)]
pub struct RefreshTokenConfig {
    pub enabled: bool,
    pub source: TokenSource,
    pub token_endpoint: String,
    pub auto_rotate_response: bool,
}

/// Where a request carries its token.
#[derive(Debug, Clone)]
pub enum TokenSource {
    Header { name: String, prefix: Option<String> },
    Cookie { name: String, prefix: Option<String> },
    QueryParam { name: String, prefix: Option<String> },
}

#[derive(Debug, Clone)]
pub struct OAuthConfig {
    pub issuer: String,
    pub client_id: String,
    pub client_secret: Option<String>,
    pub scopes: Vec<String>,
    pub sources: Vec<TokenSource>,
    pub jwk_uri: String,
    pub refresh_token: Option<RefreshTokenConfig>,
    pub excludes: Vec<String>,
}

/// `a` overridden by `b`: each field of `b` that is set (a non-empty text or
/// list, or `Some`) replaces that of `a`.
pub open spec fn spec_oauth_merge(a: OAuthConfig, b: OAuthConfig) -> OAuthConfig {
    OAuthConfig {
        issuer: if b.issuer@.len() > 0 { b.issuer } else { a.issuer },
        client_id: if b.client_id@.len() > 0 { b.client_id } else { a.client_id },
        client_secret: if b.client_secret is Some { b.client_secret } else { a.client_secret },
        scopes: if b.scopes@.len() > 0 { b.scopes } else { a.scopes },
        sources: if b.sources@.len() > 0 { b.sources } else { a.sources },
        jwk_uri: if b.jwk_uri@.len() > 0 { b.jwk_uri } else { a.jwk_uri },
        refresh_token: if b.refresh_token is Some { b.refresh_token } else { a.refresh_token },
        excludes: if b.excludes@.len() > 0 { b.excludes } else { a.excludes },
    }
}

impl OAuthConfig {
    /// Overrides this configuration with the fields that `other` sets.
    pub fn merge(&mut self, other: OAuthConfig)
        ensures
            *final(self) == spec_oauth_merge(*old(self), other),
    {
        if !other.issuer.as_str().is_empty() {
            self.issuer = other.issuer;
        }
        if !other.client_id.as_str().is_empty() {
            self.client_id = other.client_id;
        }
        if other.client_secret.is_some() {
            self.client_secret = other.client_secret;
        }
        if other.scopes.len() > 0 {
            self.scopes = other.scopes;
        }
        if other.sources.len() > 0 {
            self.sources = other.sources;
        }
        if !other.jwk_uri.as_str().is_empty() {
            self.jwk_uri = other.jwk_uri;
        }
        if other.refresh_token.is_some() {
            self.refresh_token = other.refresh_token;
        }
        if other.excludes.len() > 0 {
            self.excludes = other.excludes;
        }
    }
}

// ============================================================
// RATE LIMITER
// ============================================================

#[derive(Debug, Clone, Copy, PartialEq, Eq, Structural)]
pub enum RateLimitAlgorithm {
    SlidingWindow,
    TokenBucket,
}

impl Default for RateLimitAlgorithm {
    fn default() -> (a: Self)
        ensures
            a == RateLimitAlgorithm::SlidingWindow,
    {
        RateLimitAlgorithm::SlidingWindow
    }
}

/// What requests are counted by.
#[derive(Debug, Clone)]
pub enum LimiterIdentifier {
    Ip,
    Header(String),
    Token(String),
}

impl Default for LimiterIdentifier {
    fn default() -> (i: Self)
        ensures
            i is Ip,
    {
        LimiterIdentifier::Ip
    }
}

/// `requests` per `per_seconds` seconds.
#[derive(Debug, Clone, Copy, PartialEq, Eq, Structural)]
pub struct LimiterRate {
    pub requests: u64,
    pub per_seconds: u64,
}

impl Default for LimiterRate {
    fn default() -> (r: Self)
        ensures
            r == (LimiterRate { requests: 60, per_seconds: 60 }),
    {
        LimiterRate { requests: 60, per_seconds: 60 }
    }
}

#[derive(Debug, Clone)]
pub struct LimiterConfig {
    pub rate: LimiterRate,
    pub burst: u64,
    pub algorithm: RateLimitAlgorithm,
    pub identifier: LimiterIdentifier,
    pub excludes: Vec<String>,
}

/// `a` overridden by `b`: the rate stays `a`'s, the burst, algorithm and
/// identifier come from `b`, and `b` replaces the excluded paths only when
/// it lists some.
pub open spec fn spec_limiter_merge(a: LimiterConfig, b: LimiterConfig) -> LimiterConfig {
    LimiterConfig {
        rate: a.rate,
        burst: b.burst,
        algorithm: b.algorithm,
        identifier: b.identifier,
        excludes: if b.excludes@.len() > 0 { b.excludes } else { a.excludes },
    }
}

impl LimiterConfig {
    /// Tunes this limit with `other`: keeps this rate, takes the burst,
    /// algorithm and identifier of `other`, and keeps the excluded paths when
    /// `other` lists none.
    pub fn merge(&mut self, other: LimiterConfig)
        ensures
            *final(self) == spec_limiter_merge(*old(self), other),
    {
        self.burst = other.burst;
        self.algorithm = other.algorithm;
        self.identifier = other.identifier;
        if other.excludes.len() > 0 {
            self.excludes = other.excludes;
        }
    }
}

impl Default for LimiterConfig {
    /// 60 requests per minute, bursts of 15, a sliding window, counted by
    /// client address, nothing excluded.
    fn default() -> (c: Self)
        ensures
            c.rate == (LimiterRate { requests: 60, per_seconds: 60 }),
            c.burst == 15,
            c.algorithm == RateLimitAlgorithm::SlidingWindow,
            c.identifier is Ip,
            c.excludes@.len() == 0,
    {
        LimiterConfig {
            rate: LimiterRate::default(),
            burst: 15,
            algorithm: RateLimitAlgorithm::default(),
            identifier: LimiterIdentifier::default(),
            excludes: Vec::new(),
        }
    }
}

// ============================================================
// CORS
// ============================================================

#[derive(Debug, Clone)]
pub struct CorsConfig {
    pub allow_origins: Vec<String>,
    pub allow_methods: Vec<String>,
    pub allow_headers: Vec<String>,
    pub expose_headers: Vec<String>,
    pub allow_credentials: bool,
    pub max_age: Option<u64>,
    pub excludes: Vec<String>,
}

/// `a` overridden by `b`: each list of `b` that is not empty, and its
/// `max_age` when set, replace those of `a`; `allow_credentials` always
/// comes from `b`.
pub open spec fn spec_cors_merge(a: CorsConfig, b: CorsConfig) -> CorsConfig {
    CorsConfig {
        allow_origins: if b.allow_origins@.len() > 0 { b.allow_origins } else { a.allow_origins },
        allow_methods: if b.allow_methods@.len() > 0 { b.allow_methods } else { a.allow_methods },
        allow_headers: if b.allow_headers@.len() > 0 { b.allow_headers } else { a.allow_headers },
        expose_headers: if b.expose_headers@.len() > 0 { b.expose_headers } else { a.expose_headers },
        allow_credentials: b.allow_credentials,
        max_age: if b.max_age is Some { b.max_age } else { a.max_age },
        excludes: if b.excludes@.len() > 0 { b.excludes } else { a.excludes },
    }
}

impl CorsConfig {
    /// Overrides this configuration with what `other` sets.
    pub fn merge(&mut self, other: CorsConfig)
        ensures
            *final(self) == spec_cors_merge(*old(self), other),
    {
        if other.allow_origins.len() > 0 {
            self.allow_origins = other.allow_origins;
        }
        if other.allow_methods.len() > 0 {
            self.allow_methods = other.allow_methods;
        }
        if other.allow_headers.len() > 0 {
            self.allow_headers = other.allow_headers;
        }
        if other.expose_headers.len() > 0 {
            self.expose_headers = other.expose_headers;
        }
        self.allow_credentials = other.allow_credentials;
        if other.max_age.is_some() {
            self.max_age = other.max_age;
        }
        if other.excludes.len() > 0 {
            self.excludes = other.excludes;
        }
    }
}

impl Default for CorsConfig {
    /// No origin, the methods `GET` and `HEAD`, no headers, no credentials,
    /// a max age of 600 seconds, nothing excluded.
    fn default() -> (c: Self)
        ensures
            c.allow_origins@.len() == 0,
            c.allow_methods@.len() == 2,
            c.allow_methods@[0]@ == "GET"@,
            c.allow_methods@[1]@ == "HEAD"@,
            c.allow_headers@.len() == 0,
            c.expose_headers@.len() == 0,
            !c.allow_credentials,
            c.max_age == Some(600u64),
            c.excludes@.len() == 0,
    {
        let mut methods: Vec<String> = Vec::new();
        methods.push("GET".to_owned());
        methods.push("HEAD".to_owned());
        CorsConfig {
            allow_origins: Vec::new(),
            allow_methods: methods,
            allow_headers: Vec::new(),
            expose_headers: Vec::new(),
            allow_credentials: false,
            max_age: Some(600),
            excludes: Vec::new(),
        }
    }
}

// ============================================================
// ROUTE-LEVEL POLICIES
// ============================================================

/// How a route names its authentication policy.
#[derive(Debug, Clone)]
pub enum RouteAuthPolicy {
    Reference(String),
    Override { base: String, config: OAuthConfig },
    Local(OAuthConfig),
}

#[derive(Debug, Clone)]
pub enum RouteCorsPolicy {
    Reference(String),
    Override { base: String, config: CorsConfig },
    Local(CorsConfig),
}

#[derive(Debug, Clone)]
pub enum RouteLimiterPolicy {
    Reference(String),
    Override { base: String, config: LimiterConfig },
    Local(LimiterConfig),
}

// ============================================================
// LAWS
// ============================================================

/// Overriding a configuration with itself changes nothing.
pub proof fn law_oauth_merge_idempotent(a: OAuthConfig)
    ensures
        spec_oauth_merge(a, a) == a,
{
}

/// Overriding in two steps is overriding once with the merged overrides.
pub proof fn law_oauth_merge_associative(a: OAuthConfig, b: OAuthConfig, c: OAuthConfig)
    ensures
        spec_oauth_merge(spec_oauth_merge(a, b), c) == spec_oauth_merge(a, spec_oauth_merge(b, c)),
{
}

/// Overriding a configuration with itself changes nothing.
pub proof fn law_limiter_merge_idempotent(a: LimiterConfig)
    ensures
        spec_limiter_merge(a, a) == a,
{
}

/// Overriding in two steps is overriding once with the merged overrides.
pub proof fn law_limiter_merge_associative(a: LimiterConfig, b: LimiterConfig, c: LimiterConfig)
    ensures
        spec_limiter_merge(spec_limiter_merge(a, b), c) == spec_limiter_merge(
            a,
            spec_limiter_merge(b, c),
        ),
{
}

/// Overriding a configuration with itself changes nothing.
pub proof fn law_cors_merge_idempotent(a: CorsConfig)
    ensures
        spec_cors_merge(a, a) == a,
{
}

/// Overriding in two steps is overriding once with the merged overrides.
pub proof fn law_cors_merge_associative(a: CorsConfig, b: CorsConfig, c: CorsConfig)
    ensures
        spec_cors_merge(spec_cors_merge(a, b), c) == spec_cors_merge(a, spec_cors_merge(b, c)),
{
}

/// Override law for authentication: each field that the override `b` sets
/// (a non-empty text or list, or `Some`) is `b`'s in the result, and each
/// field it leaves unset keeps `a`'s; so an override that sets nothing
/// changes nothing.
pub proof fn law_oauth_override_wins(a: OAuthConfig, b: OAuthConfig)
    ensures
        ({
            let m = spec_oauth_merge(a, b);
            &&& b.issuer@.len() > 0 ==> m.issuer == b.issuer
            &&& b.issuer@.len() == 0 ==> m.issuer == a.issuer
            &&& b.client_id@.len() > 0 ==> m.client_id == b.client_id
            &&& b.client_id@.len() == 0 ==> m.client_id == a.client_id
            &&& b.client_secret is Some ==> m.client_secret == b.client_secret
            &&& b.client_secret is None ==> m.client_secret == a.client_secret
            &&& b.scopes@.len() > 0 ==> m.scopes == b.scopes
            &&& b.scopes@.len() == 0 ==> m.scopes == a.scopes
            &&& b.sources@.len() > 0 ==> m.sources == b.sources
            &&& b.sources@.len() == 0 ==> m.sources == a.sources
            &&& b.jwk_uri@.len() > 0 ==> m.jwk_uri == b.jwk_uri
            &&& b.jwk_uri@.len() == 0 ==> m.jwk_uri == a.jwk_uri
            &&& b.refresh_token is Some ==> m.refresh_token == b.refresh_token
            &&& b.refresh_token is None ==> m.refresh_token == a.refresh_token
            &&& b.excludes@.len() > 0 ==> m.excludes == b.excludes
            &&& b.excludes@.len() == 0 ==> m.excludes == a.excludes
        }),
        (b.issuer@.len() == 0 && b.client_id@.len() == 0 && b.client_secret is None
            && b.scopes@.len() == 0 && b.sources@.len() == 0 && b.jwk_uri@.len() == 0
            && b.refresh_token is None && b.excludes@.len() == 0) ==> spec_oauth_merge(a, b) == a,
{
}

/// Override law for CORS: each list or `max_age` that the override `b` sets
/// is `b`'s in the result and each it leaves unset keeps `a`'s;
/// `allow_credentials` is always `b`'s.
pub proof fn law_cors_override_wins(a: CorsConfig, b: CorsConfig)
    ensures
        ({
            let m = spec_cors_merge(a, b);
            &&& b.allow_origins@.len() > 0 ==> m.allow_origins == b.allow_origins
            &&& b.allow_origins@.len() == 0 ==> m.allow_origins == a.allow_origins
            &&& b.allow_methods@.len() > 0 ==> m.allow_methods == b.allow_methods
            &&& b.allow_methods@.len() == 0 ==> m.allow_methods == a.allow_methods
            &&& b.allow_headers@.len() > 0 ==> m.allow_headers == b.allow_headers
            &&& b.allow_headers@.len() == 0 ==> m.allow_headers == a.allow_headers
            &&& b.expose_headers@.len() > 0 ==> m.expose_headers == b.expose_headers
            &&& b.expose_headers@.len() == 0 ==> m.expose_headers == a.expose_headers
            &&& m.allow_credentials == b.allow_credentials
            &&& b.max_age is Some ==> m.max_age == b.max_age
            &&& b.max_age is None ==> m.max_age == a.max_age
            &&& b.excludes@.len() > 0 ==> m.excludes == b.excludes
            &&& b.excludes@.len() == 0 ==> m.excludes == a.excludes
        }),
{
}

/// Override law for rate limits: the override `b` tunes a limit: the rate
/// stays `a`'s, the burst, algorithm and identifier are `b`'s, and `b`'s
/// excluded paths replace `a`'s only when there are some.
pub proof fn law_limiter_override_tunes(a: LimiterConfig, b: LimiterConfig)
    ensures
        ({
            let m = spec_limiter_merge(a, b);
            &&& m.rate == a.rate
            &&& m.burst == b.burst
            &&& m.algorithm == b.algorithm
            &&& m.identifier == b.identifier
            &&& b.excludes@.len() > 0 ==> m.excludes == b.excludes
            &&& b.excludes@.len() == 0 ==> m.excludes == a.excludes
        }),
{
}

// ============================================================
// LISTENERS, UPSTREAMS, ROUTES
// ============================================================

#[derive(Debug, Clone)]
pub struct ListenerConfig {
    pub name: String,
    pub listen: Vec<String>,
    pub transport: NetworkTransport,
    pub security: SecurityConfig,
    pub protocols: Vec<NetworkProtocol>,
}

/// How an upstream spreads requests over its servers.
#[derive(Debug, Clone, Copy, PartialEq, Eq, Structural)]
pub enum BalanceStrategy {
    RoundRobin,
    LeastConnections,
    IpHash,
    Random,
}

impl Default for BalanceStrategy {
    fn default() -> (b: Self)
        ensures
            b == BalanceStrategy::LeastConnections,
    {
        BalanceStrategy::LeastConnections
    }
}

#[derive(Debug, Clone)]
pub struct UpstreamServer {
    pub protocol: NetworkProtocol,
    pub address: String,
    pub transport: NetworkTransport,
    pub ssl: Option<UpstreamSSLConfig>,
    pub weight: u32,
    pub is_healthy: bool,
}

/// How servers are probed; the interval and timeout in seconds.
#[derive(Debug, Clone)]
pub struct HealthCheckConfig {
    pub path: String,
    pub interval: u64,
    pub timeout: u64,
    pub unhealthy_threshold: u32,
    pub healthy_threshold: u32,
}

#[derive(Debug, Clone)]
pub struct UpstreamConfig {
    pub name: String,
    pub servers: Vec<UpstreamServer>,
    pub balance_strategy: BalanceStrategy,
    pub health_check: Option<HealthCheckConfig>,
}

/// Files served by the gateway itself.
#[derive(Debug, Clone)]
pub enum StaticUpstream {
    Local {
        path: String,
        permissions: Option<String>,
        listing: bool,
        dotfiles: bool,
        blacklist: Vec<String>,
    },
    Cdn {
        url: String,
        bucket: String,
        region: Option<String>,
        access_key: String,
        secret_key: String,
    },
}

/// Where a route sends its requests.
#[derive(Debug, Clone)]
pub enum BackendTarget {
    Static(StaticUpstream),
    Upstream(String),
}

/// Path rewrite rules (pattern, replacement) and headers added to requests
/// (name, value); a name or pattern occurs at most once in each.
#[derive(Debug, Clone)]
pub struct RouteRewrites {
    pub rules: Option<Vec<(String, String)>>,
    pub append_headers: Vec<(String, String)>,
    pub prepend_headers: Vec<String>,
}

#[derive(Debug, Clone)]
pub struct RouteTimeouts {
    pub connect: Option<Duration>,
    pub read: Option<Duration>,
    pub send: Option<Duration>,
}

#[derive(Debug, Clone)]
pub struct RoutesConfig {
    pub path: String,
    pub hosts: Vec<String>,
    /// The HTTP methods the route accepts, by name.
    pub methods: Vec<String>,
    pub backend: BackendTarget,
    pub auth_policy: Option<RouteAuthPolicy>,
    pub waf_policy: Option<RouteWafPolicy>,
    pub cors_policy: Option<RouteCorsPolicy>,
    pub limiter_policy: Option<RouteLimiterPolicy>,
    pub priority: u32,
    pub rewrite: Option<RouteRewrites>,
    pub timeouts: Option<RouteTimeouts>,
    pub streaming: Option<RouteStreaming>,
}

// ============================================================
// WEB APPLICATION FIREWALL
// ============================================================

#[derive(Debug, Clone, Copy, PartialEq, Eq, Structural)]
pub enum WafMode {
    DetectionOnly,
    Blocking,
}

#[derive(Debug, Clone, Copy, PartialEq, Eq, Structural)]
pub enum WafPhase {
    RequestHeaders,
    RequestBody,
    ResponseHeaders,
    ResponseBody,
}

#[derive(Debug, Clone, Copy, PartialEq, Eq, Structural)]
pub enum WafCondition {
    SqlTokenMatch,
}

#[derive(Debug, Clone, Copy, PartialEq, Eq, Structural)]
pub enum WafAction {
    Block,
    Log,
    Challenge,
    Allow,
}

#[derive(Debug, Clone)]
pub struct WafRule {
    pub id: String,
    pub phase: WafPhase,
    pub condition: WafCondition,
    pub action: WafAction,
    pub score: u32,
}

/// Firewall settings; the largest body inspected is in bytes.
#[derive(Debug, Clone)]
pub struct WafConfig {
    pub enabled: bool,
    pub mode: WafMode,
    pub max_body_size: usize,
    pub anomaly_threshold: u32,
    pub excludes: Vec<String>,
    pub rules: Vec<WafRule>,
}

impl Default for WafConfig {
    /// Enabled, blocking, bodies up to 1 MiB, an anomaly threshold of 5, no
    /// exclusion and no rule.
    fn default() -> (c: Self)
        ensures
            c.enabled,
            c.mode == WafMode::Blocking,
            c.max_body_size == 1048576,
            c.anomaly_threshold == 5,
            c.excludes@.len() == 0,
            c.rules@.len() == 0,
    {
        WafConfig {
            enabled: true,
            mode: WafMode::Blocking,
            max_body_size: 1048576,
            anomaly_threshold: 5,
            excludes: Vec::new(),
            rules: Vec::new(),
        }
    }
}

#[derive(Debug, Clone)]
pub enum RouteWafPolicy {
    Reference(String),
    Override { base: String, config: WafConfig },
    Local(WafConfig),
}

// ============================================================
// GATEWAY
// ============================================================

/// The named policies of a gateway, by kind; a name occurs at most once in
/// each list.
#[derive(Debug, Clone)]
pub struct PolicyConfig {
    pub auth: Option<Vec<(String, OAuthConfig)>>,
    pub cors: Option<Vec<(String, CorsConfig)>>,
    pub waf: Option<Vec<(String, WafConfig)>>,
    pub limiter: Option<Vec<(String, LimiterConfig)>>,
}

#[derive(Debug, Clone)]
pub struct GatewayConfig {
    pub name: String,
    pub listeners: Vec<ListenerConfig>,
    pub upstreams: Vec<UpstreamConfig>,
    pub routes: Vec<RoutesConfig>,
    pub policies: PolicyConfig,
}

// ============================================================
// NAMED LISTS
// ============================================================

/// `s` with `k` set to `x`: in place when `k` is there, else at the end.
pub open spec fn put<T>(s: Seq<(Seq<char>, T)>, k: Seq<char>, x: T) -> Seq<(Seq<char>, T)> {
    match key_index(s, k) {
        Some(i) => s.update(i, (k, x)),
        None => s.push((k, x)),
    }
}

/// The position of `k` in `s`.
pub open spec fn key_index<T>(s: Seq<(Seq<char>, T)>, k: Seq<char>) -> Option<int>
    decreases s.len(),
{
    if s.len() == 0 {
        None
    } else if s.last().0 == k {
        Some(s.len() - 1)
    } else {
        key_index(s.drop_last(), k)
    }
}

/// The setting named `k` in `s`, if any.
pub open spec fn named_value<T>(s: Seq<(Seq<char>, T)>, k: Seq<char>) -> Option<T> {
    match key_index(s, k) {
        Some(i) => Some(s[i].1),
        None => None,
    }
}

proof fn lemma_key_index_last<T>(s: Seq<(Seq<char>, T)>, k: Seq<char>)
    ensures
        key_index(s, k) matches Some(i) ==> 0 <= i < s.len() && s[i].0 == k && forall|j: int|
            i < j < s.len() ==> (#[trigger] s[j]).0 != k,
        key_index(s, k) is None ==> forall|j: int| 0 <= j < s.len() ==> (#[trigger] s[j]).0 != k,
    decreases s.len(),
{
    if s.len() > 0 {
        lemma_key_index_last(s.drop_last(), k);
        assert forall|j: int| 0 <= j < s.len() - 1 implies s.drop_last()[j] == s[j] by {}
    }
}

proof fn lemma_key_index_is<T>(s: Seq<(Seq<char>, T)>, k: Seq<char>, i: int)
    requires
        0 <= i < s.len(),
        s[i].0 == k,
        forall|j: int| i < j < s.len() ==> (#[trigger] s[j]).0 != k,
    ensures
        key_index(s, k) == Some(i),
    decreases s.len(),
{
    if i < s.len() - 1 {
        assert forall|j: int| i < j < s.drop_last().len() implies (#[trigger] s.drop_last()[j]).0 != k by {
            assert(s.drop_last()[j] == s[j]);
        }
        lemma_key_index_is(s.drop_last(), k, i);
    }
}

proof fn lemma_key_index_none<T>(s: Seq<(Seq<char>, T)>, k: Seq<char>)
    requires
        forall|j: int| 0 <= j < s.len() ==> (#[trigger] s[j]).0 != k,
    ensures
        key_index(s, k) is None,
    decreases s.len(),
{
    if s.len() > 0 {
        assert forall|j: int| 0 <= j < s.drop_last().len() implies (#[trigger] s.drop_last()[j]).0 != k by {
            assert(s.drop_last()[j] == s[j]);
        }
        lemma_key_index_none(s.drop_last(), k);
    }
}

/// Setting a name gives it the new setting and leaves every other name's
/// setting as it was.
pub proof fn law_put_sets_one_name<T>(s: Seq<(Seq<char>, T)>, k: Seq<char>, x: T, k2: Seq<char>)
    ensures
        named_value(put(s, k, x), k) == Some(x),
        k2 != k ==> named_value(put(s, k, x), k2) == named_value(s, k2),
{
    lemma_key_index_last(s, k);
    lemma_key_index_last(s, k2);
    let t = put(s, k, x);
    match key_index(s, k) {
        Some(i) => {
            lemma_key_index_is(t, k, i);
            if k2 != k {
                match key_index(s, k2) {
                    Some(i2) => {
                        assert(i2 != i);
                        lemma_key_index_is(t, k2, i2);
                    },
                    None => {
                        assert forall|j: int| 0 <= j < t.len() implies (#[trigger] t[j]).0 != k2 by {
                            if j != i {
                                assert(t[j] == s[j]);
                            }
                        }
                        lemma_key_index_none(t, k2);
                    },
                }
            }
        },
        None => {
            lemma_key_index_is(t, k, s.len() as int);
            if k2 != k {
                match key_index(s, k2) {
                    Some(i2) => {
                        assert forall|j: int| i2 < j < t.len() implies (#[trigger] t[j]).0 != k2 by {
                            if j < s.len() {
                                assert(t[j] == s[j]);
                            }
                        }
                        assert(t[i2] == s[i2]);
                        lemma_key_index_is(t, k2, i2);
                    },
                    None => {
                        assert forall|j: int| 0 <= j < t.len() implies (#[trigger] t[j]).0 != k2 by {
                            if j < s.len() {
                                assert(t[j] == s[j]);
                            }
                        }
                        lemma_key_index_none(t, k2);
                    },
                }
            }
        },
    }
}

/// Merge law of named lists: after putting the entries of `o` into `s`, a
/// name has its setting from the last entry of `o` with that name when `o`
/// has one, and keeps its setting in `s` otherwise.
pub proof fn law_put_all_later_wins<T>(s: Seq<(Seq<char>, T)>, o: Seq<(Seq<char>, T)>, k: Seq<char>)
    ensures
        named_value(put_all(s, o), k) == if named_value(o, k) is Some {
            named_value(o, k)
        } else {
            named_value(s, k)
        },
    decreases o.len(),
{
    if o.len() > 0 {
        law_put_all_later_wins(s, o.drop_last(), k);
        law_put_sets_one_name(put_all(s, o.drop_last()), o.last().0, o.last().1, k);
        if o.last().0 == k {
            assert(named_value(o, k) == Some(o.last().1));
        } else {
            lemma_key_index_bound(o.drop_last(), k);
            match key_index(o.drop_last(), k) {
                Some(i) => {
                    assert(o.drop_last()[i] == o[i]);
                },
                None => {},
            }
            assert(named_value(o, k) == named_value(o.drop_last(), k));
        }
    }
}

/// `v` with `k` set to `x` (see `put`).
pub fn put_named<T>(v: &mut Vec<(String, T)>, k: String, x: T)
    ensures
        keyed(final(v)@) == put(keyed(old(v)@), k@, x),
{
    let ghost s = keyed(v@);
    let mut i = v.len();
    assert(s.take(i as int) =~= s);
    while i > 0
        invariant
            i <= v@.len(),
            s == keyed(v@),
            s == keyed(old(v)@),
            key_index(s, k@) == key_index(s.take(i as int), k@),
        decreases i,
    {
        assert(s.take(i - 1) =~= s.take(i as int).drop_last());
        if v[i - 1].0 == k {
            assert(s.take(i as int).last() == s[i - 1]);
            assert(key_index(s.take(i as int), k@) == Some(i - 1));
            let ghost kv = k@;
            let ghost gx = x;
            v.set(i - 1, (k, x));
            assert(keyed(v@) =~= s.update(i - 1, (kv, gx)));
            return ;
        }
        i = i - 1;
    }
    assert(s.take(0) =~= Seq::<(Seq<char>, T)>::empty());
    let ghost kv = k@;
    let ghost gx = x;
    v.push((k, x));
    assert(keyed(v@) =~= s.push((kv, gx)));
}

pub open spec fn keyed<T>(v: Seq<(String, T)>) -> Seq<(Seq<char>, T)> {
    v.map_values(|p: (String, T)| (p.0@, p.1))
}

pub open spec fn text_pairs(v: Seq<(String, String)>) -> Seq<(Seq<char>, Seq<char>)> {
    v.map_values(|p: (String, String)| (p.0@, p.1@))
}

/// Sets `k` to `x` in `v` (see `put`).
pub fn put_text_pair(v: &mut Vec<(String, String)>, k: String, x: String)
    ensures
        text_pairs(final(v)@) == put(text_pairs(old(v)@), k@, x@),
{
    let ghost s = text_pairs(v@);
    let mut i = v.len();
    assert(s.take(i as int) =~= s);
    while i > 0
        invariant
            i <= v@.len(),
            s == text_pairs(v@),
            s == text_pairs(old(v)@),
            key_index(s, k@) == key_index(s.take(i as int), k@),
        decreases i,
    {
        assert(s.take(i - 1) =~= s.take(i as int).drop_last());
        if v[i - 1].0 == k {
            assert(s.take(i as int).last() == s[i - 1]);
            assert(key_index(s.take(i as int), k@) == Some(i - 1));
            v.set(i - 1, (k, x));
            assert(text_pairs(v@) =~= s.update(i - 1, (k@, x@)));
            return ;
        }
        i = i - 1;
    }
    assert(s.take(0) =~= Seq::<(Seq<char>, Seq<char>)>::empty());
    v.push((k, x));
    assert(text_pairs(v@) =~= s.push((k@, x@)));
}

/// `s` with each entry of `o` put in, in order.
pub open spec fn put_all<T>(s: Seq<(Seq<char>, T)>, o: Seq<(Seq<char>, T)>) -> Seq<(Seq<char>, T)>
    decreases o.len(),
{
    if o.len() == 0 {
        s
    } else {
        put(put_all(s, o.drop_last()), o.last().0, o.last().1)
    }
}

pub open spec fn opt_keyed<T>(o: Option<Vec<(String, T)>>) -> Option<Seq<(Seq<char>, T)>> {
    match o {
        Some(v) => Some(keyed(v@)),
        None => None,
    }
}

/// The list `a` with the entries of `b` put in: unchanged when `b` is not
/// there, else `a` (empty when not there) with `b`'s names set to `b`'s
/// settings.
pub open spec fn merged<T>(a: Option<Vec<(String, T)>>, b: Option<Vec<(String, T)>>) -> Option<
    Seq<(Seq<char>, T)>,
> {
    match b {
        None => opt_keyed(a),
        Some(v) => Some(
            put_all(
                match a {
                    Some(x) => keyed(x@),
                    None => Seq::empty(),
                },
                keyed(v@),
            ),
        ),
    }
}

fn merge_named<T>(a: &mut Option<Vec<(String, T)>>, b: Option<Vec<(String, T)>>)
    ensures
        opt_keyed(*final(a)) == merged(*old(a), b),
{
    match b {
        None => {},
        Some(v) => {
            let ghost old_a = *a;
            let mut cur: Vec<(String, T)> = match a.take() {
                Some(x) => x,
                None => Vec::new(),
            };
            let ghost start = keyed(cur@);
            assert(start =~= match old_a {
                Some(x) => keyed(x@),
                None => Seq::<(Seq<char>, T)>::empty(),
            });
            let ghost all = keyed(v@);
            let mut v = v;
            let n: usize = v.len();
            let mut i: usize = 0;
            assert(all.take(0) =~= Seq::<(Seq<char>, T)>::empty());
            assert(all.skip(0) =~= all);
            while v.len() > 0
                invariant
                    all.len() == n,
                    i + v@.len() == n,
                    keyed(v@) == all.skip(i as int),
                    keyed(cur@) == put_all(start, all.take(i as int)),
                decreases v@.len(),
            {
                let ghost before = v@;
                let (k, x) = v.remove(0);
                assert(v@ =~= before.subrange(1, before.len() as int));
                assert(keyed(v@) =~= all.skip(i + 1)) by {
                    assert forall|j: int| 0 <= j < v@.len() implies keyed(v@)[j] == all.skip(i + 1)[j] by {
                        assert(keyed(before)[j + 1] == all.skip(i as int)[j + 1]);
                    }
                }
                assert(all[i as int] == (k@, x)) by {
                    assert(keyed(before)[0] == all.skip(i as int)[0]);
                }
                assert(all.take(i + 1).drop_last() =~= all.take(i as int));
                put_named(&mut cur, k, x);
                i = i + 1;
            }
            assert(all.take(i as int) =~= all);
            *a = Some(cur);
        },
    }
}

impl PolicyConfig {
    /// Adds the policies of `other`, an entry of `other` replacing one of
    /// `self` with its name.
    pub fn merge_all(&mut self, other: PolicyConfig)
        ensures
            opt_keyed(final(self).auth) == merged(old(self).auth, other.auth),
            opt_keyed(final(self).cors) == merged(old(self).cors, other.cors),
            opt_keyed(final(self).waf) == merged(old(self).waf, other.waf),
            opt_keyed(final(self).limiter) == merged(old(self).limiter, other.limiter),
    {
        merge_named(&mut self.auth, other.auth);
        merge_named(&mut self.cors, other.cors);
        merge_named(&mut self.waf, other.waf);
        merge_named(&mut self.limiter, other.limiter);
    }
}

impl Default for PolicyConfig {
    fn default() -> (p: Self)
        ensures
            p.auth is None,
            p.cors is None,
            p.waf is None,
            p.limiter is None,
    {
        PolicyConfig { auth: None, cors: None, waf: None, limiter: None }
    }
}

// ============================================================
// BUILDERS
// ============================================================

impl Default for NetworkTransport {
    /// TCP on 127.0.0.1:80.
    fn default() -> (t: Self)
        ensures
            t matches NetworkTransport::Tcp(a) && a@ == "127.0.0.1:80"@,
    {
        NetworkTransport::Tcp("127.0.0.1:80".to_owned())
    }
}

impl NetworkTransport {
    /// TCP on the IPv4 address `host` and `port`.
    pub fn tcp(host: [u8; 4], port: u16) -> (t: Self)
        ensures
            t matches NetworkTransport::Tcp(a) && a@ == spec_decimal(host[0] as nat) + "."@
                + spec_decimal(host[1] as nat) + "."@ + spec_decimal(host[2] as nat) + "."@
                + spec_decimal(host[3] as nat) + ":"@ + spec_decimal(port as nat),
    {
        let mut a = String::new();
        push_decimal(&mut a, host[0] as u64);
        a.append(".");
        push_decimal(&mut a, host[1] as u64);
        a.append(".");
        push_decimal(&mut a, host[2] as u64);
        a.append(".");
        push_decimal(&mut a, host[3] as u64);
        a.append(":");
        push_decimal(&mut a, port as u64);
        assert(a@ =~= spec_decimal(host[0] as nat) + "."@ + spec_decimal(host[1] as nat) + "."@
            + spec_decimal(host[2] as nat) + "."@ + spec_decimal(host[3] as nat) + ":"@
            + spec_decimal(port as nat));
        NetworkTransport::Tcp(a)
    }

    /// The Unix socket at `socket`.
    pub fn unix(socket: &str) -> (t: Self)
        ensures
            t matches NetworkTransport::Uds(p) && p@ == socket@,
    {
        NetworkTransport::Uds(socket.to_owned())
    }
}

impl ListenerConfig {
    /// A plain HTTP/1.1 listener on the TCP address `addr`.
    pub fn http(name: &str, addr: &str) -> (l: Self)
        ensures
            l.name@ == name@,
            l.listen@.len() == 1 && l.listen@[0]@ == addr@,
            l.transport matches NetworkTransport::Tcp(a) && a@ == addr@,
            l.security is Plaintext,
            l.protocols@ == seq![NetworkProtocol::Http1 { allow_websocket_upgrade: false }],
    {
        let mut listen = Vec::new();
        listen.push(addr.to_owned());
        let mut protocols = Vec::new();
        protocols.push(NetworkProtocol::Http1 { allow_websocket_upgrade: false });
        ListenerConfig {
            name: name.to_owned(),
            listen,
            transport: NetworkTransport::Tcp(addr.to_owned()),
            security: SecurityConfig::Plaintext,
            protocols,
        }
    }

    /// A TLS listener on the TCP address `addr` with the certificates
    /// `cert`, offering HTTP/2 and HTTP/1.1 (without WebSocket upgrades)
    /// from TLS 1.3 on.
    pub fn https(name: &str, addr: &str, cert: SSLConfig) -> (l: Self)
        ensures
            l.name@ == name@,
            l.listen@.len() == 1 && l.listen@[0]@ == addr@,
            l.transport matches NetworkTransport::Tcp(a) && a@ == addr@,
            l.security matches SecurityConfig::Tls { certs, alpn_protocols, min_version } && certs
                == cert && alpn_protocols@.len() == 2 && alpn_protocols@[0]@ == "h2"@
                && alpn_protocols@[1]@ == "http/1.1"@ && min_version == TlsVersion::Tls13,
            l.protocols@ == seq![
                NetworkProtocol::Http1 { allow_websocket_upgrade: false },
                NetworkProtocol::Http2 { mode: Http2Mode::Standard },
            ],
    {
        let mut listen = Vec::new();
        listen.push(addr.to_owned());
        let mut alpn = Vec::new();
        alpn.push("h2".to_owned());
        alpn.push("http/1.1".to_owned());
        let mut protocols = Vec::new();
        protocols.push(NetworkProtocol::Http1 { allow_websocket_upgrade: false });
        protocols.push(NetworkProtocol::Http2 { mode: Http2Mode::Standard });
        ListenerConfig {
            name: name.to_owned(),
            listen,
            transport: NetworkTransport::Tcp(addr.to_owned()),
            security: SecurityConfig::Tls {
                certs: cert,
                alpn_protocols: alpn,
                min_version: TlsVersion::Tls13,
            },
            protocols,
        }
    }
}

impl UpstreamServer {
    /// A healthy HTTP/1.1 server at `address`, of weight 1, reached over
    /// the default transport.
    pub fn http(address: &str) -> (s: Self)
        ensures
            s.protocol == (NetworkProtocol::Http1 { allow_websocket_upgrade: false }),
            s.address@ == address@,
            s.transport matches NetworkTransport::Tcp(a) && a@ == "127.0.0.1:80"@,
            s.ssl is None,
            s.weight == 1,
            s.is_healthy,
    {
        UpstreamServer {
            protocol: NetworkProtocol::Http1 { allow_websocket_upgrade: false },
            address: address.to_owned(),
            transport: NetworkTransport::default(),
            ssl: None,
            weight: 1,
            is_healthy: true,
        }
    }
}

impl UpstreamConfig {
    /// An upstream of one server at `address` (see `UpstreamServer::http`),
    /// balanced round robin, without health checks.
    pub fn single(name: &str, address: &str) -> (u: Self)
        ensures
            u.name@ == name@,
            u.servers@.len() == 1,
            u.servers@[0].address@ == address@,
            u.servers@[0].weight == 1,
            u.servers@[0].protocol == (NetworkProtocol::Http1 { allow_websocket_upgrade: false }),
            u.balance_strategy == BalanceStrategy::RoundRobin,
            u.health_check is None,
    {
        let mut servers = Vec::new();
        servers.push(UpstreamServer::http(address));
        UpstreamConfig {
            name: name.to_owned(),
            servers,
            balance_strategy: BalanceStrategy::RoundRobin,
            health_check: None,
        }
    }
}

/// The names of every HTTP method.
pub open spec fn all_methods() -> Seq<Seq<char>> {
    seq![
        "GET"@,
        "HEAD"@,
        "POST"@,
        "PUT"@,
        "DELETE"@,
        "CONNECT"@,
        "OPTIONS"@,
        "TRACE"@,
        "PATCH"@,
    ]
}

impl RoutesConfig {
    fn bare(path: &str, methods: Vec<String>, backend: BackendTarget) -> (r: Self)
        ensures
            r.path@ == path@,
            r.hosts@.len() == 0,
            r.methods == methods,
            r.backend == backend,
            r.auth_policy is None && r.waf_policy is None && r.cors_policy is None
                && r.limiter_policy is None,
            r.priority == 1,
            r.rewrite is None && r.timeouts is None && r.streaming is None,
    {
        RoutesConfig {
            path: path.to_owned(),
            hosts: Vec::new(),
            methods,
            backend,
            auth_policy: None,
            waf_policy: None,
            cors_policy: None,
            limiter_policy: None,
            priority: 1,
            rewrite: None,
            timeouts: None,
            streaming: None,
        }
    }

    /// A `GET` route under `path` that serves the files of `upstream`.
    pub fn static_stream(path: &str, upstream: StaticUpstream) -> (r: Self)
        ensures
            r.path@ == path@,
            r.hosts@.len() == 0,
            r.methods@.len() == 1 && r.methods@[0]@ == "GET"@,
            r.backend == BackendTarget::Static(upstream),
            r.auth_policy is None && r.waf_policy is None && r.cors_policy is None
                && r.limiter_policy is None,
            r.priority == 1,
            r.rewrite is None && r.timeouts is None && r.streaming is None,
    {
        let mut methods = Vec::new();
        methods.push("GET".to_owned());
        RoutesConfig::bare(path, methods, BackendTarget::Static(upstream))
    }

    /// A route under `path`, for every method, to the upstream `name`.
    pub fn upstream(path: &str, name: &str) -> (r: Self)
        ensures
            r.path@ == path@,
            r.hosts@.len() == 0,
            r.methods@.map_values(|m: String| m@) == all_methods(),
            r.backend matches BackendTarget::Upstream(n) && n@ == name@,
            r.auth_policy is None && r.waf_policy is None && r.cors_policy is None
                && r.limiter_policy is None,
            r.priority == 1,
            r.rewrite is None && r.timeouts is None && r.streaming is None,
    {
        let mut methods = Vec::new();
        methods.push("GET".to_owned());
        methods.push("HEAD".to_owned());
        methods.push("POST".to_owned());
        methods.push("PUT".to_owned());
        methods.push("DELETE".to_owned());
        methods.push("CONNECT".to_owned());
        methods.push("OPTIONS".to_owned());
        methods.push("TRACE".to_owned());
        methods.push("PATCH".to_owned());
        assert(methods@.map_values(|m: String| m@) =~= all_methods());
        RoutesConfig::bare(path, methods, BackendTarget::Upstream(name.to_owned()))
    }
}

impl GatewayConfig {
    /// A gateway named `name` with nothing in it.
    pub fn new(name: &str) -> (g: Self)
        ensures
            g.name@ == name@,
            g.listeners@.len() == 0,
            g.upstreams@.len() == 0,
            g.routes@.len() == 0,
            g.policies.auth is None && g.policies.cors is None && g.policies.waf is None
                && g.policies.limiter is None,
    {
        GatewayConfig {
            name: name.to_owned(),
            listeners: Vec::new(),
            upstreams: Vec::new(),
            routes: Vec::new(),
            policies: PolicyConfig::default(),
        }
    }
}

// ============================================================
// DUPLICATES AND RESOLUTION
// ============================================================

fn dup_text(o: &Option<String>) -> (c: Option<String>)
    ensures
        c == *o,
{
    match o {
        Some(t) => Some(t.clone()),
        None => None,
    }
}

fn dup_texts(v: &Vec<String>) -> (c: Vec<String>)
    ensures
        c@ == v@,
{
    let mut out: Vec<String> = Vec::new();
    let mut i: usize = 0;
    while i < v.len()
        invariant
            0 <= i <= v@.len(),
            out@ == v@.take(i as int),
        decreases v@.len() - i,
    {
        out.push(v[i].clone());
        assert(out@ =~= v@.take(i + 1));
        i = i + 1;
    }
    assert(v@.take(v@.len() as int) =~= v@);
    out
}

impl TokenSource {
    /// A token source equal to this one.
    pub fn duplicate(&self) -> (c: Self)
        ensures
            c == *self,
    {
        match self {
            TokenSource::Header { name, prefix } => TokenSource::Header {
                name: name.clone(),
                prefix: dup_text(prefix),
            },
            TokenSource::Cookie { name, prefix } => TokenSource::Cookie {
                name: name.clone(),
                prefix: dup_text(prefix),
            },
            TokenSource::QueryParam { name, prefix } => TokenSource::QueryParam {
                name: name.clone(),
                prefix: dup_text(prefix),
            },
        }
    }
}

impl RefreshTokenConfig {
    /// A refresh token setting equal to this one.
    pub fn duplicate(&self) -> (c: Self)
        ensures
            c == *self,
    {
        RefreshTokenConfig {
            enabled: self.enabled,
            source: self.source.duplicate(),
            token_endpoint: self.token_endpoint.clone(),
            auto_rotate_response: self.auto_rotate_response,
        }
    }
}

/// `a` and `b` hold the same authentication settings.
pub open spec fn oauth_same(a: OAuthConfig, b: OAuthConfig) -> bool {
    &&& a.issuer == b.issuer
    &&& a.client_id == b.client_id
    &&& a.client_secret == b.client_secret
    &&& a.scopes@ == b.scopes@
    &&& a.sources@ == b.sources@
    &&& a.jwk_uri == b.jwk_uri
    &&& a.refresh_token == b.refresh_token
    &&& a.excludes@ == b.excludes@
}

/// `a` and `b` hold the same CORS settings.
pub open spec fn cors_same(a: CorsConfig, b: CorsConfig) -> bool {
    &&& a.allow_origins@ == b.allow_origins@
    &&& a.allow_methods@ == b.allow_methods@
    &&& a.allow_headers@ == b.allow_headers@
    &&& a.expose_headers@ == b.expose_headers@
    &&& a.allow_credentials == b.allow_credentials
    &&& a.max_age == b.max_age
    &&& a.excludes@ == b.excludes@
}

/// `a` and `b` hold the same rate limiter settings.
pub open spec fn limiter_same(a: LimiterConfig, b: LimiterConfig) -> bool {
    &&& a.rate == b.rate
    &&& a.burst == b.burst
    &&& a.algorithm == b.algorithm
    &&& a.identifier == b.identifier
    &&& a.excludes@ == b.excludes@
}

/// `r` holds the same settings as `e`, or both are missing.
pub open spec fn same_opt<T>(r: Option<T>, e: Option<T>, same: spec_fn(T, T) -> bool) -> bool {
    match r {
        Some(c) => e matches Some(x) && same(c, x),
        None => e is None,
    }
}

impl OAuthConfig {
    /// Authentication settings equal to these.
    pub fn duplicate(&self) -> (c: Self)
        ensures
            oauth_same(c, *self),
    {
        let mut sources: Vec<TokenSource> = Vec::new();
        let mut i: usize = 0;
        while i < self.sources.len()
            invariant
                0 <= i <= self.sources@.len(),
                sources@ == self.sources@.take(i as int),
            decreases self.sources@.len() - i,
        {
            sources.push(self.sources[i].duplicate());
            assert(sources@ =~= self.sources@.take(i + 1));
            i = i + 1;
        }
        assert(self.sources@.take(self.sources@.len() as int) =~= self.sources@);
        OAuthConfig {
            issuer: self.issuer.clone(),
            client_id: self.client_id.clone(),
            client_secret: dup_text(&self.client_secret),
            scopes: dup_texts(&self.scopes),
            sources,
            jwk_uri: self.jwk_uri.clone(),
            refresh_token: match &self.refresh_token {
                Some(r) => Some(r.duplicate()),
                None => None,
            },
            excludes: dup_texts(&self.excludes),
        }
    }
}

impl CorsConfig {
    /// CORS settings equal to these.
    pub fn duplicate(&self) -> (c: Self)
        ensures
            cors_same(c, *self),
    {
        CorsConfig {
            allow_origins: dup_texts(&self.allow_origins),
            allow_methods: dup_texts(&self.allow_methods),
            allow_headers: dup_texts(&self.allow_headers),
            expose_headers: dup_texts(&self.expose_headers),
            allow_credentials: self.allow_credentials,
            max_age: self.max_age,
            excludes: dup_texts(&self.excludes),
        }
    }
}

impl LimiterConfig {
    /// Rate limiter settings equal to these.
    pub fn duplicate(&self) -> (c: Self)
        ensures
            limiter_same(c, *self),
    {
        LimiterConfig {
            rate: self.rate,
            burst: self.burst,
            algorithm: self.algorithm,
            identifier: match &self.identifier {
                LimiterIdentifier::Ip => LimiterIdentifier::Ip,
                LimiterIdentifier::Header(h) => LimiterIdentifier::Header(h.clone()),
                LimiterIdentifier::Token(t) => LimiterIdentifier::Token(t.clone()),
            },
            excludes: dup_texts(&self.excludes),
        }
    }
}

/// The setting named `k` in the list `o`, if any.
pub open spec fn lookup<T>(o: Option<Vec<(String, T)>>, k: Seq<char>) -> Option<T> {
    match o {
        Some(v) => match key_index(keyed(v@), k) {
            Some(i) => Some(v@[i].1),
            None => None,
        },
        None => None,
    }
}

pub proof fn lemma_key_index_bound<T>(a: Seq<(Seq<char>, T)>, k: Seq<char>)
    ensures
        key_index(a, k) matches Some(i) ==> 0 <= i < a.len() && a[i].0 == k,
    decreases a.len(),
{
    if a.len() > 0 {
        lemma_key_index_bound(a.drop_last(), k);
    }
}

/// The position of the setting named `k` in `v`.
fn find_named<T>(v: &Vec<(String, T)>, k: &String) -> (r: Option<usize>)
    ensures
        match r {
            Some(i) => key_index(keyed(v@), k@) == Some(i as int),
            None => key_index(keyed(v@), k@) is None,
        },
{
    let ghost s = keyed(v@);
    let mut i = v.len();
    assert(s.take(i as int) =~= s);
    while i > 0
        invariant
            i <= v@.len(),
            s == keyed(v@),
            key_index(s, k@) == key_index(s.take(i as int), k@),
        decreases i,
    {
        assert(s.take(i - 1) =~= s.take(i as int).drop_last());
        assert(s.take(i as int).last() == s[i - 1]);
        if v[i - 1].0 == *k {
            return Some(i - 1);
        }
        i = i - 1;
    }
    assert(s.take(0) =~= Seq::<(Seq<char>, T)>::empty());
    None
}

impl PolicyConfig {
    /// The authentication settings a route's policy comes to: the named
    /// policy, the route's own settings, or the named policy overridden by
    /// the route's (`None` when the name is unknown).
    pub fn resolve_auth(&self, policy: &RouteAuthPolicy) -> (r: Option<OAuthConfig>)
        ensures
            same_opt(r, match *policy {
                RouteAuthPolicy::Reference(name) => lookup(self.auth, name@),
                RouteAuthPolicy::Local(cfg) => Some(cfg),
                RouteAuthPolicy::Override { base, config } => match lookup(self.auth, base@) {
                    Some(c) => Some(spec_oauth_merge(c, config)),
                    None => None,
                },
            }, |a, b| oauth_same(a, b)),
    {
        match policy {
            RouteAuthPolicy::Local(cfg) => Some(cfg.duplicate()),
            RouteAuthPolicy::Reference(name) | RouteAuthPolicy::Override { base: name, .. } => {
                let v = match &self.auth {
                    Some(v) => v,
                    None => {
                        return None;
                    },
                };
                let i = match find_named(v, name) {
                    Some(i) => i,
                    None => {
                        return None;
                    },
                };
                proof {
                    lemma_key_index_bound(keyed(v@), name@);
                }
                let mut c = v[i].1.duplicate();
                if let RouteAuthPolicy::Override { config, .. } = policy {
                    c.merge(config.duplicate());
                }
                Some(c)
            },
        }
    }

    /// The CORS settings a route's policy comes to (see `resolve_auth`).
    pub fn resolve_cors(&self, policy: &RouteCorsPolicy) -> (r: Option<CorsConfig>)
        ensures
            same_opt(r, match *policy {
                RouteCorsPolicy::Reference(name) => lookup(self.cors, name@),
                RouteCorsPolicy::Local(cfg) => Some(cfg),
                RouteCorsPolicy::Override { base, config } => match lookup(self.cors, base@) {
                    Some(c) => Some(spec_cors_merge(c, config)),
                    None => None,
                },
            }, |a, b| cors_same(a, b)),
    {
        match policy {
            RouteCorsPolicy::Local(cfg) => Some(cfg.duplicate()),
            RouteCorsPolicy::Reference(name) | RouteCorsPolicy::Override { base: name, .. } => {
                let v = match &self.cors {
                    Some(v) => v,
                    None => {
                        return None;
                    },
                };
                let i = match find_named(v, name) {
                    Some(i) => i,
                    None => {
                        return None;
                    },
                };
                proof {
                    lemma_key_index_bound(keyed(v@), name@);
                }
                let mut c = v[i].1.duplicate();
                if let RouteCorsPolicy::Override { config, .. } = policy {
                    c.merge(config.duplicate());
                }
                Some(c)
            },
        }
    }

    /// The rate limiter settings a route's policy comes to (see
    /// `resolve_auth`).
    pub fn resolve_limiter(&self, policy: &RouteLimiterPolicy) -> (r: Option<LimiterConfig>)
        ensures
            same_opt(r, match *policy {
                RouteLimiterPolicy::Reference(name) => lookup(self.limiter, name@),
                RouteLimiterPolicy::Local(cfg) => Some(cfg),
                RouteLimiterPolicy::Override { base, config } => match lookup(self.limiter, base@) {
                    Some(c) => Some(spec_limiter_merge(c, config)),
                    None => None,
                },
            }, |a, b| limiter_same(a, b)),
    {
        match policy {
            RouteLimiterPolicy::Local(cfg) => Some(cfg.duplicate()),
            RouteLimiterPolicy::Reference(name) | RouteLimiterPolicy::Override { base: name, .. } => {
                let v = match &self.limiter {
                    Some(v) => v,
                    None => {
                        return None;
                    },
                };
                let i = match find_named(v, name) {
                    Some(i) => i,
                    None => {
                        return None;
                    },
                };
                proof {
                    lemma_key_index_bound(keyed(v@), name@);
                }
                let mut c = v[i].1.duplicate();
                if let RouteLimiterPolicy::Override { config, .. } = policy {
                    c.merge(config.duplicate());
                }
                Some(c)
            },
        }
    }
}

/// `a` and `b` hold the same firewall settings.
pub open spec fn waf_same(a: WafConfig, b: WafConfig) -> bool {
    &&& a.enabled == b.enabled
    &&& a.mode == b.mode
    &&& a.max_body_size == b.max_body_size
    &&& a.anomaly_threshold == b.anomaly_threshold
    &&& a.excludes@ == b.excludes@
    &&& a.rules@ == b.rules@
}

impl WafRule {
    /// A rule equal to this one.
    pub fn duplicate(&self) -> (c: Self)
        ensures
            c == *self,
    {
        WafRule {
            id: self.id.clone(),
            phase: self.phase,
            condition: self.condition,
            action: self.action,
            score: self.score,
        }
    }
}

impl WafConfig {
    /// Firewall settings equal to these.
    pub fn duplicate(&self) -> (c: Self)
        ensures
            waf_same(c, *self),
    {
        let mut rules: Vec<WafRule> = Vec::new();
        let mut i: usize = 0;
        while i < self.rules.len()
            invariant
                0 <= i <= self.rules@.len(),
                rules@ == self.rules@.take(i as int),
            decreases self.rules@.len() - i,
        {
            rules.push(self.rules[i].duplicate());
            assert(rules@ =~= self.rules@.take(i + 1));
            i = i + 1;
        }
        assert(self.rules@.take(self.rules@.len() as int) =~= self.rules@);
        WafConfig {
            enabled: self.enabled,
            mode: self.mode,
            max_body_size: self.max_body_size,
            anomaly_threshold: self.anomaly_threshold,
            excludes: dup_texts(&self.excludes),
            rules,
        }
    }
}

/// `a` and `b` hold, in order, the same names with the same settings.
pub open spec fn list_same<T>(a: Option<Vec<(String, T)>>, b: Option<Vec<(String, T)>>, same: spec_fn(T, T) -> bool) -> bool {
    match (a, b) {
        (Some(x), Some(y)) => x@.len() == y@.len() && forall|i: int|
            0 <= i < x@.len() ==> (#[trigger] x@[i]).0 == y@[i].0 && same(x@[i].1, y@[i].1),
        (None, None) => true,
        _ => false,
    }
}

/// `a` and `b` hold the same policies.
pub open spec fn policies_same(a: PolicyConfig, b: PolicyConfig) -> bool {
    &&& list_same(a.auth, b.auth, |x: OAuthConfig, y: OAuthConfig| oauth_same(x, y))
    &&& list_same(a.cors, b.cors, |x: CorsConfig, y: CorsConfig| cors_same(x, y))
    &&& list_same(a.waf, b.waf, |x: WafConfig, y: WafConfig| waf_same(x, y))
    &&& list_same(a.limiter, b.limiter, |x: LimiterConfig, y: LimiterConfig| limiter_same(x, y))
}

impl PolicyConfig {
    /// Policies equal to these.
    pub fn duplicate(&self) -> (c: Self)
        ensures
            policies_same(c, *self),
    {
        let auth = match &self.auth {
            Some(v) => {
                let mut out: Vec<(String, OAuthConfig)> = Vec::new();
                let mut i: usize = 0;
                while i < v.len()
                    invariant
                        0 <= i <= v@.len(),
                        out@.len() == i,
                        forall|j: int| 0 <= j < i ==> (#[trigger] out@[j]).0 == v@[j].0 && oauth_same(out@[j].1, v@[j].1),
                    decreases v@.len() - i,
                {
                    out.push((v[i].0.clone(), v[i].1.duplicate()));
                    i = i + 1;
                }
                Some(out)
            },
            None => None,
        };
        let cors = match &self.cors {
            Some(v) => {
                let mut out: Vec<(String, CorsConfig)> = Vec::new();
                let mut i: usize = 0;
                while i < v.len()
                    invariant
                        0 <= i <= v@.len(),
                        out@.len() == i,
                        forall|j: int| 0 <= j < i ==> (#[trigger] out@[j]).0 == v@[j].0 && cors_same(out@[j].1, v@[j].1),
                    decreases v@.len() - i,
                {
                    out.push((v[i].0.clone(), v[i].1.duplicate()));
                    i = i + 1;
                }
                Some(out)
            },
            None => None,
        };
        let waf = match &self.waf {
            Some(v) => {
                let mut out: Vec<(String, WafConfig)> = Vec::new();
                let mut i: usize = 0;
                while i < v.len()
                    invariant
                        0 <= i <= v@.len(),
                        out@.len() == i,
                        forall|j: int| 0 <= j < i ==> (#[trigger] out@[j]).0 == v@[j].0 && waf_same(out@[j].1, v@[j].1),
                    decreases v@.len() - i,
                {
                    out.push((v[i].0.clone(), v[i].1.duplicate()));
                    i = i + 1;
                }
                Some(out)
            },
            None => None,
        };
        let limiter = match &self.limiter {
            Some(v) => {
                let mut out: Vec<(String, LimiterConfig)> = Vec::new();
                let mut i: usize = 0;
                while i < v.len()
                    invariant
                        0 <= i <= v@.len(),
                        out@.len() == i,
                        forall|j: int| 0 <= j < i ==> (#[trigger] out@[j]).0 == v@[j].0 && limiter_same(out@[j].1, v@[j].1),
                    decreases v@.len() - i,
                {
                    out.push((v[i].0.clone(), v[i].1.duplicate()));
                    i = i + 1;
                }
                Some(out)
            },
            None => None,
        };
        PolicyConfig { auth, cors, waf, limiter }
    }
}

} // verus!
