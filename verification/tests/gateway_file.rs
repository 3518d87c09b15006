use std::time::Duration;

use ophan::config::domain::{Http2Mode, NetworkProtocol};
use ophan::config::dsl_parser::{
    parse_duration_to_secs, parse_balance_strategy, parse_gateway_config, parse_master_config, parse_transport, parse_rate,
    parse_size_to_bytes,
};
use ophan::config::parts::{
    BackendTarget, BalanceStrategy, CorsConfig, GatewayConfig, LimiterConfig, LimiterIdentifier, ListenerConfig,
    NetworkTransport, OAuthConfig, PolicyConfig, RouteAuthPolicy, RouteCorsPolicy, RouteLimiterPolicy, RouteWafPolicy,
    RoutesConfig, SSLConfig, SecurityConfig, StaticUpstream, TlsVersion, TokenSource, UpstreamConfig, UpstreamServer,
    WafMode,
};

fn rule<'a>(rules: &'a [(String, String)], key: &str) -> Option<&'a String> {
    rules.iter().find(|(k, _)| k == key).map(|(_, v)| v)
}

#[test]
fn test_parse_master_config() {
    let master_conf = r#"
master "ophan-01" {
    user = "www-data"
    workers = "auto"
    pid = "/run/ophan.pid"
    error_log = "/var/log/ophan/error.log"
    includes = "/etc/ophan/gateways/*.conf"
}
"#;

    // The available parallelism of the machine, which the caller passes in.
    let parallel_size: usize = 8;
    let master = parse_master_config(master_conf, parallel_size).expect("Failed to parse master config");

    assert_eq!(master.name, "ophan-01");
    assert_eq!(master.user, "www-data");
    assert_eq!(master.workers, parallel_size);
    assert_eq!(master.pid, "/run/ophan.pid");
    assert_eq!(master.error_log, "/var/log/ophan/error.log");
    assert_eq!(master.includes.len(), 1);
    assert_eq!(master.includes[0], "/etc/ophan/gateways/*.conf");
}

#[test]
fn test_parse_gateway_name() {
    let gateway_conf = r#"
name = "edge-gateway-prod"
"#;

    let config = parse_gateway_config(gateway_conf).expect("Failed to parse gateway config");
    assert_eq!(config.name, "edge-gateway-prod");
}

#[test]
fn test_parse_listeners_tcp() {
    let gateway_conf = r#"
listeners {
    listener "ingress-secure" {
        address = "0.0.0.0:443"
        protocols = ["http1", "http2"]
    }
}
"#;

    let config = parse_gateway_config(gateway_conf).expect("Failed to parse gateway config");
    assert_eq!(config.listeners.len(), 1);

    let listener = &config.listeners[0];
    assert_eq!(listener.name, "ingress-secure");
    assert_eq!(listener.listen, vec!["0.0.0.0:443"]);
    assert!(matches!(listener.transport, NetworkTransport::Tcp(_)));
    assert!(matches!(listener.security, SecurityConfig::Plaintext));
    assert_eq!(listener.protocols.len(), 2);
}

#[test]
fn test_parse_listeners_with_ssl() {
    let gateway_conf = r#"
listeners {
    listener "ingress-secure" {
        address = "0.0.0.0:443"
        protocols = ["http1", "http2"]

        ssl {
            cert = "/home/alex/.certs/cert.pem"
            key = "/home/alex/.certs/key.pem"
        }
    }
}
"#;

    let config = parse_gateway_config(gateway_conf).expect("Failed to parse gateway config");
    let listener = &config.listeners[0];

    match &listener.security {
        SecurityConfig::Tls { certs, .. } => {
            assert_eq!(certs.cert, "/home/alex/.certs/cert.pem");
            assert_eq!(certs.key, "/home/alex/.certs/key.pem");
            assert!(certs.client_ca.is_none());
        },
        _ => panic!("Expected TLS security"),
    }
}

#[test]
fn test_parse_listeners_unix_socket() {
    let gateway_conf = r#"
listeners {
    listener "ingress-internal" {
        address = "unix:/var/run/ophan-internal.sock"
        protocols = ["grpc"]
    }
}
"#;

    let config = parse_gateway_config(gateway_conf).expect("Failed to parse gateway config");
    let listener = &config.listeners[0];

    assert!(matches!(listener.transport, NetworkTransport::Uds(_)));
    if let NetworkTransport::Uds(path) = &listener.transport {
        assert_eq!(path, "/var/run/ophan-internal.sock");
    }

    assert_eq!(listener.protocols.len(), 1);
    assert!(matches!(listener.protocols[0], NetworkProtocol::Http2 { mode: Http2Mode::Grpc }));
}

#[test]
fn test_parse_upstream_simple_string() {
    let gateway_conf = r#"
upstreams {
    upstream "billing-srv" {
        servers = "10.0.2.50:3000"
    }
}
"#;

    let config = parse_gateway_config(gateway_conf).expect("Failed to parse gateway config");
    assert_eq!(config.upstreams.len(), 1);

    let upstream = &config.upstreams[0];
    assert_eq!(upstream.name, "billing-srv");
    assert_eq!(upstream.servers.len(), 1);
    assert_eq!(upstream.servers[0].address, "10.0.2.50:3000");
    assert_eq!(upstream.servers[0].weight, 1);
}

#[test]
fn test_parse_upstream_inline_object() {
    let gateway_conf = r#"
upstreams {
    upstream "auth-srv" {
        servers = { endpoint = "auth-internal.lan:9000", weight = 100, protocol = "http2" }
    }
}
"#;

    let config = parse_gateway_config(gateway_conf).expect("Failed to parse gateway config");
    let upstream = &config.upstreams[0];

    assert_eq!(upstream.name, "auth-srv");
    assert_eq!(upstream.servers.len(), 1);
    assert_eq!(upstream.servers[0].address, "auth-internal.lan:9000");
    assert_eq!(upstream.servers[0].weight, 100);
    assert!(matches!(
        upstream.servers[0].protocol,
        NetworkProtocol::Http2 { mode: Http2Mode::Standard }
    ));
}

#[test]
fn test_parse_upstream_array() {
    let gateway_conf = r#"
upstreams {
    upstream "api-main-cluster" {
        load_balance = "least_connections"

        servers = [
            { endpoint = "10.0.1.10:4040", weight = 100 },
            { endpoint = "10.0.1.11:8080", weight = 50, protocol = "http2" },
            { endpoint = "10.0.1.12:9000", protocol = "http1" }
        ]
    }
}
"#;

    let config = parse_gateway_config(gateway_conf).expect("Failed to parse gateway config");
    let upstream = &config.upstreams[0];

    assert_eq!(upstream.name, "api-main-cluster");
    assert!(matches!(upstream.balance_strategy, BalanceStrategy::LeastConnections));
    assert_eq!(upstream.servers.len(), 3);

    assert_eq!(upstream.servers[0].address, "10.0.1.10:4040");
    assert_eq!(upstream.servers[0].weight, 100);

    assert_eq!(upstream.servers[1].address, "10.0.1.11:8080");
    assert_eq!(upstream.servers[1].weight, 50);
    assert!(matches!(
        upstream.servers[1].protocol,
        NetworkProtocol::Http2 { mode: Http2Mode::Standard }
    ));

    assert_eq!(upstream.servers[2].address, "10.0.1.12:9000");
    assert!(matches!(upstream.servers[2].protocol, NetworkProtocol::Http1 { .. }));
}

#[test]
fn test_parse_upstream_with_health_check() {
    let gateway_conf = r#"
upstreams {
    upstream "api-main-cluster" {
        servers = "10.0.1.10:4040"
        health_check = { path = "/healthz", interval = 10s, timeout = 250ms, unhealthy_threshold = 3, healthy_threshold = 2 }
    }
}
"#;

    let config = parse_gateway_config(gateway_conf).expect("Failed to parse gateway config");
    let upstream = &config.upstreams[0];

    assert!(upstream.health_check.is_some());
    let hc = upstream.health_check.as_ref().unwrap();
    assert_eq!(hc.path, "/healthz");
    assert_eq!(hc.interval, 10);
    assert_eq!(hc.timeout, 0);
    assert_eq!(hc.unhealthy_threshold, 3);
    assert_eq!(hc.healthy_threshold, 2);
}

#[test]
fn test_parse_route_backend_upstream() {
    let gateway_conf = r#"
routes {
    route "/api/v1/*" {
        hosts = ["api.example.me"]
        methods = ["GET", "POST", "PUT", "DELETE"]
        backend = upstream("api-main-cluster")
    }
}
"#;

    let config = parse_gateway_config(gateway_conf).expect("Failed to parse gateway config");
    assert_eq!(config.routes.len(), 1);

    let route = &config.routes[0];
    assert_eq!(route.path, "/api/v1/*");
    assert_eq!(route.hosts, vec!["api.example.me"]);
    for m in ["GET", "POST", "PUT", "DELETE"] {
        assert!(route.methods.iter().any(|x| x == m));
    }

    match &route.backend {
        BackendTarget::Upstream(name) => assert_eq!(name, "api-main-cluster"),
        _ => panic!("Expected Upstream backend"),
    }
}

#[test]
fn test_parse_route_with_rewrite() {
    let gateway_conf = r#"
routes {
    route "/api/v1/*" {
        backend = upstream("api-main-cluster")

        rewrite {
            "/api/*" -> "/$1"
        }
    }
}
"#;

    let config = parse_gateway_config(gateway_conf).expect("Failed to parse gateway config");
    let route = &config.routes[0];

    assert!(route.rewrite.is_some());
    let rewrite = route.rewrite.as_ref().unwrap();
    assert!(rewrite.rules.is_some());
    let rules = rewrite.rules.as_ref().unwrap();
    assert_eq!(rule(rules, "/api/*"), Some(&"/$1".to_string()));
}

#[test]
fn test_parse_route_with_policies_direct() {
    let gateway_conf = r#"
policy auth "oauth-core" {
    issuer = "https://auth.example.me"
    client_id = "ophan-gateway"
    jwks_uri = "https://auth.example.me/.well-known/jwks.json"
}

routes {
    route "/api/v1/*" {
        backend = upstream("api-main-cluster")

        policies {
            auth = "oauth-core"
        }
    }
}
"#;

    let config = parse_gateway_config(gateway_conf).expect("Failed to parse gateway config");
    let route = &config.routes[0];

    assert!(route.auth_policy.is_some());
    match route.auth_policy.as_ref().unwrap() {
        RouteAuthPolicy::Reference(name) => assert_eq!(name, "oauth-core"),
        _ => panic!("Expected Reference auth policy"),
    }
}

#[test]
fn test_parse_route_with_policies_extends() {
    let gateway_conf = r#"
policy waf "waf-hardened" {
    enabled = true
    mode = "blocking"
    max_body_size = 4mb
    anomaly_threshold = 5
}

routes {
    route "/api/v1/media/upload" {
        backend = upstream("media-srv")

        policies {
            waf extends "waf-hardened" {
                max_body_size = 100mb
                anomaly_threshold = 15
            }
        }
    }
}
"#;

    let config = parse_gateway_config(gateway_conf).expect("Failed to parse gateway config");
    let route = &config.routes[0];

    assert!(route.waf_policy.is_some());
    match route.waf_policy.as_ref().unwrap() {
        RouteWafPolicy::Override { base, config } => {
            assert_eq!(base, "waf-hardened");
            assert_eq!(config.max_body_size, 100 * 1024 * 1024);
            assert_eq!(config.anomaly_threshold, 15);
        },
        _ => panic!("Expected Override waf policy"),
    }
}

#[test]
fn test_parse_route_with_policies_local_limiter() {
    let gateway_conf = r#"
routes {
    route "/api/v1/checkout/*" {
        backend = upstream("billing-srv")

        policies {
            limiter {
                rate = "10/m"
                burst = 2
                algorithm = "token_bucket"
                identifier = "ip"
            }
        }
    }
}
"#;

    let config = parse_gateway_config(gateway_conf).expect("Failed to parse gateway config");
    let route = &config.routes[0];

    assert!(route.limiter_policy.is_some());
    match route.limiter_policy.as_ref().unwrap() {
        RouteLimiterPolicy::Local(cfg) => {
            assert_eq!(cfg.rate.requests, 10);
            assert_eq!(cfg.rate.per_seconds, 60);
            assert_eq!(cfg.burst, 2);
            assert!(matches!(cfg.identifier, LimiterIdentifier::Ip));
        },
        _ => panic!("Expected Local limiter policy"),
    }
}

#[test]
fn test_parse_global_policy_auth() {
    let gateway_conf = r#"
policy auth "oauth-default" {
    issuer = "https://auth.example.me"
    client_id = "ophan-gateway-edge"
    client_secret = "env:AUTH_CLIENT_SECRET"
    jwks_uri = "https://auth.example.me/.well-known/jwks.json"

    sources {
        header { name = "Authorization", prefix = "Bearer " }
        cookie { name = "access_token" }
    }
}
"#;

    let config = parse_gateway_config(gateway_conf).expect("Failed to parse gateway config");
    assert!(config.policies.auth.is_some());

    let auth_map = config.policies.auth.as_ref().unwrap();
    let oauth = &auth_map.iter().find(|(n, _)| n == "oauth-default").unwrap().1;
    assert_eq!(oauth.issuer, "https://auth.example.me");
    assert_eq!(oauth.client_id, "ophan-gateway-edge");
    assert_eq!(oauth.client_secret, Some("env:AUTH_CLIENT_SECRET".to_string()));
    assert_eq!(oauth.jwk_uri, "https://auth.example.me/.well-known/jwks.json");
    assert_eq!(oauth.sources.len(), 2);
}

#[test]
fn test_parse_global_policy_waf() {
    let gateway_conf = r#"
policy waf "waf-hardened" {
    enabled = true
    mode = "blocking"
    max_body_size = 4mb
    anomaly_threshold = 5

    rules {
        rule "block_sql_injection" {
            phase = "request_body"
            condition = sql_token_match
            action = "block"
            score = 5
        }
    }
}
"#;

    let config = parse_gateway_config(gateway_conf).expect("Failed to parse gateway config");
    let waf = &config.policies.waf.as_ref().unwrap().iter().find(|(n, _)| n == "waf-hardened").unwrap().1;
    assert!(waf.enabled);
    assert!(matches!(waf.mode, WafMode::Blocking));
    assert_eq!(waf.max_body_size, 4 * 1024 * 1024);
    assert_eq!(waf.anomaly_threshold, 5);
    assert_eq!(waf.rules.len(), 1);
    assert_eq!(waf.rules[0].id, "block_sql_injection");
    assert_eq!(waf.rules[0].score, 5);
}

#[test]
fn test_parse_global_policy_cors() {
    let gateway_conf = r#"
policy cors "cors-default" {
    allow_origin = ["https://example.me"]
    allow_methods = ["GET", "POST"]
    allow_headers = ["Content-Type", "Authorization"]
    allow_credentials = true
    max_age = 1h
}
"#;

    let config = parse_gateway_config(gateway_conf).expect("Failed to parse gateway config");
    let cors = &config.policies.cors.as_ref().unwrap().iter().find(|(n, _)| n == "cors-default").unwrap().1;
    assert_eq!(cors.allow_origins, vec!["https://example.me"]);
    assert_eq!(cors.allow_methods, vec!["GET", "POST"]);
    assert_eq!(cors.allow_headers, vec!["Content-Type", "Authorization"]);
    assert!(cors.allow_credentials);
    assert_eq!(cors.max_age, Some(3600));
}

#[test]
fn test_parse_global_policy_limiter() {
    let gateway_conf = r#"
policy limiter "rate-limit" {
    rate = "100/m"
    burst = 20
    algorithm = "sliding_window"
    identifier = "ip"
}
"#;

    let config = parse_gateway_config(gateway_conf).expect("Failed to parse gateway config");
    let limiter = &config.policies.limiter.as_ref().unwrap().iter().find(|(n, _)| n == "rate-limit").unwrap().1;
    assert_eq!(limiter.rate.requests, 100);
    assert_eq!(limiter.rate.per_seconds, 60);
    assert_eq!(limiter.burst, 20);
    assert!(matches!(limiter.identifier, LimiterIdentifier::Ip));
}

#[test]
fn test_parse_full_gateway_config() {
    let gateway_conf = r#"
name = "edge-gateway-prod"

listeners {
    listener "ingress-secure" {
        address = "0.0.0.0:443"
        protocols = ["http1", "http2"]

        ssl {
            cert = "/home/alex/.certs/cert.pem"
            key = "/home/alex/.certs/key.pem"
        }
    }

    listener "ingress-internal" {
        address = "unix:/var/run/ophan-internal.sock"
        protocols = ["grpc"]
    }
}

upstreams {
    upstream "api-main-cluster" {
        load_balance = "least_connections"

        servers = [
            { endpoint = "10.0.1.10:4040", weight = 100 },
            { endpoint = "10.0.1.11:8080", weight = 50, protocol = "http2" }
        ]

        health_check = { path = "/healthz", interval = 10s, timeout = 250ms }
    }

    upstream "billing-srv" {
        servers = "10.0.2.50:3000"
    }
}

routes {
    route "/" {
        hosts = ["example.me"]
        backend = static {
            root = "/var/www/public"
            listing = false
            dotfiles = false
        }
    }

    route "/api/v1/*" {
        hosts = ["api.example.me"]
        methods = ["GET", "POST"]
        backend = upstream("api-main-cluster")
    }

    route "/api/stream/*" {
        backend = upstream("api-main-cluster")

        timeouts {
            connect = "30s"
            read    = "300s"
            send    = "300s"
        }

        streaming {
            buffering = false
            chunked   = false
        }
    }
}

policy auth "oauth-core" {
    issuer = "https://auth.example.me"
    client_id = "ophan-gateway"
    jwks_uri = "https://auth.example.me/.well-known/jwks.json"
}

policy waf "waf-hardened" {
    enabled = true
    mode = "blocking"
    max_body_size = 4mb
    anomaly_threshold = 5
}
"#;

    let config = parse_gateway_config(gateway_conf).expect("Failed to parse gateway config");

    assert_eq!(config.name, "edge-gateway-prod");
    assert_eq!(config.listeners.len(), 2);
    assert_eq!(config.upstreams.len(), 2);
    assert_eq!(config.routes.len(), 3);
    assert!(config.policies.auth.is_some());
    let waf = &config.policies.waf.as_ref().unwrap().iter().find(|(n, _)| n == "waf-hardened").unwrap().1;
    assert!(waf.enabled);

    let stream_route = &config.routes[2];
    assert_eq!(stream_route.path, "/api/stream/*");
    assert!(stream_route.timeouts.is_some());
    let t = stream_route.timeouts.as_ref().unwrap();
    assert_eq!(t.connect, Some(Duration::from_secs(30)));
    assert_eq!(t.read, Some(Duration::from_secs(300)));
    assert_eq!(t.send, Some(Duration::from_secs(300)));
    assert!(stream_route.streaming.is_some());
    let s = stream_route.streaming.as_ref().unwrap();
    assert!(!s.buffering);
    assert!(!s.chunked);
}

#[test]
fn test_parse_comments_ignored() {
    let gateway_conf = r#"
# This is a comment
name = "test-gateway"
# Another comment
listeners {
    # Comment inside block
    listener "test" {
        address = "0.0.0.0:8080"
        protocols = ["http1"]
    }
}
"#;

    let config = parse_gateway_config(gateway_conf).expect("Failed to parse gateway config");
    assert_eq!(config.name, "test-gateway");
    assert_eq!(config.listeners.len(), 1);
}

#[test]
fn parse_test_test_parse_multiple_routes() {
    let gateway_conf = r#"
routes {
    route "/" {
        backend = static {
            root = "/var/www"
            listing = false
            dotfiles = false
        }
    }

    route "/api/v1/*" {
        backend = upstream("api-cluster")
    }

    route "/api/v2/*" {
        backend = upstream("api-cluster-v2")
    }
}
"#;

    let config = parse_gateway_config(gateway_conf).expect("Failed to parse gateway config");
    assert_eq!(config.routes.len(), 3);
    assert_eq!(config.routes[0].path, "/");
    assert_eq!(config.routes[1].path, "/api/v1/*");
    assert_eq!(config.routes[2].path, "/api/v2/*");
}

#[test]
fn test_parse_upstream_load_balance_strategies() {
    let gateway_conf = r#"
upstreams {
    upstream "round-robin" {
        load_balance = "round_robin"
        servers = "localhost:8080"
    }

    upstream "least-conn" {
        load_balance = "least_connections"
        servers = "localhost:8081"
    }

    upstream "ip-hash" {
        load_balance = "ip_hash"
        servers = "localhost:8082"
    }

    upstream "random" {
        load_balance = "random"
        servers = "localhost:8083"
    }
}
"#;

    let config = parse_gateway_config(gateway_conf).expect("Failed to parse gateway config");
    assert_eq!(config.upstreams.len(), 4);

    assert!(matches!(config.upstreams[0].balance_strategy, BalanceStrategy::RoundRobin));
    assert!(matches!(config.upstreams[1].balance_strategy, BalanceStrategy::LeastConnections));
    assert!(matches!(config.upstreams[2].balance_strategy, BalanceStrategy::IpHash));
    assert!(matches!(config.upstreams[3].balance_strategy, BalanceStrategy::Random));
}

#[test]
fn test_parse_route_with_policies_extends_auth() {
    let gateway_conf = r#"
policy auth "oauth-default" {
    issuer = "https://auth.example.com"
    client_id = "test-client"
    jwks_uri = "https://auth.example.com/.well-known/jwks.json"

    sources {
        header { name = "Authorization", prefix = "Bearer " }
    }
}

routes {
    route "/api/*" {
        backend = upstream("api")

        policies {
            auth extends "oauth-default" {
                sources {
                    cookie { name = "access_token" }
                }
            }
        }
    }
}
"#;

    let config = parse_gateway_config(gateway_conf).expect("Failed to parse gateway config");
    let route = &config.routes[0];

    assert!(route.auth_policy.is_some());
    match route.auth_policy.as_ref().unwrap() {
        RouteAuthPolicy::Override { base, config } => {
            assert_eq!(base, "oauth-default");
            assert_eq!(config.sources.len(), 1);
            match &config.sources[0] {
                TokenSource::Cookie { name, prefix } => {
                    assert_eq!(name, "access_token");
                    assert!(prefix.is_none());
                },
                _ => panic!("Expected Cookie source"),
            }
            assert!(config.issuer.is_empty());
            assert!(config.client_id.is_empty());
        },
        _ => panic!("Expected Override auth policy"),
    }
}

#[test]
fn test_parse_route_with_policies_extends_cors() {
    let gateway_conf = r#"
policy cors "cors-default" {
    allow_origin = ["https://example.com"]
    allow_methods = ["GET", "POST"]
}

routes {
    route "/api/*" {
        backend = upstream("api")

        policies {
            cors extends "cors-default" {
                allow_origin = ["https://app.example.com"]
                allow_credentials = true
            }
        }
    }
}
"#;

    let config = parse_gateway_config(gateway_conf).expect("Failed to parse gateway config");
    let route = &config.routes[0];

    assert!(route.cors_policy.is_some());
    match route.cors_policy.as_ref().unwrap() {
        RouteCorsPolicy::Override { base, config } => {
            assert_eq!(base, "cors-default");
            assert_eq!(config.allow_origins, vec!["https://app.example.com"]);
            assert!(config.allow_credentials);
        },
        _ => panic!("Expected Override cors policy"),
    }
}

#[test]
fn test_parse_route_with_policies_extends_limiter() {
    let gateway_conf = r#"
policy limiter "limiter-default" {
    rate = 100/m
    identifier = "ip"
}

routes {
    route "/api/*" {
        backend = upstream("api")

        policies {
            limiter extends "limiter-default" {
                rate = 50/m
                burst = 10
            }
        }
    }
}
"#;

    let config = parse_gateway_config(gateway_conf).expect("Failed to parse gateway config");
    let route = &config.routes[0];

    assert!(route.limiter_policy.is_some());
    match route.limiter_policy.as_ref().unwrap() {
        RouteLimiterPolicy::Override { base, config } => {
            assert_eq!(base, "limiter-default");
            assert_eq!(config.rate.requests, 50);
            assert_eq!(config.rate.per_seconds, 60);
            assert_eq!(config.burst, 10);
        },
        _ => panic!("Expected Override limiter policy"),
    }
}

#[test]
fn test_parse_route_timeouts() {
    let gateway_conf = r#"
routes {
    route "/api/stream/*" {
        backend = upstream("api")

        timeouts {
            connect = "600s"
            read    = "3600s"
            send    = "3600s"
        }
    }
}
"#;

    let config = parse_gateway_config(gateway_conf).expect("Failed to parse gateway config");
    let route = &config.routes[0];

    assert!(route.timeouts.is_some());
    let timeouts = route.timeouts.as_ref().unwrap();
    assert_eq!(timeouts.connect, Some(Duration::from_secs(600)));
    assert_eq!(timeouts.read, Some(Duration::from_secs(3600)));
    assert_eq!(timeouts.send, Some(Duration::from_secs(3600)));
}

#[test]
fn test_parse_route_streaming() {
    let gateway_conf = r#"
routes {
    route "/api/ws/*" {
        backend = upstream("api")

        streaming {
            buffering = false
            chunked   = false
        }
    }
}
"#;

    let config = parse_gateway_config(gateway_conf).expect("Failed to parse gateway config");
    let route = &config.routes[0];

    assert!(route.streaming.is_some());
    let streaming = route.streaming.as_ref().unwrap();
    assert!(!streaming.buffering);
    assert!(!streaming.chunked);
}

#[test]
fn test_parse_route_timeouts_and_streaming() {
    let gateway_conf = r#"
routes {
    route "/api/live/*" {
        backend = upstream("live")

        timeouts {
            connect = "30s"
            read    = "300s"
            send    = "300s"
        }

        streaming {
            buffering = false
            chunked   = true
        }
    }
}
"#;

    let config = parse_gateway_config(gateway_conf).expect("Failed to parse gateway config");
    let route = &config.routes[0];

    assert!(route.timeouts.is_some());
    let timeouts = route.timeouts.as_ref().unwrap();
    assert_eq!(timeouts.connect, Some(Duration::from_secs(30)));
    assert_eq!(timeouts.read, Some(Duration::from_secs(300)));
    assert_eq!(timeouts.send, Some(Duration::from_secs(300)));

    assert!(route.streaming.is_some());
    let streaming = route.streaming.as_ref().unwrap();
    assert!(!streaming.buffering);
    assert!(streaming.chunked);
}

#[test]
fn test_parse_route_timeouts_partial() {
    let gateway_conf = r#"
routes {
    route "/api/connect-only/*" {
        backend = upstream("api")

        timeouts {
            connect = "5s"
        }
    }
}
"#;

    let config = parse_gateway_config(gateway_conf).expect("Failed to parse gateway config");
    let route = &config.routes[0];

    assert!(route.timeouts.is_some());
    let timeouts = route.timeouts.as_ref().unwrap();
    assert_eq!(timeouts.connect, Some(Duration::from_secs(5)));
    assert!(timeouts.read.is_none());
    assert!(timeouts.send.is_none());
}

#[test]
fn test_parse_upstream_server_protocol_websocket() {
    let gateway_conf = r#"
upstreams {
    upstream "ws-cluster" {
        servers = [
            { endpoint = "10.0.1.10:8080", protocol = "websocket" },
            { endpoint = "10.0.1.11:8081", protocol = "http1" },
        ]
        load_balance = "round_robin"
    }
}
"#;

    let config = parse_gateway_config(gateway_conf).expect("Failed to parse gateway config");
    let upstream = &config.upstreams[0];

    assert_eq!(upstream.servers.len(), 2);

    match &upstream.servers[0].protocol {
        NetworkProtocol::Http1 { allow_websocket_upgrade } => {
            assert!(*allow_websocket_upgrade, "websocket server should have allow_websocket_upgrade=true");
        },
        other => panic!("Expected Http1 with websocket, got {:?}", other),
    }

    match &upstream.servers[1].protocol {
        NetworkProtocol::Http1 { allow_websocket_upgrade } => {
            assert!(!allow_websocket_upgrade, "http1 server should have allow_websocket_upgrade=false");
        },
        other => panic!("Expected Http1 without websocket, got {:?}", other),
    }
}

#[test]
fn test_parse_upstream_server_protocol_grpc() {
    let gateway_conf = r#"
upstreams {
    upstream "grpc-cluster" {
        servers = [
            { endpoint = "10.0.2.10:50051", protocol = "grpc" },
            { endpoint = "10.0.2.11:50052", protocol = "http2" },
        ]
    }
}
"#;

    let config = parse_gateway_config(gateway_conf).expect("Failed to parse gateway config");
    let upstream = &config.upstreams[0];

    assert_eq!(upstream.servers.len(), 2);

    match &upstream.servers[0].protocol {
        NetworkProtocol::Http2 { mode } => {
            assert!(matches!(mode, Http2Mode::Grpc), "Expected gRPC mode, got {:?}", mode);
        },
        other => panic!("Expected Http2 with Grpc mode, got {:?}", other),
    }

    match &upstream.servers[1].protocol {
        NetworkProtocol::Http2 { mode } => {
            assert!(matches!(mode, Http2Mode::Standard), "Expected Standard mode, got {:?}", mode);
        },
        other => panic!("Expected Http2 with Standard mode, got {:?}", other),
    }
}

#[test]
fn test_parse_full_route_all_features() {
    let gateway_conf = r#"
upstreams {
    upstream "api" {
        servers = "localhost:8080"
    }
}

routes {
    route "/api/v2/*" {
        hosts   = ["api.example.me"]
        methods = ["GET", "POST", "PUT", "DELETE"]

        backend = upstream("api")

        policies {
            auth = "oauth-core"

            cors {
                allow_origin = ["*"]
                allow_methods = ["GET", "POST"]
            }
        }

        rewrite {
            "/api/*" -> "/$1"
        }

        headers {
            add = { X-Custom = "test" }
        }

        timeouts {
            connect = "10s"
            read    = "60s"
            send    = "30s"
        }

        streaming {
            buffering = false
            chunked   = true
        }
    }
}

policy auth "oauth-core" {
    issuer = "https://auth.example.me"
    client_id = "test"
    jwks_uri = "https://auth.example.me/.well-known/jwks.json"
}
"#;

    let config = parse_gateway_config(gateway_conf).expect("Failed to parse gateway config");

    assert_eq!(config.upstreams.len(), 1);
    assert_eq!(config.routes.len(), 1);

    let route = &config.routes[0];
    assert_eq!(route.path, "/api/v2/*");
    assert_eq!(route.hosts, vec!["api.example.me"]);
    for m in ["GET", "POST", "PUT", "DELETE"] {
        assert!(route.methods.iter().any(|x| x == m));
    }

    assert!(route.auth_policy.is_some());
    match route.auth_policy.as_ref().unwrap() {
        RouteAuthPolicy::Reference(name) => assert_eq!(name, "oauth-core"),
        _ => panic!("Expected Reference auth policy"),
    }
    assert!(route.cors_policy.is_some());
    match route.cors_policy.as_ref().unwrap() {
        RouteCorsPolicy::Local(cfg) => {
            assert_eq!(cfg.allow_origins, vec!["*"]);
        },
        _ => panic!("Expected Local cors policy"),
    }

    assert!(route.rewrite.is_some());
    let rewrite = route.rewrite.as_ref().unwrap();
    assert!(rewrite.rules.is_some());
    assert_eq!(rule(rewrite.rules.as_ref().unwrap(), "/api/*"), Some(&"/$1".to_string()));
    assert_eq!(rule(&rewrite.append_headers, "X-Custom"), Some(&"test".to_string()));

    assert!(route.timeouts.is_some());
    let timeouts = route.timeouts.as_ref().unwrap();
    assert_eq!(timeouts.connect, Some(Duration::from_secs(10)));
    assert_eq!(timeouts.read, Some(Duration::from_secs(60)));
    assert_eq!(timeouts.send, Some(Duration::from_secs(30)));

    assert!(route.streaming.is_some());
    let streaming = route.streaming.as_ref().unwrap();
    assert!(!streaming.buffering);
    assert!(streaming.chunked);
}

#[test]
fn gateway_file_static_backend_fields() {
    let conf = r#"
routes {
    route "/" {
        backend = static {
            root = "/var/www/public"
            listing = true
            dotfiles = false
            permissions = 0644
            disallow = [".git", ".env"]
        }
    }
}
"#;
    let config = parse_gateway_config(conf).unwrap();
    match &config.routes[0].backend {
        BackendTarget::Static(StaticUpstream::Local { path, permissions, listing, dotfiles, blacklist }) => {
            assert_eq!(path, "/var/www/public");
            assert_eq!(permissions.as_deref(), Some("0644"));
            assert!(*listing);
            assert!(!*dotfiles);
            assert_eq!(blacklist, &vec![".git".to_string(), ".env".to_string()]);
        },
        _ => panic!("expected a static backend"),
    }
}

#[test]
fn gateway_file_defaults() {
    let conf = r#"
listeners {
    listener "plain" {
    }
}
routes {
    route "/x" {
    }
}
upstreams {
    upstream "u" {
        servers = "h:1"
    }
}
"#;
    let config = parse_gateway_config(conf).unwrap();
    let l = &config.listeners[0];
    assert_eq!(l.listen, vec![""]);
    assert_eq!(l.transport, NetworkTransport::Tcp("127.0.0.1:80".to_string()));
    assert_eq!(l.protocols, vec![NetworkProtocol::Http1 { allow_websocket_upgrade: false }]);
    match &config.routes[0].backend {
        BackendTarget::Upstream(n) => assert_eq!(n, "default"),
        _ => panic!("expected the default upstream"),
    }
    assert_eq!(config.routes[0].priority, 1);
    assert!(config.routes[0].rewrite.is_none());
    assert!(matches!(config.upstreams[0].balance_strategy, BalanceStrategy::LeastConnections));
    assert!(config.policies.auth.is_none());
}

#[test]
fn gateway_file_errors() {
    let bad_protocol = "listeners {\n listener \"a\" {\n address = \"0.0.0.0:80\"\n protocols = [\"http9\"]\n }\n}\n";
    assert_eq!(
        parse_gateway_config(bad_protocol).unwrap_err(),
        "listener 'a': invalid protocol 'http9': expected http1, http2, websocket, or grpc"
    );
    let bad_port = "listeners {\n listener \"a\" {\n address = \"host:http\"\n }\n}\n";
    assert_eq!(parse_gateway_config(bad_port).unwrap_err(), "listener 'a': invalid address 'host:http': invalid port");
    let no_port = "listeners {\n listener \"a\" {\n address = \"localhost\"\n }\n}\n";
    assert_eq!(
        parse_gateway_config(no_port).unwrap_err(),
        "listener 'a': invalid address 'localhost': expected ip:port or unix:path"
    );
    let unknown_listener_entry = "listeners {\n listener \"a\" {\n colour = \"red\"\n }\n}\n";
    assert_eq!(parse_gateway_config(unknown_listener_entry).unwrap_err(), "unexpected entry in listener 'a'");
    let bad_balance = "upstreams {\n upstream \"u\" {\n load_balance = \"fastest\"\n }\n}\n";
    assert_eq!(
        parse_gateway_config(bad_balance).unwrap_err(),
        "upstream 'u': invalid load_balance 'fastest': expected round_robin, least_connections, ip_hash, or random"
    );
    let bad_server_key = "upstreams {\n upstream \"u\" {\n servers = { endpoint = \"h:1\", color = \"x\" }\n }\n}\n";
    assert_eq!(parse_gateway_config(bad_server_key).unwrap_err(), "unexpected key 'color' in server definition");
    let bad_server_protocol = "upstreams {\n upstream \"u\" {\n servers = { endpoint = \"h:1\", protocol = \"ftp\" }\n }\n}\n";
    assert_eq!(
        parse_gateway_config(bad_server_protocol).unwrap_err(),
        "server endpoint 'h:1': invalid protocol 'ftp': expected http1, http2, websocket, or grpc"
    );
    let bad_health = "upstreams {\n upstream \"u\" {\n health_check = { path = \"/\", every = 5s }\n }\n}\n";
    assert_eq!(parse_gateway_config(bad_health).unwrap_err(), "unexpected key 'every' in health_check block");
    let bad_backend = "routes {\n route \"/\" {\n backend = cdn(\"x\")\n }\n}\n";
    assert_eq!(parse_gateway_config(bad_backend).unwrap_err(), "Unknown backend type");
    let bad_static = "routes {\n route \"/\" {\n backend = static {\n index = true\n }\n }\n}\n";
    assert_eq!(parse_gateway_config(bad_static).unwrap_err(), "unexpected key in static backend");
    let bad_timeouts = "routes {\n route \"/\" {\n timeouts {\n idle = \"5s\"\n }\n }\n}\n";
    assert_eq!(parse_gateway_config(bad_timeouts).unwrap_err(), "unexpected key in timeouts block");
    let bad_streaming = "routes {\n route \"/\" {\n streaming {\n gzip = true\n }\n }\n}\n";
    assert_eq!(parse_gateway_config(bad_streaming).unwrap_err(), "unexpected key in streaming block");
    let bad_headers = "routes {\n route \"/\" {\n headers {\n drop = [\"x\"]\n }\n }\n}\n";
    assert_eq!(parse_gateway_config(bad_headers).unwrap_err(), "unexpected entry in headers block");
    let bad_kind = "policy firewall \"f\" {\n}\n";
    assert_eq!(parse_gateway_config(bad_kind).unwrap_err(), "unknown policy type 'firewall'");
    let bad_mode = "policy waf \"w\" {\n mode = \"loud\"\n}\n";
    assert_eq!(
        parse_gateway_config(bad_mode).unwrap_err(),
        "invalid waf mode 'loud': expected detection_only or blocking"
    );
    let bad_algorithm = "policy limiter \"l\" {\n algorithm = \"leaky\"\n}\n";
    assert_eq!(
        parse_gateway_config(bad_algorithm).unwrap_err(),
        "invalid limiter algorithm 'leaky': expected token_bucket or sliding_window"
    );
    let bad_auth = "policy auth \"a\" {\n tenant = \"x\"\n}\n";
    assert_eq!(parse_gateway_config(bad_auth).unwrap_err(), "unexpected entry in auth policy 'a'");
    let bad_cors = "policy cors \"c\" {\n origin = \"x\"\n}\n";
    assert_eq!(parse_gateway_config(bad_cors).unwrap_err(), "unexpected entry in cors policy 'c'");
    let bad_phase = "policy waf \"w\" {\n rules {\n rule \"r\" {\n phase = \"early\"\n }\n }\n}\n";
    assert_eq!(
        parse_gateway_config(bad_phase).unwrap_err(),
        "invalid phase 'early': expected request_headers, request_body, response_headers, or response_body"
    );
    let bad_condition = "policy waf \"w\" {\n rules {\n rule \"r\" {\n condition = regex\n }\n }\n}\n";
    assert_eq!(parse_gateway_config(bad_condition).unwrap_err(), "invalid condition 'regex': expected sql_token_match");
    let bad_action = "policy waf \"w\" {\n rules {\n rule \"r\" {\n action = \"drop\"\n }\n }\n}\n";
    assert_eq!(
        parse_gateway_config(bad_action).unwrap_err(),
        "invalid action 'drop': expected block, log, challenge, or allow"
    );
    let bad_rule_entry = "policy waf \"w\" {\n rules {\n rule \"r\" {\n weight = 1\n }\n }\n}\n";
    assert_eq!(parse_gateway_config(bad_rule_entry).unwrap_err(), "unexpected entry in rule 'r'");
    assert_eq!(parse_gateway_config("name = \"x").unwrap_err(), "unterminated string at character 7");
    assert_eq!(parse_gateway_config("listeners {").unwrap_err(), "syntax error");
}

#[test]
fn gateway_file_too_many_listeners() {
    let mut conf = String::from("listeners {\n");
    for i in 0..101 {
        conf.push_str(&format!(" listener \"l{}\" {{\n address = \"0.0.0.0:{}\"\n }}\n", i, 8000 + i));
    }
    conf.push_str("}\n");
    assert_eq!(parse_gateway_config(&conf).unwrap_err(), "Too many listeners: 101 (max: 100)");
}

#[test]
fn gateway_file_later_settings_win() {
    let conf = r#"
name = "first"
name = "second"
policy limiter "l" {
    burst = 1
}
policy limiter "l" {
    burst = 2
}
routes {
    route "/" {
        policies {
            waf = "strict"
            waf {
                enabled = false
            }
        }
        policies {
            limiter = "l"
        }
    }
}
"#;
    let config = parse_gateway_config(conf).unwrap();
    assert_eq!(config.name, "second");
    let limiters = config.policies.limiter.as_ref().unwrap();
    assert_eq!(limiters.len(), 1);
    assert_eq!(limiters[0].1.burst, 2);
    let route = &config.routes[0];
    match route.waf_policy.as_ref().unwrap() {
        RouteWafPolicy::Reference(n) => assert_eq!(n, "strict"),
        _ => panic!("a disabled firewall gives no policy"),
    }
    match route.limiter_policy.as_ref().unwrap() {
        RouteLimiterPolicy::Reference(n) => assert_eq!(n, "l"),
        _ => panic!("expected a reference"),
    }
}

#[test]
fn master_file_defaults_and_errors() {
    let m = parse_master_config("master \"m\" {\n includes = \"a\"\n includes = \"b\"\n}\n", 6).unwrap();
    assert_eq!(m.user, "www-data");
    assert_eq!(m.workers, 6);
    assert_eq!(m.pid, "/run/ophan.pid");
    assert_eq!(m.error_log, "/var/log/ophan/error.log");
    assert_eq!(m.includes, vec!["a", "b"]);
    assert_eq!(parse_master_config("master \"m\" {\n group = \"x\"\n}\n", 1).unwrap_err(), "unexpected entry in master block");
    assert_eq!(parse_master_config("name = \"x\"\n", 1).unwrap_err(), "expected a master block");
}

#[test]
fn policy_merge_all_and_resolve() {

    fn oauth(issuer: &str) -> OAuthConfig {
        OAuthConfig {
            issuer: issuer.to_string(),
            client_id: "id".to_string(),
            client_secret: None,
            scopes: vec![],
            sources: vec![],
            jwk_uri: "jwks".to_string(),
            refresh_token: None,
            excludes: vec!["/health".to_string()],
        }
    }

    let mut base = PolicyConfig::default();
    base.merge_all(PolicyConfig {
        auth: Some(vec![("a".to_string(), oauth("one")), ("b".to_string(), oauth("two"))]),
        cors: None,
        waf: None,
        limiter: None,
    });
    base.merge_all(PolicyConfig {
        auth: Some(vec![("a".to_string(), oauth("three"))]),
        cors: Some(vec![("c".to_string(), CorsConfig::default())]),
        waf: None,
        limiter: None,
    });
    let auth = base.auth.as_ref().unwrap();
    assert_eq!(auth.len(), 2);
    assert_eq!(auth[0].0, "a");
    assert_eq!(auth[0].1.issuer, "three");
    assert_eq!(auth[1].1.issuer, "two");
    assert_eq!(base.cors.as_ref().unwrap().len(), 1);
    assert!(base.limiter.is_none());

    assert_eq!(base.resolve_auth(&RouteAuthPolicy::Reference("b".to_string())).unwrap().issuer, "two");
    assert!(base.resolve_auth(&RouteAuthPolicy::Reference("zz".to_string())).is_none());
    let mut over = oauth("");
    over.client_id = "route-client".to_string();
    over.excludes = vec![];
    let merged = base
        .resolve_auth(&RouteAuthPolicy::Override { base: "a".to_string(), config: over })
        .unwrap();
    assert_eq!(merged.issuer, "three");
    assert_eq!(merged.client_id, "route-client");
    assert_eq!(merged.excludes, vec!["/health".to_string()]);
    assert_eq!(base.resolve_auth(&RouteAuthPolicy::Local(oauth("local"))).unwrap().issuer, "local");

    let mut cors_over = CorsConfig::default();
    cors_over.allow_credentials = true;
    cors_over.max_age = None;
    let c = base
        .resolve_cors(&RouteCorsPolicy::Override { base: "c".to_string(), config: cors_over })
        .unwrap();
    assert!(c.allow_credentials);
    assert_eq!(c.max_age, Some(600));
    assert!(base.resolve_limiter(&RouteLimiterPolicy::Reference("l".to_string())).is_none());
    let l = base.resolve_limiter(&RouteLimiterPolicy::Local(LimiterConfig::default())).unwrap();
    assert_eq!(l.burst, 15);
}

#[test]
fn parts_builders() {
    assert_eq!(NetworkTransport::tcp([10, 0, 0, 1], 8080), NetworkTransport::Tcp("10.0.0.1:8080".to_string()));
    assert_eq!(NetworkTransport::unix("/run/x.sock"), NetworkTransport::Uds("/run/x.sock".to_string()));
    assert_eq!(NetworkTransport::default(), NetworkTransport::Tcp("127.0.0.1:80".to_string()));
    let l = ListenerConfig::http("web", "0.0.0.0:80");
    assert_eq!(l.listen, vec!["0.0.0.0:80"]);
    assert!(matches!(l.security, SecurityConfig::Plaintext));
    let s = ListenerConfig::https(
        "tls",
        "0.0.0.0:443",
        SSLConfig { cert: "c.pem".to_string(), key: "k.pem".to_string(), client_ca: None },
    );
    match &s.security {
        SecurityConfig::Tls { certs, alpn_protocols, min_version } => {
            assert_eq!(certs.cert, "c.pem");
            assert_eq!(alpn_protocols, &vec!["h2".to_string(), "http/1.1".to_string()]);
            assert_eq!(*min_version, TlsVersion::Tls13);
        },
        _ => panic!("expected TLS"),
    }
    assert_eq!(s.protocols.len(), 2);
    let server = UpstreamServer::http("10.0.0.2:9000");
    assert_eq!(server.weight, 1);
    assert!(server.is_healthy);
    let u = UpstreamConfig::single("api", "10.0.0.2:9000");
    assert_eq!(u.servers.len(), 1);
    assert!(matches!(u.balance_strategy, BalanceStrategy::RoundRobin));
    let r = RoutesConfig::upstream("/api", "api");
    assert_eq!(r.methods.len(), 9);
    assert_eq!(r.priority, 1);
    let st = RoutesConfig::static_stream(
        "/",
        StaticUpstream::Local { path: "/srv".to_string(), permissions: None, listing: false, dotfiles: false, blacklist: vec![] },
    );
    assert_eq!(st.methods, vec!["GET"]);
    let g = GatewayConfig::new("gw");
    assert_eq!(g.name, "gw");
    assert!(g.listeners.is_empty() && g.routes.is_empty() && g.upstreams.is_empty());
}

#[test]
fn gateway_file_values() {
    assert_eq!(parse_duration_to_secs("1500ms"), 1);
    assert_eq!(parse_duration_to_secs("30s"), 30);
    assert_eq!(parse_duration_to_secs("2m"), 120);
    assert_eq!(parse_duration_to_secs("1h"), 3600);
    assert_eq!(parse_duration_to_secs("45"), 45);
    assert_eq!(parse_duration_to_secs("abc"), 0);
    assert_eq!(parse_size_to_bytes("2gb"), 2 * 1024 * 1024 * 1024);
    assert_eq!(parse_size_to_bytes("3kb"), 3072);
    assert_eq!(parse_size_to_bytes("10b"), 10);
    assert_eq!(parse_size_to_bytes("7"), 7);
    assert_eq!(parse_size_to_bytes("\"4mb\""), 0);
    let r = parse_rate(" 5/h ");
    assert_eq!((r.requests, r.per_seconds), (5, 3600));
    let r = parse_rate("x/d");
    assert_eq!((r.requests, r.per_seconds), (60, 86400));
    let r = parse_rate("7");
    assert_eq!((r.requests, r.per_seconds), (60, 60));
    assert_eq!(parse_transport("unix:/a.sock").unwrap(), NetworkTransport::Uds("/a.sock".to_string()));
    assert_eq!(parse_transport("h:65535").unwrap(), NetworkTransport::Tcp("h:65535".to_string()));
    assert_eq!(parse_transport("h:65536").unwrap_err(), "invalid address 'h:65536': invalid port");
    assert!(matches!(parse_balance_strategy("random"), Ok(BalanceStrategy::Random)));
}

#[test]
fn master_workers_number_or_parallelism() {
    let m = parse_master_config("master \"m\" {\n workers = \"12\"\n}\n", 3).unwrap();
    assert_eq!(m.workers, 12);
    let m = parse_master_config("master \"m\" {\n workers = \"auto\"\n}\n", 3).unwrap();
    assert_eq!(m.workers, 3);
    let m = parse_master_config("master \"m\" {\n workers = \"many\"\n}\n", 5).unwrap();
    assert_eq!(m.workers, 5);
}
