use std::time::Duration;

use ophan::config::dsl::blocks::{RawAuthMode, RawBackend, RawPolicy, RawRoute, RawRouteAction, RawTokenSource};
use ophan::config::dsl::parser::parse_raw_gateway;

#[test]
fn test_parse_minimal_gateway() {
    let input = r#"
name = "test-gw"
"#;
    let gw = parse_raw_gateway(input).unwrap();
    assert_eq!(gw.name, "test-gw");
    assert!(gw.listeners.is_empty());
    assert!(gw.upstreams.is_empty());
    assert!(gw.routes.is_empty());
    assert!(gw.policies.is_empty());
}

#[test]
fn test_parse_listener_minimal() {
    let input = r#"
name = "test-gw"
listeners {
    listener "http" {
        address = ":8080"
    }
}
"#;
    let gw = parse_raw_gateway(input).unwrap();
    assert_eq!(gw.listeners.len(), 1);
    let l = &gw.listeners[0];
    assert_eq!(l.name, "http");
    assert_eq!(l.address, ":8080");
    assert!(l.protocols.is_empty());
    assert!(l.tls.is_none());
}

#[test]
fn test_parse_listener_full() {
    let input = r#"
name = "test-gw"
listeners {
    listener "https" {
        address = "0.0.0.0:443"
        protocols = ["http1", "http2"]

        ssl {
            cert = "/etc/certs/public.pem"
            key = "/etc/certs/private.key"
            versions = ["TLS1.2", "TLS1.3"]
            client_auth = "optional"
            client_ca = "/etc/certs/ca.pem"
            ciphers = ["TLS_AES_256_GCM_SHA384"]
        }

        network_policy {
            allowed_ip_ranges = ["10.0.0.0/8"]
            blocked_ip_ranges = ["192.168.1.0/24"]
            real_ip_header = "X-Forwarded-For"
            proxy_allowed_ips = ["173.245.48.0/20"]
            policy = "degrade"
        }

        limits {
            connections = 100000
            request_size = 10mb
        }

        timeouts {
            idle = 60s
            keepalive = 30s
        }
    }
}
"#;
    let gw = parse_raw_gateway(input).unwrap();
    let l = &gw.listeners[0];
    assert_eq!(l.name, "https");
    assert_eq!(l.address, "0.0.0.0:443");
    assert_eq!(l.protocols, vec!["http1", "http2"]);

    let tls = l.tls.as_ref().unwrap();
    assert_eq!(tls.cert, "/etc/certs/public.pem");
    assert_eq!(tls.key, "/etc/certs/private.key");
    assert_eq!(tls.versions, vec!["TLS1.2", "TLS1.3"]);
    assert_eq!(tls.client_auth, Some("optional"));
    assert_eq!(tls.client_ca, Some("/etc/certs/ca.pem"));
    assert_eq!(tls.ciphers, vec!["TLS_AES_256_GCM_SHA384"]);

    let np = l.network_policy.as_ref().unwrap();
    assert_eq!(np.allowed_ip_ranges, vec!["10.0.0.0/8"]);
    assert_eq!(np.blocked_ip_ranges, vec!["192.168.1.0/24"]);
    assert_eq!(np.real_ip_header, Some("X-Forwarded-For"));
    assert_eq!(np.proxy_allowed_ips, Some(vec!["173.245.48.0/20"]));

    let limits = l.limits.as_ref().unwrap();
    assert_eq!(limits.connections, Some(100000));

    let timeouts = l.timeouts.as_ref().unwrap();
    assert!(timeouts.idle.is_some());
    assert!(timeouts.keepalive.is_some());
}

#[test]
fn test_parse_upstream_minimal() {
    let input = r#"
name = "test-gw"
upstreams {
    upstream "api" {
        static_servers = ["127.0.0.1:8080"]
    }
}
"#;
    let gw = parse_raw_gateway(input).unwrap();
    assert_eq!(gw.upstreams.len(), 1);
    let u = &gw.upstreams[0];
    assert_eq!(u.name, "api");
    assert_eq!(u.static_servers.len(), 1);
    assert_eq!(u.static_servers[0].endpoint, "127.0.0.1:8080");
}

#[test]
fn test_parse_upstream_with_objects() {
    let input = r#"
name = "test-gw"
upstreams {
    upstream "api" {
        balance_strategy = "round_robin"
        static_servers = [
            "api-1:8080",
            { endpoint = "api-2:8080", weight = 50 }
        ]
        health_check = {
            path = "/health",
            interval = "10s",
            timeout = "2s",
            healthy_threshold = 2,
            unhealthy_threshold = 3
        }
    }
}
"#;
    let gw = parse_raw_gateway(input).unwrap();
    let u = &gw.upstreams[0];
    assert_eq!(u.name, "api");
    assert_eq!(u.balance_strategy, Some("round_robin"));
    assert_eq!(u.static_servers.len(), 2);
    assert_eq!(u.static_servers[0].endpoint, "api-1:8080");
    assert_eq!(u.static_servers[1].endpoint, "api-2:8080");
    assert_eq!(u.static_servers[1].weight, 50);
    let hc = u.health_check.as_ref().unwrap();
    assert_eq!(hc.path, Some("/health"));
    assert!(hc.interval.is_some());
    assert!(hc.timeout.is_some());
}

#[test]
fn test_parse_route_minimal() {
    let input = r#"
name = "test-gw"
routes {
    path "/api/*" {
        backend = upstream("api")
    }
}
"#;
    let gw = parse_raw_gateway(input).unwrap();
    assert_eq!(gw.routes.len(), 1);
    match &gw.routes[0] {
        RawRoute::Path(p) => {
            assert_eq!(p.path, "/api/*");
            assert!(matches!(p.backend, RawBackend::Upstream("api")));
        },
        _ => panic!("expected Path route"),
    }
}

#[test]
fn test_parse_route_full() {
    let input = r#"
name = "test-gw"
upstreams {
    upstream "api" {
        static_servers = ["127.0.0.1:8080"]
    }
}
routes {
    path "/api/*" {
        hosts = ["api.example.me"]
        methods = ["GET", "POST"]

        backend = upstream("api")

        timeouts {
            connect = "5s"
            read = "30s"
            send = "30s"
        }

        streaming {
            buffering = false
            chunked = true
        }

        rewrite {
            strip_prefix = "/api"
            trailing_slash = "ensure"
        }

        inbound_headers {
            set = { "X-Client-Layer" = "edge" }
            remove = ["X-Bad-Header"]
        }

        outbound_headers {
            set = { "Cache-Control" = "no-store" }
            remove = ["Server", "X-Powered-By"]
        }
    }
}
"#;
    let gw = parse_raw_gateway(input).unwrap();
    match &gw.routes[0] {
        RawRoute::Path(p) => {
            assert_eq!(p.path, "/api/*");
            assert_eq!(p.hosts, vec!["api.example.me"]);
            assert_eq!(p.methods, vec!["GET", "POST"]);

            let to = p.timeouts.as_ref().unwrap();
            assert!(to.connect.is_some());
            assert!(to.read.is_some());
            assert!(to.send.is_some());

            let st = p.streaming.as_ref().unwrap();
            assert_eq!(st.buffering, Some(false));
            assert_eq!(st.chunked, Some(true));

            let rw = p.rewrite.as_ref().unwrap();
            assert_eq!(rw.strip_prefix, Some("/api"));
            assert_eq!(rw.trailing_slash, Some("ensure"));

            assert!(p.inbound_headers.is_some());
            assert!(p.outbound_headers.is_some());
        },
        _ => panic!("expected Path route"),
    }
}

#[test]
fn test_parse_route_static_backend() {
    let input = r#"
name = "test-gw"
routes {
    path "/" {
        backend = static("/var/www/public")
        static_config {
            listing = false
            dotfiles = false
            index = true
            symlinks = false
            exclude_paths = [".git/*", ".env"]
        }
    }
}
"#;
    let gw = parse_raw_gateway(input).unwrap();
    match &gw.routes[0] {
        RawRoute::Path(p) => match &p.backend {
            RawBackend::Static(sb) => {
                assert_eq!(sb.root, "/var/www/public");
                assert_eq!(sb.flags.listing, Some(false));
                assert_eq!(sb.flags.dotfiles, Some(false));
                assert_eq!(sb.flags.index, Some(true));
                assert_eq!(sb.flags.symlinks, Some(false));
                assert_eq!(sb.exclude_paths, vec![".git/*", ".env"]);
            },
            _ => panic!("expected Static backend"),
        },
        _ => panic!("expected Path route"),
    }
}

#[test]
fn test_parse_auth_policy_minimal() {
    let input = r#"
name = "test-gw"
policy auth "default" {
    issuer = "https://auth.example.com"
    audience = "api"
}
"#;
    let gw = parse_raw_gateway(input).unwrap();
    assert_eq!(gw.policies.len(), 1);
    match &gw.policies[0] {
        RawPolicy::Auth { name, config } => {
            assert_eq!(*name, "default");
            assert_eq!(config.issuer, Some("https://auth.example.com"));
            assert_eq!(config.audience, Some("api"));
        },
        _ => panic!("expected Auth policy"),
    }
}

#[test]
fn test_parse_auth_policy_full() {
    let input = r#"
name = "test-gw"
policy auth "default" {
    issuer = "https://auth.example.com"
    audience = "api"
    client_id = "edge"
    dpop_proof = "required"
    exclude_paths = ["src/*"]

    mode "jwks" {
        uri = "http://localhost:4040/v1/oauth/.well-known/jwks.json"
        ttl = 1h
        algorithms = ["RS256", "ES256"]
    }

    sources {
        header {
            name = "Authorization"
            prefix = "Bearer "
        }
        cookie {
            name = "access_token"
        }
    }
}
"#;
    let gw = parse_raw_gateway(input).unwrap();
    match &gw.policies[0] {
        RawPolicy::Auth { name, config } => {
            assert_eq!(*name, "default");
            assert_eq!(config.issuer, Some("https://auth.example.com"));
            assert_eq!(config.audience, Some("api"));
            assert_eq!(config.client_id, Some("edge"));
            assert_eq!(config.dpop_proof, Some("required"));
            assert_eq!(config.exclude_paths, vec!["src/*"]);

            let mode = config.mode.as_ref().unwrap();
            match mode {
                RawAuthMode::Jwks { uri, ttl, algorithms } => {
                    assert_eq!(*uri, Some("http://localhost:4040/v1/oauth/.well-known/jwks.json"));
                    assert!(ttl.is_some());
                    assert_eq!(*algorithms, vec!["RS256", "ES256"]);
                },
                _ => panic!("expected JWKS mode"),
            }

            let sources = config.sources.as_ref().unwrap();
            assert_eq!(sources.len(), 2);
        },
        _ => panic!("expected Auth policy"),
    }
}

#[test]
fn test_parse_waf_policy() {
    let input = r#"
name = "test-gw"
policy waf "default" {
    mode = "block"
    ruleset = "owasp"
    max_body_size = 10mb
    anomaly_threshold = 5
    exclude_paths = ["/health", "/metrics"]

    rules {
        rule "block_sqli" {
            phase = "request_headers"
            when = "request.method IN (GET, POST)"
            action = "block"
            score = 5
            message = "Possible SQL injection"
        }
    }
}
"#;
    let gw = parse_raw_gateway(input).unwrap();
    match &gw.policies[0] {
        RawPolicy::Waf { name, config } => {
            assert_eq!(*name, "default");
            assert_eq!(config.mode, Some("block"));
            assert_eq!(config.ruleset, Some("owasp"));
            assert!(config.max_body_size.is_some());
            assert_eq!(config.anomaly_threshold, Some(5));
            assert_eq!(config.exclude_paths, vec!["/health", "/metrics"]);
            assert_eq!(config.rules.len(), 1);
            assert_eq!(config.rules[0].name, "block_sqli");
            assert_eq!(config.rules[0].phase, "request_headers");
            assert_eq!(config.rules[0].when, "request.method IN (GET, POST)");
            assert_eq!(config.rules[0].action, "block");
            assert_eq!(config.rules[0].score, Some(5));
            assert_eq!(config.rules[0].message, Some("Possible SQL injection"));
        },
        _ => panic!("expected Waf policy"),
    }
}

#[test]
fn test_parse_cors_policy() {
    let input = r#"
name = "test-gw"
policy cors "default" {
    allow_origins = ["https://example.com", "https://app.example.com"]
    allow_methods = ["GET", "POST", "OPTIONS"]
    allow_headers = ["Authorization", "X-Request-Id"]
    expose_headers = ["X-Request-Id"]
    allow_credentials = true
    max_age = "2h"
    exclude_paths = ["/health"]
}
"#;
    let gw = parse_raw_gateway(input).unwrap();
    match &gw.policies[0] {
        RawPolicy::Cors { name, config } => {
            assert_eq!(*name, "default");
            assert_eq!(config.allow_origins, vec!["https://example.com", "https://app.example.com"]);
            assert_eq!(config.allow_methods, vec!["GET", "POST", "OPTIONS"]);
            assert_eq!(config.allow_headers, vec!["Authorization", "X-Request-Id"]);
            assert_eq!(config.expose_headers, vec!["X-Request-Id"]);
            assert_eq!(config.allow_credentials, Some(true));
            assert!(config.max_age.is_some());
            assert_eq!(config.exclude_paths, vec!["/health"]);
        },
        _ => panic!("expected Cors policy"),
    }
}

#[test]
fn test_parse_limiter_policy() {
    let input = r#"
name = "test-gw"
policy limiter "default" {
    rate = "100/s"
    burst = 50
    strategy = "sliding_window"
    identifier = "ip"
    exclude_paths = ["/health"]
}
"#;
    let gw = parse_raw_gateway(input).unwrap();
    match &gw.policies[0] {
        RawPolicy::Limiter { name, config } => {
            assert_eq!(*name, "default");
            assert_eq!(config.rate, Some((100, Duration::from_secs(1))));
            assert_eq!(config.burst, Some(50));
            assert_eq!(config.strategy, Some("sliding_window"));
            assert_eq!(config.identifier, Some("ip"));
            assert_eq!(config.exclude_paths, vec!["/health"]);
        },
        _ => panic!("expected Limiter policy"),
    }
}

#[test]
fn test_parse_helmet_policy() {
    let input = r#"
name = "test-gw"
policy helmet "web-strict" {
    target = "web"
    level = "strict"
}
"#;
    let gw = parse_raw_gateway(input).unwrap();
    match &gw.policies[0] {
        RawPolicy::Helmet { name, config } => {
            assert_eq!(*name, "web-strict");
            assert_eq!(config.target, Some("web"));
            assert_eq!(config.level, Some("strict"));
        },
        _ => panic!("expected Helmet policy"),
    }
}

#[test]
fn test_parse_route_policy_direct() {
    let input = r#"
name = "test-gw"
policy auth "oauth" {
    issuer = "https://auth.example.com"
}
routes {
    path "/api/*" {
        backend = upstream("api")
        policies {
            auth = "oauth"
        }
    }
}
"#;
    let gw = parse_raw_gateway(input).unwrap();
    match &gw.routes[0] {
        RawRoute::Path(p) => {
            let policies = p.policies.as_ref().unwrap();
            assert!(policies.auth.is_some());
            assert!(policies.waf.is_none());
            assert!(policies.cors.is_none());
            assert!(policies.limiter.is_none());
            assert!(policies.helmet.is_none());
            match policies.auth.as_ref().unwrap() {
                RawRouteAction::Ref(name) => assert_eq!(*name, "oauth"),
                _ => panic!("expected Ref"),
            }
        },
        _ => panic!("expected Path route"),
    }
}

#[test]
fn test_parse_route_policy_extends() {
    let input = r#"
name = "test-gw"
policy cors "base-cors" {
    allow_origins = ["https://example.com"]
}
routes {
    path "/api/*" {
        backend = upstream("api")
        policies {
            cors extends "base-cors" {
                max_age = "4h"
            }
        }
    }
}
"#;
    let gw = parse_raw_gateway(input).unwrap();
    match &gw.routes[0] {
        RawRoute::Path(p) => {
            let policies = p.policies.as_ref().unwrap();
            match policies.cors.as_ref().unwrap() {
                RawRouteAction::Extends { base, overrides } => {
                    assert_eq!(*base, "base-cors");
                    assert_eq!(overrides.max_age, Some(Duration::from_secs(14400)));
                },
                _ => panic!("expected Extends"),
            }
        },
        _ => panic!("expected Path route"),
    }
}

#[test]
fn test_parse_route_policy_local_block() {
    let input = r#"
name = "test-gw"
routes {
    path "/api/*" {
        backend = upstream("api")
        policies {
            limiter {
                rate = "50/s"
                burst = 25
            }
        }
    }
}
"#;
    let gw = parse_raw_gateway(input).unwrap();
    match &gw.routes[0] {
        RawRoute::Path(p) => {
            let policies = p.policies.as_ref().unwrap();
            match policies.limiter.as_ref().unwrap() {
                RawRouteAction::Inline(config) => {
                    assert_eq!(config.rate, Some((50, Duration::from_secs(1))));
                    assert_eq!(config.burst, Some(25));
                },
                _ => panic!("expected Inline"),
            }
        },
        _ => panic!("expected Path route"),
    }
}

#[test]
fn test_parse_auth_with_refresh_inject() {
    let input = r#"
name = "test-gw"
policy auth "default" {
    issuer = "https://auth.example.com"

    refresh {
        enabled = true
        endpoint = "http://localhost:4040/v1/oauth/token"

        sources {
            cookie {
                name = "refresh_token"
            }
        }
        inject {
            access_token {
                header {
                    name = "X-Access-Token"
                }
                cookie {
                    name = "op_token"
                    path = "/"
                    http_only = true
                    secure = true
                    same_site = "Lax"
                }
            }
            refresh_token {
                cookie {
                    name = "op_refresh"
                    path = "/"
                    http_only = true
                    secure = true
                }
            }
        }
    }
}
"#;
    let gw = parse_raw_gateway(input).unwrap();
    match &gw.policies[0] {
        RawPolicy::Auth { config, .. } => {
            let refresh = config.refresh.as_ref().unwrap();
            assert_eq!(refresh.enabled, Some(true));
            assert_eq!(refresh.endpoint, Some("http://localhost:4040/v1/oauth/token"));
            assert!(refresh.sources.is_some());
            let inject = refresh.inject.as_ref().unwrap();
            assert_eq!(inject.access_token.len(), 2);
            assert_eq!(inject.refresh_token.len(), 1);
        },
        _ => panic!("expected Auth policy"),
    }
}

#[test]
fn test_parse_full_gateway() {
    let input = r#"
name = "full-gateway"

listeners {
    listener "https" {
        address = "0.0.0.0:443"
        protocols = ["http1", "http2"]
        ssl {
            cert = "/etc/certs/public.pem"
            key = "/etc/certs/private.key"
        }
    }
}

upstreams {
    upstream "api" {
        balance_strategy = "round_robin"
        static_servers = ["api-1:8080", "api-2:8080"]
    }
}

policy auth "oauth-default" {
    issuer = "https://auth.example.com"
    audience = "api"
}

policy cors "cors-default" {
    allow_origins = ["https://example.com"]
}

policy limiter "limiter-default" {
    rate = "100/s"
}

routes {
    path "/api/*" {
        hosts = ["api.example.me"]
        methods = ["GET", "POST"]
        backend = upstream("api")

        policies {
            auth = "oauth-default"
            cors extends "cors-default" {
                max_age = "4h"
            }
            limiter = "limiter-default"
        }

        timeouts {
            connect = "5s"
            read = "30s"
        }

        rewrite {
            strip_prefix = "/api"
        }
    }
}
"#;
    let gw = parse_raw_gateway(input).unwrap();
    assert_eq!(gw.name, "full-gateway");
    assert_eq!(gw.listeners.len(), 1);
    assert_eq!(gw.upstreams.len(), 1);
    assert_eq!(gw.policies.len(), 3);
    assert_eq!(gw.routes.len(), 1);

    match &gw.routes[0] {
        RawRoute::Path(p) => {
            assert_eq!(p.path, "/api/*");
            assert_eq!(p.hosts, vec!["api.example.me"]);
            assert_eq!(p.methods, vec!["GET", "POST"]);
            let policies = p.policies.as_ref().unwrap();
            assert!(policies.auth.is_some());
            assert!(policies.cors.is_some());
            assert!(policies.limiter.is_some());
            assert!(policies.waf.is_none());
            assert!(policies.helmet.is_none());
        },
        _ => panic!("expected Path route"),
    }
}

#[test]
fn test_parse_invalid_field_errors() {
    let input = r#"
name = "test"
listeners {
    listener "http" {
        address = ":8080"
        invalid_field = "bad"
    }
}
"#;
    let result = parse_raw_gateway(input);
    assert!(result.is_err());
}

#[test]
fn test_parse_network_policy_in_listener() {
    let input = r#"
name = "test-gw"
listeners {
    listener "https" {
        address = "0.0.0.0:443"
        network_policy {
            allowed_ip_ranges = ["10.0.0.0/8", "172.16.0.0/12"]
            blocked_ip_ranges = ["192.168.1.0/24"]
            real_ip_header = "X-Real-IP"
            proxy_allowed_ips = ["173.245.48.0/20"]
            policy = "degrade"
        }
    }
}
"#;
    let gw = parse_raw_gateway(input).unwrap();
    let l = &gw.listeners[0];
    let np = l.network_policy.as_ref().unwrap();
    assert_eq!(np.allowed_ip_ranges, vec!["10.0.0.0/8", "172.16.0.0/12"]);
    assert_eq!(np.blocked_ip_ranges, vec!["192.168.1.0/24"]);
    assert_eq!(np.real_ip_header, Some("X-Real-IP"));
    assert_eq!(np.proxy_allowed_ips, Some(vec!["173.245.48.0/20"]));
}

#[test]
fn parser_test_parse_multiple_routes() {
    let input = r#"
name = "test-gw"
upstreams {
    upstream "api" { static_servers = ["127.0.0.1:8080"] }
    upstream "web" { static_servers = ["127.0.0.1:3000"] }
}
routes {
    path "/api/*" { backend = upstream("api") }
    path "/web/*" { backend = upstream("web") }
    path "/static/*" { backend = static("/var/www") }
}
"#;
    let gw = parse_raw_gateway(input).unwrap();
    assert_eq!(gw.routes.len(), 3);
}

#[test]
fn test_docs_listener_tls_keyword() {
    let input = r#"
name = "test-gw"
listeners {
    listener "ingress-https" {
        address = ":443"
        protocols = ["https"]
        tls {
            cert = "/etc/certs/public.pem"
            key = "/etc/certs/private.key"
            versions = ["TLS1.2", "TLS1.3"]
            client_auth = "optional"
            client_ca = "/etc/certs/ca.pem"
        }
    }
}
"#;
    let gw = parse_raw_gateway(input).unwrap();
    let l = &gw.listeners[0];
    assert_eq!(l.name, "ingress-https");
    assert_eq!(l.address, ":443");
    let tls = l.tls.as_ref().unwrap();
    assert_eq!(tls.cert, "/etc/certs/public.pem");
    assert_eq!(tls.key, "/etc/certs/private.key");
    assert_eq!(tls.versions, vec!["TLS1.2", "TLS1.3"]);
    assert_eq!(tls.client_auth, Some("optional"));
    assert_eq!(tls.client_ca, Some("/etc/certs/ca.pem"));
}

#[test]
fn test_docs_static_backend_minimal() {
    let input = r#"
name = "test-gw"
routes {
    path "/static/*" {
        hosts = ["storage.domain.com"]
        backend = static("/var/www/public")
    }
}
"#;
    let gw = parse_raw_gateway(input).unwrap();
    match &gw.routes[0] {
        RawRoute::Path(p) => {
            assert_eq!(p.path, "/static/*");
            assert_eq!(p.hosts, vec!["storage.domain.com"]);
            match &p.backend {
                RawBackend::Static(sb) => {
                    assert_eq!(sb.root, "/var/www/public");
                },
                _ => panic!("expected Static backend"),
            }
        },
        _ => panic!("expected Path route"),
    }
}

#[test]
fn test_docs_static_config_at_route_level() {
    let input = r#"
name = "test-gw"
routes {
    path "/" {
        hosts = ["blob.domain.com"]
        backend = static("/var/www/public")
        static_config {
            listing = false
            dotfiles = false
            index = true
            symlinks = false
            exclude_paths = [".git/*", ".env"]
        }
    }
}
"#;
    let gw = parse_raw_gateway(input).unwrap();
    match &gw.routes[0] {
        RawRoute::Path(p) => match &p.backend {
            RawBackend::Static(sb) => {
                assert_eq!(sb.root, "/var/www/public");
                assert_eq!(sb.flags.listing, Some(false));
                assert_eq!(sb.flags.dotfiles, Some(false));
                assert_eq!(sb.flags.index, Some(true));
                assert_eq!(sb.flags.symlinks, Some(false));
                assert!(sb.exclude_paths.contains(&".git/*"));
                assert!(sb.exclude_paths.contains(&".env"));
            },
            _ => panic!("expected Static backend"),
        },
        _ => panic!("expected Path route"),
    }
}

#[test]
fn test_docs_rewrite_without_equals() {
    let input = r#"
name = "test-gw"
routes {
    path "/api/*" {
        backend = upstream("api")
        rewrite {
            strip_prefix "/api"
            strip_suffix ".json"
            trailing_slash "ensure"
        }
    }
}
upstreams {
    upstream "api" { static_servers = ["127.0.0.1:8080"] }
}
"#;
    let gw = parse_raw_gateway(input).unwrap();
    match &gw.routes[0] {
        RawRoute::Path(p) => {
            let rw = p.rewrite.as_ref().unwrap();
            assert_eq!(rw.strip_prefix, Some("/api"));
            assert_eq!(rw.strip_suffix, Some(".json"));
            assert_eq!(rw.trailing_slash, Some("ensure"));
        },
        _ => panic!("expected Path route"),
    }
}

#[test]
fn test_docs_rewrite_with_equals_still_works() {
    let input = r#"
name = "test-gw"
routes {
    path "/api/*" {
        backend = upstream("api")
        rewrite {
            strip_prefix = "/api"
            trailing_slash = "ensure"
        }
    }
}
upstreams {
    upstream "api" { static_servers = ["127.0.0.1:8080"] }
}
"#;
    let gw = parse_raw_gateway(input).unwrap();
    match &gw.routes[0] {
        RawRoute::Path(p) => {
            let rw = p.rewrite.as_ref().unwrap();
            assert_eq!(rw.strip_prefix, Some("/api"));
            assert_eq!(rw.trailing_slash, Some("ensure"));
        },
        _ => panic!("expected Path route"),
    }
}

#[test]
fn test_docs_upstream_server_address_key() {
    let input = r#"
name = "test-gw"
upstreams {
    upstream "api" {
        balance_strategy = "round_robin"
        static_servers = [
            "api-1:8080",
            { address = "api-2:8080", weight = 50 }
        ]
    }
}
"#;
    let gw = parse_raw_gateway(input).unwrap();
    let u = &gw.upstreams[0];
    assert_eq!(u.static_servers.len(), 2);
    assert_eq!(u.static_servers[0].endpoint, "api-1:8080");
    assert_eq!(u.static_servers[1].endpoint, "api-2:8080");
    assert_eq!(u.static_servers[1].weight, 50);
}

#[test]
fn test_docs_auth_full_with_refresh_inject() {
    let input = r#"
name = "test-gw"
policy auth "default" {
    issuer = "https://auth.example.com"
    audience = "api"
    client_id = "edge"
    dpop_proof = "required"

    mode "jwks" {
        uri = "http://localhost:4040/v1/oauth/.well-known/jwks.json"
        ttl = 1h
        algorithms = ["RS256", "ES256"]
    }

    sources {
        header {
            name = "Authorization"
            prefix = "Bearer "
        }
        cookie {
            name = "access_token"
        }
        query {
            name = "access_token"
        }
    }

    refresh {
        enabled = true
        endpoint = "http://localhost:4040/v1/oauth/token"
        sources {
            cookie { name = "refresh_token" }
        }
        inject {
            access_token {
                header { name = "X-Access-Token" }
                cookie {
                    name = "op_token"
                    path = "/"
                    http_only = true
                    secure = true
                    same_site = "Lax"
                }
            }
            refresh_token {
                cookie {
                    name = "op_refresh"
                    path = "/"
                    http_only = true
                    secure = true
                }
            }
        }
    }

    exclude_paths = ["src/*"]
}
"#;
    let gw = parse_raw_gateway(input).unwrap();
    match &gw.policies[0] {
        RawPolicy::Auth { name, config } => {
            assert_eq!(*name, "default");
            assert_eq!(config.issuer, Some("https://auth.example.com"));
            assert_eq!(config.audience, Some("api"));
            assert_eq!(config.client_id, Some("edge"));
            assert_eq!(config.dpop_proof, Some("required"));
            assert_eq!(config.exclude_paths, vec!["src/*"]);

            let mode = config.mode.as_ref().unwrap();
            match mode {
                RawAuthMode::Jwks { uri, ttl, algorithms } => {
                    assert_eq!(*uri, Some("http://localhost:4040/v1/oauth/.well-known/jwks.json"));
                    assert!(ttl.is_some());
                    assert_eq!(*algorithms, vec!["RS256", "ES256"]);
                },
                _ => panic!("expected JWKS mode"),
            }

            let sources = config.sources.as_ref().unwrap();
            assert_eq!(sources.len(), 3);
            match &sources[0] {
                RawTokenSource::Header { name, prefix } => {
                    assert_eq!(*name, "Authorization");
                    assert_eq!(*prefix, Some("Bearer "));
                },
                _ => panic!("expected Header source"),
            }
            match &sources[1] {
                RawTokenSource::Cookie { name, .. } => assert_eq!(*name, "access_token"),
                _ => panic!("expected Cookie source"),
            }
            match &sources[2] {
                RawTokenSource::QueryParam { name, .. } => assert_eq!(*name, "access_token"),
                _ => panic!("expected QueryParam source"),
            }

            let refresh = config.refresh.as_ref().unwrap();
            assert_eq!(refresh.enabled, Some(true));
            assert_eq!(refresh.endpoint, Some("http://localhost:4040/v1/oauth/token"));
            assert!(refresh.sources.is_some());
            let inject = refresh.inject.as_ref().unwrap();
            assert_eq!(inject.access_token.len(), 2);
            assert_eq!(inject.refresh_token.len(), 1);
        },
        _ => panic!("expected Auth policy"),
    }
}

#[test]
fn test_docs_waf_full_with_rules() {
    let input = r#"
name = "test-gw"
policy waf "default" {
    mode = "block"
    ruleset = "owasp"
    max_body_size = 10mb
    anomaly_threshold = 5
    exclude_paths = ["/health", "/metrics"]

    rules {
        rule "block_sqli" {
            phase = "request_headers"
            when = "request.method IN (GET, POST)"
            action = "block"
            score = 5
            message = "Possible SQL injection"
        }
    }
}
"#;
    let gw = parse_raw_gateway(input).unwrap();
    match &gw.policies[0] {
        RawPolicy::Waf { name, config } => {
            assert_eq!(*name, "default");
            assert_eq!(config.mode, Some("block"));
            assert_eq!(config.ruleset, Some("owasp"));
            assert!(config.max_body_size.is_some());
            assert_eq!(config.anomaly_threshold, Some(5));
            assert_eq!(config.exclude_paths, vec!["/health", "/metrics"]);
            assert_eq!(config.rules.len(), 1);
            assert_eq!(config.rules[0].name, "block_sqli");
            assert_eq!(config.rules[0].phase, "request_headers");
            assert_eq!(config.rules[0].action, "block");
            assert_eq!(config.rules[0].score, Some(5));
            assert_eq!(config.rules[0].message, Some("Possible SQL injection"));
        },
        _ => panic!("expected Waf policy"),
    }
}

#[test]
fn test_docs_listener_with_network_policy_full() {
    let input = r#"
name = "test-gw"
listeners {
    listener "public-https" {
        address = "0.0.0.0:443"
        protocols = ["http1", "http2", "grpc", "websocket"]
        tls {
            cert = "/etc/certs/public.pem"
            key = "/etc/certs/private.key"
            versions = ["TLS1.2", "TLS1.3"]
            ciphers = ["TLS_AES_256_GCM_SHA384"]
        }
        network_policy {
            allowed_ip_ranges = ["10.0.0.0/8"]
            blocked_ip_ranges = ["192.168.1.0/24"]
            real_ip_header = "X-Forwarded-For"
            proxy_allowed_ips = ["173.245.48.0/20"]
        }
        limits {
            connections = 100000
            request_size = 10mb
        }
        timeouts {
            idle = 60s
            keepalive = 30s
        }
    }
}
"#;
    let gw = parse_raw_gateway(input).unwrap();
    let l = &gw.listeners[0];
    assert_eq!(l.name, "public-https");
    assert_eq!(l.address, "0.0.0.0:443");
    assert_eq!(l.protocols, vec!["http1", "http2", "grpc", "websocket"]);
    let tls = l.tls.as_ref().unwrap();
    assert_eq!(tls.cert, "/etc/certs/public.pem");
    assert_eq!(tls.key, "/etc/certs/private.key");
    assert_eq!(tls.versions, vec!["TLS1.2", "TLS1.3"]);
    assert_eq!(tls.ciphers, vec!["TLS_AES_256_GCM_SHA384"]);
    let np = l.network_policy.as_ref().unwrap();
    assert_eq!(np.allowed_ip_ranges, vec!["10.0.0.0/8"]);
    assert_eq!(np.real_ip_header, Some("X-Forwarded-For"));
    let limits = l.limits.as_ref().unwrap();
    assert_eq!(limits.connections, Some(100000));
    let timeouts = l.timeouts.as_ref().unwrap();
    assert!(timeouts.idle.is_some());
    assert!(timeouts.keepalive.is_some());
}

#[test]
fn test_docs_route_full_with_all_blocks() {
    let input = r#"
name = "test-gw"
upstreams {
    upstream "api" { static_servers = ["127.0.0.1:8080"] }
}
routes {
    path "/api/*" {
        hosts = ["api.example.me", "payments.domain.com"]
        methods = ["GET", "POST", "PUT", "PATCH", "DELETE"]
        backend = upstream("api")
        timeouts {
            connect = "600s"
            read = "3600s"
            send = "3600s"
        }
        streaming {
            buffering = false
            chunked = false
        }
        rewrite {
            strip_prefix "/api"
            replace "/v1/*" -> "/v2/$1"
            trailing_slash "ensure"
        }
        inbound_headers {
            set = { "X-Client-Layer" = "edge" }
            remove = ["X-Bad-Header"]
            to_upstream {
                set = { "X-Forwarded-By" = "Ophan-Edge" }
                remove = ["Authorization"]
            }
        }
        outbound_headers {
            from_upstream {
                remove = ["X-Internal-Cluster-ID"]
            }
            set = { "Cache-Control" = "no-store" }
            remove = ["Server", "X-Powered-By"]
        }
        policies {
            auth extends "oauth-default" {
                sources {
                    cookie { name = "access_token" }
                }
            }
            cors extends "cors-default" {
                max_age = "4h"
            }
            limiter = "limiter-default"
        }
    }
}
policy auth "oauth-default" {
    issuer = "https://auth.example.com"
    audience = "api"
}
policy cors "cors-default" {
    allow_origins = ["https://example.com"]
}
policy limiter "limiter-default" {
    rate = "100/s"
}
"#;
    let gw = parse_raw_gateway(input).unwrap();
    assert_eq!(gw.listeners.len(), 0);
    assert_eq!(gw.upstreams.len(), 1);
    assert_eq!(gw.policies.len(), 3);
    assert_eq!(gw.routes.len(), 1);

    match &gw.routes[0] {
        RawRoute::Path(p) => {
            assert_eq!(p.path, "/api/*");
            assert_eq!(p.hosts, vec!["api.example.me", "payments.domain.com"]);
            assert_eq!(p.methods, vec!["GET", "POST", "PUT", "PATCH", "DELETE"]);

            let to = p.timeouts.as_ref().unwrap();
            assert!(to.connect.is_some());
            assert!(to.read.is_some());
            assert!(to.send.is_some());

            let st = p.streaming.as_ref().unwrap();
            assert_eq!(st.buffering, Some(false));
            assert_eq!(st.chunked, Some(false));

            let rw = p.rewrite.as_ref().unwrap();
            assert_eq!(rw.strip_prefix, Some("/api"));
            assert_eq!(rw.replaces, vec![("/v1/*", "/v2/$1")]);
            assert_eq!(rw.trailing_slash, Some("ensure"));

            assert!(p.inbound_headers.is_some());
            assert!(p.outbound_headers.is_some());

            let pol = p.policies.as_ref().unwrap();
            assert!(pol.auth.is_some());
            assert!(pol.cors.is_some());
            assert!(pol.limiter.is_some());
        },
        _ => panic!("expected Path route"),
    }
}

#[test]
fn test_error_server_unknown_key() {
    let input = r#"
name = "test-gw"
upstreams {
    upstream "api" {
        static_servers = [{ endpoint = "127.0.0.1:8080", typo_field = "bad" }]
    }
}
"#;
    let result = parse_raw_gateway(input);
    assert!(result.is_err());
    let err = result.unwrap_err();
    let msg = err.to_display_string();
    assert!(msg.contains("typo_field"), "error should mention unknown key: {}", msg);
}

#[test]
fn test_error_server_invalid_weight() {
    let input = r#"
name = "test-gw"
upstreams {
    upstream "api" {
        static_servers = [{ endpoint = "127.0.0.1:8080", weight = "not_a_number" }]
    }
}
"#;
    let result = parse_raw_gateway(input);
    assert!(result.is_err());
    let err = result.unwrap_err();
    let msg = err.to_display_string();
    assert!(msg.contains("weight"), "error should mention weight: {}", msg);
}

#[test]
fn test_error_static_config_on_upstream_backend() {
    let input = r#"
name = "test-gw"
routes {
    path "/api/*" {
        backend = upstream("api")
        static_config { listing = true }
    }
}
upstreams {
    upstream "api" { static_servers = ["127.0.0.1:8080"] }
}
"#;
    let result = parse_raw_gateway(input);
    assert!(result.is_err());
    let err = result.unwrap_err();
    let msg = err.to_display_string();
    assert!(msg.contains("static_config"), "error should mention static_config: {}", msg);
    assert!(msg.contains("static"), "error should mention static backend: {}", msg);
}

#[test]
fn test_error_health_check_unknown_key() {
    let input = r#"
name = "test-gw"
upstreams {
    upstream "api" {
        static_servers = ["127.0.0.1:8080"]
        health_check = { path = "/health", typo_key = "bad" }
    }
}
"#;
    let result = parse_raw_gateway(input);
    assert!(result.is_err());
    let err = result.unwrap_err();
    let msg = err.to_display_string();
    assert!(msg.contains("typo_key"), "error should mention unknown key: {}", msg);
}

#[test]
fn test_error_health_check_bad_threshold() {
    let input = r#"
name = "test-gw"
upstreams {
    upstream "api" {
        static_servers = ["127.0.0.1:8080"]
        health_check = { path = "/health", healthy_threshold = "not_a_number" }
    }
}
"#;
    let result = parse_raw_gateway(input);
    assert!(result.is_err());
    let err = result.unwrap_err();
    let msg = err.to_display_string();
    assert!(
        msg.contains("healthy_threshold"),
        "error should mention healthy_threshold: {}",
        msg
    );
}

#[test]
fn test_error_invalid_array_server_entry() {
    let input = r#"
name = "test-gw"
upstreams {
    upstream "api" {
        static_servers = [12345]
    }
}
"#;
    let result = parse_raw_gateway(input);
    assert!(result.is_err());
    let err = result.unwrap_err();
    let msg = err.to_display_string();
    assert!(
        msg.contains("invalid server entry"),
        "error should mention invalid entry: {}",
        msg
    );
}

#[test]
fn test_error_missing_route_backend() {
    let input = r#"
name = "test-gw"
routes {
    path "/api/*" {
        hosts = ["api.example.me"]
    }
}
"#;
    let result = parse_raw_gateway(input);
    assert!(result.is_ok());
    match &parse_raw_gateway(input).unwrap().routes[0] {
        RawRoute::Path(p) => {
            assert!(matches!(p.backend, RawBackend::Upstream("")));
        },
        _ => panic!("expected Path route"),
    }
}

#[test]
fn test_listener_ssl_all_fields() {
    let input = r#"
name = "test-gw"
listeners {
    listener "tls-listener" {
        address = "0.0.0.0:8443"
        protocols = ["http2", "grpc"]
        tls {
            cert = "/certs/server.pem"
            key = "/certs/server.key"
            client_ca = "/certs/ca.pem"
            client_auth = "require"
            versions = ["TLS1.3"]
            ciphers = ["TLS_AES_128_GCM_SHA256", "TLS_CHACHA20_POLY1305_SHA256"]
        }
    }
}
"#;
    let gw = parse_raw_gateway(input).unwrap();
    let l = &gw.listeners[0];
    assert_eq!(l.name, "tls-listener");
    assert_eq!(l.address, "0.0.0.0:8443");
    assert_eq!(l.protocols, vec!["http2", "grpc"]);
    let tls = l.tls.as_ref().unwrap();
    assert_eq!(tls.cert, "/certs/server.pem");
    assert_eq!(tls.key, "/certs/server.key");
    assert_eq!(tls.client_ca, Some("/certs/ca.pem"));
    assert_eq!(tls.client_auth, Some("require"));
    assert_eq!(tls.versions, vec!["TLS1.3"]);
    assert_eq!(tls.ciphers, vec!["TLS_AES_128_GCM_SHA256", "TLS_CHACHA20_POLY1305_SHA256"]);
}

#[test]
fn test_upstream_inline_server_all_fields() {
    let input = r#"
name = "test-gw"
upstreams {
    upstream "mixed" {
        static_servers = [
            "simple:8080",
            { address = "weighted:9090", weight = 100, protocol = "http2" }
        ]
    }
}
"#;
    let gw = parse_raw_gateway(input).unwrap();
    let u = &gw.upstreams[0];
    assert_eq!(u.static_servers.len(), 2);
    assert_eq!(u.static_servers[0].endpoint, "simple:8080");
    assert_eq!(u.static_servers[0].weight, 1);
    assert!(u.static_servers[0].protocol.is_none());
    assert_eq!(u.static_servers[1].endpoint, "weighted:9090");
    assert_eq!(u.static_servers[1].weight, 100);
    assert_eq!(u.static_servers[1].protocol, Some("http2"));
}

#[test]
fn test_static_config_partial_flags() {
    let input = r#"
name = "test-gw"
routes {
    path "/" {
        backend = static("/app")
        static_config {
            index = true
            exclude_paths = ["node_modules", ".cache"]
        }
    }
}
"#;
    let gw = parse_raw_gateway(input).unwrap();
    match &gw.routes[0] {
        RawRoute::Path(p) => match &p.backend {
            RawBackend::Static(sb) => {
                assert_eq!(sb.root, "/app");
                assert!(sb.flags.listing.is_none());
                assert!(sb.flags.dotfiles.is_none());
                assert_eq!(sb.flags.index, Some(true));
                assert!(sb.flags.symlinks.is_none());
                assert_eq!(sb.exclude_paths, vec!["node_modules", ".cache"]);
            },
            _ => panic!("expected Static"),
        },
        _ => panic!("expected Path route"),
    }
}

#[test]
fn test_rewrite_preserves_values_with_and_without_equals() {
    let with_eq = r#"
name = "gw"
routes {
    path "/api/*" {
        backend = upstream("api")
        rewrite {
            strip_prefix = "/api"
            strip_suffix = ".json"
            replace = "/v1/*" -> "/v2/$1"
            trailing_slash = "ensure"
        }
    }
}
upstreams { upstream "api" { static_servers = ["127.0.0.1:80"] } }
"#;
    let without_eq = r#"
name = "gw"
routes {
    path "/api/*" {
        backend = upstream("api")
        rewrite {
            strip_prefix "/api"
            strip_suffix ".json"
            replace "/v1/*" -> "/v2/$1"
            trailing_slash "ensure"
        }
    }
}
upstreams { upstream "api" { static_servers = ["127.0.0.1:80"] } }
"#;
    let gw1 = parse_raw_gateway(with_eq).unwrap();
    let gw2 = parse_raw_gateway(without_eq).unwrap();
    let rw1 = match &gw1.routes[0] {
        RawRoute::Path(p) => p.rewrite.as_ref().unwrap(),
        _ => panic!(),
    };
    let rw2 = match &gw2.routes[0] {
        RawRoute::Path(p) => p.rewrite.as_ref().unwrap(),
        _ => panic!(),
    };
    assert_eq!(rw1.strip_prefix, rw2.strip_prefix);
    assert_eq!(rw1.strip_suffix, rw2.strip_suffix);
    assert_eq!(rw1.replaces, rw2.replaces);
    assert_eq!(rw1.trailing_slash, rw2.trailing_slash);
}

#[test]
fn test_auth_sources_all_types() {
    let input = r#"
name = "test-gw"
policy auth "multi-source" {
    issuer = "https://auth.example.com"
    sources {
        header { name = "Authorization", prefix = "Bearer " }
        cookie { name = "session_token" }
        query { name = "token" }
    }
}
"#;
    let gw = parse_raw_gateway(input).unwrap();
    match &gw.policies[0] {
        RawPolicy::Auth { config, .. } => {
            let sources = config.sources.as_ref().unwrap();
            assert_eq!(sources.len(), 3);
            match &sources[0] {
                RawTokenSource::Header { name, prefix } => {
                    assert_eq!(*name, "Authorization");
                    assert_eq!(*prefix, Some("Bearer "));
                },
                _ => panic!("expected Header"),
            }
            match &sources[1] {
                RawTokenSource::Cookie { name, prefix } => {
                    assert_eq!(*name, "session_token");
                    assert!(prefix.is_none());
                },
                _ => panic!("expected Cookie"),
            }
            match &sources[2] {
                RawTokenSource::QueryParam { name, prefix } => {
                    assert_eq!(*name, "token");
                    assert!(prefix.is_none());
                },
                _ => panic!("expected QueryParam"),
            }
        },
        _ => panic!("expected Auth"),
    }
}

#[test]
fn test_inbound_outbound_headers_nested() {
    let input = r#"
name = "test-gw"
routes {
    path "/api/*" {
        backend = upstream("api")
        inbound_headers {
            set = { "X-Request-Id" = "generated-id" }
            remove = ["X-Internal"]
            to_upstream {
                set = { "X-Forwarded-By" = "edge" }
                remove = ["Cookie"]
            }
        }
        outbound_headers {
            set = { "X-Powered-By" = "none" }
            remove = ["Server", "X-Runtime"]
            from_upstream {
                remove = ["X-Debug"]
            }
        }
    }
}
upstreams { upstream "api" { static_servers = ["127.0.0.1:80"] } }
"#;
    let gw = parse_raw_gateway(input).unwrap();
    match &gw.routes[0] {
        RawRoute::Path(p) => {
            let ih = p.inbound_headers.as_ref().unwrap();
            assert_eq!(ih.opts.set.len(), 1);
            assert_eq!(ih.opts.set[0], ("X-Request-Id", "generated-id"));
            assert_eq!(ih.opts.remove, vec!["X-Internal"]);
            assert_eq!(ih.upstream.set.len(), 1);
            assert_eq!(ih.upstream.set[0], ("X-Forwarded-By", "edge"));
            assert_eq!(ih.upstream.remove, vec!["Cookie"]);

            let oh = p.outbound_headers.as_ref().unwrap();
            assert_eq!(oh.opts.set.len(), 1);
            assert_eq!(oh.opts.set[0], ("X-Powered-By", "none"));
            assert_eq!(oh.opts.remove, vec!["Server", "X-Runtime"]);
            assert_eq!(oh.upstream.remove, vec!["X-Debug"]);
        },
        _ => panic!("expected Path"),
    }
}

#[test]
fn test_health_check_all_fields() {
    let input = r#"
name = "test-gw"
upstreams {
    upstream "svc" {
        static_servers = ["10.0.0.1:8080"]
        health_check = {
            path = "/ready",
            interval = "15s",
            timeout = "3s",
            healthy_threshold = 3,
            unhealthy_threshold = 5
        }
    }
}
"#;
    let gw = parse_raw_gateway(input).unwrap();
    let hc = gw.upstreams[0].health_check.as_ref().unwrap();
    assert_eq!(hc.path, Some("/ready"));
    assert_eq!(hc.interval, Some(Duration::from_millis(15000)));
    assert_eq!(hc.timeout, Some(Duration::from_millis(3000)));
    assert_eq!(hc.healthy_threshold, Some(3));
    assert_eq!(hc.unhealthy_threshold, Some(5));
}

#[test]
fn test_cors_full_explicit_values() {
    let input = r#"
name = "test-gw"
policy cors "strict" {
    allow_origins = ["https://app.example.com", "https://admin.example.com"]
    allow_methods = ["GET", "POST", "OPTIONS"]
    allow_headers = ["Authorization", "Content-Type"]
    expose_headers = ["X-Request-Id"]
    allow_credentials = true
    max_age = "2h"
    exclude_paths = ["/health", "/metrics"]
}
"#;
    let gw = parse_raw_gateway(input).unwrap();
    match &gw.policies[0] {
        RawPolicy::Cors { config, .. } => {
            assert_eq!(
                config.allow_origins,
                vec!["https://app.example.com", "https://admin.example.com"]
            );
            assert_eq!(config.allow_methods, vec!["GET", "POST", "OPTIONS"]);
            assert_eq!(config.allow_headers, vec!["Authorization", "Content-Type"]);
            assert_eq!(config.expose_headers, vec!["X-Request-Id"]);
            assert_eq!(config.allow_credentials, Some(true));
            assert_eq!(config.max_age, Some(Duration::from_secs(7200)));
            assert_eq!(config.exclude_paths, vec!["/health", "/metrics"]);
        },
        _ => panic!("expected Cors"),
    }
}

#[test]
fn test_error_server_unknown_key_message() {
    let input = r#"
name = "test-gw"
upstreams {
    upstream "api" {
        static_servers = [{ endpoint = "1.2.3.4:80", bad_key = "value" }]
    }
}
"#;
    let err = parse_raw_gateway(input).unwrap_err();
    let msg = err.to_display_string();
    assert!(msg.contains("bad_key"), "should mention unknown key: {}", msg);
    assert!(msg.contains("server"), "should mention context: {}", msg);
}

#[test]
fn test_error_static_config_on_upstream_message() {
    let input = r#"
name = "test-gw"
routes {
    path "/api/*" {
        backend = upstream("api")
        static_config { listing = true }
    }
}
upstreams { upstream "api" { static_servers = ["127.0.0.1:80"] } }
"#;
    let err = parse_raw_gateway(input).unwrap_err();
    let msg = err.to_display_string();
    assert!(msg.contains("static_config"), "should mention static_config: {}", msg);
    assert!(msg.contains("static backend"), "should mention static backend: {}", msg);
    assert!(msg.contains("/api/*"), "should mention route path: {}", msg);
}

#[test]
fn test_error_invalid_duration_message() {
    let input = r#"
name = "test-gw"
routes {
    path "/api/*" {
        backend = upstream("api")
        timeouts { connect = "bad_duration" }
    }
}
upstreams { upstream "api" { static_servers = ["127.0.0.1:80"] } }
"#;
    let err = parse_raw_gateway(input).unwrap_err();
    let msg = err.to_display_string();
    assert!(msg.contains("bad_duration"), "should mention bad value: {}", msg);
}

#[test]
fn test_error_health_check_bad_threshold_message() {
    let input = r#"
name = "test-gw"
upstreams {
    upstream "api" {
        static_servers = ["127.0.0.1:80"]
        health_check = { path = "/health", healthy_threshold = "abc" }
    }
}
"#;
    let err = parse_raw_gateway(input).unwrap_err();
    let msg = err.to_display_string();
    assert!(msg.contains("healthy_threshold"), "should mention field: {}", msg);
    assert!(msg.contains("abc"), "should mention bad value: {}", msg);
}

#[test]
fn test_error_invalid_weight_message() {
    let input = r#"
name = "test-gw"
upstreams {
    upstream "api" {
        static_servers = [{ endpoint = "1.2.3.4:80", weight = "xyz" }]
    }
}
"#;
    let err = parse_raw_gateway(input).unwrap_err();
    let msg = err.to_display_string();
    assert!(msg.contains("weight"), "should mention weight: {}", msg);
    assert!(msg.contains("xyz"), "should mention bad value: {}", msg);
}

#[test]
fn test_error_invalid_array_entry_message() {
    let input = r#"
name = "test-gw"
upstreams {
    upstream "api" {
        static_servers = [true]
    }
}
"#;
    let err = parse_raw_gateway(input).unwrap_err();
    let msg = err.to_display_string();
    assert!(msg.contains("invalid server entry"), "should mention invalid entry: {}", msg);
}
