use ophan::config::dsl::files::ConfigFileTracker;
use ophan::config::dsl_parser::{parse_gateway_config, parse_master_config};
use ophan::config::parse::OphanConfig;

const MASTER: &str = r#"
master "ophan-01" {
    includes = "/etc/ophan/gateways/*.conf"
}
"#;

const FIRST: &str = r#"
name = "first"

policy auth "shared" {
    issuer = "https://first.example"
}

policy auth "only-first" {
    issuer = "https://only.example"
}

upstreams {
    upstream "api" {
        servers = "10.0.0.1:80"
    }
    upstream "web" {
        servers = "10.0.0.2:80"
    }
}

routes {
    route "/a/*" {
        backend = upstream("api")
    }
    route "/api/v1/*" {
        backend = upstream("api")
    }
}
"#;

const SECOND: &str = r#"
name = "second"

policy auth "shared" {
    issuer = "https://second.example"
}

upstreams {
    upstream "api" {
        servers = "10.0.1.1:80"
    }
}

routes {
    route "/bb" {
        backend = upstream("api")
    }
    route "/é" {
        backend = upstream("api")
    }
}
"#;

fn assembled() -> OphanConfig {
    let master = parse_master_config(MASTER, 4).expect("master");
    let gateways = vec![parse_gateway_config(FIRST).expect("first"), parse_gateway_config(SECOND).expect("second")];
    let trackers = vec![
        ConfigFileTracker::new("/etc/ophan/gateways/a.conf".to_string(), 1),
        ConfigFileTracker::new("/etc/ophan/gateways/b.conf".to_string(), 2),
    ];
    OphanConfig::assemble(master, gateways, ConfigFileTracker::new("/etc/ophan/master.conf".to_string(), 0), trackers)
}

#[test]
fn assemble_keeps_master_gateways_and_trackers() {
    let c = assembled();
    assert_eq!(c.master.name, "ophan-01");
    assert_eq!(c.gateways.len(), 2);
    assert_eq!(c.gateways[0].name, "first");
    assert_eq!(c.gateways[1].name, "second");
    assert_eq!(c.master_tracker.path, "/etc/ophan/master.conf");
    assert_eq!(c.gateway_trackers.len(), 2);
    assert_eq!(c.gateway_trackers[1].last_mtime, 2);
}

#[test]
fn assemble_lists_every_route_and_upstream_in_gateway_order() {
    let c = assembled();
    assert_eq!(c.routes, vec![(0, 0), (0, 1), (1, 0), (1, 1)]);
    assert_eq!(c.upstreams, vec![(0, 0), (0, 1), (1, 0)]);
    assert!(c.listeners.is_empty());
}

#[test]
fn assemble_indexes_upstreams_later_name_wins() {
    let c = assembled();
    assert_eq!(c.upstreams_index.len(), 2);
    assert_eq!(c.upstreams_index[0], ("api".to_string(), (1, 0)));
    assert_eq!(c.upstreams_index[1], ("web".to_string(), (0, 1)));
    let (g, i) = c.upstreams_index[0].1;
    assert_eq!(c.gateways[g].upstreams[i].servers[0].address, "10.0.1.1:80");
}

#[test]
fn assemble_orders_fast_match_longest_first_stably() {
    let c = assembled();
    let keys: Vec<(&str, (usize, usize))> = c.routes_fast_match.iter().map(|(k, p)| (k.as_str(), *p)).collect();
    // "/api/v1/" is 8 bytes, "/a/" and "/bb" 3 bytes each (in route order),
    // "/é" 3 bytes as well (the é takes two).
    assert_eq!(keys, vec![("/api/v1/", (0, 1)), ("/a/", (0, 0)), ("/bb", (1, 0)), ("/é", (1, 1))]);
    for w in c.routes_fast_match.windows(2) {
        assert!(w[0].0.len() >= w[1].0.len());
    }
}

#[test]
fn assemble_merges_policies_later_gateway_wins() {
    let c = assembled();
    let auth = c.policies.auth.as_ref().expect("auth policies");
    assert_eq!(auth.len(), 2);
    assert_eq!(auth[0].0, "shared");
    assert_eq!(auth[0].1.issuer, "https://second.example");
    assert_eq!(auth[1].0, "only-first");
    assert_eq!(auth[1].1.issuer, "https://only.example");
    assert!(c.policies.cors.is_none());
    assert!(c.policies.waf.is_none());
    assert!(c.policies.limiter.is_none());
}

#[test]
fn assemble_of_nothing_is_empty() {
    let master = parse_master_config(MASTER, 4).expect("master");
    let c = OphanConfig::assemble(master, Vec::new(), ConfigFileTracker::new("m".to_string(), 0), Vec::new());
    assert!(c.routes.is_empty() && c.upstreams.is_empty() && c.upstreams_index.is_empty());
    assert!(c.routes_fast_match.is_empty());
    assert!(c.policies.auth.is_none());
}
