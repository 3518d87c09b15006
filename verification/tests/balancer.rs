use std::str::FromStr;

use ophan::balancer::{Backend, BackendAddr, BalanceStrategy, BalancerError, Upstream};

#[test]
fn test_balance_strategy_round_robin() {
    for s in &["round_robin", "round-robin"] {
        assert_eq!(BalanceStrategy::from_str(s).unwrap(), BalanceStrategy::RoundRobin);
    }
}

#[test]
fn test_balance_strategy_least_connections() {
    for s in &["least_connections", "least-connections"] {
        assert_eq!(BalanceStrategy::from_str(s).unwrap(), BalanceStrategy::LeastConnections);
    }
}

#[test]
fn test_balance_strategy_ip_hash() {
    for s in &["ip_hash", "ip-hash"] {
        assert_eq!(BalanceStrategy::from_str(s).unwrap(), BalanceStrategy::IpHash);
    }
}

#[test]
fn test_balance_strategy_invalid() {
    let err = BalanceStrategy::from_str("random").unwrap_err();
    assert!(err.contains("invalid load_balance strategy"));
}

#[test]
fn test_balance_strategy_into_static_str() {
    let s: &'static str = BalanceStrategy::RoundRobin.into();
    assert_eq!(s, "round_robin");
    let s: &'static str = BalanceStrategy::LeastConnections.into();
    assert_eq!(s, "least_connections");
    let s: &'static str = BalanceStrategy::IpHash.into();
    assert_eq!(s, "ip_hash");
}

#[test]
fn strategy_names_are_trimmed_and_case_blind() {
    assert_eq!(BalanceStrategy::from_str("  Round_Robin ").unwrap(), BalanceStrategy::RoundRobin);
    assert_eq!(BalanceStrategy::try_from("IP-HASH").unwrap(), BalanceStrategy::IpHash);
    let err = BalanceStrategy::parse("weighted").unwrap_err();
    assert_eq!(
        err,
        "invalid load_balance strategy 'weighted', expected one of: round_robin, weighted_round_robin, least_connections, ip_hash"
    );
}

#[test]
fn strategy_name_round_trips() {
    for s in [BalanceStrategy::RoundRobin, BalanceStrategy::LeastConnections, BalanceStrategy::IpHash] {
        assert_eq!(BalanceStrategy::from_str(s.as_str()).unwrap(), s);
    }
}

#[test]
fn balancer_error_messages() {
    let e = BalancerError::UpstreamEmpty;
    let _ = e.to_display_string();
    let _ = BalancerError::AllServersUnhealthy.format("api");
}

#[test]
fn strategy_ignores_space_and_case() {
    for s in &["  Round_Robin ", "IP-HASH", "\tleast_connections\n", "nope", " "] {
        assert_eq!(
            BalanceStrategy::from_str(s).ok(),
            BalanceStrategy::from_str(&s.trim().to_ascii_lowercase()).ok()
        );
    }
    assert_eq!(BalanceStrategy::from_str(" IP_Hash ").unwrap(), BalanceStrategy::IpHash);
}

fn ip_hash_balancer() -> ophan::balancer::LoadBalancer {
    let servers: Vec<Backend> = (0..3).map(|i| Backend::new(BackendAddr::Host(format!("s{i}:80")), 1)).collect();
    ophan::balancer::LoadBalancer::new(vec![Upstream::new(0, "u".to_string(), servers, BalanceStrategy::IpHash)])
}

#[test]
fn ip_hash_picks_the_same_server_twice_and_keeps_counters() {
    let mut lb = ip_hash_balancer();
    let first = lb.select_backend(0, 7).unwrap();
    let (rr, lc) = (lb.upstreams[0].rr_counter, lb.upstreams[0].lc_counter);
    let second = lb.select_backend(0, 7).unwrap();
    assert_eq!(first, second);
    assert_eq!(first, 7 % 3);
    assert_eq!((lb.upstreams[0].rr_counter, lb.upstreams[0].lc_counter), (rr, lc));
    assert_eq!((rr, lc), (0, 0));
}
