use ophan::config::validate::{
    validate_config, validate_port_conflicts, ConfigRefs, ErrorCode, ListenerRefs, PolicyRef, RouteRefs,
    TlsFiles,
};

fn make_valid_config() -> ConfigRefs {
    ConfigRefs {
        routes: vec![],
        listeners: vec![],
        upstreams: vec![],
        waf_policies: vec![],
        auth_policies: vec![],
        cors_policies: vec![],
        limiter_policies: vec![],
    }
}

fn route(path: &str, upstream: Option<&str>) -> RouteRefs {
    RouteRefs {
        path: path.to_string(),
        upstream: upstream.map(|s| s.to_string()),
        waf: None,
        auth: None,
        cors: None,
        limiter: None,
    }
}

#[test]
fn no_errors_for_empty_config() {
    let cfg = make_valid_config();
    assert!(validate_config(&cfg).is_empty());
}

#[test]
fn detects_missing_upstream() {
    let mut cfg = make_valid_config();
    cfg.routes.push(route("/api/*", Some("missing-upstream")));
    let errors = validate_config(&cfg);
    assert_eq!(errors.len(), 1);
    assert_eq!(errors[0].code, ErrorCode::E001);
    assert!(errors[0].message.contains("missing-upstream"));
}

#[test]
fn detects_missing_waf_policy() {
    let mut cfg = make_valid_config();
    cfg.upstreams.push("api".to_string());
    let mut r = route("/secure/*", Some("api"));
    r.waf = Some(PolicyRef::Reference("nonexistent-waf".to_string()));
    cfg.routes.push(r);
    let errors = validate_config(&cfg);
    assert_eq!(errors.len(), 1);
    assert_eq!(errors[0].code, ErrorCode::E002);
    assert!(errors[0].message.contains("waf"));
    assert!(errors[0].message.contains("nonexistent-waf"));
}

#[test]
fn detects_ssl_cert_missing() {
    let mut cfg = make_valid_config();
    cfg.listeners.push(ListenerRefs {
        name: "https-gw".to_string(),
        listen: vec!["0.0.0.0:443".to_string()],
        tls: Some(TlsFiles {
            cert: "/tmp/nonexistent-cert.pem".to_string(),
            key: "/tmp/nonexistent-key.pem".to_string(),
            cert_exists: false,
            key_exists: false,
        }),
    });
    let errors = validate_config(&cfg);
    assert!(errors.iter().any(|e| e.code == ErrorCode::E003));
    assert_eq!(errors.len(), 2);
    assert_eq!(
        errors[1].to_display_string(),
        "error[E003]: listener 'https-gw' references SSL key '/tmp/nonexistent-key.pem' which does not exist"
    );
}

#[test]
fn extends_of_unknown_policy_and_known_references() {
    let mut cfg = make_valid_config();
    cfg.auth_policies.push("oauth".to_string());
    let mut r = route("/a", None);
    r.auth = Some(PolicyRef::Reference("oauth".to_string()));
    r.cors = Some(PolicyRef::Extends("base-cors".to_string()));
    r.limiter = Some(PolicyRef::Local);
    cfg.routes.push(r);
    let errors = validate_config(&cfg);
    assert_eq!(errors.len(), 1);
    assert_eq!(errors[0].message, "route '/a' extends cors policy 'base-cors' which is not defined");
}

#[test]
fn port_conflicts_name_the_later_listener() {
    let listeners = vec![
        ListenerRefs { name: "a".to_string(), listen: vec![":80".to_string(), ":443".to_string()], tls: None },
        ListenerRefs { name: "b".to_string(), listen: vec![":8080".to_string(), ":443".to_string()], tls: None },
        ListenerRefs { name: "c".to_string(), listen: vec![":80".to_string(), ":80".to_string()], tls: None },
    ];
    let mut errors = Vec::new();
    validate_port_conflicts(&mut errors, &listeners);
    let msgs: Vec<String> = errors.iter().map(|e| e.message.clone()).collect();
    assert_eq!(
        msgs,
        vec![
            "port ':443' is already bound by listener 'b'".to_string(),
            "port ':80' is already bound by listener 'c'".to_string(),
            "port ':80' is already bound by listener 'c'".to_string(),
        ]
    );
}

#[test]
fn all_checks_run_in_order() {
    let mut cfg = make_valid_config();
    cfg.upstreams = vec!["api".to_string(), "api".to_string()];
    let mut r = route("/x", Some("nope"));
    r.waf = Some(PolicyRef::Extends("w".to_string()));
    cfg.routes.push(r);
    let codes: Vec<ErrorCode> = validate_config(&cfg).iter().map(|e| e.code).collect();
    assert_eq!(codes, vec![ErrorCode::E001, ErrorCode::E002, ErrorCode::E005]);
}
