use dxgate::address::{ipv6_text, IpAddr, SocketAddr};
use dxgate::config::{
    default_true, Cluster, Endpoint, HeaderMatch, Listener, ListenerProtocol, PathMatch, Route,
    RouteMatch, RuntimeConfig, VirtualHost, WeightedCluster, ADMIN_PORT, HTTPS_LISTENER_PORT,
    HTTP_LISTENER_PORT,
};
use dxgate::error::DxgateError;
use dxgate::routing::MatchInput;
use dxgate::same::Same;

fn bind(text: &str) -> SocketAddr {
    let (ip, port) = text.rsplit_once(':').unwrap();
    let octets: Vec<u8> = ip.split('.').map(|octet| octet.parse().unwrap()).collect();
    SocketAddr {
        ip: IpAddr::V4(octets[0], octets[1], octets[2], octets[3]),
        port: port.parse().unwrap(),
    }
}

fn listener(name: &str, address: &str, protocol: ListenerProtocol) -> Listener {
    Listener {
        name: name.into(),
        bind: bind(address),
        protocol,
        virtual_hosts: vec![],
        tls_secret: None,
    }
}

fn route(name: &str, clusters: &[&str]) -> Route {
    Route {
        name: name.into(),
        matches: vec![],
        weighted_clusters: clusters
            .iter()
            .map(|cluster| WeightedCluster { name: (*cluster).into(), weight: 1 })
            .collect(),
    }
}

fn host(name: &str, domains: &[&str], routes: Vec<Route>) -> VirtualHost {
    VirtualHost {
        name: name.into(),
        domains: domains.iter().map(|domain| (*domain).into()).collect(),
        routes,
    }
}

fn cluster(name: &str) -> Cluster {
    Cluster { name: name.into(), endpoints: vec![], tls: None }
}

fn messages(config: &RuntimeConfig) -> Vec<(String, String)> {
    match config.validate() {
        Ok(()) => vec![],
        Err(conflicts) => conflicts
            .into_iter()
            .map(|conflict| (conflict.kind, conflict.message))
            .collect(),
    }
}

#[test]
fn detects_listener_conflict() {
    let bind_address = bind("0.0.0.0:80");
    let cfg = RuntimeConfig {
        version: "test".into(),
        listeners: vec![
            Listener {
                name: "http".into(),
                bind: bind_address.clone(),
                protocol: ListenerProtocol::Http,
                virtual_hosts: vec![],
                tls_secret: None,
            },
            Listener {
                name: "https".into(),
                bind: bind_address,
                protocol: ListenerProtocol::Https,
                virtual_hosts: vec![],
                tls_secret: Some("secret".into()),
            },
        ],
        clusters: vec![],
        secrets: vec![],
    };

    assert!(cfg.validate().is_err());
}

#[test]
fn validates_missing_weighted_cluster_references() {
    let cfg = RuntimeConfig {
        version: "test".into(),
        listeners: vec![Listener {
            name: "http".into(),
            bind: bind("0.0.0.0:80"),
            protocol: ListenerProtocol::Http,
            virtual_hosts: vec![VirtualHost {
                name: "wildcard".into(),
                domains: vec!["*".into()],
                routes: vec![Route {
                    name: "missing".into(),
                    matches: vec![RouteMatch {
                        path: PathMatch::Prefix("/".into()),
                        headers: vec![],
                    }],
                    weighted_clusters: vec![WeightedCluster {
                        name: "missing-cluster".into(),
                        weight: 100,
                    }],
                }],
            }],
            tls_secret: None,
        }],
        clusters: vec![],
        secrets: vec![],
    };

    let conflicts = cfg.validate().unwrap_err();
    assert_eq!(conflicts[0].kind, "missing-cluster");
}

#[test]
fn routes_by_host_path_and_header_match() {
    let cfg = RuntimeConfig {
        version: "test".into(),
        listeners: vec![Listener {
            name: "http".into(),
            bind: bind("0.0.0.0:80"),
            protocol: ListenerProtocol::Http,
            virtual_hosts: vec![VirtualHost {
                name: "example".into(),
                domains: vec!["*.example.com".into()],
                routes: vec![
                    Route {
                        name: "admin".into(),
                        matches: vec![RouteMatch {
                            path: PathMatch::Exact("/admin".into()),
                            headers: vec![HeaderMatch {
                                name: "x-env".into(),
                                value: "prod".into(),
                            }],
                        }],
                        weighted_clusters: vec![WeightedCluster {
                            name: "admin".into(),
                            weight: 100,
                        }],
                    },
                    Route {
                        name: "default".into(),
                        matches: vec![RouteMatch {
                            path: PathMatch::Prefix("/".into()),
                            headers: vec![],
                        }],
                        weighted_clusters: vec![WeightedCluster {
                            name: "default".into(),
                            weight: 100,
                        }],
                    },
                ],
            }],
            tls_secret: None,
        }],
        clusters: vec![
            Cluster { name: "admin".into(), endpoints: vec![], tls: None },
            Cluster { name: "default".into(), endpoints: vec![], tls: None },
        ],
        secrets: vec![],
    };

    let headers = vec![("x-env".to_string(), "prod".to_string())];
    let route = cfg
        .route_for(
            HTTP_LISTENER_PORT,
            &MatchInput { host: "api.example.com", path: "/admin", headers: &headers },
        )
        .unwrap();
    assert_eq!(route.name, "admin");

    let route = cfg
        .route_for(
            HTTP_LISTENER_PORT,
            &MatchInput { host: "api.example.com", path: "/users", headers: &[] },
        )
        .unwrap();
    assert_eq!(route.name, "default");

    assert!(cfg
        .route_for(
            HTTP_LISTENER_PORT,
            &MatchInput { host: "api.other.test", path: "/users", headers: &[] },
        )
        .is_err());
}

#[test]
fn every_conflict_is_reported_in_order() {
    let mut first = listener("edge", "0.0.0.0:80", ListenerProtocol::Http);
    first.virtual_hosts = vec![host("h", &["*"], vec![route("nowhere", &[])])];
    let mut second = listener("edge", "0.0.0.0:80", ListenerProtocol::Https);
    second.virtual_hosts = vec![host("h", &["*"], vec![route("away", &["a", "b", "c"])])];
    let cfg = RuntimeConfig {
        version: "v".into(),
        listeners: vec![first, second],
        clusters: vec![cluster("a"), cluster("a")],
        secrets: vec![],
    };
    let expected: Vec<(String, String)> = vec![
        ("duplicate-listener".into(), "listener edge is defined more than once".into()),
        (
            "listener-bind-conflict".into(),
            "listeners edge and edge both bind 0.0.0.0:80 with incompatible protocol or TLS mode"
                .into(),
        ),
        ("duplicate-cluster".into(), "cluster a is defined more than once".into()),
        (
            "empty-route-destination".into(),
            "route nowhere on listener edge has no weighted clusters".into(),
        ),
        ("missing-cluster".into(), "route away references missing cluster b".into()),
        ("missing-cluster".into(), "route away references missing cluster c".into()),
    ];
    assert_eq!(messages(&cfg), expected);
}

#[test]
fn a_bind_conflict_names_the_last_listener_on_the_address() {
    let mut third = listener("c", "127.0.0.1:8080", ListenerProtocol::Http);
    third.tls_secret = Some("secret".into());
    let cfg = RuntimeConfig {
        version: "v".into(),
        listeners: vec![
            listener("a", "127.0.0.1:8080", ListenerProtocol::Http),
            listener("b", "127.0.0.1:8080", ListenerProtocol::Http),
            third,
            listener("d", "127.0.0.1:8081", ListenerProtocol::Https),
        ],
        clusters: vec![],
        secrets: vec![],
    };
    assert_eq!(
        messages(&cfg),
        vec![(
            "listener-bind-conflict".to_string(),
            "listeners b and c both bind 127.0.0.1:8080 with incompatible protocol or TLS mode"
                .to_string(),
        )]
    );
}

#[test]
fn an_ipv6_address_is_written_in_brackets() {
    let mut address = SocketAddr {
        ip: IpAddr::V6 { segments: [0, 0, 0, 0, 0, 0, 0, 1], flowinfo: 7, scope_id: 0 },
        port: 443,
    };
    assert_eq!(address.text(), "[::1]:443");
    address.ip = IpAddr::V6 {
        segments: [0xfe80, 0, 0, 0, 0, 0, 0, 0xab],
        flowinfo: 0,
        scope_id: 12,
    };
    assert_eq!(address.text(), "[fe80::ab%12]:443");
    assert_eq!(bind("10.0.0.255:15021").text(), "10.0.0.255:15021");
}

#[test]
fn the_first_longest_run_of_zeros_is_left_out() {
    assert_eq!(ipv6_text(&[0, 0, 0, 0, 0, 0, 0, 0]), "::");
    assert_eq!(ipv6_text(&[1, 0, 0, 0, 0, 0, 0, 0]), "1::");
    assert_eq!(ipv6_text(&[0x2001, 0xdb8, 0, 0, 1, 0, 0, 1]), "2001:db8::1:0:0:1");
    assert_eq!(ipv6_text(&[0x2001, 0, 0, 1, 0, 0, 0, 1]), "2001:0:0:1::1");
    assert_eq!(ipv6_text(&[0x2001, 0xdb8, 0, 1, 1, 1, 1, 1]), "2001:db8:0:1:1:1:1:1");
    assert_eq!(ipv6_text(&[0xffff, 0xabc, 0x10, 9, 0xa, 0xf0, 0, 1]), "ffff:abc:10:9:a:f0:0:1");
    assert_eq!(ipv6_text(&[0, 0, 0, 0, 0, 0xffff, 0xc0a8, 0x10a]), "::ffff:192.168.1.10");
    assert_eq!(ipv6_text(&[0, 0, 0, 0, 0, 0, 0xc0a8, 0x10a]), "::c0a8:10a");
    assert_eq!(ipv6_text(&[0, 0, 0, 0, 1, 0xffff, 0, 1]), "::1:ffff:0:1");
}

#[test]
fn ipv6_listeners_conflict_by_address_and_scope() {
    let on = |name: &str, protocol: ListenerProtocol, scope_id: u32| {
        let mut listener = listener(name, "0.0.0.0:80", protocol);
        listener.bind.ip = IpAddr::V6 { segments: [0, 0, 0, 0, 0, 0, 0, 1], flowinfo: 0, scope_id };
        listener
    };
    let cfg = |second: Listener| RuntimeConfig {
        version: "v".into(),
        listeners: vec![on("a", ListenerProtocol::Http, 0), second],
        clusters: vec![],
        secrets: vec![],
    };
    assert_eq!(
        messages(&cfg(on("b", ListenerProtocol::Https, 0))),
        vec![(
            "listener-bind-conflict".to_string(),
            "listeners a and b both bind [::1]:80 with incompatible protocol or TLS mode"
                .to_string(),
        )]
    );
    assert!(cfg(on("b", ListenerProtocol::Https, 1)).validate().is_ok());
    assert!(cfg(on("b", ListenerProtocol::Http, 0)).validate().is_ok());
    // An IPv6 address that stands for an IPv4 one is another address.
    let mut mapped = listener("b", "0.0.0.0:80", ListenerProtocol::Https);
    mapped.bind.ip = IpAddr::V6 {
        segments: [0, 0, 0, 0, 0, 0xffff, 0, 0],
        flowinfo: 0,
        scope_id: 0,
    };
    let mut both = cfg(mapped);
    both.listeners[0] = listener("a", "0.0.0.0:80", ListenerProtocol::Http);
    assert!(both.validate().is_ok());
}

#[test]
fn ports_are_those_of_the_gateway() {
    assert_eq!(HTTP_LISTENER_PORT, 80);
    assert_eq!(HTTPS_LISTENER_PORT, 443);
    assert_eq!(ADMIN_PORT, 15021);
}

#[test]
fn an_empty_configuration_has_only_a_version() {
    let cfg = RuntimeConfig::empty("v0");
    assert_eq!(cfg.version, "v0");
    assert!(cfg.listeners.is_empty() && cfg.clusters.is_empty() && cfg.secrets.is_empty());
    assert!(cfg.validate().is_ok());
}

#[test]
fn hosts_match_by_domain() {
    let any = host("any", &["*"], vec![]);
    assert!(any.matches_host("anything") && any.matches_host(""));
    let exact = host("exact", &["API.example.com"], vec![]);
    assert!(exact.matches_host("api.EXAMPLE.com"));
    assert!(!exact.matches_host("www.example.com"));
    let suffix = host("suffix", &["none", "*.example.com"], vec![]);
    assert!(suffix.matches_host("a.b.example.com"));
    assert!(suffix.matches_host("example.com"));
    assert!(!suffix.matches_host("a.EXAMPLE.com"));
    assert!(!host("no", &[], vec![]).matches_host("a"));
}

#[test]
fn paths_match_by_prefix_or_exactly() {
    assert!(PathMatch::Prefix("/a".into()).matches("/abc"));
    assert!(!PathMatch::Prefix("/a".into()).matches("/"));
    assert!(PathMatch::Exact("/a".into()).matches("/a"));
    assert!(!PathMatch::Exact("/a".into()).matches("/ab"));
    assert_eq!(PathMatch::default(), PathMatch::Prefix("/".into()));
}

#[test]
fn header_names_match_in_any_case_and_values_exactly() {
    let wanted = HeaderMatch { name: "X-Env".into(), value: "prod".into() };
    let headers = vec![("x-env".to_string(), "Prod".to_string())];
    assert!(!wanted.matches(&MatchInput { host: "h", path: "/", headers: &headers }));
    let headers = vec![
        ("x-env".to_string(), "dev".to_string()),
        ("x-ENV".to_string(), "prod".to_string()),
    ];
    assert!(wanted.matches(&MatchInput { host: "h", path: "/", headers: &headers }));
}

#[test]
fn a_route_without_conditions_takes_every_request() {
    let open = route("open", &["a"]);
    assert!(open.matches(&MatchInput { host: "h", path: "/x", headers: &[] }));
    let closed = Route {
        name: "closed".into(),
        matches: vec![
            RouteMatch { path: PathMatch::Exact("/a".into()), headers: vec![] },
            RouteMatch { path: PathMatch::Exact("/b".into()), headers: vec![] },
        ],
        weighted_clusters: vec![],
    };
    assert!(closed.matches(&MatchInput { host: "h", path: "/b", headers: &[] }));
    assert!(!closed.matches(&MatchInput { host: "h", path: "/c", headers: &[] }));
}

#[test]
fn the_first_route_of_the_covering_hosts_is_taken() {
    let mut edge = listener("edge", "0.0.0.0:80", ListenerProtocol::Http);
    edge.virtual_hosts = vec![
        host("other", &["other.test"], vec![route("other", &["a"])]),
        host("first", &["*.test"], vec![]),
        host("second", &["api.test"], vec![route("second", &["a"]), route("third", &["a"])]),
    ];
    let cfg = RuntimeConfig {
        version: "v".into(),
        listeners: vec![listener("https", "0.0.0.0:443", ListenerProtocol::Https), edge],
        clusters: vec![cluster("a")],
        secrets: vec![],
    };
    let input = MatchInput { host: "api.test", path: "/", headers: &[] };
    assert_eq!(cfg.route_for(80, &input).unwrap().name, "second");
    assert_eq!(
        cfg.route_for(8080, &input).unwrap_err(),
        DxgateError::RouteNotFound { host: "api.test".into(), path: "/".into() }
    );
    assert_eq!(cfg.listener_by_port(443).unwrap().name, "https");
    assert!(cfg.listener_by_port(81).is_none());
    assert_eq!(cfg.cluster("a").unwrap().name, "a");
    assert!(cfg.cluster("b").is_none());
}

#[test]
fn only_healthy_endpoints_are_listed() {
    let endpoint = |port: u16, healthy: bool| Endpoint {
        address: "10.0.0.1".into(),
        port,
        healthy,
        node_name: None,
    };
    let backend = Cluster {
        name: "backend".into(),
        endpoints: vec![endpoint(1, false), endpoint(2, default_true()), endpoint(3, true)],
        tls: None,
    };
    let ports: Vec<u16> = backend.healthy_endpoints().iter().map(|e| e.port).collect();
    assert_eq!(ports, [2, 3]);
}

#[test]
fn configurations_are_compared_by_what_they_hold() {
    let mut one = RuntimeConfig::empty("v");
    one.listeners.push(listener("a", "0.0.0.0:80", ListenerProtocol::Http));
    let mut two = one.clone();
    assert!(one.same_as(&two));
    two.listeners[0].bind.port = 81;
    assert!(!one.same_as(&two));
}
