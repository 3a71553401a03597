use dxgate::address::{IpAddr, SocketAddr};
use dxgate::config::{
    Cluster, Endpoint, Listener, ListenerProtocol, PathMatch, Route, RouteMatch, RuntimeConfig,
    UpstreamTls, VirtualHost, WeightedCluster,
};
use dxgate::error::DxgateError;
use dxgate::forward::{
    checked_upstream, endpoint_authority, weights_fit, Cause, Failure, Upstream, BAD_GATEWAY,
    NOT_FOUND, SERVICE_UNAVAILABLE,
};
use dxgate::headers::{header_pairs, host_header, without_port};
use dxgate::routing::MatchInput;
use dxgate::state::ProxyState;
use http::{HeaderMap, HeaderName, HeaderValue};

fn bind(text: &str) -> SocketAddr {
    let (ip, port) = text.rsplit_once(':').unwrap();
    let octets: Vec<u8> = ip.split('.').map(|octet| octet.parse().unwrap()).collect();
    SocketAddr {
        ip: IpAddr::V4(octets[0], octets[1], octets[2], octets[3]),
        port: port.parse().unwrap(),
    }
}

fn valid_config(version: &str) -> RuntimeConfig {
    RuntimeConfig {
        version: version.into(),
        listeners: vec![Listener {
            name: "http".into(),
            bind: bind("0.0.0.0:80"),
            protocol: ListenerProtocol::Http,
            virtual_hosts: vec![VirtualHost {
                name: "wildcard".into(),
                domains: vec!["*".into()],
                routes: vec![Route {
                    name: "default".into(),
                    matches: vec![RouteMatch {
                        path: PathMatch::Prefix("/".into()),
                        headers: vec![],
                    }],
                    weighted_clusters: vec![WeightedCluster {
                        name: "backend".into(),
                        weight: 100,
                    }],
                }],
            }],
            tls_secret: None,
        }],
        clusters: vec![Cluster {
            name: "backend".into(),
            endpoints: vec![Endpoint {
                address: "127.0.0.1".into(),
                port: 8080,
                healthy: true,
                node_name: None,
            }],
            tls: None,
        }],
        secrets: vec![],
    }
}

fn endpoint(address: &str, port: u16) -> Endpoint {
    Endpoint { address: address.into(), port, healthy: true, node_name: None }
}

fn weighted(name: &str, weight: u32) -> WeightedCluster {
    WeightedCluster { name: name.into(), weight }
}

fn headers(entries: &[(&str, &[u8])]) -> HeaderMap<HeaderValue> {
    let mut map = HeaderMap::new();
    for (name, value) in entries {
        map.append(
            HeaderName::from_bytes(name.as_bytes()).unwrap(),
            HeaderValue::from_bytes(value).unwrap(),
        );
    }
    map
}

fn message(failure: Failure) -> (u16, String) {
    match failure.cause {
        Cause::Message(text) => (failure.status, text),
        Cause::Gateway(error) => (failure.status, format!("{:?}", error)),
    }
}

#[test]
fn apply_config_updates_readiness_and_conflicts() {
    let mut state = ProxyState::new(RuntimeConfig::empty("bootstrap"));
    state.apply_config(valid_config("ok")).unwrap();

    let readiness = state.readiness();
    assert!(readiness.ready);
    assert_eq!(readiness.version, "ok");
    assert!(readiness.conflicts.is_empty());

    let mut invalid = valid_config("bad");
    invalid.clusters.clear();
    let conflicts = state.apply_config(invalid).unwrap_err();

    let readiness = state.readiness();
    assert!(!readiness.ready);
    assert_eq!(readiness.conflicts, conflicts);
    assert_eq!(readiness.conflicts[0].kind, "missing-cluster");
}

#[test]
fn weighted_cluster_picker_is_deterministic() {
    let mut state = ProxyState::new(RuntimeConfig::empty("test"));
    let clusters = vec![
        WeightedCluster { name: "a".into(), weight: 2 },
        WeightedCluster { name: "b".into(), weight: 1 },
    ];
    let mut names = Vec::new();

    for _ in 0..6 {
        names.push(state.pick_cluster(&clusters).unwrap().name.clone());
    }

    assert_eq!(names, ["a", "a", "b", "a", "a", "b"]);
}

#[test]
fn endpoint_picker_skips_unhealthy_endpoints() {
    let mut state = ProxyState::new(RuntimeConfig::empty("test"));
    let endpoints = vec![
        Endpoint { address: "10.0.0.1".into(), port: 8080, healthy: false, node_name: None },
        Endpoint { address: "10.0.0.2".into(), port: 8080, healthy: true, node_name: None },
    ];

    let endpoint = state.pick_endpoint("backend", &endpoints).unwrap();
    assert_eq!(endpoint.address, "10.0.0.2");

    let unhealthy = vec![Endpoint {
        address: "10.0.0.3".into(),
        port: 8080,
        healthy: false,
        node_name: None,
    }];
    assert!(state.pick_endpoint("backend", &unhealthy).is_err());
}

#[test]
fn a_refused_configuration_leaves_the_one_in_use() {
    let mut state = ProxyState::new(RuntimeConfig::empty("bootstrap"));
    assert!(!state.readiness().ready);
    assert_eq!(state.readiness().version, "bootstrap");
    state.apply_config(valid_config("one")).unwrap();
    let mut invalid = valid_config("two");
    invalid.clusters.clear();
    assert!(state.apply_config(invalid).is_err());
    assert_eq!(state.readiness().version, "one");
    assert_eq!(state.config(), valid_config("one"));
    state.apply_config(valid_config("three")).unwrap();
    let readiness = state.readiness();
    assert!(readiness.ready && readiness.conflicts.is_empty());
    assert_eq!(readiness.version, "three");
}

#[test]
fn each_cluster_is_chosen_as_often_as_its_weight_says() {
    let mut state = ProxyState::new(RuntimeConfig::empty("test"));
    let clusters = vec![weighted("a", 3), weighted("none", 0), weighted("b", 2), weighted("c", 5)];
    // Whatever the count at the start of a window, the shares are the same.
    for start in 0..4 {
        let mut counts = vec![0, 0, 0, 0];
        for _ in 0..10 {
            let picked = state.pick_cluster(&clusters).unwrap();
            let place = clusters.iter().position(|cluster| cluster == picked).unwrap();
            counts[place] += 1;
        }
        assert_eq!(counts, [3, 0, 2, 5], "window {}", start);
        let _ = state.pick_endpoint("shift", &[endpoint("10.0.0.1", 1)]);
    }
}

#[test]
fn clusters_without_weight_give_the_first_out_of_turn() {
    let mut state = ProxyState::new(RuntimeConfig::empty("test"));
    let none: Vec<WeightedCluster> = vec![];
    assert!(state.pick_cluster(&none).is_none());
    let flat = vec![weighted("a", 0), weighted("b", 0)];
    assert_eq!(state.pick_cluster(&flat).unwrap().name, "a");
    assert_eq!(state.pick_cluster(&flat).unwrap().name, "a");
    // No turn was taken.
    let pair = vec![weighted("a", 1), weighted("b", 1)];
    assert_eq!(state.pick_cluster(&pair).unwrap().name, "a");
    assert_eq!(state.pick_cluster(&pair).unwrap().name, "b");
}

#[test]
fn healthy_endpoints_take_turns() {
    let mut state = ProxyState::new(RuntimeConfig::empty("test"));
    let mut endpoints = vec![
        endpoint("10.0.0.1", 1),
        endpoint("10.0.0.2", 2),
        endpoint("10.0.0.3", 3),
    ];
    endpoints[1].healthy = false;
    let mut ports = Vec::new();
    for _ in 0..4 {
        ports.push(state.pick_endpoint("backend", &endpoints).unwrap().port);
    }
    assert_eq!(ports, [1, 3, 1, 3]);
    assert_eq!(
        state.pick_endpoint("backend", &[]).unwrap_err(),
        DxgateError::NoHealthyEndpoints("backend".into())
    );
}

#[test]
fn endpoints_come_in_the_order_of_the_list_from_any_count_on() {
    let endpoints = vec![
        endpoint("10.0.0.1", 1),
        endpoint("10.0.0.2", 2),
        endpoint("10.0.0.3", 3),
    ];
    for skipped in 0..5 {
        let mut state = ProxyState::new(RuntimeConfig::empty("test"));
        for _ in 0..skipped {
            let _ = state.pick_endpoint("backend", &endpoints);
        }
        let mut ports = Vec::new();
        for _ in 0..3 {
            ports.push(state.pick_endpoint("backend", &endpoints).unwrap().port);
        }
        let expected = [[1, 2, 3], [2, 3, 1], [3, 1, 2]];
        assert_eq!(ports, expected[skipped % 3]);
    }
}

#[test]
fn weights_that_cannot_be_summed_up_are_told() {
    assert!(weights_fit(&[weighted("a", u32::MAX)]));
    assert!(!weights_fit(&[weighted("a", u32::MAX), weighted("b", 1)]));
    assert!(weights_fit(&[]));
}

#[test]
fn ipv6_addresses_are_put_in_brackets() {
    assert_eq!(endpoint_authority(&endpoint("10.0.0.1", 80)), "10.0.0.1:80");
    assert_eq!(endpoint_authority(&endpoint("fd00::1", 8080)), "[fd00::1]:8080");
    assert_eq!(endpoint_authority(&endpoint("[fd00::1]", 1)), "[fd00::1]:1");
    assert_eq!(endpoint_authority(&endpoint("", 65535)), ":65535");
}

#[test]
fn the_host_header_is_read_without_its_port() {
    assert_eq!(
        host_header(&headers(&[("Host", b"api.example.com:8080")])),
        Some("api.example.com".to_string())
    );
    assert_eq!(
        host_header(&headers(&[("host", b"one"), ("host", b"two"), ("x", b"y")])),
        Some("one".to_string())
    );
    assert_eq!(host_header(&headers(&[("x-host", b"one")])), None);
    assert_eq!(host_header(&headers(&[("host", &[0xff, b'a'])])), None);
    assert_eq!(without_port("a:b:c"), "a");
    assert_eq!(without_port("abc"), "abc");
    assert_eq!(without_port(""), "");
}

#[test]
fn headers_that_are_not_text_are_left_out() {
    let pairs = header_pairs(&headers(&[
        ("X-Env", b"prod"),
        ("x-raw", &[0x80]),
        ("x-tab", b"a\tb"),
        ("x-env", b"dev"),
    ]));
    let mut sorted = pairs.clone();
    sorted.sort();
    assert_eq!(
        sorted,
        vec![
            ("x-env".to_string(), "dev".to_string()),
            ("x-env".to_string(), "prod".to_string()),
            ("x-tab".to_string(), "a\tb".to_string()),
        ]
    );
}

#[test]
fn a_request_is_sent_to_the_chosen_endpoint() {
    let mut state = ProxyState::new(RuntimeConfig::empty("bootstrap"));
    let mut cfg = valid_config("v");
    cfg.clusters[0].endpoints = vec![endpoint("fd00::1", 9000), endpoint("10.0.0.2", 9001)];
    state.apply_config(cfg).unwrap();
    let map = headers(&[("host", b"api.test")]);
    let first = state.forward(&map, Some("/a?b=c")).unwrap().unwrap();
    assert_eq!(first.uri, "http://10.0.0.2:9001/a?b=c");
    assert_eq!(first.cluster, "backend");
    assert_eq!(first.endpoint.port, 9001);
    assert!(first.tls.is_none());
    // A choice of a cluster and one of an endpoint were made: the next request
    // gets the same endpoint again.
    let second = state.forward(&map, None).unwrap().unwrap();
    assert_eq!(second.uri, "http://10.0.0.2:9001/");
}

#[test]
fn a_cluster_with_tls_settings_is_reached_by_https() {
    let mut state = ProxyState::new(RuntimeConfig::empty("bootstrap"));
    let mut cfg = valid_config("v");
    let tls = UpstreamTls {
        sni: Some("backend".into()),
        certificate_provider: None,
        validation_provider: None,
        alpn_protocols: vec![],
    };
    cfg.clusters[0].tls = Some(tls.clone());
    state.apply_config(cfg).unwrap();
    let upstream = state.forward(&headers(&[]), Some("/")).unwrap().unwrap();
    assert_eq!(upstream.uri, "https://127.0.0.1:8080/");
    assert_eq!(upstream.tls, Some(tls));
}

#[test]
fn requests_without_an_upstream_are_answered() {
    let map = headers(&[]);
    let mut state = ProxyState::new(RuntimeConfig::empty("bootstrap"));
    let answer = state.forward(&map, None).unwrap().unwrap_err();
    assert_eq!(answer.status, NOT_FOUND);
    assert_eq!(
        answer.cause,
        Cause::Gateway(DxgateError::RouteNotFound { host: "*".into(), path: "/".into() })
    );

    // Configurations with conflicts can be set only at the start.
    let mut empty_route = valid_config("v");
    empty_route.listeners[0].virtual_hosts[0].routes[0].weighted_clusters.clear();
    let mut state = ProxyState::new(empty_route);
    assert_eq!(
        message(state.forward(&map, None).unwrap().unwrap_err()),
        (SERVICE_UNAVAILABLE, "route has no clusters".to_string())
    );

    let mut no_cluster = valid_config("v");
    no_cluster.clusters.clear();
    let mut state = ProxyState::new(no_cluster);
    assert_eq!(
        message(state.forward(&map, None).unwrap().unwrap_err()),
        (SERVICE_UNAVAILABLE, "cluster backend not found".to_string())
    );

    let mut unhealthy = valid_config("v");
    unhealthy.clusters[0].endpoints[0].healthy = false;
    let mut state = ProxyState::new(unhealthy);
    let answer = state.forward(&map, None).unwrap().unwrap_err();
    assert_eq!(answer.status, SERVICE_UNAVAILABLE);
    assert_eq!(
        answer.cause,
        Cause::Gateway(DxgateError::NoHealthyEndpoints("backend".into()))
    );
}

#[test]
fn an_upstream_without_a_valid_uri_is_a_bad_gateway() {
    let mut cfg = valid_config("v");
    cfg.clusters[0].endpoints[0].address = "not a host".into();
    let mut state = ProxyState::new(cfg);
    assert_eq!(
        message(state.forward(&headers(&[]), None).unwrap().unwrap_err()),
        (BAD_GATEWAY, "invalid upstream uri: invalid uri character".to_string())
    );
    let upstream = |uri: &str| Upstream {
        cluster: "c".into(),
        endpoint: endpoint("a", 1),
        tls: None,
        uri: uri.into(),
    };
    assert_eq!(checked_upstream(upstream("x"), None).unwrap().uri, "x");
    assert_eq!(
        message(checked_upstream(upstream("x"), Some("bad".into())).unwrap_err()),
        (502, "invalid upstream uri: bad".to_string())
    );
    assert_eq!(message(Failure::upstream("gone".into())), (502, "gone".to_string()));
}

#[test]
fn a_route_whose_weights_overflow_gets_no_answer() {
    let mut cfg = valid_config("v");
    cfg.listeners[0].virtual_hosts[0].routes[0].weighted_clusters =
        vec![weighted("backend", u32::MAX), weighted("backend", 1)];
    let mut state = ProxyState::new(cfg);
    assert!(state.forward(&headers(&[]), None).is_none());
    assert!(!state.can_weigh(&MatchInput { host: "h", path: "/", headers: &[] }));
}

#[test]
fn requests_are_routed_by_host_and_headers() {
    let mut cfg = valid_config("v");
    cfg.listeners[0].virtual_hosts[0].domains = vec!["*.example.com".into()];
    cfg.listeners[0].virtual_hosts[0].routes[0].matches[0].headers =
        vec![dxgate::config::HeaderMatch { name: "X-Env".into(), value: "prod".into() }];
    let mut state = ProxyState::new(cfg);
    let found = headers(&[("host", b"api.example.com:80"), ("x-env", b"prod")]);
    assert!(state.forward(&found, Some("/")).unwrap().is_ok());
    let other = headers(&[("host", b"api.example.com:80"), ("x-env", b"dev")]);
    assert_eq!(state.forward(&other, Some("/")).unwrap().unwrap_err().status, 404);
}
