use dxgate::address::{IpAddr, SocketAddr};
use dxgate::ads::{
    resource_kind, AdsState, DiscoveryUpdates, ResourceKind, CLUSTER_TYPE, ENDPOINT_TYPE,
    LISTENER_TYPE, ROUTE_TYPE,
};
use dxgate::client::{
    publication, AfterAttempt, DiscoveryRequest, Session, XdsClient, XdsClientConfig,
};
use dxgate::config::{HeaderMatch, ListenerProtocol, PathMatch, RuntimeConfig};
use dxgate::convert::{
    convert_route, convert_route_action, convert_route_match, endpoint_is_healthy,
    endpoints_from_assignment, listener_port, socket_address,
};
use dxgate::error::XdsError;
use dxgate::identity::RouterIdentity;
use dxgate::names::sorted_unique;
use dxgate::proto;
use dxgate::snapshots::{
    cluster_authority, first_non_empty, http_connection_managers, is_http_connection_manager,
    listener_snapshot, upstream_tls_from_cluster,
};
use dxgate::state::ProxyState;
use std::time::Duration;

const MANAGER_TYPE: &str =
    "type.googleapis.com/extensions.filters.network.http_connection_manager.v1.HttpConnectionManager";

const TLS_TYPE: &str = "type.googleapis.com/extensions.transport_sockets.tls.v1.UpstreamTlsContext";

fn bind(text: &str) -> SocketAddr {
    let (ip, port) = text.rsplit_once(':').unwrap();
    let octets: Vec<u8> = ip.split('.').map(|octet| octet.parse().unwrap()).collect();
    SocketAddr {
        ip: IpAddr::V4(octets[0], octets[1], octets[2], octets[3]),
        port: port.parse().unwrap(),
    }
}

fn any<T>(type_url: &str, message: T) -> proto::Any<T> {
    proto::Any { type_url: type_url.into(), value: Ok(message) }
}

fn malformed<T>(type_url: &str) -> proto::Any<T> {
    proto::Any { type_url: type_url.into(), value: Err("bad wire type".into()) }
}

fn socket(address: &str, port: u32) -> proto::Address {
    proto::Address {
        socket_address: Some(proto::SocketAddress {
            address: address.into(),
            port_value: Some(port),
        }),
    }
}

fn response(type_url: &str, resources: proto::Resources) -> proto::DiscoveryResponse {
    proto::DiscoveryResponse {
        version_info: "v1".into(),
        resources,
        type_url: type_url.into(),
        nonce: "nonce".into(),
    }
}

fn plain_listener(name: &str) -> proto::Listener {
    proto::Listener {
        name: name.into(),
        address: None,
        api_listener: None,
        filter_chains: vec![],
    }
}

fn manager(specifier: Option<proto::RouteSpecifier>) -> proto::HttpConnectionManager {
    proto::HttpConnectionManager { route_specifier: specifier }
}

fn rds(name: &str) -> Option<proto::RouteSpecifier> {
    Some(proto::RouteSpecifier::Rds(proto::Rds { route_config_name: name.into() }))
}

fn listener_with_routes(name: &str, routes: &[&str]) -> proto::Listener {
    proto::Listener {
        filter_chains: vec![proto::FilterChain {
            filters: routes
                .iter()
                .map(|route| proto::Filter {
                    name: "http_connection_manager".into(),
                    typed_config: Some(any(MANAGER_TYPE, manager(rds(route)))),
                })
                .collect(),
        }],
        ..plain_listener(name)
    }
}

fn route_to(name: &str, cluster: &str) -> proto::Route {
    proto::Route {
        name: name.into(),
        route_match: None,
        action: Some(proto::Action::Route(proto::RouteAction {
            cluster_specifier: Some(proto::ClusterSpecifier::Cluster(cluster.into())),
        })),
    }
}

fn routes(name: &str, clusters: &[&str]) -> proto::RouteConfiguration {
    proto::RouteConfiguration {
        name: name.into(),
        virtual_hosts: vec![proto::VirtualHost {
            name: format!("{}-host", name),
            domains: vec!["*".into()],
            routes: clusters.iter().map(|cluster| route_to("r", cluster)).collect(),
        }],
    }
}

fn plain_cluster(name: &str) -> proto::Cluster {
    proto::Cluster {
        name: name.into(),
        eds_cluster_config: None,
        load_assignment: None,
        transport_socket: None,
    }
}

fn assignment(cluster: &str, endpoints: &[(&str, u32)]) -> proto::ClusterLoadAssignment {
    proto::ClusterLoadAssignment {
        cluster_name: cluster.into(),
        endpoints: vec![proto::LocalityLbEndpoints {
            lb_endpoints: endpoints
                .iter()
                .map(|(address, port)| proto::LbEndpoint {
                    host_identifier: Some(proto::Endpoint {
                        address: Some(socket(address, *port)),
                    }),
                    health_status: Some(proto::HealthStatus::Healthy),
                })
                .collect(),
        }],
    }
}

fn identity() -> RouterIdentity {
    RouterIdentity {
        pod_name: "dxgate-abc".into(),
        namespace: "app".into(),
        pod_ip: "10.0.0.10".into(),
        node_name: Some("node-a".into()),
        cluster_id: "Kubernetes".into(),
        dns_domain: "svc.cluster.local".into(),
    }
}

fn client(endpoint: &str, listeners: &[&str]) -> XdsClient {
    XdsClient::new(XdsClientConfig {
        endpoint: endpoint.into(),
        identity: identity(),
        listener_names: listeners.iter().map(|name| name.to_string()).collect(),
        reconnect_delay: Duration::from_millis(250),
    })
}

fn session(listeners: &[&str]) -> (Session, DiscoveryRequest) {
    client("http://127.0.0.1:15010", listeners).start("node-1".into())
}

#[test]
fn identity_metadata_selects_dubbod_grpc_generator() {
    let identity = RouterIdentity {
        pod_name: "dxgate-abc".into(),
        namespace: "app".into(),
        pod_ip: "10.0.0.10".into(),
        node_name: Some("node-a".into()),
        cluster_id: "Kubernetes".into(),
        dns_domain: "svc.cluster.local".into(),
    };

    assert_eq!(identity.metadata().generator, "grpc");
}

#[test]
fn ads_state_builds_runtime_config_from_lds_rds_cds_and_eds() {
    let route_name = "outbound|80||orders.app.svc.cluster.local";
    let cluster_name = "outbound|8080||orders.app.svc.cluster.local";
    let listener = proto::Listener {
        name: "dxgate.app.svc.cluster.local:80".into(),
        address: Some(socket("10.96.0.10", 80)),
        api_listener: Some(proto::ApiListener {
            api_listener: Some(any(
                "type.googleapis.com/extensions.filters.network.http_connection_manager.v1.HttpConnectionManager",
                proto::HttpConnectionManager {
                    route_specifier: Some(proto::RouteSpecifier::Rds(proto::Rds {
                        route_config_name: route_name.into(),
                    })),
                },
            )),
        }),
        filter_chains: vec![],
    };
    let route = proto::RouteConfiguration {
        name: route_name.into(),
        virtual_hosts: vec![proto::VirtualHost {
            name: "orders".into(),
            domains: vec!["orders.example.com".into()],
            routes: vec![proto::Route {
                name: "orders-default".into(),
                route_match: Some(proto::RouteMatch {
                    path_specifier: Some(proto::PathSpecifier::Prefix("/".into())),
                    headers: Vec::new(),
                }),
                action: Some(proto::Action::Route(proto::RouteAction {
                    cluster_specifier: Some(proto::ClusterSpecifier::Cluster(cluster_name.into())),
                })),
            }],
        }],
    };
    let cluster = proto::Cluster {
        name: cluster_name.into(),
        eds_cluster_config: Some(proto::EdsClusterConfig { service_name: cluster_name.into() }),
        load_assignment: None,
        transport_socket: Some(proto::TransportSocket {
            typed_config: Some(any(
                "type.googleapis.com/extensions.transport_sockets.tls.v1.UpstreamTlsContext",
                proto::UpstreamTlsContext {
                    sni: "orders.app.svc.cluster.local".into(),
                    common_tls_context: Some(proto::CommonTlsContext {
                        tls_certificate_certificate_provider_instance: Some(
                            proto::CertificateProviderInstance {
                                instance_name: "workload".into(),
                            },
                        ),
                        alpn_protocols: vec!["h2".into()],
                        combined_validation_context: Some(
                            proto::CombinedCertificateValidationContext {
                                validation_context_certificate_provider_instance: Some(
                                    proto::CertificateProviderInstance {
                                        instance_name: "roots".into(),
                                    },
                                ),
                            },
                        ),
                    }),
                },
            )),
        }),
    };
    let assignment = proto::ClusterLoadAssignment {
        cluster_name: cluster_name.into(),
        endpoints: vec![proto::LocalityLbEndpoints {
            lb_endpoints: vec![proto::LbEndpoint {
                host_identifier: Some(proto::Endpoint {
                    address: Some(socket("10.244.0.20", 8080)),
                }),
                health_status: Some(proto::HealthStatus::Healthy),
            }],
        }],
    };

    let mut state = AdsState::default();
    state.set_subscription(LISTENER_TYPE, vec!["dxgate.app.svc.cluster.local:80".into()]);
    let updates = state
        .apply_response(&response(
            LISTENER_TYPE,
            proto::Resources::Listeners(vec![any(LISTENER_TYPE, listener)]),
        ))
        .unwrap();
    assert_eq!(updates.route_names, [route_name]);
    state.set_subscription(ROUTE_TYPE, updates.route_names);

    let updates = state
        .apply_response(&response(
            ROUTE_TYPE,
            proto::Resources::Routes(vec![any(ROUTE_TYPE, route)]),
        ))
        .unwrap();
    assert_eq!(updates.cluster_names, [cluster_name]);
    state.set_subscription(CLUSTER_TYPE, updates.cluster_names);

    let updates = state
        .apply_response(&response(
            CLUSTER_TYPE,
            proto::Resources::Clusters(vec![any(CLUSTER_TYPE, cluster)]),
        ))
        .unwrap();
    assert_eq!(updates.eds_names, [cluster_name]);
    state.set_subscription(ENDPOINT_TYPE, updates.eds_names);

    state
        .apply_response(&response(
            ENDPOINT_TYPE,
            proto::Resources::Assignments(vec![any(ENDPOINT_TYPE, assignment)]),
        ))
        .unwrap();

    let cfg = state.runtime_config("v1");
    cfg.validate().unwrap();
    assert_eq!(cfg.listeners[0].bind, bind("0.0.0.0:80"));
    assert_eq!(cfg.listeners[0].virtual_hosts[0].domains, ["orders.example.com"]);
    assert_eq!(cfg.clusters[0].endpoints[0].address, "10.244.0.20");
    assert_eq!(
        cfg.clusters[0].tls.as_ref().and_then(|tls| tls.sni.as_deref()),
        Some("orders.app.svc.cluster.local")
    );
    let tls = cfg.clusters[0].tls.as_ref().unwrap();
    assert_eq!(tls.certificate_provider.as_deref(), Some("workload"));
    assert_eq!(tls.validation_provider.as_deref(), Some("roots"));
    assert_eq!(tls.alpn_protocols, ["h2"]);
}

#[test]
fn types_name_kinds_of_resources() {
    assert_eq!(resource_kind(LISTENER_TYPE), ResourceKind::Listener);
    assert_eq!(resource_kind(ROUTE_TYPE), ResourceKind::Route);
    assert_eq!(resource_kind(CLUSTER_TYPE), ResourceKind::Cluster);
    assert_eq!(resource_kind(ENDPOINT_TYPE), ResourceKind::Endpoint);
    assert_eq!(resource_kind("listener.v1.Listener"), ResourceKind::Unknown);
}

#[test]
fn names_are_sorted_and_unique() {
    let names = sorted_unique(vec!["b".into(), "a".into(), "ab".into(), "b".into(), "".into()]);
    assert_eq!(names, ["", "a", "ab", "b"]);
    assert_eq!(sorted_unique(names.clone()), names);
    assert_eq!(sorted_unique(vec!["\u{10000}".into(), "\u{ffff}".into()]), ["\u{ffff}", "\u{10000}"]);
}

#[test]
fn asking_for_the_same_names_changes_nothing() {
    let mut state = AdsState::default();
    assert!(state.subscription(ROUTE_TYPE).is_empty());
    assert!(state.set_subscription(ROUTE_TYPE, vec!["b".into(), "a".into()]));
    assert_eq!(state.subscription(ROUTE_TYPE), ["a", "b"]);
    assert!(!state.set_subscription(ROUTE_TYPE, vec!["a".into(), "b".into(), "a".into()]));
    assert!(state.set_subscription(ROUTE_TYPE, vec![]));
    assert!(!state.set_subscription(ROUTE_TYPE, vec![]));
}

#[test]
fn asked_for_resources_are_replaced_and_others_stay() {
    let mut state = AdsState::default();
    let take = |state: &mut AdsState, names: &[&str]| {
        let items = names
            .iter()
            .map(|name| any(ROUTE_TYPE, routes(name, &[&format!("cluster-{}", name)])))
            .collect();
        state.apply_response(&response(ROUTE_TYPE, proto::Resources::Routes(items))).unwrap()
    };
    state.set_subscription(ROUTE_TYPE, vec!["a".into(), "b".into()]);
    assert_eq!(take(&mut state, &["a", "b", "c"]).cluster_names, ["cluster-a", "cluster-b", "cluster-c"]);
    // "a" and "b" were asked for, "c" was not.
    assert_eq!(take(&mut state, &["a"]).cluster_names, ["cluster-a", "cluster-c"]);
    // Asking for no name in particular asks for everything.
    state.set_subscription(ROUTE_TYPE, vec![]);
    assert_eq!(take(&mut state, &["d"]).cluster_names, ["cluster-d"]);
    assert!(take(&mut state, &[]).cluster_names.is_empty());
}

#[test]
fn the_last_resource_of_a_name_counts() {
    let mut state = AdsState::default();
    let updates = state
        .apply_response(&response(
            ROUTE_TYPE,
            proto::Resources::Routes(vec![
                any(ROUTE_TYPE, routes("a", &["one"])),
                any(ROUTE_TYPE, routes("a", &["two"])),
            ]),
        ))
        .unwrap();
    assert_eq!(updates.cluster_names, ["two"]);
}

#[test]
fn a_malformed_resource_stops_the_response() {
    let mut state = AdsState::default();
    let error = state
        .apply_response(&response(
            ROUTE_TYPE,
            proto::Resources::Routes(vec![
                any(ROUTE_TYPE, routes("a", &["one"])),
                malformed(ROUTE_TYPE),
                any(ROUTE_TYPE, routes("b", &["two"])),
            ]),
        ))
        .unwrap_err();
    assert_eq!(
        error,
        XdsError::Decode { type_url: ROUTE_TYPE.into(), source: "bad wire type".into() }
    );
    assert_eq!(state.cluster_names(), ["one"]);

    for resources in [
        (LISTENER_TYPE, proto::Resources::Listeners(vec![malformed(LISTENER_TYPE)])),
        (CLUSTER_TYPE, proto::Resources::Clusters(vec![malformed(CLUSTER_TYPE)])),
        (ENDPOINT_TYPE, proto::Resources::Assignments(vec![malformed(ENDPOINT_TYPE)])),
    ] {
        let error = state.apply_response(&response(resources.0, resources.1)).unwrap_err();
        assert_eq!(
            error.message(),
            format!("failed decoding {} resource: bad wire type", resources.0)
        );
    }
}

#[test]
fn clusters_and_assignments_without_names_are_passed_over() {
    let mut state = AdsState::default();
    let updates = state
        .apply_response(&response(
            CLUSTER_TYPE,
            proto::Resources::Clusters(vec![
                any(CLUSTER_TYPE, plain_cluster("")),
                any(
                    CLUSTER_TYPE,
                    proto::Cluster {
                        eds_cluster_config: Some(proto::EdsClusterConfig {
                            service_name: "elsewhere".into(),
                        }),
                        load_assignment: Some(assignment("ignored", &[("10.0.0.9", 9)])),
                        ..plain_cluster("a")
                    },
                ),
                any(
                    CLUSTER_TYPE,
                    proto::Cluster {
                        eds_cluster_config: Some(proto::EdsClusterConfig {
                            service_name: "".into(),
                        }),
                        ..plain_cluster("b")
                    },
                ),
            ]),
        ))
        .unwrap();
    assert_eq!(updates.eds_names, ["b", "elsewhere"]);
    let updates = state
        .apply_response(&response(
            ENDPOINT_TYPE,
            proto::Resources::Assignments(vec![any(ENDPOINT_TYPE, assignment("", &[("x", 1)]))]),
        ))
        .unwrap();
    assert_eq!(updates, DiscoveryUpdates::default());
    let cfg = state.runtime_config("");
    assert_eq!(cfg.version, "ads");
    let names: Vec<&str> = cfg.clusters.iter().map(|cluster| cluster.name.as_str()).collect();
    assert_eq!(names, ["a", "b"]);
    // All endpoints were asked for, so the ones that came along are gone.
    assert!(cfg.clusters[0].endpoints.is_empty());
}

#[test]
fn a_response_of_an_unknown_type_changes_nothing() {
    let mut state = AdsState::default();
    state.set_subscription(ROUTE_TYPE, vec!["a".into()]);
    state
        .apply_response(&response(
            ROUTE_TYPE,
            proto::Resources::Routes(vec![any(ROUTE_TYPE, routes("a", &["one"]))]),
        ))
        .unwrap();
    let before = state.runtime_config("v");
    let updates = state.apply_response(&response("other", proto::Resources::Unknown)).unwrap();
    assert_eq!(updates, DiscoveryUpdates::default());
    assert_eq!(state.runtime_config("v"), before);
    assert_eq!(state.cluster_names(), ["one"]);
}

#[test]
fn only_unknown_clusters_make_a_conflict() {
    let mut state = AdsState::default();
    state
        .apply_response(&response(
            LISTENER_TYPE,
            proto::Resources::Listeners(vec![
                any(LISTENER_TYPE, listener_with_routes("b:443", &["r", "r", ""])),
                any(LISTENER_TYPE, listener_with_routes("a:443", &["r"])),
                any(LISTENER_TYPE, plain_listener("plain")),
            ]),
        ))
        .unwrap();
    assert_eq!(state.route_names(), ["r"]);
    state
        .apply_response(&response(
            ROUTE_TYPE,
            proto::Resources::Routes(vec![any(ROUTE_TYPE, routes("r", &["x", "y"]))]),
        ))
        .unwrap();
    state
        .apply_response(&response(
            CLUSTER_TYPE,
            proto::Resources::Clusters(vec![any(CLUSTER_TYPE, plain_cluster("x"))]),
        ))
        .unwrap();
    let cfg = state.runtime_config("v");
    let bound: Vec<(&str, u16, ListenerProtocol)> = cfg
        .listeners
        .iter()
        .map(|listener| (listener.name.as_str(), listener.bind.port, listener.protocol))
        .collect();
    assert_eq!(
        bound,
        [
            ("a:443", 443, ListenerProtocol::Https),
            ("b:443", 443, ListenerProtocol::Https),
            ("plain", 80, ListenerProtocol::Http),
        ]
    );
    let kinds: Vec<String> =
        cfg.validate().unwrap_err().into_iter().map(|conflict| conflict.message).collect();
    assert_eq!(
        kinds,
        ["route r references missing cluster y", "route r references missing cluster y"]
    );
    state
        .apply_response(&response(
            CLUSTER_TYPE,
            proto::Resources::Clusters(vec![
                any(CLUSTER_TYPE, plain_cluster("x")),
                any(CLUSTER_TYPE, plain_cluster("y")),
            ]),
        ))
        .unwrap();
    assert!(state.runtime_config("v").validate().is_ok());
}

#[test]
fn known_resources_have_names_whatever_came_in() {
    let mut state = AdsState::default();
    state.set_subscription(LISTENER_TYPE, vec!["".into()]);
    state
        .apply_response(&response(
            LISTENER_TYPE,
            proto::Resources::Listeners(vec![
                any(LISTENER_TYPE, listener_with_routes("", &["r"])),
                any(LISTENER_TYPE, listener_with_routes("b:443", &["r"])),
                malformed(LISTENER_TYPE),
            ]),
        ))
        .unwrap_err();
    state
        .apply_response(&response(
            ROUTE_TYPE,
            proto::Resources::Routes(vec![
                any(ROUTE_TYPE, routes("r", &["", "y"])),
                malformed(ROUTE_TYPE),
            ]),
        ))
        .unwrap_err();
    state
        .apply_response(&response(
            CLUSTER_TYPE,
            proto::Resources::Clusters(vec![
                any(CLUSTER_TYPE, plain_cluster("")),
                any(CLUSTER_TYPE, plain_cluster("z")),
                any(CLUSTER_TYPE, plain_cluster("x")),
                malformed(CLUSTER_TYPE),
            ]),
        ))
        .unwrap_err();
    let cfg = state.runtime_config("v");
    let listeners: Vec<(&str, String)> = cfg
        .listeners
        .iter()
        .map(|listener| (listener.name.as_str(), listener.bind.text()))
        .collect();
    assert_eq!(
        listeners,
        [("", "0.0.0.0:80".to_string()), ("b:443", "0.0.0.0:443".to_string())]
    );
    let clusters: Vec<&str> = cfg.clusters.iter().map(|cluster| cluster.name.as_str()).collect();
    assert_eq!(clusters, ["x", "z"]);
    for listener in &cfg.listeners {
        assert!(listener.tls_secret.is_none());
        for route in &listener.virtual_hosts[0].routes {
            assert_eq!(route.weighted_clusters[0].name, "y");
        }
    }
    let conflicts = cfg.validate().unwrap_err();
    assert_eq!(conflicts.len(), 2);
    assert!(conflicts.iter().all(|conflict| conflict.kind == "missing-cluster"));
}

#[test]
fn virtual_hosts_of_a_listener_come_before_those_of_its_routes() {
    let inline = Some(proto::RouteSpecifier::RouteConfig(routes("inline", &["x"])));
    let listener = proto::Listener {
        api_listener: Some(proto::ApiListener {
            api_listener: Some(any("whatever", manager(rds("late")))),
        }),
        filter_chains: vec![proto::FilterChain {
            filters: vec![
                proto::Filter { name: "other".into(), typed_config: Some(malformed("other")) },
                proto::Filter {
                    name: "my.http_connection_manager.x".into(),
                    typed_config: None,
                },
                proto::Filter {
                    name: "named".into(),
                    typed_config: Some(any(MANAGER_TYPE, manager(inline))),
                },
                proto::Filter {
                    name: "named".into(),
                    typed_config: Some(any(MANAGER_TYPE, manager(None))),
                },
            ],
        }],
        ..plain_listener("l")
    };
    assert_eq!(http_connection_managers(&listener).unwrap().len(), 3);
    let mut state = AdsState::default();
    state
        .apply_response(&response(
            LISTENER_TYPE,
            proto::Resources::Listeners(vec![any(LISTENER_TYPE, listener)]),
        ))
        .unwrap();
    state
        .apply_response(&response(
            ROUTE_TYPE,
            proto::Resources::Routes(vec![any(ROUTE_TYPE, routes("late", &["y"]))]),
        ))
        .unwrap();
    // Clusters of virtual hosts that listeners bring along are not asked for.
    assert_eq!(state.cluster_names(), ["y"]);
    let cfg = state.runtime_config("v");
    let hosts: Vec<&str> =
        cfg.listeners[0].virtual_hosts.iter().map(|host| host.name.as_str()).collect();
    assert_eq!(hosts, ["inline-host", "late-host"]);
}

#[test]
fn a_malformed_connection_manager_is_an_error() {
    let listener = proto::Listener {
        filter_chains: vec![proto::FilterChain {
            filters: vec![proto::Filter {
                name: "x".into(),
                typed_config: Some(malformed(MANAGER_TYPE)),
            }],
        }],
        ..plain_listener("l")
    };
    assert_eq!(
        listener_snapshot(&listener).unwrap_err(),
        XdsError::Decode { type_url: MANAGER_TYPE.into(), source: "bad wire type".into() }
    );
    assert!(is_http_connection_manager("a.http_connection_manager", &malformed("")));
    assert!(is_http_connection_manager("", &malformed(MANAGER_TYPE)));
    assert!(!is_http_connection_manager("tcp_proxy", &malformed("HttpConnectionManager")));
}

#[test]
fn the_port_of_a_listener_is_in_its_address_or_its_name() {
    let port = |name: &str, address: Option<proto::Address>| {
        listener_port(&proto::Listener { address, ..plain_listener(name) })
    };
    assert_eq!(port("a:81", Some(socket("10.0.0.1", 8080))), Some(8080));
    assert_eq!(port("a:81", Some(socket("10.0.0.1", 65536))), Some(81));
    assert_eq!(port("a:b:+82", None), Some(82));
    assert_eq!(port("a:65536", None), None);
    assert_eq!(port("a", None), None);
    assert_eq!(port("a:", None), None);
    assert_eq!(
        socket_address(Some(&socket("10.0.0.1", 80))),
        Some(("10.0.0.1".to_string(), 80))
    );
    assert_eq!(socket_address(Some(&proto::Address { socket_address: None })), None);
    assert_eq!(socket_address(None), None);
    let unnumbered = proto::Address {
        socket_address: Some(proto::SocketAddress { address: "a".into(), port_value: None }),
    };
    assert_eq!(socket_address(Some(&unnumbered)), None);
}

#[test]
fn endpoints_are_sorted_by_address_and_port() {
    let mut message = assignment(
        "c",
        &[("10.0.0.2", 80), ("10.0.0.10", 80), ("10.0.0.2", 79), ("10.0.0.2", 80), ("x", 70000)],
    );
    message.endpoints[0].lb_endpoints[3].health_status = Some(proto::HealthStatus::Draining);
    message.endpoints[0].lb_endpoints.push(proto::LbEndpoint {
        host_identifier: None,
        health_status: None,
    });
    let endpoints: Vec<(String, u16, bool)> = endpoints_from_assignment(&message)
        .into_iter()
        .map(|endpoint| (endpoint.address, endpoint.port, endpoint.healthy))
        .collect();
    assert_eq!(
        endpoints,
        [
            ("10.0.0.10".to_string(), 80, true),
            ("10.0.0.2".to_string(), 79, true),
            ("10.0.0.2".to_string(), 80, true),
            ("10.0.0.2".to_string(), 80, false),
        ]
    );
}

#[test]
fn health_is_told_by_status() {
    assert!(endpoint_is_healthy(None));
    assert!(endpoint_is_healthy(Some(proto::HealthStatus::Unknown)));
    assert!(endpoint_is_healthy(Some(proto::HealthStatus::Healthy)));
    assert!(endpoint_is_healthy(Some(proto::HealthStatus::Degraded)));
    assert!(!endpoint_is_healthy(Some(proto::HealthStatus::Unhealthy)));
    assert!(!endpoint_is_healthy(Some(proto::HealthStatus::Draining)));
    assert!(!endpoint_is_healthy(Some(proto::HealthStatus::Timeout)));
}

#[test]
fn routes_without_a_use_are_left_out() {
    assert!(convert_route(&proto::Route { action: None, ..route_to("r", "c") }).is_none());
    assert!(convert_route(&proto::Route {
        action: Some(proto::Action::NonForwardingAction),
        ..route_to("r", "c")
    })
    .is_none());
    assert!(convert_route(&route_to("r", "")).is_none());
    assert!(convert_route(&proto::Route {
        route_match: Some(proto::RouteMatch {
            path_specifier: Some(proto::PathSpecifier::SafeRegex),
            headers: vec![],
        }),
        ..route_to("r", "c")
    })
    .is_none());
    let route = convert_route(&route_to("r", "c")).unwrap();
    assert_eq!((route.name.as_str(), route.matches.len()), ("r", 0));
    assert_eq!((route.weighted_clusters[0].name.as_str(), route.weighted_clusters[0].weight), ("c", 100));
}

#[test]
fn weights_default_to_one() {
    let weight = |name: &str, weight: Option<u32>| proto::ClusterWeight {
        name: name.into(),
        weight,
    };
    let clusters = convert_route_action(&proto::RouteAction {
        cluster_specifier: Some(proto::ClusterSpecifier::WeightedClusters(vec![
            weight("a", Some(7)),
            weight("", Some(9)),
            weight("b", None),
            weight("c", Some(0)),
        ])),
    });
    let pairs: Vec<(&str, u32)> =
        clusters.iter().map(|cluster| (cluster.name.as_str(), cluster.weight)).collect();
    assert_eq!(pairs, [("a", 7), ("b", 1), ("c", 0)]);
    assert!(convert_route_action(&proto::RouteAction { cluster_specifier: None }).is_empty());
}

#[test]
fn matches_are_converted() {
    let header = |name: &str, specifier| proto::HeaderMatcher {
        name: name.into(),
        header_match_specifier: specifier,
    };
    let exact = Some(proto::HeaderMatchSpecifier::ExactMatch("v".into()));
    let converted = convert_route_match(&proto::RouteMatch {
        path_specifier: Some(proto::PathSpecifier::Path("/p".into())),
        headers: vec![header("a", exact), header("b", None)],
    })
    .unwrap();
    assert_eq!(converted.path, PathMatch::Exact("/p".into()));
    assert_eq!(converted.headers, [HeaderMatch { name: "a".into(), value: "v".into() }]);
    let open = convert_route_match(&proto::RouteMatch { path_specifier: None, headers: vec![] });
    assert_eq!(open.unwrap().path, PathMatch::Prefix("/".into()));
    assert!(convert_route_match(&proto::RouteMatch {
        path_specifier: None,
        headers: vec![header("a", Some(proto::HeaderMatchSpecifier::SafeRegexMatch))],
    })
    .is_none());
}

#[test]
fn tls_settings_come_from_the_transport_socket() {
    let with_socket = |any: Option<proto::Any<proto::UpstreamTlsContext>>| proto::Cluster {
        transport_socket: Some(proto::TransportSocket { typed_config: any }),
        ..plain_cluster("outbound|80||orders.local")
    };
    let context = |sni: &str| proto::UpstreamTlsContext {
        sni: sni.into(),
        common_tls_context: None,
    };
    assert!(upstream_tls_from_cluster(&plain_cluster("c")).is_none());
    assert!(upstream_tls_from_cluster(&with_socket(None)).is_none());
    assert!(upstream_tls_from_cluster(&with_socket(Some(any("other", context("a"))))).is_none());
    assert!(upstream_tls_from_cluster(&with_socket(Some(malformed(TLS_TYPE)))).is_none());
    let tls = upstream_tls_from_cluster(&with_socket(Some(any(TLS_TYPE, context(""))))).unwrap();
    assert_eq!(tls.sni.as_deref(), Some("orders.local"));
    assert_eq!((tls.certificate_provider, tls.validation_provider), (None, None));
    let tls = upstream_tls_from_cluster(&with_socket(Some(any(TLS_TYPE, context("b"))))).unwrap();
    assert_eq!(tls.sni.as_deref(), Some("b"));
    assert_eq!(cluster_authority("a|b|c|d|e"), Some("d".to_string()));
    assert_eq!(cluster_authority("a|b|c|"), None);
    assert_eq!(cluster_authority("a|b|c"), None);
    assert_eq!(first_non_empty("".into(), Some("f".into())), Some("f".to_string()));
    assert_eq!(first_non_empty("v".into(), Some("f".into())), Some("v".to_string()));
}

#[test]
fn an_exchange_starts_with_the_configured_listeners() {
    let (_, request) = session(&["b:80", "a:80", "b:80"]);
    assert_eq!(request.type_url, LISTENER_TYPE);
    assert_eq!(request.resource_names, ["a:80", "b:80"]);
    assert_eq!((request.version_info.as_str(), request.response_nonce.as_str()), ("", ""));
    assert_eq!(request.node.id, "node-1");
    assert_eq!(request.node.cluster, "Kubernetes");
    let fields: Vec<(&str, &str)> = request
        .node
        .metadata
        .iter()
        .map(|(name, value)| (name.as_str(), value.as_str()))
        .collect();
    assert_eq!(
        fields,
        [
            ("GENERATOR", "grpc"),
            ("CLUSTER_ID", "Kubernetes"),
            ("NAMESPACE", "app"),
            ("KUBE_NODE_NAME", "node-a"),
        ]
    );
}

#[test]
fn responses_are_acknowledged_and_followed() {
    let (mut session, _) = session(&["l:80"]);
    let listeners = || {
        response(
            LISTENER_TYPE,
            proto::Resources::Listeners(vec![any(
                LISTENER_TYPE,
                listener_with_routes("l:80", &["r2", "r1"]),
            )]),
        )
    };
    let progress = session.on_response(&listeners()).unwrap();
    let sent: Vec<(&str, Vec<String>, &str, &str)> = progress
        .requests
        .iter()
        .map(|request| {
            (
                request.type_url.as_str(),
                request.resource_names.clone(),
                request.version_info.as_str(),
                request.response_nonce.as_str(),
            )
        })
        .collect();
    assert_eq!(
        sent,
        [
            (LISTENER_TYPE, vec!["l:80".to_string()], "v1", "nonce"),
            (ROUTE_TYPE, vec!["r1".to_string(), "r2".to_string()], "", ""),
        ]
    );
    let config = progress.config.unwrap();
    assert_eq!(config.version, "v1");
    // The routes are asked for already.
    assert_eq!(session.on_response(&listeners()).unwrap().requests.len(), 1);

    let progress = session
        .on_response(&response(
            ROUTE_TYPE,
            proto::Resources::Routes(vec![any(ROUTE_TYPE, routes("r1", &["x"]))]),
        ))
        .unwrap();
    assert_eq!(progress.requests[1].type_url, CLUSTER_TYPE);
    assert_eq!(progress.requests[1].resource_names, ["x"]);
    // The cluster is not known yet.
    assert!(progress.config.is_none());

    let progress = session
        .on_response(&response(
            CLUSTER_TYPE,
            proto::Resources::Clusters(vec![any(CLUSTER_TYPE, plain_cluster("x"))]),
        ))
        .unwrap();
    assert_eq!(progress.requests[1].type_url, ENDPOINT_TYPE);
    let config = progress.config.unwrap();
    let mut state = ProxyState::new(RuntimeConfig::empty("bootstrap"));
    state.apply_config(config).unwrap();
    assert!(state.readiness().ready);

    let progress = session
        .on_response(&response(
            ENDPOINT_TYPE,
            proto::Resources::Assignments(vec![any(
                ENDPOINT_TYPE,
                assignment("x", &[("10.0.0.1", 80)]),
            )]),
        ))
        .unwrap();
    assert_eq!(progress.requests.len(), 1);
    assert_eq!(progress.requests[0].resource_names, ["x"]);
    assert_eq!(progress.config.unwrap().clusters[0].endpoints[0].address, "10.0.0.1");
}

#[test]
fn a_malformed_response_is_not_acknowledged() {
    let (mut session, _) = session(&["l:80"]);
    let error = session
        .on_response(&response(
            LISTENER_TYPE,
            proto::Resources::Listeners(vec![malformed(LISTENER_TYPE)]),
        ))
        .unwrap_err();
    assert!(matches!(error, XdsError::Decode { .. }));
    assert!(!error.is_final());
}

#[test]
fn a_response_of_an_unknown_type_is_acknowledged() {
    let (mut session, _) = session(&["l:80"]);
    let progress = session.on_response(&response("other", proto::Resources::Unknown)).unwrap();
    assert_eq!(progress.requests.len(), 1);
    assert_eq!(progress.requests[0].type_url, "other");
    assert!(progress.requests[0].resource_names.is_empty());
}

#[test]
fn only_a_changed_configuration_is_handed_on() {
    let current = RuntimeConfig::empty("v1");
    assert!(publication(Some(RuntimeConfig::empty("v1")), &current).is_none());
    assert_eq!(
        publication(Some(RuntimeConfig::empty("v2")), &current),
        Some(RuntimeConfig::empty("v2"))
    );
    assert!(publication(None, &current).is_none());
}

#[test]
fn an_address_that_is_no_address_is_reported() {
    assert_eq!(client("http://127.0.0.1:15010", &[]).endpoint().unwrap(), "http://127.0.0.1:15010");
    let odd = client("not a uri", &[]);
    let error = odd.endpoint().unwrap_err();
    assert_eq!(error.message(), "invalid xDS endpoint not a uri: invalid URI");
    assert!(client("", &[]).endpoint().is_err());
    assert_eq!(
        odd.checked_endpoint(Err("why".into())).unwrap_err().message(),
        "invalid xDS endpoint not a uri: why"
    );
    assert_eq!(odd.checked_endpoint(Ok(())).unwrap(), "not a uri");
    assert!(matches!(
        odd.after_attempt(Err(error)),
        AfterAttempt::Fail(XdsError::InvalidEndpoint { .. })
    ));
}

#[test]
fn other_failures_are_tried_again() {
    let client = client("http://a", &[]);
    let delay = Duration::from_millis(250);
    for outcome in [
        Ok(()),
        Err(client.connect_error("refused".into())),
        Err(XdsError::StreamOpen("s".into())),
        Err(XdsError::StreamReceive("s".into())),
        Err(XdsError::RequestChannelClosed),
        Err(XdsError::RuntimeConfigClosed),
        Err(XdsError::Decode { type_url: "t".into(), source: "s".into() }),
    ] {
        assert!(matches!(client.after_attempt(outcome), AfterAttempt::Reconnect(d) if d == delay));
    }
}

#[test]
fn failures_are_reported_in_words() {
    let client = client("http://a", &[]);
    assert_eq!(
        client.connect_error("refused".into()).message(),
        "failed connecting to xDS endpoint http://a: refused"
    );
    assert_eq!(XdsError::StreamOpen("s".into()).message(), "failed opening ADS stream: s");
    assert_eq!(XdsError::StreamReceive("s".into()).message(), "ADS stream receive failed: s");
    assert_eq!(XdsError::RequestChannelClosed.message(), "ADS request channel is closed");
    assert_eq!(XdsError::RuntimeConfigClosed.message(), "runtime config watcher is closed");
    assert_eq!(
        XdsError::Decode { type_url: "t".into(), source: "s".into() }.message(),
        "failed decoding t resource: s"
    );
}
