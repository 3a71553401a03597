//! From xDS messages to the parts of a runtime configuration.

use crate::config::{
    Endpoint, EndpointView, HeaderMatch, HeaderMatchView, PathMatch, PathMatchView, Route,
    RouteMatch, RouteMatchView, RouteView, VirtualHost, VirtualHostView, WeightedCluster,
    WeightedClusterView,
};
use crate::names::{position, precedes, Position};
use crate::proto;
use crate::text::{parse_port, port_number, split, split_at_each};
use vstd::prelude::*;
use vstd::string::*;

verus! {

/// The address and the port of a socket address whose port fits in sixteen
/// bits.
pub open spec fn socket_of(address: Option<proto::AddressView>) -> Option<(Seq<char>, u16)> {
    match address {
        Some(address) => match address.socket_address {
            Some(socket) => match socket.port_value {
                Some(port) => if port <= u16::MAX {
                    Some((socket.address, port as u16))
                } else {
                    None
                },
                None => None,
            },
            None => None,
        },
        None => None,
    }
}

/// The address and the port of a socket address.
pub fn socket_address(address: Option<&proto::Address>) -> (socket: Option<(String, u16)>)
    ensures
        socket.deep_view() == socket_of(address.deep_view()),
{
    match address {
        Some(address) => match &address.socket_address {
            Some(socket) => match socket.port_value {
                Some(port) => if port <= 65535 {
                    Some((socket.address.clone(), port as u16))
                } else {
                    None
                },
                None => None,
            },
            None => None,
        },
        None => None,
    }
}

/// The port of a listener: that of its address, or else what follows the last
/// colon of its name.
pub open spec fn port_of_listener(listener: proto::ListenerView) -> Option<u16> {
    match socket_of(listener.address) {
        Some(socket) => Some(socket.1),
        None => {
            let parts = split_at_each(listener.name, ':');
            if parts.len() > 1 {
                port_number(parts.last())
            } else {
                None
            }
        },
    }
}

/// The port of a listener.
pub fn listener_port(listener: &proto::Listener) -> (port: Option<u16>)
    ensures
        port == port_of_listener(listener.deep_view()),
{
    match socket_address(listener.address.as_ref()) {
        Some(socket) => Some(socket.1),
        None => {
            let parts: Vec<String> = split(listener.name.as_str(), ':');
            if parts.len() > 1 {
                let last: usize = parts.len() - 1;
                assert(parts.deep_view().last() == parts@[last as int]@);
                parse_port(parts[last].as_str())
            } else {
                None
            }
        },
    }
}

/// Whether a health lets an endpoint take requests.
pub open spec fn serves(status: Option<proto::HealthStatus>) -> bool {
    match status {
        Some(proto::HealthStatus::Unhealthy) => false,
        Some(proto::HealthStatus::Draining) => false,
        Some(proto::HealthStatus::Timeout) => false,
        _ => true,
    }
}

/// Whether a health lets an endpoint take requests. A number without a meaning
/// counts as an unknown health.
pub fn endpoint_is_healthy(status: Option<proto::HealthStatus>) -> (healthy: bool)
    ensures
        healthy == serves(status),
{
    match status.unwrap_or(proto::HealthStatus::Unknown) {
        proto::HealthStatus::Unhealthy => false,
        proto::HealthStatus::Draining => false,
        proto::HealthStatus::Timeout => false,
        _ => true,
    }
}

/// The order of endpoints: by address, then by port.
pub open spec fn endpoint_before(a: EndpointView, b: EndpointView) -> bool {
    precedes(a.address, b.address) || (a.address == b.address && a.port < b.port)
}

/// A list with an endpoint put behind all those that it does not come before.
pub open spec fn with_endpoint(sorted: Seq<EndpointView>, endpoint: EndpointView) -> Seq<
    EndpointView,
>
    decreases sorted.len(),
{
    if sorted.len() > 0 && endpoint_before(endpoint, sorted.last()) {
        with_endpoint(sorted.drop_last(), endpoint).push(sorted.last())
    } else {
        sorted.push(endpoint)
    }
}

/// The endpoints by address and port. Those with the same address and port
/// keep their order.
pub open spec fn by_address(endpoints: Seq<EndpointView>) -> Seq<EndpointView>
    decreases endpoints.len(),
{
    if endpoints.len() == 0 {
        Seq::<EndpointView>::empty()
    } else {
        with_endpoint(by_address(endpoints.drop_last()), endpoints.last())
    }
}

/// The endpoint of a message, where it has a usable address.
pub open spec fn endpoint_of() -> spec_fn(proto::LbEndpointView) -> Option<EndpointView> {
    |lb: proto::LbEndpointView|
        match lb.host_identifier {
            Some(endpoint) => match socket_of(endpoint.address) {
                Some(socket) => Some(
                    EndpointView {
                        address: socket.0,
                        port: socket.1,
                        healthy: serves(lb.health_status),
                        node_name: None,
                    },
                ),
                None => None,
            },
            None => None,
        }
}

/// The endpoints of a locality, in the order of the message.
pub open spec fn endpoints_of_locality() -> spec_fn(proto::LocalityLbEndpointsView) -> Seq<
    EndpointView,
> {
    |locality: proto::LocalityLbEndpointsView| locality.lb_endpoints.filter_map(endpoint_of())
}

/// The endpoints of an assignment, by address and port.
pub open spec fn assigned(assignment: proto::ClusterLoadAssignmentView) -> Seq<EndpointView> {
    by_address(assignment.endpoints.flat_map(endpoints_of_locality()))
}

/// Putting an endpoint at the place after those it does not come before.
proof fn lemma_with_endpoint(sorted: Seq<EndpointView>, endpoint: EndpointView, at: int)
    requires
        0 <= at <= sorted.len(),
        forall|k: int| at <= k < sorted.len() ==> endpoint_before(endpoint, #[trigger] sorted[k]),
        at > 0 ==> !endpoint_before(endpoint, sorted[at - 1]),
    ensures
        with_endpoint(sorted, endpoint) == sorted.insert(at, endpoint),
    decreases sorted.len(),
{
    if at == sorted.len() {
        assert(sorted.insert(at, endpoint) =~= sorted.push(endpoint));
    } else {
        assert(endpoint_before(endpoint, sorted[sorted.len() - 1]));
        lemma_with_endpoint(sorted.drop_last(), endpoint, at);
        assert(sorted.insert(at, endpoint) =~= sorted.drop_last().insert(at, endpoint).push(
            sorted.last(),
        ));
    }
}

/// Whether one endpoint comes before another.
fn comes_before(a: &Endpoint, b: &Endpoint) -> (before: bool)
    ensures
        before == endpoint_before(a.deep_view(), b.deep_view()),
{
    match position(a.address.as_str(), b.address.as_str()) {
        Position::Before => true,
        Position::Same => a.port < b.port,
        Position::After => false,
    }
}

/// Puts an endpoint behind all those that it does not come before.
fn insert_endpoint(sorted: &mut Vec<Endpoint>, endpoint: Endpoint)
    ensures
        final(sorted).deep_view() == with_endpoint(old(sorted).deep_view(), endpoint.deep_view()),
{
    let ghost before = sorted.deep_view();
    let ghost new = endpoint.deep_view();
    let mut at: usize = sorted.len();
    while at > 0 && comes_before(&endpoint, &sorted[at - 1])
        invariant
            at <= sorted.len(),
            before == sorted.deep_view(),
            new == endpoint.deep_view(),
            forall|k: int| at <= k < sorted.len() ==> endpoint_before(new, #[trigger] before[k]),
        decreases at,
    {
        assert(before[at - 1] == sorted@[at - 1].deep_view());
        at -= 1;
    }
    proof {
        if at > 0 {
            assert(before[at - 1] == sorted@[at - 1].deep_view());
        }
        lemma_with_endpoint(before, new, at as int);
    }
    sorted.insert(at, endpoint);
    assert(sorted.deep_view() =~= before.insert(at as int, new));
}

/// The endpoint of a message, where it has a usable address.
fn convert_endpoint(lb: &proto::LbEndpoint) -> (endpoint: Option<Endpoint>)
    ensures
        endpoint.deep_view() == endpoint_of()(lb.deep_view()),
{
    match &lb.host_identifier {
        Some(host) => match socket_address(host.address.as_ref()) {
            Some(socket) => Some(
                Endpoint {
                    address: socket.0,
                    port: socket.1,
                    healthy: endpoint_is_healthy(lb.health_status),
                    node_name: None,
                },
            ),
            None => None,
        },
        None => None,
    }
}

/// The endpoints of an assignment, by address and port.
pub fn endpoints_from_assignment(assignment: &proto::ClusterLoadAssignment) -> (endpoints: Vec<
    Endpoint,
>)
    ensures
        endpoints.deep_view() == assigned(assignment.deep_view()),
{
    let mut endpoints: Vec<Endpoint> = Vec::new();
    let localities: &Vec<proto::LocalityLbEndpoints> = &assignment.endpoints;
    let ghost all = localities.deep_view();
    let ghost mut raw = Seq::<EndpointView>::empty();
    let mut i: usize = 0;
    assert(all.take(0) =~= Seq::<proto::LocalityLbEndpointsView>::empty());
    assert(all.take(0).flat_map(endpoints_of_locality()) =~= raw);
    assert(endpoints.deep_view() =~= by_address(raw));
    while i < localities.len()
        invariant
            i <= localities.len(),
            all == localities.deep_view(),
            raw == all.take(i as int).flat_map(endpoints_of_locality()),
            endpoints.deep_view() == by_address(raw),
        decreases localities.len() - i,
    {
        let ghost earlier = raw;
        let members: &Vec<proto::LbEndpoint> = &localities[i].lb_endpoints;
        let ghost here = members.deep_view();
        let mut j: usize = 0;
        assert(here.take(0) =~= Seq::<proto::LbEndpointView>::empty());
        assert(earlier + here.take(0).filter_map(endpoint_of()) =~= earlier);
        while j < members.len()
            invariant
                j <= members.len(),
                here == members.deep_view(),
                raw == earlier + here.take(j as int).filter_map(endpoint_of()),
                endpoints.deep_view() == by_address(raw),
            decreases members.len() - j,
        {
            proof {
                assert(here[j as int] == members@[j as int].deep_view());
                here.lemma_filter_map_take_succ(endpoint_of(), j as int);
            }
            match convert_endpoint(&members[j]) {
                Some(endpoint) => {
                    let ghost new = endpoint.deep_view();
                    insert_endpoint(&mut endpoints, endpoint);
                    proof {
                        assert(raw.push(new).drop_last() =~= raw);
                        assert(raw.push(new) =~= earlier + here.take(j as int + 1).filter_map(
                            endpoint_of(),
                        ));
                        raw = raw.push(new);
                    }
                },
                None => {
                    assert(raw =~= earlier + here.take(j as int + 1).filter_map(endpoint_of()));
                },
            }
            j += 1;
        }
        proof {
            assert(here.take(j as int) =~= here);
            assert(all[i as int] == localities@[i as int].deep_view());
            all.lemma_flat_map_take_append(endpoints_of_locality(), i as int);
        }
        i += 1;
    }
    assert(all.take(i as int) =~= all);
    endpoints
}

/// The condition that a header matcher stands for: nothing where it does not
/// say how to compare.
pub open spec fn exact_header() -> spec_fn(proto::HeaderMatcherView) -> Option<HeaderMatchView> {
    |header: proto::HeaderMatcherView|
        match header.header_match_specifier {
            Some(proto::HeaderMatchSpecifierView::ExactMatch(value)) => Some(
                HeaderMatchView { name: header.name, value },
            ),
            _ => None,
        }
}

/// Whether a header is compared by a regular expression.
pub open spec fn header_by_regex(header: proto::HeaderMatcherView) -> bool {
    header.header_match_specifier == Some(proto::HeaderMatchSpecifierView::SafeRegexMatch)
}

/// The condition of a route. There is none where a regular expression would
/// have to be matched.
pub open spec fn converted_match(route_match: proto::RouteMatchView) -> Option<RouteMatchView> {
    let headers = route_match.headers.filter_map(exact_header());
    if exists|i: int|
        0 <= i < route_match.headers.len() && header_by_regex(#[trigger] route_match.headers[i]) {
        None
    } else {
        match route_match.path_specifier {
            Some(proto::PathSpecifierView::Prefix(prefix)) => Some(
                RouteMatchView { path: PathMatchView::Prefix(prefix), headers },
            ),
            Some(proto::PathSpecifierView::Path(path)) => Some(
                RouteMatchView { path: PathMatchView::Exact(path), headers },
            ),
            Some(proto::PathSpecifierView::SafeRegex) => None,
            None => Some(RouteMatchView { path: PathMatchView::Prefix("/"@), headers }),
        }
    }
}

/// The condition of a route.
pub fn convert_route_match(route_match: &proto::RouteMatch) -> (converted: Option<RouteMatch>)
    ensures
        converted.deep_view() == converted_match(route_match.deep_view()),
{
    let path: PathMatch = match &route_match.path_specifier {
        Some(proto::PathSpecifier::Prefix(prefix)) => PathMatch::Prefix(prefix.clone()),
        Some(proto::PathSpecifier::Path(path)) => PathMatch::Exact(path.clone()),
        Some(proto::PathSpecifier::SafeRegex) => {
            return None;
        },
        None => PathMatch::Prefix("/".to_owned()),
    };
    let mut headers: Vec<HeaderMatch> = Vec::new();
    let ghost all = route_match.headers.deep_view();
    let mut i: usize = 0;
    assert(all.take(0) =~= Seq::<proto::HeaderMatcherView>::empty());
    assert(headers.deep_view() =~= all.take(0).filter_map(exact_header()));
    while i < route_match.headers.len()
        invariant
            i <= route_match.headers.len(),
            all == route_match.headers.deep_view(),
            headers.deep_view() == all.take(i as int).filter_map(exact_header()),
            forall|k: int| 0 <= k < i ==> !header_by_regex(#[trigger] all[k]),
        decreases route_match.headers.len() - i,
    {
        let header: &proto::HeaderMatcher = &route_match.headers[i];
        let ghost before = headers.deep_view();
        proof {
            assert(all[i as int] == header.deep_view());
            all.lemma_filter_map_take_succ(exact_header(), i as int);
        }
        match &header.header_match_specifier {
            Some(proto::HeaderMatchSpecifier::ExactMatch(value)) => {
                headers.push(HeaderMatch { name: header.name.clone(), value: value.clone() });
                assert(headers.deep_view() =~= before + seq![
                    HeaderMatchView { name: header.name@, value: value@ },
                ]);
            },
            Some(proto::HeaderMatchSpecifier::SafeRegexMatch) => {
                assert(header_by_regex(route_match.deep_view().headers[i as int]));
                return None;
            },
            None => {
                assert(headers.deep_view() =~= before + Seq::<HeaderMatchView>::empty());
            },
        }
        i += 1;
    }
    assert(all.take(i as int) =~= all);
    Some(RouteMatch { path, headers })
}

/// A destination with a name. It has weight one where the message gives none.
pub open spec fn weighted_of() -> spec_fn(proto::ClusterWeightView) -> Option<
    WeightedClusterView,
> {
    |cluster: proto::ClusterWeightView|
        if cluster.name.len() == 0 {
            None
        } else {
            Some(
                WeightedClusterView {
                    name: cluster.name,
                    weight: match cluster.weight {
                        Some(weight) => weight,
                        None => 1,
                    },
                },
            )
        }
}

/// The destinations of a route.
pub open spec fn converted_action(action: proto::RouteActionView) -> Seq<WeightedClusterView> {
    match action.cluster_specifier {
        Some(proto::ClusterSpecifierView::Cluster(name)) => if name.len() == 0 {
            Seq::<WeightedClusterView>::empty()
        } else {
            seq![WeightedClusterView { name, weight: 100 }]
        },
        Some(proto::ClusterSpecifierView::WeightedClusters(clusters)) => clusters.filter_map(
            weighted_of(),
        ),
        None => Seq::<WeightedClusterView>::empty(),
    }
}

/// The destinations of a route.
pub fn convert_route_action(action: &proto::RouteAction) -> (clusters: Vec<WeightedCluster>)
    ensures
        clusters.deep_view() == converted_action(action.deep_view()),
{
    let mut out: Vec<WeightedCluster> = Vec::new();
    assert(out.deep_view() =~= Seq::<WeightedClusterView>::empty());
    match &action.cluster_specifier {
        Some(proto::ClusterSpecifier::Cluster(name)) => {
            if !name.as_str().is_empty() {
                out.push(WeightedCluster { name: name.clone(), weight: 100 });
                assert(out.deep_view() =~= seq![WeightedClusterView { name: name@, weight: 100 }]);
            }
        },
        Some(proto::ClusterSpecifier::WeightedClusters(clusters)) => {
            let ghost all = clusters.deep_view();
            let mut i: usize = 0;
            assert(all.take(0) =~= Seq::<proto::ClusterWeightView>::empty());
            while i < clusters.len()
                invariant
                    i <= clusters.len(),
                    all == clusters.deep_view(),
                    out.deep_view() == all.take(i as int).filter_map(weighted_of()),
                decreases clusters.len() - i,
            {
                let cluster: &proto::ClusterWeight = &clusters[i];
                let ghost before = out.deep_view();
                proof {
                    assert(all[i as int] == cluster.deep_view());
                    all.lemma_filter_map_take_succ(weighted_of(), i as int);
                }
                if !cluster.name.as_str().is_empty() {
                    let weight: u32 = cluster.weight.unwrap_or(1);
                    out.push(WeightedCluster { name: cluster.name.clone(), weight });
                    assert(out.deep_view() =~= before + seq![
                        WeightedClusterView { name: cluster.name@, weight },
                    ]);
                } else {
                    assert(out.deep_view() =~= before + Seq::<WeightedClusterView>::empty());
                }
                i += 1;
            }
            assert(all.take(i as int) =~= all);
        },
        None => {},
    }
    out
}

/// A route that leads somewhere and whose condition can be tested.
pub open spec fn converted_route() -> spec_fn(proto::RouteView) -> Option<RouteView> {
    |route: proto::RouteView|
        match route.action {
            Some(proto::ActionView::Route(action)) => {
                let weighted_clusters = converted_action(action);
                if weighted_clusters.len() == 0 {
                    None
                } else {
                    match route.route_match {
                        Some(route_match) => match converted_match(route_match) {
                            Some(condition) => Some(
                                RouteView {
                                    name: route.name,
                                    matches: seq![condition],
                                    weighted_clusters,
                                },
                            ),
                            None => None,
                        },
                        None => Some(
                            RouteView {
                                name: route.name,
                                matches: Seq::<RouteMatchView>::empty(),
                                weighted_clusters,
                            },
                        ),
                    }
                }
            },
            _ => None,
        }
}

/// A route that leads somewhere and whose condition can be tested.
pub fn convert_route(route: &proto::Route) -> (converted: Option<Route>)
    ensures
        converted.deep_view() == converted_route()(route.deep_view()),
{
    let weighted_clusters: Vec<WeightedCluster> = match &route.action {
        Some(proto::Action::Route(action)) => convert_route_action(action),
        Some(proto::Action::NonForwardingAction) => Vec::new(),
        None => {
            return None;
        },
    };
    if weighted_clusters.len() == 0 {
        return None;
    }
    let mut matches: Vec<RouteMatch> = Vec::new();
    match &route.route_match {
        Some(route_match) => match convert_route_match(route_match) {
            Some(condition) => {
                let ghost view = condition.deep_view();
                matches.push(condition);
                assert(matches.deep_view() =~= seq![view]);
            },
            None => {
                return None;
            },
        },
        None => {
            assert(matches.deep_view() =~= Seq::<RouteMatchView>::empty());
        },
    }
    Some(Route { name: route.name.clone(), matches, weighted_clusters })
}

/// A virtual host with the routes that can be used.
pub open spec fn converted_host() -> spec_fn(proto::VirtualHostView) -> VirtualHostView {
    |host: proto::VirtualHostView|
        VirtualHostView {
            name: host.name,
            domains: host.domains,
            routes: host.routes.filter_map(converted_route()),
        }
}

/// The routes of a message that can be used.
fn convert_routes(routes: &Vec<proto::Route>) -> (converted: Vec<Route>)
    ensures
        converted.deep_view() == routes.deep_view().filter_map(converted_route()),
{
    let mut out: Vec<Route> = Vec::new();
    let ghost all = routes.deep_view();
    let mut i: usize = 0;
    assert(all.take(0) =~= Seq::<proto::RouteView>::empty());
    assert(out.deep_view() =~= all.take(0).filter_map(converted_route()));
    while i < routes.len()
        invariant
            i <= routes.len(),
            all == routes.deep_view(),
            out.deep_view() == all.take(i as int).filter_map(converted_route()),
        decreases routes.len() - i,
    {
        let ghost before = out.deep_view();
        proof {
            assert(all[i as int] == routes@[i as int].deep_view());
            all.lemma_filter_map_take_succ(converted_route(), i as int);
        }
        match convert_route(&routes[i]) {
            Some(route) => {
                let ghost view = route.deep_view();
                out.push(route);
                assert(out.deep_view() =~= before + seq![view]);
            },
            None => {
                assert(out.deep_view() =~= before + Seq::<RouteView>::empty());
            },
        }
        i += 1;
    }
    assert(all.take(i as int) =~= all);
    out
}

/// The virtual hosts of a message, each with the routes that can be used.
pub fn convert_virtual_hosts(vhosts: &Vec<proto::VirtualHost>) -> (converted: Vec<VirtualHost>)
    ensures
        converted.deep_view() == vhosts.deep_view().map_values(converted_host()),
{
    let mut out: Vec<VirtualHost> = Vec::new();
    let ghost wanted = vhosts.deep_view().map_values(converted_host());
    let mut i: usize = 0;
    while i < vhosts.len()
        invariant
            i <= vhosts.len(),
            wanted == vhosts.deep_view().map_values(converted_host()),
            out.deep_view() =~= wanted.take(i as int),
        decreases vhosts.len() - i,
    {
        let vhost: &proto::VirtualHost = &vhosts[i];
        let ghost before = out.deep_view();
        let host = VirtualHost {
            name: vhost.name.clone(),
            domains: vhost.domains.clone(),
            routes: convert_routes(&vhost.routes),
        };
        proof {
            assert(host.domains.deep_view() =~= vhost.domains.deep_view());
            assert(wanted[i as int] == host.deep_view());
        }
        let ghost view = host.deep_view();
        out.push(host);
        assert(out.deep_view() =~= before.push(view));
        i += 1;
    }
    assert(wanted.take(i as int) =~= wanted);
    out
}

} // verus!
