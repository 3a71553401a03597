//! What holds of the parts of a configuration that messages are turned into.

use crate::config::{
    EndpointView, HeaderMatchView, PathMatchView, RouteMatchView, RouteView, VirtualHostView,
    WeightedClusterView,
};
use crate::convert::{
    assigned, by_address, converted_action, converted_host, converted_match, converted_route,
    endpoint_of, endpoints_of_locality, exact_header, header_by_regex, port_of_listener, serves,
    socket_of, weighted_of,
};
use crate::endpoint_laws::{law_endpoints_are_sorted, law_same_endpoints_keep_their_order, located};
use crate::lists::{
    lemma_filter_map_holds, lemma_filter_map_push, lemma_flat_map_holds, lemma_flat_map_push,
};
use crate::names::{lemma_precedes_total, precedes};
use crate::proto;
use crate::routing::MatchInputView;
use crate::routing_laws::{
    has_header, law_condition_wants_path_and_every_header, law_path_begins_or_is,
};
use crate::text::port_number;
use crate::text_laws::{law_parts_make_up_the_text, law_separator_divides};
use vstd::prelude::*;

verus! {

/// Whether a network address is a socket address with this address and port.
pub open spec fn is_socket(
    address: Option<proto::AddressView>,
    text: Seq<char>,
    port: int,
) -> bool {
    &&& address is Some
    &&& address->0.socket_address is Some
    &&& address->0.socket_address->0.address == text
    &&& address->0.socket_address->0.port_value is Some
    &&& address->0.socket_address->0.port_value->0 as int == port
}

/// An address and a port are told exactly where they are those of a socket
/// address whose port is below 65536.
pub proof fn law_socket_has_address_and_short_port(
    address: Option<proto::AddressView>,
    text: Seq<char>,
    port: u16,
)
    ensures
        socket_of(address) == Some((text, port)) <==> is_socket(address, text, port as int),
        socket_of(address) is None <==> forall|a: Seq<char>, p: int|
            p <= 65535 ==> !#[trigger] is_socket(address, a, p),
{
    if socket_of(address) is None {
        assert forall|a: Seq<char>, p: int| p <= 65535 implies !#[trigger] is_socket(
            address,
            a,
            p,
        ) by {}
    } else {
        let socket = socket_of(address)->0;
        assert(is_socket(address, socket.0, socket.1 as int));
    }
}

/// The port of a listener is that of its address. Without one it is the number
/// that follows the last colon of its name, and there is none where no colon or
/// no port number is there.
pub proof fn law_listener_port_is_told(
    listener: proto::ListenerView,
    front: Seq<char>,
    back: Seq<char>,
)
    requires
        !back.contains(':'),
    ensures
        socket_of(listener.address) is Some ==> port_of_listener(listener) == Some(
            (socket_of(listener.address)->0).1,
        ),
        socket_of(listener.address) is None && listener.name == front + seq![':'] + back
            ==> port_of_listener(listener) == port_number(back),
        socket_of(listener.address) is None && listener.name == back ==> port_of_listener(
            listener,
        ) is None,
{
    law_separator_divides(front, back, ':');
    law_separator_divides(back, back, ':');
    law_parts_make_up_the_text(front, ':');
}

/// An endpoint takes requests unless it is unhealthy, draining or timed out.
pub proof fn law_bad_health_stops_requests(status: Option<proto::HealthStatus>)
    ensures
        !serves(status) <==> status == Some(proto::HealthStatus::Unhealthy) || status == Some(
            proto::HealthStatus::Draining,
        ) || status == Some(proto::HealthStatus::Timeout),
{
}

/// Whether a message of an endpoint gives a socket address with a port below
/// 65536.
pub open spec fn is_usable(lb: proto::LbEndpointView) -> bool {
    &&& lb.host_identifier is Some
    &&& lb.host_identifier->0.address is Some
    &&& lb.host_identifier->0.address->0.socket_address is Some
    &&& lb.host_identifier->0.address->0.socket_address->0.port_value is Some
    &&& lb.host_identifier->0.address->0.socket_address->0.port_value->0 < 65536
}

/// Whether an endpoint has the address, the port and the health of a message.
pub open spec fn is_told_by(endpoint: EndpointView, lb: proto::LbEndpointView) -> bool {
    &&& is_usable(lb)
    &&& endpoint.address == lb.host_identifier->0.address->0.socket_address->0.address
    &&& endpoint.port as int
        == lb.host_identifier->0.address->0.socket_address->0.port_value->0 as int
    &&& endpoint.healthy == serves(lb.health_status)
    &&& endpoint.node_name is None
}

/// What a message of an endpoint tells.
proof fn lemma_told(lb: proto::LbEndpointView)
    ensures
        endpoint_of()(lb) is Some <==> is_usable(lb),
        forall|endpoint: EndpointView|
            endpoint_of()(lb) == Some(endpoint) <==> #[trigger] is_told_by(endpoint, lb),
{
}

/// Sorting endpoints keeps what they are.
proof fn lemma_by_address_holds(endpoints: Seq<EndpointView>, x: EndpointView)
    ensures
        by_address(endpoints).contains(x) <==> endpoints.contains(x),
{
    let here = located(x.address, x.port);
    law_same_endpoints_keep_their_order(endpoints, x.address, x.port);
    if endpoints.contains(x) {
        let i = choose|i: int| 0 <= i < endpoints.len() && endpoints[i] == x;
        endpoints.lemma_filter_contains(here, i);
        by_address(endpoints).lemma_filter_contains_rev(here, x);
    }
    if by_address(endpoints).contains(x) {
        let sorted = by_address(endpoints);
        let i = choose|i: int| 0 <= i < sorted.len() && sorted[i] == x;
        sorted.lemma_filter_contains(here, i);
        endpoints.lemma_filter_contains_rev(here, x);
    }
}

/// The endpoints of an assignment are those that the messages of all its
/// localities tell: each usable one is there with its address, port and health,
/// and none is there that no message tells.
pub proof fn law_assignment_holds_every_usable_endpoint(
    assignment: proto::ClusterLoadAssignmentView,
    endpoint: EndpointView,
)
    ensures
        assigned(assignment).contains(endpoint) <==> exists|l: int, e: int|
            0 <= l < assignment.endpoints.len() && 0 <= e
                < assignment.endpoints[l].lb_endpoints.len() && is_told_by(
                endpoint,
                #[trigger] assignment.endpoints[l].lb_endpoints[e],
            ),
{
    let localities = assignment.endpoints;
    let flat = localities.flat_map(endpoints_of_locality());
    lemma_by_address_holds(flat, endpoint);
    lemma_flat_map_holds(localities, endpoints_of_locality(), endpoint);
    if assigned(assignment).contains(endpoint) {
        let l = choose|l: int|
            0 <= l < localities.len() && endpoints_of_locality()(#[trigger] localities[l]).contains(
                endpoint,
            );
        let messages = localities[l].lb_endpoints;
        lemma_filter_map_holds(messages, endpoint_of(), endpoint);
        let e = choose|e: int|
            0 <= e < messages.len() && endpoint_of()(#[trigger] messages[e]) == Some(endpoint);
        lemma_told(messages[e]);
        assert(is_told_by(endpoint, assignment.endpoints[l].lb_endpoints[e]));
    }
    if exists|l: int, e: int|
        0 <= l < assignment.endpoints.len() && 0 <= e < assignment.endpoints[l].lb_endpoints.len()
            && is_told_by(endpoint, #[trigger] assignment.endpoints[l].lb_endpoints[e]) {
        let (l, e) = choose|l: int, e: int|
            0 <= l < assignment.endpoints.len() && 0 <= e
                < assignment.endpoints[l].lb_endpoints.len() && is_told_by(
                endpoint,
                #[trigger] assignment.endpoints[l].lb_endpoints[e],
            );
        let messages = localities[l].lb_endpoints;
        lemma_told(messages[e]);
        assert(endpoint_of()(messages[e]) == Some(endpoint));
        lemma_filter_map_holds(messages, endpoint_of(), endpoint);
        assert(endpoints_of_locality()(localities[l]).contains(endpoint));
    }
}

/// How many of the messages of a locality are usable.
pub open spec fn usable_in(messages: Seq<proto::LbEndpointView>) -> nat
    decreases messages.len(),
{
    if messages.len() == 0 {
        0
    } else {
        usable_in(messages.drop_last()) + if is_usable(messages.last()) {
            1nat
        } else {
            0nat
        }
    }
}

/// How many of the messages of all localities are usable.
pub open spec fn usable_in_all(localities: Seq<proto::LocalityLbEndpointsView>) -> nat
    decreases localities.len(),
{
    if localities.len() == 0 {
        0
    } else {
        usable_in_all(localities.drop_last()) + usable_in(localities.last().lb_endpoints)
    }
}

proof fn lemma_usable_in(messages: Seq<proto::LbEndpointView>)
    ensures
        messages.filter_map(endpoint_of()).len() == usable_in(messages),
    decreases messages.len(),
{
    if messages.len() > 0 {
        let fewer = messages.drop_last();
        lemma_usable_in(fewer);
        lemma_filter_map_push(fewer, messages.last(), endpoint_of());
        lemma_told(messages.last());
        assert(fewer.push(messages.last()) =~= messages);
    } else {
        assert(messages =~= Seq::<proto::LbEndpointView>::empty());
        lemma_filter_map_push(
            messages,
            proto::LbEndpointView { host_identifier: None, health_status: None },
            endpoint_of(),
        );
    }
}

proof fn lemma_usable_in_all(localities: Seq<proto::LocalityLbEndpointsView>)
    ensures
        localities.flat_map(endpoints_of_locality()).len() == usable_in_all(localities),
    decreases localities.len(),
{
    let f = endpoints_of_locality();
    if localities.len() > 0 {
        let fewer = localities.drop_last();
        lemma_usable_in_all(fewer);
        lemma_usable_in(localities.last().lb_endpoints);
        lemma_flat_map_push(fewer, localities.last(), f);
        assert(fewer.push(localities.last()) =~= localities);
    } else {
        assert(localities =~= Seq::<proto::LocalityLbEndpointsView>::empty());
        lemma_flat_map_push(
            localities,
            proto::LocalityLbEndpointsView { lb_endpoints: Seq::empty() },
            f,
        );
    }
}

/// An assignment has as many endpoints as the messages of all its localities
/// are usable.
pub proof fn law_assignment_counts_every_usable_endpoint(
    assignment: proto::ClusterLoadAssignmentView,
)
    ensures
        assigned(assignment).len() == usable_in_all(assignment.endpoints),
{
    lemma_usable_in_all(assignment.endpoints);
    law_same_endpoints_keep_their_order(
        assignment.endpoints.flat_map(endpoints_of_locality()),
        Seq::empty(),
        0,
    );
}

/// The endpoints of an assignment come by address, and those of one address by
/// port.
pub proof fn law_assigned_endpoints_come_by_address_and_port(
    assignment: proto::ClusterLoadAssignmentView,
    i: int,
    j: int,
)
    requires
        0 <= i < j < assigned(assignment).len(),
    ensures
        ({
            let a = assigned(assignment)[i];
            let b = assigned(assignment)[j];
            precedes(a.address, b.address) || (a.address == b.address && a.port <= b.port)
        }),
{
    let flat = assignment.endpoints.flat_map(endpoints_of_locality());
    law_endpoints_are_sorted(flat);
    let sorted = by_address(flat);
    assert(!crate::convert::endpoint_before(sorted[j], sorted[i]));
    lemma_precedes_total(sorted[i].address, sorted[j].address);
}

/// The endpoints of one address and port come in the order of the messages: one
/// that a last message tells stands behind all others there. A last locality
/// without messages changes nothing.
pub proof fn law_later_message_comes_later(
    assignment: proto::ClusterLoadAssignmentView,
    messages: Seq<proto::LbEndpointView>,
    message: proto::LbEndpointView,
    endpoint: EndpointView,
    address: Seq<char>,
    port: u16,
)
    requires
        is_usable(message) ==> is_told_by(endpoint, message),
    ensures
        ({
            let shorter = proto::ClusterLoadAssignmentView {
                endpoints: assignment.endpoints.push(
                    proto::LocalityLbEndpointsView { lb_endpoints: messages },
                ),
                ..assignment
            };
            let longer = proto::ClusterLoadAssignmentView {
                endpoints: assignment.endpoints.push(
                    proto::LocalityLbEndpointsView { lb_endpoints: messages.push(message) },
                ),
                ..assignment
            };
            let here = located(address, port);
            &&& messages.len() == 0 ==> assigned(shorter) == assigned(assignment)
            &&& assigned(longer).filter(here) == if is_usable(message) && endpoint.address
                == address && endpoint.port == port {
                assigned(shorter).filter(here).push(endpoint)
            } else {
                assigned(shorter).filter(here)
            }
        }),
{
    let f = endpoints_of_locality();
    let here = located(address, port);
    let before = assignment.endpoints;
    let short = proto::LocalityLbEndpointsView { lb_endpoints: messages };
    let long = proto::LocalityLbEndpointsView { lb_endpoints: messages.push(message) };
    lemma_flat_map_push(before, short, f);
    lemma_flat_map_push(before, long, f);
    lemma_filter_map_push(messages, message, endpoint_of());
    lemma_told(message);
    let flat = before.push(short).flat_map(f);
    let more = before.push(long).flat_map(f);
    if messages.len() == 0 {
        assert(messages =~= Seq::<proto::LbEndpointView>::empty());
        assert(flat =~= before.flat_map(f));
    }
    law_same_endpoints_keep_their_order(flat, address, port);
    law_same_endpoints_keep_their_order(more, address, port);
    if is_usable(message) {
        assert(endpoint_of()(message) == Some(endpoint));
        assert(more =~= flat.push(endpoint));
        flat.lemma_filter_push(endpoint, here);
    } else {
        assert(more =~= flat);
    }
}

/// Whether a condition of a route compares by a regular expression.
pub open spec fn uses_regex(route_match: proto::RouteMatchView) -> bool {
    route_match.path_specifier is Some && route_match.path_specifier->0 is SafeRegex || exists|
        i: int,
    |
        0 <= i < route_match.headers.len() && (
        #[trigger] route_match.headers[i]).header_match_specifier is Some
            && route_match.headers[i].header_match_specifier->0 is SafeRegexMatch
}

/// Whether the path of a request is the one that a message wants: it begins with
/// the prefix or is the exact path. Without either it begins with a slash.
pub open spec fn path_is_wanted(route_match: proto::RouteMatchView, path: Seq<char>) -> bool {
    match route_match.path_specifier {
        Some(proto::PathSpecifierView::Prefix(prefix)) => path.len() >= prefix.len() && path.take(
            prefix.len() as int,
        ) == prefix,
        Some(proto::PathSpecifierView::Path(exact)) => path == exact,
        Some(proto::PathSpecifierView::SafeRegex) => false,
        None => path.len() > 0 && path[0] == '/',
    }
}

/// A message becomes a condition exactly where it does not compare by a regular
/// expression. The condition accepts the requests whose path is wanted and that
/// have each header that is to be compared exactly, and no others.
pub proof fn law_condition_means_what_message_says(
    route_match: proto::RouteMatchView,
    input: MatchInputView,
)
    ensures
        converted_match(route_match) is None <==> uses_regex(route_match),
        converted_match(route_match) is Some ==> (converted_match(route_match)->0.accepts(input)
            <==> path_is_wanted(route_match, input.path) && forall|i: int|
            0 <= i < route_match.headers.len() && (
            #[trigger] route_match.headers[i]).header_match_specifier is Some ==> has_header(
                input,
                route_match.headers[i].name,
                route_match.headers[i].header_match_specifier->0->ExactMatch_0,
            )),
{
    let messages = route_match.headers;
    assert("/"@ =~= seq!['/']) by {
        reveal_strlit("/");
    }
    assert(uses_regex(route_match) <==> converted_match(route_match) is None) by {
        if exists|i: int| 0 <= i < messages.len() && header_by_regex(#[trigger] messages[i]) {
            let i = choose|i: int| 0 <= i < messages.len() && header_by_regex(#[trigger] messages[i]);
            assert(messages[i].header_match_specifier->0 is SafeRegexMatch);
        }
        if exists|i: int|
            0 <= i < messages.len() && (#[trigger] messages[i]).header_match_specifier is Some
                && messages[i].header_match_specifier->0 is SafeRegexMatch {
            let i = choose|i: int|
                0 <= i < messages.len() && (#[trigger] messages[i]).header_match_specifier is Some
                    && messages[i].header_match_specifier->0 is SafeRegexMatch;
            assert(header_by_regex(messages[i]));
        }
    }
    if converted_match(route_match) is Some {
        lemma_condition(route_match, input);
    }
}

/// A condition has the path of the message, as a prefix or exact, or else the
/// root as a prefix. It has those headers of the message that are to be compared
/// exactly, in their order.
pub proof fn law_condition_has_parts_of_message(
    route_match: proto::RouteMatchView,
    header: proto::HeaderMatcherView,
)
    requires
        !uses_regex(route_match),
    ensures
        ({
            let condition = converted_match(route_match)->0;
            let longer = proto::RouteMatchView {
                headers: route_match.headers.push(header),
                ..route_match
            };
            &&& converted_match(route_match) is Some
            &&& route_match.path_specifier is None ==> condition.path == PathMatchView::Prefix(
                seq!['/'],
            )
            &&& route_match.path_specifier is Some && route_match.path_specifier->0 is Prefix
                ==> condition.path == PathMatchView::Prefix(
                route_match.path_specifier->0->Prefix_0,
            )
            &&& route_match.path_specifier is Some && route_match.path_specifier->0 is Path
                ==> condition.path == PathMatchView::Exact(route_match.path_specifier->0->Path_0)
            &&& route_match.headers.len() == 0 ==> condition.headers.len() == 0
            &&& header.header_match_specifier is None ==> converted_match(longer)
                == converted_match(route_match)
            &&& header.header_match_specifier is Some && header.header_match_specifier->0
                is ExactMatch ==> converted_match(longer) == Some(
                RouteMatchView {
                    headers: condition.headers.push(
                        HeaderMatchView {
                            name: header.name,
                            value: header.header_match_specifier->0->ExactMatch_0,
                        },
                    ),
                    ..condition
                },
            )
        }),
{
    let input = MatchInputView { host: Seq::empty(), path: Seq::empty(), headers: Seq::empty() };
    let longer = proto::RouteMatchView { headers: route_match.headers.push(header), ..route_match };
    law_condition_means_what_message_says(route_match, input);
    law_condition_means_what_message_says(longer, input);
    lemma_filter_map_push(route_match.headers, header, exact_header());
    assert("/"@ =~= seq!['/']) by {
        reveal_strlit("/");
    }
    if route_match.headers.len() == 0 {
        assert(route_match.headers =~= Seq::<proto::HeaderMatcherView>::empty());
    }
    if !header_by_regex(header) {
        assert(!uses_regex(longer)) by {
            assert forall|i: int| 0 <= i < longer.headers.len() implies !((
            #[trigger] longer.headers[i]).header_match_specifier is Some
                && longer.headers[i].header_match_specifier->0 is SafeRegexMatch) by {
                if i < route_match.headers.len() {
                    assert(longer.headers[i] == route_match.headers[i]);
                }
            }
        }
    }
}

proof fn lemma_condition(route_match: proto::RouteMatchView, input: MatchInputView)
    requires
        converted_match(route_match) is Some,
        "/"@ == seq!['/'],
    ensures
        converted_match(route_match)->0.accepts(input) <==> path_is_wanted(route_match, input.path)
            && forall|i: int|
            0 <= i < route_match.headers.len() && (
            #[trigger] route_match.headers[i]).header_match_specifier is Some ==> has_header(
                input,
                route_match.headers[i].name,
                route_match.headers[i].header_match_specifier->0->ExactMatch_0,
            ),
{
    let messages = route_match.headers;
    let condition = converted_match(route_match)->0;
    law_condition_wants_path_and_every_header(condition, input);
    assert(condition.path.accepts(input.path) <==> path_is_wanted(route_match, input.path)) by {
        match route_match.path_specifier {
            Some(proto::PathSpecifierView::Prefix(prefix)) => {
                lemma_begins(prefix, input.path);
            },
            Some(proto::PathSpecifierView::Path(exact)) => {
                law_path_begins_or_is(exact, input.path);
            },
            Some(proto::PathSpecifierView::SafeRegex) => {},
            None => {
                lemma_begins(seq!['/'], input.path);
                if input.path.len() > 0 && input.path[0] == '/' {
                    assert(input.path.take(1) =~= seq!['/']);
                }
                if input.path.len() >= 1 && input.path.take(1) == seq!['/'] {
                    assert(input.path.take(1)[0] == input.path[0]);
                }
            },
        }
    }
    let all = forall|i: int|
        0 <= i < messages.len() && (#[trigger] messages[i]).header_match_specifier is Some
            ==> has_header(
            input,
            messages[i].name,
            messages[i].header_match_specifier->0->ExactMatch_0,
        );
    let each = forall|i: int|
        0 <= i < condition.headers.len() ==> has_header(
            input,
            (#[trigger] condition.headers[i]).name,
            condition.headers[i].value,
        );
    if all {
        assert forall|k: int| 0 <= k < condition.headers.len() implies has_header(
            input,
            (#[trigger] condition.headers[k]).name,
            condition.headers[k].value,
        ) by {
            assert(condition.headers.contains(condition.headers[k]));
            lemma_filter_map_holds(messages, exact_header(), condition.headers[k]);
            let i = choose|i: int|
                0 <= i < messages.len() && exact_header()(#[trigger] messages[i]) == Some(
                    condition.headers[k],
                );
            assert(messages[i].header_match_specifier is Some);
        }
    }
    if each {
        assert forall|i: int|
            0 <= i < messages.len() && (
            #[trigger] messages[i]).header_match_specifier is Some implies has_header(
            input,
            messages[i].name,
            messages[i].header_match_specifier->0->ExactMatch_0,
        ) by {
            assert(!header_by_regex(messages[i]));
            assert(messages[i].header_match_specifier->0 is ExactMatch);
            let header = HeaderMatchView {
                name: messages[i].name,
                value: messages[i].header_match_specifier->0->ExactMatch_0,
            };
            assert(exact_header()(messages[i]) == Some(header));
            lemma_filter_map_holds(messages, exact_header(), header);
            let k = choose|k: int| 0 <= k < condition.headers.len() && condition.headers[k] == header;
            assert(condition.headers[k].name == header.name);
        }
    }
}

proof fn lemma_begins(prefix: Seq<char>, path: Seq<char>)
    ensures
        PathMatchView::Prefix(prefix).accepts(path) <==> path.len() >= prefix.len() && path.take(
            prefix.len() as int,
        ) == prefix,
{
    law_path_begins_or_is(prefix, path);
    if exists|rest: Seq<char>| path == #[trigger] (prefix + rest) {
        let rest = choose|rest: Seq<char>| path == #[trigger] (prefix + rest);
        assert(path.take(prefix.len() as int) =~= prefix);
    }
    if path.len() >= prefix.len() && path.take(prefix.len() as int) == prefix {
        assert(path =~= prefix + path.skip(prefix.len() as int));
    }
}

/// A route to one named cluster has it as its only destination. Of several
/// clusters those with a name are the destinations, in their order and with
/// their weights, or with weight one where none is told. There are none where
/// nothing is said of clusters.
pub proof fn law_destinations_are_named_clusters(
    action: proto::RouteActionView,
    name: Seq<char>,
    clusters: Seq<proto::ClusterWeightView>,
    cluster: proto::ClusterWeightView,
)
    ensures
        action.cluster_specifier is None ==> converted_action(action).len() == 0,
        action.cluster_specifier == Some(proto::ClusterSpecifierView::Cluster(name))
            ==> converted_action(action) == if name.len() == 0 {
            seq![]
        } else {
            seq![WeightedClusterView { name, weight: 100 }]
        },
        action.cluster_specifier == Some(proto::ClusterSpecifierView::WeightedClusters(clusters))
            && clusters.len() == 0 ==> converted_action(action).len() == 0,
        action.cluster_specifier == Some(proto::ClusterSpecifierView::WeightedClusters(clusters))
            ==> converted_action(
            (proto::RouteActionView {
                cluster_specifier: Some(
                    proto::ClusterSpecifierView::WeightedClusters(clusters.push(cluster)),
                ),
            }),
        ) == if cluster.name.len() == 0 {
            converted_action(action)
        } else {
            converted_action(action).push(
                WeightedClusterView {
                    name: cluster.name,
                    weight: if cluster.weight is Some {
                        cluster.weight->0
                    } else {
                        1
                    },
                },
            )
        },
{
    lemma_filter_map_push(clusters, cluster, weighted_of());
    if clusters.len() == 0 {
        assert(clusters =~= Seq::<proto::ClusterWeightView>::empty());
    }
}

/// A message of a route is used exactly where it forwards, has a destination,
/// and has no condition or one that can be tested. The route has the name, the
/// destinations and the condition of the message.
pub proof fn law_usable_routes_are_kept(route: proto::RouteView)
    ensures
        converted_route()(route) is Some <==> {
            &&& route.action is Some
            &&& route.action->0 is Route
            &&& converted_action(route.action->0->Route_0).len() > 0
            &&& route.route_match is Some ==> !uses_regex(route.route_match->0)
        },
        converted_route()(route) is Some ==> {
            let kept = converted_route()(route)->0;
            &&& kept.name == route.name
            &&& kept.weighted_clusters == converted_action(route.action->0->Route_0)
            &&& route.route_match is None ==> kept.matches.len() == 0
            &&& route.route_match is Some ==> kept.matches.len() == 1 && Some(kept.matches[0])
                == converted_match(route.route_match->0)
        },
{
    if route.route_match is Some {
        law_condition_means_what_message_says(
            route.route_match->0,
            MatchInputView { host: Seq::empty(), path: Seq::empty(), headers: Seq::empty() },
        );
    }
}

/// A virtual host has the name and the domains of the message and those of its
/// routes that can be used, in their order.
pub proof fn law_hosts_keep_usable_routes(host: proto::VirtualHostView, route: proto::RouteView)
    ensures
        converted_host()(host).name == host.name,
        converted_host()(host).domains == host.domains,
        host.routes.len() == 0 ==> converted_host()(host).routes.len() == 0,
        converted_host()((proto::VirtualHostView { routes: host.routes.push(route), ..host })).routes
            == if converted_route()(route) is Some {
            converted_host()(host).routes.push(converted_route()(route)->0)
        } else {
            converted_host()(host).routes
        },
{
    lemma_filter_map_push(host.routes, route, converted_route());
    if host.routes.len() == 0 {
        assert(host.routes =~= Seq::<proto::RouteView>::empty());
    }
}

} // verus!
