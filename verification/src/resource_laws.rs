//! What holds of the names that resources refer to, of what a response changes
//! and of the configuration that is made of the resources.

use crate::ads::{
    cluster_kept, destinations, endpoint_name, endpoints_referred, host_destinations,
    hosts_of_route, kind_of, listener_with_hosts, no_updates, nothing_known, pruned,
    route_destinations, routes_referred, AdsStateView, DiscoveryUpdatesView, ResourceKind,
};
use crate::ads_laws::lemma_finite_ascending;
use crate::config::{ClusterView, ListenerView, VirtualHostView};
use crate::convert::{assigned, converted_host};
use crate::error::XdsErrorView;
use crate::lists::{lemma_flat_map_holds, lemma_flat_map_push};
use crate::names::{ascending, in_order, is_ascending, precedes};
use crate::proto;
use crate::snapshots::{listener_kept, ListenerSnapshotView};
use vstd::prelude::*;

verus! {

/// A map that is walked holds the values of its names.
proof fn lemma_in_order_holds<V>(map: Map<Seq<char>, V>, value: V)
    requires
        map.dom().finite(),
    ensures
        in_order(map).contains(value) <==> exists|name: Seq<char>|
            #[trigger] map.dom().contains(name) && map[name] == value,
{
    lemma_finite_ascending(map.dom());
    let names = ascending(map.dom());
    let values = in_order(map);
    if values.contains(value) {
        let i = choose|i: int| 0 <= i < values.len() && values[i] == value;
        assert(names.to_set().contains(names[i]));
        assert(map.dom().contains(names[i]) && map[names[i]] == value);
    }
    if exists|name: Seq<char>| #[trigger] map.dom().contains(name) && map[name] == value {
        let name = choose|name: Seq<char>| #[trigger] map.dom().contains(name) && map[name] == value;
        assert(names.to_set().contains(name));
        let i = choose|i: int| 0 <= i < names.len() && names[i] == name;
        assert(values[i] == value);
    }
}

/// The names of a list, put in order.
proof fn lemma_ordered(names: Seq<Seq<char>>)
    ensures
        forall|name: Seq<char>|
            #[trigger] ascending(names.to_set()).contains(name) <==> names.contains(name),
        forall|i: int, j: int|
            0 <= i < j < ascending(names.to_set()).len() ==> precedes(
                #[trigger] ascending(names.to_set())[i],
                #[trigger] ascending(names.to_set())[j],
            ),
{
    vstd::seq_lib::seq_to_set_is_finite(names);
    lemma_finite_ascending(names.to_set());
    assert forall|name: Seq<char>| #[trigger]
        ascending(names.to_set()).contains(name) <==> names.contains(name) by {
        assert(ascending(names.to_set()).contains(name) <==> ascending(
            names.to_set(),
        ).to_set().contains(name));
        assert(names.to_set().contains(name) <==> names.contains(name));
    }
}

/// The route resources that are referred to are those that some known listener
/// refers to, each once and in the order of the names.
pub proof fn law_referred_routes_are_those_of_listeners(state: AdsStateView, name: Seq<char>)
    requires
        state.listeners.dom().finite(),
    ensures
        state.route_names().contains(name) <==> exists|listener: Seq<char>|
            #[trigger] state.listeners.dom().contains(listener)
                && state.listeners[listener].route_names.contains(name),
        forall|i: int, j: int|
            0 <= i < j < state.route_names().len() ==> precedes(
                #[trigger] state.route_names()[i],
                #[trigger] state.route_names()[j],
            ),
{
    let values = in_order(state.listeners);
    lemma_ordered(values.flat_map(routes_referred()));
    lemma_flat_map_holds(values, routes_referred(), name);
    if state.route_names().contains(name) {
        let i = choose|i: int|
            0 <= i < values.len() && routes_referred()(#[trigger] values[i]).contains(name);
        lemma_in_order_holds(state.listeners, values[i]);
        assert(values.contains(values[i]));
    }
    if exists|listener: Seq<char>| #[trigger]
        state.listeners.dom().contains(listener) && state.listeners[listener].route_names.contains(
            name,
        ) {
        let listener = choose|listener: Seq<char>| #[trigger]
            state.listeners.dom().contains(listener)
                && state.listeners[listener].route_names.contains(name);
        lemma_in_order_holds(state.listeners, state.listeners[listener]);
        let i = choose|i: int| 0 <= i < values.len() && values[i] == state.listeners[listener];
        assert(routes_referred()(values[i]).contains(name));
    }
}

/// Whether a destination of a route of these virtual hosts has a name.
pub open spec fn is_destination(hosts: Seq<VirtualHostView>, name: Seq<char>) -> bool {
    exists|h: int, r: int, d: int|
        0 <= h < hosts.len() && 0 <= r < hosts[h].routes.len() && 0 <= d
            < hosts[h].routes[r].weighted_clusters.len() && (
        #[trigger] hosts[h].routes[r].weighted_clusters[d]).name == name
}

/// The destinations of virtual hosts are those of all their routes.
proof fn lemma_destinations(hosts: Seq<VirtualHostView>, name: Seq<char>)
    ensures
        destinations()(hosts).contains(name) <==> is_destination(hosts, name),
{
    lemma_flat_map_holds(hosts, host_destinations(), name);
    if destinations()(hosts).contains(name) {
        let h = choose|h: int|
            0 <= h < hosts.len() && host_destinations()(#[trigger] hosts[h]).contains(name);
        let routes = hosts[h].routes;
        lemma_flat_map_holds(routes, route_destinations(), name);
        let r = choose|r: int|
            0 <= r < routes.len() && route_destinations()(#[trigger] routes[r]).contains(name);
        let named = route_destinations()(routes[r]);
        let d = choose|d: int| 0 <= d < named.len() && named[d] == name;
        assert(hosts[h].routes[r].weighted_clusters[d].name == name);
    }
    if is_destination(hosts, name) {
        let (h, r, d) = choose|h: int, r: int, d: int|
            0 <= h < hosts.len() && 0 <= r < hosts[h].routes.len() && 0 <= d
                < hosts[h].routes[r].weighted_clusters.len() && (
            #[trigger] hosts[h].routes[r].weighted_clusters[d]).name == name;
        let routes = hosts[h].routes;
        let named = route_destinations()(routes[r]);
        assert(named[d] == name);
        lemma_flat_map_holds(routes, route_destinations(), name);
        assert(route_destinations()(routes[r]).contains(name));
        assert(host_destinations()(hosts[h]).contains(name));
    }
}

/// The clusters that are asked for are those that some destination of some route
/// of some virtual host of some known route resource names, each once and in the
/// order of the names.
pub proof fn law_wanted_clusters_are_all_destinations(state: AdsStateView, name: Seq<char>)
    requires
        state.routes.dom().finite(),
    ensures
        state.cluster_names().contains(name) <==> exists|route: Seq<char>|
            #[trigger] state.routes.dom().contains(route) && is_destination(
                state.routes[route],
                name,
            ),
        forall|i: int, j: int|
            0 <= i < j < state.cluster_names().len() ==> precedes(
                #[trigger] state.cluster_names()[i],
                #[trigger] state.cluster_names()[j],
            ),
{
    let values = in_order(state.routes);
    lemma_ordered(values.flat_map(destinations()));
    lemma_flat_map_holds(values, destinations(), name);
    if state.cluster_names().contains(name) {
        let i = choose|i: int|
            0 <= i < values.len() && destinations()(#[trigger] values[i]).contains(name);
        lemma_destinations(values[i], name);
        lemma_in_order_holds(state.routes, values[i]);
        assert(values.contains(values[i]));
    }
    if exists|route: Seq<char>| #[trigger]
        state.routes.dom().contains(route) && is_destination(state.routes[route], name) {
        let route = choose|route: Seq<char>| #[trigger]
            state.routes.dom().contains(route) && is_destination(state.routes[route], name);
        lemma_destinations(state.routes[route], name);
        lemma_in_order_holds(state.routes, state.routes[route]);
        let i = choose|i: int| 0 <= i < values.len() && values[i] == state.routes[route];
        assert(destinations()(values[i]).contains(name));
    }
}

/// The endpoints that are asked for are those of some known cluster, each name
/// once and in the order of the names.
pub proof fn law_wanted_endpoints_are_those_of_clusters(state: AdsStateView, name: Seq<char>)
    requires
        state.clusters.dom().finite(),
    ensures
        state.eds_names().contains(name) <==> exists|cluster: Seq<char>|
            #[trigger] state.clusters.dom().contains(cluster)
                && state.clusters[cluster].eds_service_name == name,
        forall|i: int, j: int|
            0 <= i < j < state.eds_names().len() ==> precedes(
                #[trigger] state.eds_names()[i],
                #[trigger] state.eds_names()[j],
            ),
{
    let values = in_order(state.clusters);
    let named = values.map_values(endpoints_referred());
    lemma_ordered(named);
    if state.eds_names().contains(name) {
        let i = choose|i: int| 0 <= i < named.len() && named[i] == name;
        lemma_in_order_holds(state.clusters, values[i]);
        assert(values.contains(values[i]));
    }
    if exists|cluster: Seq<char>| #[trigger]
        state.clusters.dom().contains(cluster) && state.clusters[cluster].eds_service_name == name {
        let cluster = choose|cluster: Seq<char>| #[trigger]
            state.clusters.dom().contains(cluster) && state.clusters[cluster].eds_service_name
                == name;
        lemma_in_order_holds(state.clusters, state.clusters[cluster]);
        let i = choose|i: int| 0 <= i < values.len() && values[i] == state.clusters[cluster];
        assert(named[i] == name);
    }
}

/// Of the known resources those remain that were not asked for, and none where
/// everything was asked for.
pub proof fn law_requested_resources_are_let_go<V>(
    resources: Map<Seq<char>, V>,
    requested: Seq<Seq<char>>,
    name: Seq<char>,
)
    ensures
        pruned(resources, requested).dom().contains(name) <==> resources.dom().contains(name)
            && requested.len() > 0 && !requested.contains(name),
        pruned(resources, requested).dom().contains(name) ==> pruned(resources, requested)[name]
            == resources[name],
{
    assert(requested.to_set().contains(name) <==> requested.contains(name));
}

/// What a type of resource is called.
pub proof fn law_types_name_kinds(type_url: Seq<char>)
    ensures
        kind_of(type_url) == ResourceKind::Listener <==> type_url
            == "type.googleapis.com/listener.v1.Listener"@,
        kind_of(type_url) == ResourceKind::Route <==> type_url
            == "type.googleapis.com/route.v1.RouteConfiguration"@,
        kind_of(type_url) == ResourceKind::Cluster <==> type_url
            == "type.googleapis.com/cluster.v1.Cluster"@,
        kind_of(type_url) == ResourceKind::Endpoint <==> type_url
            == "type.googleapis.com/endpoint.v1.ClusterLoadAssignment"@,
{
    reveal_strlit("type.googleapis.com/listener.v1.Listener");
    reveal_strlit("type.googleapis.com/route.v1.RouteConfiguration");
    reveal_strlit("type.googleapis.com/cluster.v1.Cluster");
    reveal_strlit("type.googleapis.com/endpoint.v1.ClusterLoadAssignment");
    assert("type.googleapis.com/listener.v1.Listener"@[20] == 'l');
    assert("type.googleapis.com/route.v1.RouteConfiguration"@[20] == 'r');
    assert("type.googleapis.com/cluster.v1.Cluster"@[20] == 'c');
    assert("type.googleapis.com/endpoint.v1.ClusterLoadAssignment"@[20] == 'e');
}

/// A response is consistent exactly where its resources are of the kind that its
/// type names.
pub proof fn law_consistent_responses_hold_their_kind(response: proto::DiscoveryResponseView)
    ensures
        response.consistent() <==> {
            &&& response.resources is Listeners <==> kind_of(response.type_url)
                == ResourceKind::Listener
            &&& response.resources is Routes <==> kind_of(response.type_url) == ResourceKind::Route
            &&& response.resources is Clusters <==> kind_of(response.type_url)
                == ResourceKind::Cluster
            &&& response.resources is Assignments <==> kind_of(response.type_url)
                == ResourceKind::Endpoint
        },
{
}

/// Names that are subscribed to are those that are asked for by the type, each
/// once and in order. Other types and all resources stay as they are.
pub proof fn law_subscription_is_what_was_asked(
    state: AdsStateView,
    type_url: Seq<char>,
    other: Seq<char>,
    names: Seq<Seq<char>>,
    name: Seq<char>,
)
    ensures
        ({
            let after = state.subscribed(type_url, names);
            &&& after.subscription(type_url).contains(name) <==> names.contains(name)
            &&& forall|i: int, j: int|
                0 <= i < j < after.subscription(type_url).len() ==> precedes(
                    #[trigger] after.subscription(type_url)[i],
                    #[trigger] after.subscription(type_url)[j],
                )
            &&& other != type_url ==> after.subscription(other) == state.subscription(other)
            &&& after.subscriptions.dom() == state.subscriptions.dom().insert(type_url)
            &&& after.listeners == state.listeners
            &&& after.routes == state.routes
            &&& after.clusters == state.clusters
            &&& after.endpoints == state.endpoints
        }),
        !state.subscriptions.dom().contains(other) ==> state.subscription(other).len() == 0,
        state.subscriptions.dom().contains(other) ==> state.subscription(other)
            == state.subscriptions[other],
        nothing_known().subscriptions.dom() == Set::<Seq<char>>::empty(),
        nothing_known().listeners.dom() == Set::<Seq<char>>::empty(),
        nothing_known().routes.dom() == Set::<Seq<char>>::empty(),
        nothing_known().clusters.dom() == Set::<Seq<char>>::empty(),
        nothing_known().endpoints.dom() == Set::<Seq<char>>::empty(),
{
    lemma_ordered(names);
    assert(state.subscribed(type_url, names).subscriptions.dom()
        =~= state.subscriptions.dom().insert(type_url));
}

/// A listener of the configuration is a known listener with its own virtual
/// hosts and then those of the route resources that it refers to, as far as they
/// are known. One more route resource adds its virtual hosts at the end.
pub proof fn law_listeners_get_their_routes(
    routes: Map<Seq<char>, Seq<VirtualHostView>>,
    snapshot: ListenerSnapshotView,
    name: Seq<char>,
)
    ensures
        listener_with_hosts(routes)(snapshot).name == snapshot.listener.name,
        listener_with_hosts(routes)(snapshot).bind == snapshot.listener.bind,
        listener_with_hosts(routes)(snapshot).protocol == snapshot.listener.protocol,
        listener_with_hosts(routes)(snapshot).tls_secret == snapshot.listener.tls_secret,
        snapshot.route_names.len() == 0 ==> listener_with_hosts(routes)(snapshot).virtual_hosts
            == snapshot.inline_virtual_hosts,
        listener_with_hosts(routes)(
            (ListenerSnapshotView { route_names: snapshot.route_names.push(name), ..snapshot }),
        ).virtual_hosts == if routes.dom().contains(name) {
            listener_with_hosts(routes)(snapshot).virtual_hosts + routes[name]
        } else {
            listener_with_hosts(routes)(snapshot).virtual_hosts
        },
{
    let f = hosts_of_route(routes);
    lemma_flat_map_push(snapshot.route_names, name, f);
    let own = snapshot.inline_virtual_hosts;
    let before = snapshot.route_names.flat_map(f);
    if snapshot.route_names.len() == 0 {
        assert(snapshot.route_names =~= Seq::<Seq<char>>::empty());
        assert(own + before =~= own);
    }
    if routes.dom().contains(name) {
        assert(own + (before + routes[name]) =~= own + before + routes[name]);
    } else {
        assert(own + (before + Seq::<VirtualHostView>::empty()) =~= own + before);
    }
}

/// The configuration shows each known listener and each known cluster, in the
/// order of their names, and nothing else. A cluster has the endpoints that are
/// known for it. The version is that of the response, or a fallback where it has
/// none.
pub proof fn law_config_shows_each_resource(state: AdsStateView, version: Seq<char>, i: int)
    requires
        state.listeners.dom().finite(),
        state.clusters.dom().finite(),
    ensures
        ({
            let config = state.runtime_config(version);
            let named = ascending(state.listeners.dom());
            let clusters = ascending(state.clusters.dom());
            &&& config.version == if version.len() == 0 {
                seq!['a', 'd', 's']
            } else {
                version
            }
            &&& config.secrets.len() == 0
            &&& config.listeners.len() == named.len()
            &&& config.clusters.len() == clusters.len()
            &&& named.to_set() == state.listeners.dom()
            &&& clusters.to_set() == state.clusters.dom()
            &&& is_ascending(named)
            &&& is_ascending(clusters)
            &&& 0 <= i < named.len() ==> config.listeners[i] == listener_with_hosts(state.routes)(
                state.listeners[named[i]],
            )
            &&& 0 <= i < clusters.len() ==> {
                let known = state.clusters[clusters[i]];
                &&& config.clusters[i].name == known.name
                &&& config.clusters[i].tls == known.tls
                &&& state.endpoints.dom().contains(known.eds_service_name)
                    ==> config.clusters[i].endpoints == state.endpoints[known.eds_service_name]
                &&& !state.endpoints.dom().contains(known.eds_service_name)
                    ==> config.clusters[i].endpoints.len() == 0
            }
        }),
{
    lemma_finite_ascending(state.listeners.dom());
    lemma_finite_ascending(state.clusters.dom());
    assert("ads"@ =~= seq!['a', 'd', 's']) by {
        reveal_strlit("ads");
    }
}

/// A response of listeners first lets the listeners go that were asked for. Then
/// each is taken in under its name, up to the first that is malformed or cannot
/// be kept, which is the failure.
pub proof fn law_listeners_are_taken_in_turn(
    state: AdsStateView,
    resources: Seq<proto::AnyView<proto::ListenerView>>,
    resource: proto::AnyView<proto::ListenerView>,
)
    ensures
        state.with_listeners(seq![]) == (
            AdsStateView {
                listeners: pruned(
                    state.listeners,
                    state.subscription("type.googleapis.com/listener.v1.Listener"@),
                ),
                ..state
            },
            None::<XdsErrorView>,
        ),
        ({
            let (before, failed) = state.with_listeners(resources);
            let (after, failure) = state.with_listeners(resources.push(resource));
            &&& failed is Some ==> after == before && failure == failed
            &&& failed is None && resource.value is Err ==> after == before && failure == Some(
                XdsErrorView::Decode {
                    type_url: "type.googleapis.com/listener.v1.Listener"@,
                    source: resource.value->Err_0,
                },
            )
            &&& failed is None && resource.value is Ok && listener_kept(resource.value->Ok_0) is Err
                ==> after == before && failure == Some(listener_kept(resource.value->Ok_0)->Err_0)
            &&& failed is None && resource.value is Ok && listener_kept(resource.value->Ok_0) is Ok
                ==> failure is None && after == AdsStateView {
                listeners: before.listeners.insert(
                    listener_kept(resource.value->Ok_0)->Ok_0.listener.name,
                    listener_kept(resource.value->Ok_0)->Ok_0,
                ),
                ..before
            }
        }),
{
    assert(resources.push(resource).drop_last() =~= resources);
}

/// A response of route resources first lets those go that were asked for. Then
/// each is taken in under its name, with all its virtual hosts, up to the first
/// that is malformed, which is the failure.
pub proof fn law_routes_are_taken_in_turn(
    state: AdsStateView,
    resources: Seq<proto::AnyView<proto::RouteConfigurationView>>,
    resource: proto::AnyView<proto::RouteConfigurationView>,
)
    ensures
        state.with_routes(seq![]) == (
            AdsStateView {
                routes: pruned(
                    state.routes,
                    state.subscription("type.googleapis.com/route.v1.RouteConfiguration"@),
                ),
                ..state
            },
            None::<XdsErrorView>,
        ),
        ({
            let (before, failed) = state.with_routes(resources);
            let (after, failure) = state.with_routes(resources.push(resource));
            &&& failed is Some ==> after == before && failure == failed
            &&& failed is None && resource.value is Err ==> after == before && failure == Some(
                XdsErrorView::Decode {
                    type_url: "type.googleapis.com/route.v1.RouteConfiguration"@,
                    source: resource.value->Err_0,
                },
            )
            &&& failed is None && resource.value is Ok ==> {
                let message = resource.value->Ok_0;
                &&& failure is None
                &&& after == AdsStateView {
                    routes: before.routes.insert(message.name, after.routes[message.name]),
                    ..before
                }
                &&& after.routes[message.name].len() == message.virtual_hosts.len()
                &&& forall|h: int|
                    0 <= h < message.virtual_hosts.len() ==> after.routes[message.name][h]
                        == converted_host()(#[trigger] message.virtual_hosts[h])
            }
        }),
{
    assert(resources.push(resource).drop_last() =~= resources);
    let (before, failed) = state.with_routes(resources);
    let (after, failure) = state.with_routes(resources.push(resource));
    if failed is None && resource.value is Ok {
        let message = resource.value->Ok_0;
        assert(after.routes == before.routes.insert(
            message.name,
            message.virtual_hosts.map_values(converted_host()),
        ));
    }
}

/// A response of clusters first lets the clusters go that were asked for. Then
/// each with a name is taken in under it, and the endpoints that it brings along
/// under the name by which they are found. The first that is malformed is the
/// failure.
pub proof fn law_clusters_are_taken_in_turn(
    state: AdsStateView,
    resources: Seq<proto::AnyView<proto::ClusterView>>,
    resource: proto::AnyView<proto::ClusterView>,
)
    ensures
        state.with_clusters(seq![]) == (
            AdsStateView {
                clusters: pruned(
                    state.clusters,
                    state.subscription("type.googleapis.com/cluster.v1.Cluster"@),
                ),
                ..state
            },
            None::<XdsErrorView>,
        ),
        ({
            let (before, failed) = state.with_clusters(resources);
            let (after, failure) = state.with_clusters(resources.push(resource));
            &&& failed is Some ==> after == before && failure == failed
            &&& failed is None && resource.value is Err ==> after == before && failure == Some(
                XdsErrorView::Decode {
                    type_url: "type.googleapis.com/cluster.v1.Cluster"@,
                    source: resource.value->Err_0,
                },
            )
            &&& failed is None && resource.value is Ok ==> {
                let message = resource.value->Ok_0;
                &&& failure is None
                &&& message.name.len() == 0 ==> after == before
                &&& message.name.len() > 0 ==> after == AdsStateView {
                    clusters: before.clusters.insert(message.name, cluster_kept(message)),
                    endpoints: if message.load_assignment is Some {
                        before.endpoints.insert(
                            endpoint_name(message),
                            assigned(message.load_assignment->0),
                        )
                    } else {
                        before.endpoints
                    },
                    ..before
                }
            }
        }),
{
    assert(resources.push(resource).drop_last() =~= resources);
}

/// A response of endpoints first lets the endpoints go that were asked for. Then
/// those of each assignment with a name are taken in under it, up to the first
/// that is malformed, which is the failure.
pub proof fn law_assignments_are_taken_in_turn(
    state: AdsStateView,
    resources: Seq<proto::AnyView<proto::ClusterLoadAssignmentView>>,
    resource: proto::AnyView<proto::ClusterLoadAssignmentView>,
)
    ensures
        state.with_endpoints(seq![]) == (
            AdsStateView {
                endpoints: pruned(
                    state.endpoints,
                    state.subscription("type.googleapis.com/endpoint.v1.ClusterLoadAssignment"@),
                ),
                ..state
            },
            None::<XdsErrorView>,
        ),
        ({
            let (before, failed) = state.with_endpoints(resources);
            let (after, failure) = state.with_endpoints(resources.push(resource));
            &&& failed is Some ==> after == before && failure == failed
            &&& failed is None && resource.value is Err ==> after == before && failure == Some(
                XdsErrorView::Decode {
                    type_url: "type.googleapis.com/endpoint.v1.ClusterLoadAssignment"@,
                    source: resource.value->Err_0,
                },
            )
            &&& failed is None && resource.value is Ok ==> {
                let message = resource.value->Ok_0;
                &&& failure is None
                &&& message.cluster_name.len() == 0 ==> after == before
                &&& message.cluster_name.len() > 0 ==> after == AdsStateView {
                    endpoints: before.endpoints.insert(message.cluster_name, assigned(message)),
                    ..before
                }
            }
        }),
{
    assert(resources.push(resource).drop_last() =~= resources);
}

/// Each kind of resource is taken in as such, and one that is not known changes
/// nothing. Listeners tell which routes are wanted, routes which clusters, and
/// clusters which endpoints.
pub proof fn law_each_kind_has_its_effect(state: AdsStateView, resources: proto::ResourcesView)
    ensures
        resources is Listeners ==> state.after(resources) == state.with_listeners(
            resources->Listeners_0,
        ),
        resources is Routes ==> state.after(resources) == state.with_routes(resources->Routes_0),
        resources is Clusters ==> state.after(resources) == state.with_clusters(
            resources->Clusters_0,
        ),
        resources is Assignments ==> state.after(resources) == state.with_endpoints(
            resources->Assignments_0,
        ),
        resources is Unknown ==> state.after(resources) == (state, None::<XdsErrorView>),
        state.updates(resources).route_names == if resources is Listeners {
            state.route_names()
        } else {
            seq![]
        },
        state.updates(resources).cluster_names == if resources is Routes {
            state.cluster_names()
        } else {
            seq![]
        },
        state.updates(resources).eds_names == if resources is Clusters {
            state.eds_names()
        } else {
            seq![]
        },
        no_updates().route_names.len() == 0,
        no_updates().cluster_names.len() == 0,
        no_updates().eds_names.len() == 0,
{
}

/// What is wanted of some kinds is asked for kind by kind, routes before
/// clusters before endpoints, and nothing of a kind of which nothing is wanted.
pub proof fn law_wanted_names_are_asked_by_kind(updates: DiscoveryUpdatesView)
    ensures
        updates.wanted() == (if updates.route_names.len() > 0 {
            seq![("type.googleapis.com/route.v1.RouteConfiguration"@, updates.route_names)]
        } else {
            seq![]
        }) + (if updates.cluster_names.len() > 0 {
            seq![("type.googleapis.com/cluster.v1.Cluster"@, updates.cluster_names)]
        } else {
            seq![]
        }) + (if updates.eds_names.len() > 0 {
            seq![("type.googleapis.com/endpoint.v1.ClusterLoadAssignment"@, updates.eds_names)]
        } else {
            seq![]
        }),
{
}

} // verus!
