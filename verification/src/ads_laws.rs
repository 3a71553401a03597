//! What holds of the resources that the gateway knows, whatever responses came
//! in, and of the exchange with the control plane.

use crate::address::{IpAddrView, SocketAddrView};
use crate::ads::{
    absorbed, hosts_of_route, listener_with_hosts, nothing_known, pruned, take_assignment,
    take_cluster, take_listener, take_routes, AdsStateView, CLUSTER_TYPE, ENDPOINT_TYPE,
    LISTENER_TYPE, ROUTE_TYPE,
};
use crate::config::{
    ClusterView, ListenerProtocol, ListenerView, RouteView, VirtualHostView, WeightedClusterView,
};
use crate::config_laws::{
    clusters_differ, host_leads, law_valid_means, leads_to, lemma_cluster_conflicts,
    lemma_flat_map_from, lemma_listener_conflicts, listener_leads, listeners_agree,
};
use crate::convert::{converted_action, converted_host, converted_route, weighted_of};
use crate::error::{ConfigConflictView, XdsErrorView};
use crate::names::{
    ascending, is_ascending, lemma_ascending_insert, lemma_ascending_is,
    lemma_precedes_irreflexive, lemma_precedes_total, lemma_precedes_transitive, precedes,
};
use crate::proto;
use crate::snapshots::{
    all_decoded, bound_listener, decoded, inline_hosts, packed_managers, ClusterSnapshotView,
    ListenerSnapshotView, CONNECTION_MANAGER_TYPE,
};
use crate::validate::{
    cluster_named_before, compatible, destination_check, has_cluster, host_check, last_bound,
    listener_named_before, route_check, routing_check,
};
use vstd::prelude::*;

verus! {

/// The place of a name in an ascending list that does not hold it.
proof fn lemma_free_place(names: Seq<Seq<char>>, name: Seq<char>) -> (at: int)
    requires
        is_ascending(names),
        !names.contains(name),
    ensures
        0 <= at <= names.len(),
        forall|i: int| 0 <= i < at ==> precedes(#[trigger] names[i], name),
        forall|i: int| at <= i < names.len() ==> precedes(name, #[trigger] names[i]),
    decreases names.len(),
{
    if names.len() == 0 {
        0
    } else {
        let n = names.len() - 1;
        assert(names.contains(names[n]));
        lemma_precedes_total(names[n], name);
        if precedes(names[n], name) {
            assert forall|i: int| 0 <= i < names.len() implies precedes(
                #[trigger] names[i],
                name,
            ) by {
                if i < n {
                    lemma_precedes_transitive(names[i], names[n], name);
                }
            }
            names.len() as int
        } else {
            let earlier = names.drop_last();
            assert forall|i: int, j: int| 0 <= i < j < earlier.len() implies precedes(
                #[trigger] earlier[i],
                #[trigger] earlier[j],
            ) by {
                assert(precedes(names[i], names[j]));
            }
            if earlier.contains(name) {
                let k = choose|k: int| 0 <= k < earlier.len() && earlier[k] == name;
                assert(names[k] == name);
            }
            let at = lemma_free_place(earlier, name);
            assert forall|i: int| 0 <= i < at implies precedes(#[trigger] names[i], name) by {
                assert(earlier[i] == names[i]);
            }
            assert forall|i: int| at <= i < names.len() implies precedes(
                name,
                #[trigger] names[i],
            ) by {
                if i < n {
                    assert(earlier[i] == names[i]);
                }
            }
            at
        }
    }
}

/// The names of a list can be put in order, each once; the order is the only
/// one, and ordered names stay as they are.
pub proof fn law_names_have_one_order(names: Seq<Seq<char>>)
    ensures
        is_ascending(ascending(names.to_set())),
        ascending(names.to_set()).to_set() == names.to_set(),
        ascending(ascending(names.to_set()).to_set()) == ascending(names.to_set()),
    decreases names.len(),
{
    if names.len() == 0 {
        let none = Seq::<Seq<char>>::empty();
        assert(names =~= none);
        assert(is_ascending(none));
        lemma_ascending_is(none);
    } else {
        let earlier = names.drop_last();
        let name = names.last();
        law_names_have_one_order(earlier);
        assert(names =~= earlier.push(name));
        earlier.lemma_push_to_set_commute(name);
        let sorted = ascending(earlier.to_set());
        if sorted.contains(name) {
            assert(earlier.to_set().contains(name));
            assert(names.to_set() =~= earlier.to_set());
        } else {
            let at = lemma_free_place(sorted, name);
            lemma_ascending_insert(sorted, at, name);
            lemma_ascending_is(sorted.insert(at, name));
        }
    }
}

/// The names of a finite set can be put in order.
pub proof fn lemma_finite_ascending(names: Set<Seq<char>>)
    requires
        names.finite(),
    ensures
        is_ascending(ascending(names)),
        ascending(names).to_set() == names,
{
    names.lemma_to_seq_to_set_id();
    law_names_have_one_order(names.to_seq());
}

/// A name stands only once in an ascending list.
proof fn lemma_ascending_once(names: Seq<Seq<char>>, i: int, j: int)
    requires
        is_ascending(names),
        0 <= i < names.len(),
        0 <= j < names.len(),
        names[i] == names[j],
    ensures
        i == j,
{
    lemma_precedes_irreflexive(names[i]);
}

/// A route has destinations, and each of them has a name.
pub open spec fn leads_somewhere(route: RouteView) -> bool {
    route.weighted_clusters.len() > 0 && forall|d: int|
        0 <= d < route.weighted_clusters.len() ==> (
        #[trigger] route.weighted_clusters[d]).name.len() > 0
}

/// All routes of virtual hosts lead somewhere.
pub open spec fn lead_somewhere(hosts: Seq<VirtualHostView>) -> bool {
    forall|h: int, r: int|
        0 <= h < hosts.len() && 0 <= r < hosts[h].routes.len() ==> leads_somewhere(
            #[trigger] hosts[h].routes[r],
        )
}

impl AdsStateView {
    /// What holds of the known resources: there are finitely many; each
    /// listener and each cluster is known under its own name, which of a
    /// cluster is not empty; listeners are bound to all addresses, and are HTTPS
    /// ones on the HTTPS port alone; and each route has destinations, all with
    /// names.
    pub open spec fn coherent(self) -> bool {
        &&& self.listeners.dom().finite()
        &&& self.routes.dom().finite()
        &&& self.clusters.dom().finite()
        &&& forall|name: Seq<char>|
            self.listeners.dom().contains(name) ==> (#[trigger] self.listeners[name]).listener
                == bound_listener(name, self.listeners[name].listener.bind.port)
                && lead_somewhere(self.listeners[name].inline_virtual_hosts)
        &&& forall|name: Seq<char>|
            self.routes.dom().contains(name) ==> lead_somewhere(#[trigger] self.routes[name])
        &&& forall|name: Seq<char>|
            self.clusters.dom().contains(name) ==> (#[trigger] self.clusters[name]).name == name
                && name.len() > 0
    }
}

/// The destinations of a message have names once they are converted.
proof fn lemma_destinations_named(action: proto::RouteActionView)
    ensures
        forall|d: int|
            0 <= d < converted_action(action).len() ==> (
            #[trigger] converted_action(action)[d]).name.len() > 0,
{
    if let Some(proto::ClusterSpecifierView::WeightedClusters(clusters)) =
        action.cluster_specifier {
        let converted = clusters.filter_map(weighted_of());
        assert forall|d: int| 0 <= d < converted.len() implies (
        #[trigger] converted[d]).name.len() > 0 by {
            assert(converted.contains(converted[d]));
            clusters.lemma_filter_map_contains(weighted_of(), converted[d]);
            let from = choose|from: proto::ClusterWeightView| #[trigger]
                clusters.contains(from) && weighted_of()(from) == Some(converted[d]);
            assert(weighted_of()(from) == Some(converted[d]));
        }
    }
}

/// Virtual hosts of a message lead somewhere once they are converted.
proof fn lemma_converted_lead(hosts: Seq<proto::VirtualHostView>)
    ensures
        lead_somewhere(hosts.map_values(converted_host())),
{
    let converted = hosts.map_values(converted_host());
    assert forall|h: int, r: int|
        0 <= h < converted.len() && 0 <= r < converted[h].routes.len() implies leads_somewhere(
        #[trigger] converted[h].routes[r],
    ) by {
        let routes = hosts[h].routes;
        let route = routes.filter_map(converted_route())[r];
        assert(routes.filter_map(converted_route()).contains(route));
        routes.lemma_filter_map_contains(converted_route(), route);
        let from = choose|from: proto::RouteView| #[trigger]
            routes.contains(from) && converted_route()(from) == Some(route);
        assert(converted_route()(from) == Some(route));
        if let Some(proto::ActionView::Route(action)) = from.action {
            lemma_destinations_named(action);
        }
    }
}

/// The virtual hosts that a listener brings along lead somewhere.
proof fn lemma_inline_lead(managers: Seq<proto::HttpConnectionManagerView>)
    ensures
        lead_somewhere(managers.flat_map(inline_hosts())),
{
    let hosts = managers.flat_map(inline_hosts());
    assert forall|h: int, r: int|
        0 <= h < hosts.len() && 0 <= r < hosts[h].routes.len() implies leads_somewhere(
        #[trigger] hosts[h].routes[r],
    ) by {
        assert(hosts.contains(hosts[h]));
        lemma_flat_map_from(managers, inline_hosts(), hosts[h]);
        let m = choose|m: int|
            0 <= m < managers.len() && inline_hosts()(#[trigger] managers[m]).contains(hosts[h]);
        match managers[m].route_specifier {
            Some(proto::RouteSpecifierView::RouteConfig(routes)) => {
                lemma_converted_lead(routes.virtual_hosts);
                let converted = routes.virtual_hosts.map_values(converted_host());
                let k = choose|k: int| 0 <= k < converted.len() && converted[k] == hosts[h];
                assert(leads_somewhere(converted[k].routes[r]));
            },
            _ => {},
        }
    }
}

proof fn lemma_listener_coherent(
    state: AdsStateView,
    resource: proto::AnyView<proto::ListenerView>,
)
    requires
        state.coherent(),
        take_listener()(state, resource) is Ok,
    ensures
        take_listener()(state, resource)->Ok_0.coherent(),
{
    let listener = decoded(LISTENER_TYPE@, resource)->Ok_0;
    let managers = all_decoded(CONNECTION_MANAGER_TYPE@, packed_managers(listener))->Ok_0;
    lemma_inline_lead(managers);
}

proof fn lemma_routes_coherent(
    state: AdsStateView,
    resource: proto::AnyView<proto::RouteConfigurationView>,
)
    requires
        state.coherent(),
        take_routes()(state, resource) is Ok,
    ensures
        take_routes()(state, resource)->Ok_0.coherent(),
{
    let route = decoded(ROUTE_TYPE@, resource)->Ok_0;
    lemma_converted_lead(route.virtual_hosts);
}

proof fn lemma_listeners_coherent(
    state: AdsStateView,
    resources: Seq<proto::AnyView<proto::ListenerView>>,
)
    requires
        state.coherent(),
    ensures
        absorbed(state, resources, take_listener()).0.coherent(),
    decreases resources.len(),
{
    if resources.len() > 0 {
        lemma_listeners_coherent(state, resources.drop_last());
        let (before, failure) = absorbed(state, resources.drop_last(), take_listener());
        if failure is None && take_listener()(before, resources.last()) is Ok {
            lemma_listener_coherent(before, resources.last());
        }
    }
}

proof fn lemma_all_routes_coherent(
    state: AdsStateView,
    resources: Seq<proto::AnyView<proto::RouteConfigurationView>>,
)
    requires
        state.coherent(),
    ensures
        absorbed(state, resources, take_routes()).0.coherent(),
    decreases resources.len(),
{
    if resources.len() > 0 {
        lemma_all_routes_coherent(state, resources.drop_last());
        let (before, failure) = absorbed(state, resources.drop_last(), take_routes());
        if failure is None && take_routes()(before, resources.last()) is Ok {
            lemma_routes_coherent(before, resources.last());
        }
    }
}

proof fn lemma_clusters_coherent(
    state: AdsStateView,
    resources: Seq<proto::AnyView<proto::ClusterView>>,
)
    requires
        state.coherent(),
    ensures
        absorbed(state, resources, take_cluster()).0.coherent(),
    decreases resources.len(),
{
    if resources.len() > 0 {
        lemma_clusters_coherent(state, resources.drop_last());
    }
}

proof fn lemma_assignments_coherent(
    state: AdsStateView,
    resources: Seq<proto::AnyView<proto::ClusterLoadAssignmentView>>,
)
    requires
        state.coherent(),
    ensures
        absorbed(state, resources, take_assignment()).0.coherent(),
    decreases resources.len(),
{
    if resources.len() > 0 {
        lemma_assignments_coherent(state, resources.drop_last());
    }
}

/// Taking resources out adds none.
proof fn lemma_pruned<V>(resources: Map<Seq<char>, V>, requested: Seq<Seq<char>>)
    requires
        resources.dom().finite(),
    ensures
        pruned(resources, requested).dom().finite(),
        forall|name: Seq<char>|
            pruned(resources, requested).dom().contains(name) ==> resources.dom().contains(name)
                && #[trigger] pruned(resources, requested)[name] == resources[name],
{
    let rest = pruned(resources, requested);
    if requested.len() > 0 {
        assert(rest.dom() =~= resources.dom().difference(requested.to_set()));
    }
}

/// What holds of the known resources holds from the start on and after every
/// response, also after one that is malformed.
pub proof fn law_resources_stay_coherent(
    state: AdsStateView,
    resources: proto::ResourcesView,
    type_url: Seq<char>,
    names: Seq<Seq<char>>,
)
    requires
        state.coherent(),
    ensures
        nothing_known().coherent(),
        state.subscribed(type_url, names).coherent(),
        state.after(resources).0.coherent(),
{
    match resources {
        proto::ResourcesView::Listeners(items) => {
            let start = AdsStateView {
                listeners: pruned(state.listeners, state.subscription(LISTENER_TYPE@)),
                ..state
            };
            lemma_pruned(state.listeners, state.subscription(LISTENER_TYPE@));
            assert(start.coherent());
            lemma_listeners_coherent(start, items);
        },
        proto::ResourcesView::Routes(items) => {
            let start = AdsStateView {
                routes: pruned(state.routes, state.subscription(ROUTE_TYPE@)),
                ..state
            };
            lemma_pruned(state.routes, state.subscription(ROUTE_TYPE@));
            assert(start.coherent());
            lemma_all_routes_coherent(start, items);
        },
        proto::ResourcesView::Clusters(items) => {
            let start = AdsStateView {
                clusters: pruned(state.clusters, state.subscription(CLUSTER_TYPE@)),
                ..state
            };
            lemma_pruned(state.clusters, state.subscription(CLUSTER_TYPE@));
            assert(start.coherent());
            lemma_clusters_coherent(start, items);
        },
        proto::ResourcesView::Assignments(items) => {
            let start = AdsStateView {
                endpoints: pruned(state.endpoints, state.subscription(ENDPOINT_TYPE@)),
                ..state
            };
            assert(start.coherent());
            lemma_assignments_coherent(start, items);
        },
        proto::ResourcesView::Unknown => {},
    }
}

/// The last listener on an address is one of the earlier ones.
proof fn lemma_last_bound(
    listeners: Seq<ListenerView>,
    n: int,
    bind: SocketAddrView,
)
    requires
        0 <= n <= listeners.len(),
        last_bound(listeners, n, bind) is Some,
    ensures
        exists|j: int|
            0 <= j < n && #[trigger] listeners[j] == last_bound(listeners, n, bind)->0
                && listeners[j].bind == bind,
    decreases n,
{
    if listeners[n - 1].bind == bind {
        assert(listeners[n - 1] == last_bound(listeners, n, bind)->0);
    } else {
        lemma_last_bound(listeners, n - 1, bind);
    }
}

/// The listeners of a configuration that was made from known resources.
proof fn lemma_config_listener(state: AdsStateView, version: Seq<char>, i: int)
    requires
        state.coherent(),
        0 <= i < state.runtime_config(version).listeners.len(),
    ensures
        ({
            let names = ascending(state.listeners.dom());
            let listener = state.runtime_config(version).listeners[i];
            &&& is_ascending(names)
            &&& names.len() == state.runtime_config(version).listeners.len()
            &&& state.listeners.dom().contains(names[i])
            &&& listener == listener_with_hosts(state.routes)(state.listeners[names[i]])
            &&& listener.name == names[i]
            &&& listener.protocol == if listener.bind.port == 443 {
                ListenerProtocol::Https
            } else {
                ListenerProtocol::Http
            }
            &&& listener.tls_secret is None
        }),
{
    lemma_finite_ascending(state.listeners.dom());
    let names = ascending(state.listeners.dom());
    assert(names.to_set().contains(names[i]));
    let snapshot = state.listeners[names[i]];
    assert(snapshot.listener == bound_listener(names[i], snapshot.listener.bind.port));
}

/// The clusters of a configuration that was made from known resources.
proof fn lemma_config_cluster(state: AdsStateView, version: Seq<char>, i: int)
    requires
        state.coherent(),
        0 <= i < state.runtime_config(version).clusters.len(),
    ensures
        ({
            let names = ascending(state.clusters.dom());
            let cluster = state.runtime_config(version).clusters[i];
            &&& is_ascending(names)
            &&& names.len() == state.runtime_config(version).clusters.len()
            &&& state.clusters.dom().contains(names[i])
            &&& cluster.name == names[i]
        }),
{
    lemma_finite_ascending(state.clusters.dom());
    let names = ascending(state.clusters.dom());
    assert(names.to_set().contains(names[i]));
    assert(state.clusters[names[i]].name == names[i]);
}

/// All destinations of a route are known clusters.
pub open spec fn destinations_known(route: RouteView, clusters: Map<
    Seq<char>,
    ClusterSnapshotView,
>) -> bool {
    forall|d: int|
        0 <= d < route.weighted_clusters.len() ==> clusters.dom().contains(
            (#[trigger] route.weighted_clusters[d]).name,
        )
}

/// All destinations of virtual hosts are known clusters.
pub open spec fn hosts_known(hosts: Seq<VirtualHostView>, clusters: Map<
    Seq<char>,
    ClusterSnapshotView,
>) -> bool {
    forall|h: int, r: int|
        0 <= h < hosts.len() && 0 <= r < hosts[h].routes.len() ==> destinations_known(
            #[trigger] hosts[h].routes[r],
            clusters,
        )
}

/// A cluster is in the configuration exactly where it is known.
proof fn lemma_config_has_cluster(state: AdsStateView, version: Seq<char>, name: Seq<char>)
    requires
        state.coherent(),
    ensures
        has_cluster(state.runtime_config(version).clusters, name)
            <==> state.clusters.dom().contains(name),
{
    let clusters = state.runtime_config(version).clusters;
    lemma_finite_ascending(state.clusters.dom());
    let names = ascending(state.clusters.dom());
    if has_cluster(clusters, name) {
        let j = choose|j: int| 0 <= j < clusters.len() && #[trigger] clusters[j].name == name;
        lemma_config_cluster(state, version, j);
    }
    if state.clusters.dom().contains(name) {
        assert(names.to_set().contains(name));
        let j = choose|j: int| 0 <= j < names.len() && names[j] == name;
        lemma_config_cluster(state, version, j);
        assert(clusters[j].name == name);
    }
}

/// The virtual hosts of a listener lead somewhere.
proof fn lemma_config_hosts_lead(state: AdsStateView, snapshot: ListenerSnapshotView)
    requires
        state.coherent(),
        lead_somewhere(snapshot.inline_virtual_hosts),
    ensures
        lead_somewhere(listener_with_hosts(state.routes)(snapshot).virtual_hosts),
{
    let hosts = listener_with_hosts(state.routes)(snapshot).virtual_hosts;
    let inline = snapshot.inline_virtual_hosts;
    let of_routes = snapshot.route_names.flat_map(hosts_of_route(state.routes));
    assert forall|h: int, r: int|
        0 <= h < hosts.len() && 0 <= r < hosts[h].routes.len() implies leads_somewhere(
        #[trigger] hosts[h].routes[r],
    ) by {
        if h < inline.len() {
            assert(leads_somewhere(inline[h].routes[r]));
        } else {
            let host = of_routes[h - inline.len()];
            assert(of_routes.contains(host));
            lemma_flat_map_from(snapshot.route_names, hosts_of_route(state.routes), host);
            let k = choose|k: int|
                0 <= k < snapshot.route_names.len() && hosts_of_route(state.routes)(
                    #[trigger] snapshot.route_names[k],
                ).contains(host);
            let known = hosts_of_route(state.routes)(snapshot.route_names[k]);
            assert(lead_somewhere(state.routes[snapshot.route_names[k]]));
            let m = choose|m: int| 0 <= m < known.len() && known[m] == host;
            assert(leads_somewhere(known[m].routes[r]));
        }
    }
}

/// A configuration that is made from known resources can have only one kind of
/// conflict, a route to a cluster that is not known. It can be applied exactly
/// where all destinations are known.
pub proof fn law_only_unknown_clusters_conflict(state: AdsStateView, version: Seq<char>)
    requires
        state.coherent(),
    ensures
        listeners_agree(state.runtime_config(version).listeners),
        clusters_differ(state.runtime_config(version).clusters),
        forall|k: int|
            0 <= k < state.runtime_config(version).conflicts().len() ==> (
            #[trigger] state.runtime_config(version).conflicts()[k]).kind == "missing-cluster"@,
        state.runtime_config(version).valid() <==> forall|i: int|
            0 <= i < state.runtime_config(version).listeners.len() ==> hosts_known(
                (#[trigger] state.runtime_config(version).listeners[i]).virtual_hosts,
                state.clusters,
            ),
{
    let config = state.runtime_config(version);
    let listeners = config.listeners;
    let clusters = config.clusters;
    law_valid_means(config);
    assert forall|i: int| 0 <= i < listeners.len() implies !listener_named_before(
        listeners,
        i,
        (#[trigger] listeners[i]).name,
    ) && match last_bound(listeners, i, listeners[i].bind) {
        Some(earlier) => compatible(earlier, listeners[i]),
        None => true,
    } by {
        lemma_config_listener(state, version, i);
        let names = ascending(state.listeners.dom());
        if listener_named_before(listeners, i, listeners[i].name) {
            let j = choose|j: int| 0 <= j < i && #[trigger] listeners[j].name == listeners[i].name;
            lemma_config_listener(state, version, j);
            lemma_ascending_once(names, i, j);
        }
        if last_bound(listeners, i, listeners[i].bind) is Some {
            lemma_last_bound(listeners, i, listeners[i].bind);
            let j = choose|j: int|
                0 <= j < i && #[trigger] listeners[j] == last_bound(
                    listeners,
                    i,
                    listeners[i].bind,
                )->0 && listeners[j].bind == listeners[i].bind;
            lemma_config_listener(state, version, j);
        }
    }
    assert forall|i: int| 0 <= i < clusters.len() implies !cluster_named_before(
        clusters,
        i,
        (#[trigger] clusters[i]).name,
    ) by {
        lemma_config_cluster(state, version, i);
        let names = ascending(state.clusters.dom());
        if cluster_named_before(clusters, i, clusters[i].name) {
            let j = choose|j: int| 0 <= j < i && #[trigger] clusters[j].name == clusters[i].name;
            lemma_config_cluster(state, version, j);
            lemma_ascending_once(names, i, j);
        }
    }
    assert forall|i: int| 0 <= i < listeners.len() implies (listener_leads(
        #[trigger] listeners[i],
        clusters,
    ) <==> hosts_known(listeners[i].virtual_hosts, state.clusters)) by {
        lemma_config_listener(state, version, i);
        lemma_listener_leads_known(state, version, i);
    }
    lemma_listener_conflicts(listeners);
    lemma_cluster_conflicts(clusters);
    let routing = listeners.flat_map(routing_check(clusters));
    assert(config.conflicts() =~= routing);
    assert forall|k: int| 0 <= k < config.conflicts().len() implies (
    #[trigger] config.conflicts()[k]).kind == "missing-cluster"@ by {
        let conflict = config.conflicts()[k];
        assert(routing.contains(conflict));
        lemma_flat_map_from(listeners, routing_check(clusters), conflict);
        let i = choose|i: int|
            0 <= i < listeners.len() && routing_check(clusters)(
                #[trigger] listeners[i],
            ).contains(conflict);
        lemma_config_listener(state, version, i);
        let name = ascending(state.listeners.dom())[i];
        assert(lead_somewhere(state.listeners[name].inline_virtual_hosts));
        lemma_config_hosts_lead(state, state.listeners[name]);
        lemma_routing_conflict(listeners[i], clusters, conflict);
    }
}

/// The conflicts of a listener whose routes lead somewhere.
proof fn lemma_routing_conflict(
    listener: ListenerView,
    clusters: Seq<ClusterView>,
    conflict: ConfigConflictView,
)
    requires
        lead_somewhere(listener.virtual_hosts),
        routing_check(clusters)(listener).contains(conflict),
    ensures
        conflict.kind == "missing-cluster"@,
{
    let hosts = listener.virtual_hosts;
    let of_host = host_check(listener.name, clusters);
    lemma_flat_map_from(hosts, of_host, conflict);
    let h = choose|h: int| 0 <= h < hosts.len() && of_host(#[trigger] hosts[h]).contains(conflict);
    let routes = hosts[h].routes;
    let of_route = route_check(listener.name, clusters);
    lemma_flat_map_from(routes, of_route, conflict);
    let r = choose|r: int|
        0 <= r < routes.len() && of_route(#[trigger] routes[r]).contains(conflict);
    let route = hosts[h].routes[r];
    assert(leads_somewhere(hosts[h].routes[r]));
    let missing = route.weighted_clusters.filter_map(destination_check(route.name, clusters));
    assert(of_route(route) =~= missing);
    route.weighted_clusters.lemma_filter_map_contains(
        destination_check(route.name, clusters),
        conflict,
    );
    let from = choose|from: WeightedClusterView| #[trigger]
        route.weighted_clusters.contains(from) && destination_check(route.name, clusters)(from)
            == Some(conflict);
    assert(destination_check(route.name, clusters)(from) == Some(conflict));
}

/// A configuration that is made from known resources has its listeners and its
/// clusters in ascending order of their names. Cluster names are not empty. Each
/// listener is bound to all addresses, is an HTTPS one on the HTTPS port alone,
/// and has no certificate of its own. Each route has destinations, all with
/// names.
pub proof fn law_config_shows_resources_in_order(state: AdsStateView, version: Seq<char>)
    requires
        state.coherent(),
    ensures
        is_ascending(
            state.runtime_config(version).listeners.map_values(
                |listener: ListenerView| listener.name,
            ),
        ),
        is_ascending(
            state.runtime_config(version).clusters.map_values(|cluster: ClusterView| cluster.name),
        ),
        forall|i: int|
            0 <= i < state.runtime_config(version).clusters.len() ==> (
            #[trigger] state.runtime_config(version).clusters[i]).name.len() > 0,
        forall|i: int|
            0 <= i < state.runtime_config(version).listeners.len() ==> {
                let listener = #[trigger] state.runtime_config(version).listeners[i];
                &&& listener.bind.ip == IpAddrView::V4(0, 0, 0, 0)
                &&& listener.protocol == ListenerProtocol::Https <==> listener.bind.port == 443
                &&& listener.tls_secret is None
                &&& lead_somewhere(listener.virtual_hosts)
            },
{
    let listeners = state.runtime_config(version).listeners;
    let clusters = state.runtime_config(version).clusters;
    let listener_names = listeners.map_values(|listener: ListenerView| listener.name);
    let cluster_names = clusters.map_values(|cluster: ClusterView| cluster.name);
    lemma_finite_ascending(state.listeners.dom());
    lemma_finite_ascending(state.clusters.dom());
    assert forall|i: int| 0 <= i < listeners.len() implies {
        let listener = #[trigger] listeners[i];
        &&& listener.bind.ip == IpAddrView::V4(0, 0, 0, 0)
        &&& listener.protocol == ListenerProtocol::Https <==> listener.bind.port == 443
        &&& listener.tls_secret is None
        &&& lead_somewhere(listener.virtual_hosts)
        &&& listener_names[i] == ascending(state.listeners.dom())[i]
    } by {
        lemma_config_listener(state, version, i);
        let name = ascending(state.listeners.dom())[i];
        let snapshot = state.listeners[name];
        assert(snapshot.listener == bound_listener(name, snapshot.listener.bind.port));
        lemma_config_hosts_lead(state, snapshot);
    }
    assert forall|i: int| 0 <= i < clusters.len() implies (#[trigger] clusters[i]).name.len() > 0
        && cluster_names[i] == ascending(state.clusters.dom())[i] by {
        lemma_config_cluster(state, version, i);
        assert(state.clusters[ascending(state.clusters.dom())[i]].name.len() > 0);
    }
    assert forall|i: int| 0 <= i < listeners.len() implies #[trigger] listener_names[i]
        == ascending(state.listeners.dom())[i] by {
        assert(listener_names[i] == listeners[i].name);
    }
    assert forall|i: int| 0 <= i < clusters.len() implies #[trigger] cluster_names[i] == ascending(
        state.clusters.dom(),
    )[i] by {
        assert(cluster_names[i] == clusters[i].name);
    }
    assert(listener_names =~= ascending(state.listeners.dom()));
    assert(cluster_names =~= ascending(state.clusters.dom()));
}

/// What happens to the known resources.
pub enum Event {
    /// Names of a resource type are asked for.
    Asked { type_url: Seq<char>, names: Seq<Seq<char>> },
    /// A response comes in, well-formed or not.
    Came(proto::ResourcesView),
}

/// The state after some events, with nothing known at the start.
pub open spec fn reached(events: Seq<Event>) -> AdsStateView
    decreases events.len(),
{
    if events.len() == 0 {
        nothing_known()
    } else {
        let before = reached(events.drop_last());
        match events.last() {
            Event::Asked { type_url, names } => before.subscribed(type_url, names),
            Event::Came(resources) => before.after(resources).0,
        }
    }
}

/// Whatever was asked for and whatever came in, the known resources are
/// coherent.
pub proof fn law_reached_resources_are_coherent(events: Seq<Event>)
    ensures
        reached(events).coherent(),
    decreases events.len(),
{
    let nothing = proto::ResourcesView::Unknown;
    let none = Seq::<Seq<char>>::empty();
    if events.len() == 0 {
        assert(nothing_known().coherent());
    } else {
        law_reached_resources_are_coherent(events.drop_last());
        let before = reached(events.drop_last());
        match events.last() {
            Event::Asked { type_url, names } => {
                law_resources_stay_coherent(before, nothing, type_url, names);
            },
            Event::Came(resources) => {
                law_resources_stay_coherent(before, resources, LISTENER_TYPE@, none);
            },
        }
    }
}

/// The routes of a listener lead to clusters that are there exactly where all
/// their destinations are known.
proof fn lemma_listener_leads_known(state: AdsStateView, version: Seq<char>, i: int)
    requires
        state.coherent(),
        0 <= i < state.runtime_config(version).listeners.len(),
    ensures
        listener_leads(
            state.runtime_config(version).listeners[i],
            state.runtime_config(version).clusters,
        ) <==> hosts_known(
            state.runtime_config(version).listeners[i].virtual_hosts,
            state.clusters,
        ),
{
    let listener = state.runtime_config(version).listeners[i];
    let clusters = state.runtime_config(version).clusters;
    let hosts = listener.virtual_hosts;
    lemma_config_listener(state, version, i);
    let name = ascending(state.listeners.dom())[i];
    assert(lead_somewhere(state.listeners[name].inline_virtual_hosts));
    lemma_config_hosts_lead(state, state.listeners[name]);
    assert forall|h: int, r: int|
        0 <= h < hosts.len() && 0 <= r < hosts[h].routes.len() implies (leads_to(
        #[trigger] hosts[h].routes[r],
        clusters,
    ) <==> destinations_known(hosts[h].routes[r], state.clusters)) by {
        let route = hosts[h].routes[r];
        assert(leads_somewhere(hosts[h].routes[r]));
        assert forall|d: int| 0 <= d < route.weighted_clusters.len() implies (has_cluster(
            clusters,
            (#[trigger] route.weighted_clusters[d]).name,
        ) <==> state.clusters.dom().contains(route.weighted_clusters[d].name)) by {
            lemma_config_has_cluster(state, version, route.weighted_clusters[d].name);
        }
    }
    if listener_leads(listener, clusters) {
        assert forall|h: int, r: int|
            0 <= h < hosts.len() && 0 <= r < hosts[h].routes.len() implies destinations_known(
            #[trigger] hosts[h].routes[r],
            state.clusters,
        ) by {
            assert(host_leads(hosts[h], clusters));
            assert(leads_to(hosts[h].routes[r], clusters));
        }
    }
    if hosts_known(hosts, state.clusters) {
        assert forall|h: int| 0 <= h < hosts.len() implies host_leads(
            #[trigger] hosts[h],
            clusters,
        ) by {
            assert forall|r: int| 0 <= r < hosts[h].routes.len() implies leads_to(
                #[trigger] hosts[h].routes[r],
                clusters,
            ) by {
                assert(destinations_known(hosts[h].routes[r], state.clusters));
            }
        }
    }
}

/// A response changes the resources of its kind alone: nothing that was asked
/// for is forgotten, and the other kinds stay. Clusters may bring endpoints
/// along. A response of an unknown type changes nothing.
pub proof fn law_response_changes_its_kind_alone(
    state: AdsStateView,
    resources: proto::ResourcesView,
)
    ensures
        state.after(resources).0.subscriptions == state.subscriptions,
        !(resources is Listeners) ==> state.after(resources).0.listeners == state.listeners,
        !(resources is Routes) ==> state.after(resources).0.routes == state.routes,
        !(resources is Clusters) ==> state.after(resources).0.clusters == state.clusters,
        !(resources is Clusters) && !(resources is Assignments) ==> state.after(
            resources,
        ).0.endpoints == state.endpoints,
        resources is Unknown ==> state.after(resources) == (state, None::<XdsErrorView>),
{
    match resources {
        proto::ResourcesView::Listeners(items) => {
            lemma_listeners_alone(
                AdsStateView {
                    listeners: pruned(state.listeners, state.subscription(LISTENER_TYPE@)),
                    ..state
                },
                items,
            );
        },
        proto::ResourcesView::Routes(items) => {
            lemma_routes_alone(
                AdsStateView {
                    routes: pruned(state.routes, state.subscription(ROUTE_TYPE@)),
                    ..state
                },
                items,
            );
        },
        proto::ResourcesView::Clusters(items) => {
            lemma_clusters_alone(
                AdsStateView {
                    clusters: pruned(state.clusters, state.subscription(CLUSTER_TYPE@)),
                    ..state
                },
                items,
            );
        },
        proto::ResourcesView::Assignments(items) => {
            lemma_assignments_alone(
                AdsStateView {
                    endpoints: pruned(state.endpoints, state.subscription(ENDPOINT_TYPE@)),
                    ..state
                },
                items,
            );
        },
        proto::ResourcesView::Unknown => {},
    }
}

proof fn lemma_listeners_alone(
    state: AdsStateView,
    resources: Seq<proto::AnyView<proto::ListenerView>>,
)
    ensures
        ({
            let after = absorbed(state, resources, take_listener()).0;
            after.subscriptions == state.subscriptions && after.routes == state.routes
                && after.clusters == state.clusters && after.endpoints == state.endpoints
        }),
    decreases resources.len(),
{
    if resources.len() > 0 {
        lemma_listeners_alone(state, resources.drop_last());
    }
}

proof fn lemma_routes_alone(
    state: AdsStateView,
    resources: Seq<proto::AnyView<proto::RouteConfigurationView>>,
)
    ensures
        ({
            let after = absorbed(state, resources, take_routes()).0;
            after.subscriptions == state.subscriptions && after.listeners == state.listeners
                && after.clusters == state.clusters && after.endpoints == state.endpoints
        }),
    decreases resources.len(),
{
    if resources.len() > 0 {
        lemma_routes_alone(state, resources.drop_last());
    }
}

proof fn lemma_clusters_alone(
    state: AdsStateView,
    resources: Seq<proto::AnyView<proto::ClusterView>>,
)
    ensures
        ({
            let after = absorbed(state, resources, take_cluster()).0;
            after.subscriptions == state.subscriptions && after.listeners == state.listeners
                && after.routes == state.routes
        }),
    decreases resources.len(),
{
    if resources.len() > 0 {
        lemma_clusters_alone(state, resources.drop_last());
    }
}

proof fn lemma_assignments_alone(
    state: AdsStateView,
    resources: Seq<proto::AnyView<proto::ClusterLoadAssignmentView>>,
)
    ensures
        ({
            let after = absorbed(state, resources, take_assignment()).0;
            after.subscriptions == state.subscriptions && after.listeners == state.listeners
                && after.routes == state.routes && after.clusters == state.clusters
        }),
    decreases resources.len(),
{
    if resources.len() > 0 {
        lemma_assignments_alone(state, resources.drop_last());
    }
}

} // verus!
