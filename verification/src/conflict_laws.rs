//! What holds of the conflicts of configurations.

use crate::config::{
    ClusterView, ListenerView, RouteView, RuntimeConfigView, VirtualHostView, WeightedClusterView,
};
use crate::config_laws::{
    clusters_differ, host_leads, law_valid_means, leads_to, listener_leads, listeners_agree,
};
use crate::error::ConfigConflictView;
use crate::lists::{lemma_filter_map_push, lemma_flat_map_push};
use crate::validate::{
    cluster_conflicts, cluster_conflicts_at, cluster_named_before, compatible, destination_check,
    has_cluster, host_check, last_bound, listener_conflicts, listener_conflicts_at,
    listener_named_before, route_check, routing_check,
};
use vstd::prelude::*;

verus! {

/// Whether two listeners cannot be on one address.
pub open spec fn clash(a: ListenerView, b: ListenerView) -> bool {
    a.bind == b.bind && (a.protocol != b.protocol || a.tls_secret is Some != b.tls_secret is Some)
}

/// The last listener on an address stands behind all others on it.
proof fn lemma_last_bound(listeners: Seq<ListenerView>, n: int, j: int)
    requires
        0 <= j < n <= listeners.len(),
    ensures
        exists|k: int|
            {
                &&& j <= k < n
                &&& (#[trigger] listeners[k]).bind == listeners[j].bind
                &&& last_bound(listeners, n, listeners[j].bind) == Some(listeners[k])
                &&& forall|i: int| k < i < n ==> (#[trigger] listeners[i]).bind != listeners[j].bind
            },
    decreases n,
{
    if listeners[n - 1].bind != listeners[j].bind {
        lemma_last_bound(listeners, n - 1, j);
    }
}

/// No listener on an address where none is found.
proof fn lemma_none_bound(listeners: Seq<ListenerView>, n: int, bind: crate::address::SocketAddrView)
    requires
        0 <= n <= listeners.len(),
        forall|j: int| 0 <= j < n ==> (#[trigger] listeners[j]).bind != bind,
    ensures
        last_bound(listeners, n, bind) is None,
    decreases n,
{
    if n > 0 {
        lemma_none_bound(listeners, n - 1, bind);
    }
}

/// Listeners that agree do not clash, however far apart they stand.
proof fn lemma_no_clash(listeners: Seq<ListenerView>, i: int, j: int)
    requires
        listeners_agree(listeners),
        0 <= i < j < listeners.len(),
    ensures
        !clash(listeners[i], listeners[j]),
    decreases j,
{
    if listeners[i].bind == listeners[j].bind {
        lemma_last_bound(listeners, j, i);
        let bind = listeners[i].bind;
        let k = choose|k: int|
            {
                &&& i <= k < j
                &&& (#[trigger] listeners[k]).bind == bind
                &&& last_bound(listeners, j, bind) == Some(listeners[k])
                &&& forall|m: int| k < m < j ==> (#[trigger] listeners[m]).bind != bind
            };
        assert(compatible(listeners[k], listeners[j]));
        if i < k {
            lemma_no_clash(listeners, i, k);
        }
    }
}

/// A listener that clashes with no earlier one agrees with the last on its
/// address.
proof fn lemma_agrees_at(listeners: Seq<ListenerView>, i: int)
    requires
        0 <= i < listeners.len(),
        forall|j: int| 0 <= j < i ==> !clash(#[trigger] listeners[j], listeners[i]),
    ensures
        match last_bound(listeners, i, listeners[i].bind) {
            Some(earlier) => compatible(earlier, listeners[i]),
            None => true,
        },
{
    let bind = listeners[i].bind;
    if exists|j: int| 0 <= j < i && (#[trigger] listeners[j]).bind == bind {
        let j = choose|j: int| 0 <= j < i && (#[trigger] listeners[j]).bind == bind;
        lemma_last_bound(listeners, i, j);
        let k = choose|k: int|
            {
                &&& j <= k < i
                &&& (#[trigger] listeners[k]).bind == bind
                &&& last_bound(listeners, i, bind) == Some(listeners[k])
                &&& forall|m: int| k < m < i ==> (#[trigger] listeners[m]).bind != bind
            };
        assert(!clash(listeners[k], listeners[i]));
    } else {
        lemma_none_bound(listeners, i, bind);
    }
}

/// Whether no two listeners have one name and no two clash.
pub open spec fn no_two_clash(listeners: Seq<ListenerView>) -> bool {
    forall|i: int, j: int|
        0 <= i < j < listeners.len() ==> (#[trigger] listeners[i]).name != (
        #[trigger] listeners[j]).name && !clash(listeners[i], listeners[j])
}

/// Listeners agree exactly where no two have one name and no two clash.
proof fn lemma_listeners_agree(listeners: Seq<ListenerView>)
    ensures
        listeners_agree(listeners) <==> no_two_clash(listeners),
{
    if listeners_agree(listeners) {
        assert forall|i: int, j: int| 0 <= i < j < listeners.len() implies (
        #[trigger] listeners[i]).name != (#[trigger] listeners[j]).name && !clash(
            listeners[i],
            listeners[j],
        ) by {
            assert(!listener_named_before(listeners, j, listeners[j].name));
            lemma_no_clash(listeners, i, j);
        }
    }
    if no_two_clash(listeners) {
        lemma_agree(listeners);
    }
}

proof fn lemma_agree(listeners: Seq<ListenerView>)
    requires
        no_two_clash(listeners),
    ensures
        listeners_agree(listeners),
{
    assert forall|i: int| 0 <= i < listeners.len() implies !listener_named_before(
        listeners,
        i,
        (#[trigger] listeners[i]).name,
    ) && match last_bound(listeners, i, listeners[i].bind) {
        Some(earlier) => compatible(earlier, listeners[i]),
        None => true,
    } by {
        lemma_agrees_at(listeners, i);
    }
}

/// Whether a cluster has a name.
pub open spec fn is_there(name: Seq<char>, clusters: Seq<ClusterView>) -> bool {
    exists|c: int| 0 <= c < clusters.len() && (#[trigger] clusters[c]).name == name
}

/// Whether each route of a listener has a destination, and each destination
/// names a cluster.
pub open spec fn destinations_are_there(listener: ListenerView, clusters: Seq<ClusterView>) -> bool {
    &&& forall|h: int, r: int|
        #![trigger listener.virtual_hosts[h].routes[r]]
        0 <= h < listener.virtual_hosts.len() && 0 <= r < listener.virtual_hosts[h].routes.len()
            ==> listener.virtual_hosts[h].routes[r].weighted_clusters.len() > 0
    &&& forall|h: int, r: int, d: int|
        #![trigger listener.virtual_hosts[h].routes[r].weighted_clusters[d]]
        0 <= h < listener.virtual_hosts.len() && 0 <= r < listener.virtual_hosts[h].routes.len()
            && 0 <= d < listener.virtual_hosts[h].routes[r].weighted_clusters.len() ==> is_there(
            listener.virtual_hosts[h].routes[r].weighted_clusters[d].name,
            clusters,
        )
}

/// A listener leads to clusters that are there exactly where its destinations
/// are.
proof fn lemma_listener_leads(listener: ListenerView, clusters: Seq<ClusterView>)
    ensures
        listener_leads(listener, clusters) <==> destinations_are_there(listener, clusters),
{
    if destinations_are_there(listener, clusters) {
        lemma_leads(listener, clusters);
    }
    if listener_leads(listener, clusters) {
        lemma_there(listener, clusters);
    }
}

proof fn lemma_there(listener: ListenerView, clusters: Seq<ClusterView>)
    requires
        listener_leads(listener, clusters),
    ensures
        destinations_are_there(listener, clusters),
{
    assert forall|h: int, r: int|
        #![trigger listener.virtual_hosts[h].routes[r]]
        0 <= h < listener.virtual_hosts.len() && 0 <= r
            < listener.virtual_hosts[h].routes.len() implies leads_to(
        listener.virtual_hosts[h].routes[r],
        clusters,
    ) by {
        assert(host_leads(listener.virtual_hosts[h], clusters));
    }
    assert forall|h: int, r: int, d: int|
        #![trigger listener.virtual_hosts[h].routes[r].weighted_clusters[d]]
        0 <= h < listener.virtual_hosts.len() && 0 <= r < listener.virtual_hosts[h].routes.len()
            && 0 <= d
            < listener.virtual_hosts[h].routes[r].weighted_clusters.len() implies is_there(
        listener.virtual_hosts[h].routes[r].weighted_clusters[d].name,
        clusters,
    ) by {
        let route = listener.virtual_hosts[h].routes[r];
        assert(leads_to(route, clusters));
        let name = route.weighted_clusters[d].name;
        assert(has_cluster(clusters, name));
        let c = choose|c: int| 0 <= c < clusters.len() && #[trigger] clusters[c].name == name;
        assert(clusters[c].name == name);
    }
}

proof fn lemma_leads(listener: ListenerView, clusters: Seq<ClusterView>)
    requires
        destinations_are_there(listener, clusters),
    ensures
        listener_leads(listener, clusters),
{
    let hosts = listener.virtual_hosts;
    assert forall|h: int| 0 <= h < hosts.len() implies host_leads(
        #[trigger] hosts[h],
        clusters,
    ) by {
        let routes = hosts[h].routes;
        assert forall|r: int| 0 <= r < routes.len() implies leads_to(
            #[trigger] routes[r],
            clusters,
        ) by {
            assert(listener.virtual_hosts[h].routes[r].weighted_clusters.len() > 0);
            let wanted = routes[r].weighted_clusters;
            assert forall|d: int| 0 <= d < wanted.len() implies has_cluster(
                clusters,
                (#[trigger] wanted[d]).name,
            ) by {
                assert(listener.virtual_hosts[h].routes[r].weighted_clusters[d] == wanted[d]);
                let c = choose|c: int|
                    0 <= c < clusters.len() && (#[trigger] clusters[c]).name == wanted[d].name;
                assert(clusters[c].name == wanted[d].name);
            }
        }
    }
}

/// A configuration is without conflicts exactly where no two listeners have one
/// name, no two listeners on one address differ in protocol or in whether they
/// use TLS, no two clusters have one name, and each route has a destination and
/// only destinations that name a cluster.
pub proof fn law_valid_configs_are_sound(config: RuntimeConfigView)
    ensures
        config.valid() <==> {
            &&& no_two_clash(config.listeners)
            &&& forall|i: int, j: int|
                0 <= i < j < config.clusters.len() ==> (#[trigger] config.clusters[i]).name != (
                #[trigger] config.clusters[j]).name
            &&& forall|l: int|
                0 <= l < config.listeners.len() ==> destinations_are_there(
                    #[trigger] config.listeners[l],
                    config.clusters,
                )
        },
{
    law_valid_means(config);
    let clusters = config.clusters;
    lemma_listeners_agree(config.listeners);
    assert(clusters_differ(clusters) <==> forall|i: int, j: int|
        0 <= i < j < clusters.len() ==> (#[trigger] clusters[i]).name != (
        #[trigger] clusters[j]).name) by {
        if clusters_differ(clusters) {
            assert forall|i: int, j: int| 0 <= i < j < clusters.len() implies (
            #[trigger] clusters[i]).name != (#[trigger] clusters[j]).name by {
                assert(!cluster_named_before(clusters, j, clusters[j].name));
            }
        }
    }
    assert forall|l: int| 0 <= l < config.listeners.len() implies listener_leads(
        #[trigger] config.listeners[l],
        clusters,
    ) == destinations_are_there(config.listeners[l], clusters) by {
        lemma_listener_leads(config.listeners[l], clusters);
    }
}

/// All conflicts are those between listeners, then those between clusters, then
/// those of the routes.
pub proof fn law_conflicts_come_by_kind(config: RuntimeConfigView)
    ensures
        config.conflicts() == listener_conflicts(config.listeners, config.listeners.len())
            + cluster_conflicts(config.clusters, config.clusters.len())
            + config.listeners.flat_map(routing_check(config.clusters)),
{
}

/// A listener more adds a conflict where a listener has its name already, and
/// then one where the last listener on its address clashes with it. Both name
/// the listeners.
pub proof fn law_further_listener_conflicts(
    listeners: Seq<ListenerView>,
    listener: ListenerView,
    last: int,
)
    requires
        -1 <= last < listeners.len(),
        last >= 0 ==> listeners[last].bind == listener.bind,
        forall|k: int| last < k < listeners.len() ==> (#[trigger] listeners[k]).bind != listener.bind,
    ensures
        listener_conflicts(Seq::<ListenerView>::empty(), 0).len() == 0,
        listener_conflicts(listeners.push(listener), listeners.len() + 1) == listener_conflicts(
            listeners,
            listeners.len(),
        ) + (if exists|j: int|
            0 <= j < listeners.len() && (#[trigger] listeners[j]).name == listener.name {
            seq![
                ConfigConflictView {
                    kind: "duplicate-listener"@,
                    message: "listener "@ + listener.name + " is defined more than once"@,
                },
            ]
        } else {
            seq![]
        }) + (if last >= 0 && clash(listeners[last], listener) {
            seq![
                ConfigConflictView {
                    kind: "listener-bind-conflict"@,
                    message: "listeners "@ + listeners[last].name + " and "@ + listener.name
                        + " both bind "@ + listener.bind.text()
                        + " with incompatible protocol or TLS mode"@,
                },
            ]
        } else {
            seq![]
        }),
{
    let all = listeners.push(listener);
    let n = listeners.len() as int;
    let before = Seq::new(n as nat, |i: int| listener_conflicts_at(listeners, i));
    let parts = Seq::new((n + 1) as nat, |i: int| listener_conflicts_at(all, i));
    assert(Seq::new(0, |i: int| listener_conflicts_at(Seq::<ListenerView>::empty(), i)) =~= Seq::<
        Seq<ConfigConflictView>,
    >::empty());
    assert forall|i: int| 0 <= i < n implies #[trigger] before[i] == parts[i] by {
        lemma_same_before(listeners, all, i);
    }
    assert(parts =~= before.push(listener_conflicts_at(all, n)));
    before.lemma_flatten_push(listener_conflicts_at(all, n));
    assert forall|j: int| 0 <= j < n implies #[trigger] all[j] == listeners[j] by {}
    assert(listener_named_before(all, n, listener.name) <==> exists|j: int|
        0 <= j < listeners.len() && (#[trigger] listeners[j]).name == listener.name) by {
        if exists|j: int|
            0 <= j < listeners.len() && (#[trigger] listeners[j]).name == listener.name {
            let j = choose|j: int|
                0 <= j < listeners.len() && (#[trigger] listeners[j]).name == listener.name;
            assert(all[j].name == listener.name);
        }
    }
    if last >= 0 {
        lemma_last_bound(all, n, last);
        let k = choose|k: int|
            {
                &&& last <= k < n
                &&& (#[trigger] all[k]).bind == all[last].bind
                &&& last_bound(all, n, all[last].bind) == Some(all[k])
                &&& forall|i: int| k < i < n ==> (#[trigger] all[i]).bind != all[last].bind
            };
        assert(all[k] == listeners[k]);
        assert(k == last);
    } else {
        lemma_none_bound(all, n, listener.bind);
    }
    assert(listener_conflicts(all, (n + 1) as nat) =~= listener_conflicts(listeners, n as nat)
        + listener_conflicts_at(all, n));
    let first = if exists|j: int|
        0 <= j < listeners.len() && (#[trigger] listeners[j]).name == listener.name {
        seq![
            ConfigConflictView {
                kind: "duplicate-listener"@,
                message: "listener "@ + listener.name + " is defined more than once"@,
            },
        ]
    } else {
        Seq::<ConfigConflictView>::empty()
    };
    let second = if last >= 0 && clash(listeners[last], listener) {
        seq![
            ConfigConflictView {
                kind: "listener-bind-conflict"@,
                message: "listeners "@ + listeners[last].name + " and "@ + listener.name
                    + " both bind "@ + listener.bind.text()
                    + " with incompatible protocol or TLS mode"@,
            },
        ]
    } else {
        Seq::<ConfigConflictView>::empty()
    };
    assert(listener_conflicts_at(all, n) =~= first + second);
    assert(listener_conflicts(listeners, n as nat) + (first + second) =~= listener_conflicts(
        listeners,
        n as nat,
    ) + first + second);
}

/// The conflicts of a listener do not depend on later ones.
proof fn lemma_same_before(listeners: Seq<ListenerView>, all: Seq<ListenerView>, i: int)
    requires
        0 <= i < listeners.len() < all.len(),
        forall|j: int| 0 <= j < listeners.len() ==> #[trigger] all[j] == listeners[j],
    ensures
        listener_conflicts_at(all, i) == listener_conflicts_at(listeners, i),
{
    lemma_same_bound(listeners, all, i, listeners[i].bind);
    assert(listener_named_before(all, i, all[i].name) == listener_named_before(
        listeners,
        i,
        listeners[i].name,
    )) by {
        if listener_named_before(listeners, i, listeners[i].name) {
            let j = choose|j: int|
                0 <= j < i && #[trigger] listeners[j].name == listeners[i].name;
            assert(all[j].name == listeners[i].name);
        }
    }
}

proof fn lemma_same_bound(
    listeners: Seq<ListenerView>,
    all: Seq<ListenerView>,
    i: int,
    bind: crate::address::SocketAddrView,
)
    requires
        0 <= i <= listeners.len() < all.len(),
        forall|j: int| 0 <= j < listeners.len() ==> #[trigger] all[j] == listeners[j],
    ensures
        last_bound(all, i, bind) == last_bound(listeners, i, bind),
    decreases i,
{
    if i > 0 {
        lemma_same_bound(listeners, all, i - 1, bind);
        assert(all[i - 1] == listeners[i - 1]);
    }
}

/// A cluster more adds a conflict where a cluster has its name already, and none
/// otherwise.
pub proof fn law_further_cluster_conflicts(clusters: Seq<ClusterView>, cluster: ClusterView)
    ensures
        cluster_conflicts(Seq::<ClusterView>::empty(), 0).len() == 0,
        cluster_conflicts(clusters.push(cluster), clusters.len() + 1) == cluster_conflicts(
            clusters,
            clusters.len(),
        ) + (if exists|j: int|
            0 <= j < clusters.len() && (#[trigger] clusters[j]).name == cluster.name {
            seq![
                ConfigConflictView {
                    kind: "duplicate-cluster"@,
                    message: "cluster "@ + cluster.name + " is defined more than once"@,
                },
            ]
        } else {
            seq![]
        }),
{
    let all = clusters.push(cluster);
    let n = clusters.len() as int;
    let before = Seq::new(n as nat, |i: int| cluster_conflicts_at(clusters, i));
    let parts = Seq::new((n + 1) as nat, |i: int| cluster_conflicts_at(all, i));
    assert(Seq::new(0, |i: int| cluster_conflicts_at(Seq::<ClusterView>::empty(), i)) =~= Seq::<
        Seq<ConfigConflictView>,
    >::empty());
    assert forall|i: int| 0 <= i <= n implies #[trigger] cluster_named_before(all, i, all[i].name)
        == cluster_named_before(clusters, i, all[i].name) by {
        if cluster_named_before(clusters, i, all[i].name) {
            let j = choose|j: int| 0 <= j < i && #[trigger] clusters[j].name == all[i].name;
            assert(all[j].name == all[i].name);
        }
        if cluster_named_before(all, i, all[i].name) {
            let j = choose|j: int| 0 <= j < i && #[trigger] all[j].name == all[i].name;
            assert(clusters[j].name == all[i].name);
        }
    }
    assert forall|i: int| 0 <= i < n implies #[trigger] before[i] == parts[i] by {
        assert(all[i] == clusters[i]);
        assert(cluster_named_before(all, i, all[i].name) == cluster_named_before(
            clusters,
            i,
            all[i].name,
        ));
    }
    assert(parts =~= before.push(cluster_conflicts_at(all, n)));
    before.lemma_flatten_push(cluster_conflicts_at(all, n));
    assert(all[n] == cluster);
    assert(cluster_named_before(all, n, all[n].name) == cluster_named_before(
        clusters,
        n,
        cluster.name,
    ));
}

/// A route without destinations has one conflict, which names it and its
/// listener. A destination more adds one where no cluster has its name, which
/// names the route and the cluster.
pub proof fn law_route_conflicts(
    route: RouteView,
    listener: Seq<char>,
    clusters: Seq<ClusterView>,
    destination: WeightedClusterView,
)
    ensures
        route.weighted_clusters.len() == 0 ==> route_check(listener, clusters)(route) == seq![
            ConfigConflictView {
                kind: "empty-route-destination"@,
                message: "route "@ + route.name + " on listener "@ + listener
                    + " has no weighted clusters"@,
            },
        ],
        route_check(listener, clusters)(
            (RouteView {
                weighted_clusters: route.weighted_clusters.push(destination),
                ..route
            }),
        ) == (if route.weighted_clusters.len() == 0 {
            seq![]
        } else {
            route_check(listener, clusters)(route)
        }) + (if exists|c: int|
            0 <= c < clusters.len() && (#[trigger] clusters[c]).name == destination.name {
            seq![]
        } else {
            seq![
                ConfigConflictView {
                    kind: "missing-cluster"@,
                    message: "route "@ + route.name + " references missing cluster "@
                        + destination.name,
                },
            ]
        }),
{
    let f = destination_check(route.name, clusters);
    lemma_filter_map_push(route.weighted_clusters, destination, f);
    let more = RouteView {
        weighted_clusters: route.weighted_clusters.push(destination),
        ..route
    };
    let found = route.weighted_clusters.filter_map(f);
    assert(has_cluster(clusters, destination.name) <==> exists|c: int|
        0 <= c < clusters.len() && (#[trigger] clusters[c]).name == destination.name);
    if route.weighted_clusters.len() == 0 {
        assert(route.weighted_clusters =~= Seq::<WeightedClusterView>::empty());
    } else {
        assert(route_check(listener, clusters)(route) =~= found);
    }
    assert(route_check(listener, clusters)(more) =~= more.weighted_clusters.filter_map(f));
}

/// The conflicts of routes are those of each in turn: a route more adds its
/// conflicts to those of its virtual host, a virtual host more its conflicts to
/// those of its listener, and a listener more its conflicts to those of all.
pub proof fn law_route_conflicts_add_up(
    listeners: Seq<ListenerView>,
    listener: ListenerView,
    host: VirtualHostView,
    route: RouteView,
    clusters: Seq<ClusterView>,
)
    ensures
        host_check(listener.name, clusters)((VirtualHostView { routes: seq![], ..host })).len() == 0,
        host_check(listener.name, clusters)(
            (VirtualHostView { routes: host.routes.push(route), ..host }),
        ) == host_check(listener.name, clusters)(host) + route_check(listener.name, clusters)(
            route,
        ),
        routing_check(clusters)((ListenerView { virtual_hosts: seq![], ..listener })).len() == 0,
        routing_check(clusters)(
            (ListenerView { virtual_hosts: listener.virtual_hosts.push(host), ..listener }),
        ) == routing_check(clusters)(listener) + host_check(listener.name, clusters)(host),
        Seq::<ListenerView>::empty().flat_map(routing_check(clusters)).len() == 0,
        listeners.push(listener).flat_map(routing_check(clusters)) == listeners.flat_map(
            routing_check(clusters),
        ) + routing_check(clusters)(listener),
{
    lemma_flat_map_push(host.routes, route, route_check(listener.name, clusters));
    lemma_flat_map_push(listener.virtual_hosts, host, host_check(listener.name, clusters));
    lemma_flat_map_push(listeners, listener, routing_check(clusters));
}

} // verus!
