//! The conflicts of a configuration.

use crate::address::SocketAddrView;
use crate::config::{
    Cluster, ClusterView, Listener, ListenerView, Route, RouteView, RuntimeConfig,
    RuntimeConfigView, VirtualHost, VirtualHostView, WeightedCluster, WeightedClusterView,
};
use crate::error::{ConfigConflict, ConfigConflictView};
use crate::same::Same;
use vstd::prelude::*;
use vstd::string::*;

verus! {

/// A listener whose name an earlier one has.
pub open spec fn duplicate_listener(name: Seq<char>) -> ConfigConflictView {
    ConfigConflictView {
        kind: "duplicate-listener"@,
        message: "listener "@ + name + " is defined more than once"@,
    }
}

/// Two listeners on one address that do not agree.
pub open spec fn bind_conflict(
    first: Seq<char>,
    second: Seq<char>,
    bind: SocketAddrView,
) -> ConfigConflictView {
    ConfigConflictView {
        kind: "listener-bind-conflict"@,
        message: "listeners "@ + first + " and "@ + second + " both bind "@ + bind.text()
            + " with incompatible protocol or TLS mode"@,
    }
}

/// A cluster whose name an earlier one has.
pub open spec fn duplicate_cluster(name: Seq<char>) -> ConfigConflictView {
    ConfigConflictView {
        kind: "duplicate-cluster"@,
        message: "cluster "@ + name + " is defined more than once"@,
    }
}

/// A route that leads nowhere.
pub open spec fn empty_destination(route: Seq<char>, listener: Seq<char>) -> ConfigConflictView {
    ConfigConflictView {
        kind: "empty-route-destination"@,
        message: "route "@ + route + " on listener "@ + listener + " has no weighted clusters"@,
    }
}

/// A route to a cluster that is not there.
pub open spec fn missing_cluster(route: Seq<char>, cluster: Seq<char>) -> ConfigConflictView {
    ConfigConflictView {
        kind: "missing-cluster"@,
        message: "route "@ + route + " references missing cluster "@ + cluster,
    }
}

/// Whether a listener before place `n` has this name.
pub open spec fn listener_named_before(
    listeners: Seq<ListenerView>,
    n: int,
    name: Seq<char>,
) -> bool {
    exists|j: int| 0 <= j < n && #[trigger] listeners[j].name == name
}

/// The last listener before place `n` that binds this address.
pub open spec fn last_bound(
    listeners: Seq<ListenerView>,
    n: int,
    bind: SocketAddrView,
) -> Option<ListenerView>
    decreases n,
{
    if n <= 0 {
        None
    } else if listeners[n - 1].bind == bind {
        Some(listeners[n - 1])
    } else {
        last_bound(listeners, n - 1, bind)
    }
}

/// Whether two listeners could share an address.
pub open spec fn compatible(a: ListenerView, b: ListenerView) -> bool {
    a.protocol == b.protocol && (a.tls_secret is Some <==> b.tls_secret is Some)
}

/// The conflicts of the listener at place `i` with the ones before it.
pub open spec fn listener_conflicts_at(
    listeners: Seq<ListenerView>,
    i: int,
) -> Seq<ConfigConflictView> {
    let listener = listeners[i];
    let naming = if listener_named_before(listeners, i, listener.name) {
        seq![duplicate_listener(listener.name)]
    } else {
        Seq::<ConfigConflictView>::empty()
    };
    let binding = match last_bound(listeners, i, listener.bind) {
        Some(earlier) => if compatible(earlier, listener) {
            Seq::<ConfigConflictView>::empty()
        } else {
            seq![bind_conflict(earlier.name, listener.name, listener.bind)]
        },
        None => Seq::<ConfigConflictView>::empty(),
    };
    naming + binding
}

/// The conflicts between listeners.
pub open spec fn listener_conflicts(
    listeners: Seq<ListenerView>,
    n: nat,
) -> Seq<ConfigConflictView> {
    Seq::new(n, |i: int| listener_conflicts_at(listeners, i)).flatten()
}

/// Whether a cluster before place `n` has this name.
pub open spec fn cluster_named_before(clusters: Seq<ClusterView>, n: int, name: Seq<char>) -> bool {
    exists|j: int| 0 <= j < n && #[trigger] clusters[j].name == name
}

/// Whether there is a cluster of this name.
pub open spec fn has_cluster(clusters: Seq<ClusterView>, name: Seq<char>) -> bool {
    cluster_named_before(clusters, clusters.len() as int, name)
}

/// The conflict of the cluster at place `i` with the ones before it.
pub open spec fn cluster_conflicts_at(
    clusters: Seq<ClusterView>,
    i: int,
) -> Seq<ConfigConflictView> {
    if cluster_named_before(clusters, i, clusters[i].name) {
        seq![duplicate_cluster(clusters[i].name)]
    } else {
        Seq::<ConfigConflictView>::empty()
    }
}

/// The conflicts between clusters.
pub open spec fn cluster_conflicts(clusters: Seq<ClusterView>, n: nat) -> Seq<ConfigConflictView> {
    Seq::new(n, |i: int| cluster_conflicts_at(clusters, i)).flatten()
}

/// The conflict of one destination of a route, if its cluster is missing.
pub open spec fn destination_check(
    route: Seq<char>,
    clusters: Seq<ClusterView>,
) -> spec_fn(WeightedClusterView) -> Option<ConfigConflictView> {
    |destination: WeightedClusterView|
        if has_cluster(clusters, destination.name) {
            None
        } else {
            Some(missing_cluster(route, destination.name))
        }
}

/// The conflicts of one route.
pub open spec fn route_check(
    listener: Seq<char>,
    clusters: Seq<ClusterView>,
) -> spec_fn(RouteView) -> Seq<ConfigConflictView> {
    |route: RouteView|
        (if route.weighted_clusters.len() == 0 {
            seq![empty_destination(route.name, listener)]
        } else {
            Seq::<ConfigConflictView>::empty()
        }) + route.weighted_clusters.filter_map(destination_check(route.name, clusters))
}

/// The conflicts of the routes of one virtual host.
pub open spec fn host_check(
    listener: Seq<char>,
    clusters: Seq<ClusterView>,
) -> spec_fn(VirtualHostView) -> Seq<ConfigConflictView> {
    |host: VirtualHostView| host.routes.flat_map(route_check(listener, clusters))
}

/// The conflicts of the routes of one listener.
pub open spec fn routing_check(
    clusters: Seq<ClusterView>,
) -> spec_fn(ListenerView) -> Seq<ConfigConflictView> {
    |listener: ListenerView| listener.virtual_hosts.flat_map(host_check(listener.name, clusters))
}

impl RuntimeConfigView {
    /// All conflicts: those between listeners, those between clusters, and
    /// those of the routes, each in the order of the configuration.
    pub open spec fn conflicts(self) -> Seq<ConfigConflictView> {
        listener_conflicts(self.listeners, self.listeners.len()) + cluster_conflicts(
            self.clusters,
            self.clusters.len(),
        ) + self.listeners.flat_map(routing_check(self.clusters))
    }

    /// Whether the configuration can be applied.
    pub open spec fn valid(self) -> bool {
        self.conflicts().len() == 0
    }
}

/// The conflicts of one listener with the ones before it.
fn check_listener(listeners: &Vec<Listener>, i: usize) -> (found: Vec<ConfigConflict>)
    requires
        i < listeners.len(),
    ensures
        found.deep_view() == listener_conflicts_at(listeners.deep_view(), i as int),
{
    let ghost all = listeners.deep_view();
    let listener = &listeners[i];
    let mut found: Vec<ConfigConflict> = Vec::new();
    assert(found.deep_view() =~= Seq::<ConfigConflictView>::empty());

    let mut j: usize = 0;
    let mut named: bool = false;
    let mut bound: Option<usize> = None;
    while j < i
        invariant
            j <= i < listeners.len(),
            all == listeners.deep_view(),
            listener == listeners@[i as int],
            named == listener_named_before(all, j as int, listener.name@),
            match bound {
                Some(k) => k < j && last_bound(all, j as int, listener.bind.deep_view()) == Some(
                    all[k as int],
                ),
                None => last_bound(all, j as int, listener.bind.deep_view()) is None,
            },
        decreases i - j,
    {
        assert(all[j as int] == listeners@[j as int].deep_view());
        if listeners[j].name.same_as(&listener.name) {
            assert(all[j as int].name == listener.name@);
            named = true;
        }
        if listeners[j].bind.same_as(&listener.bind) {
            bound = Some(j);
        }
        j += 1;
    }
    assert(all[i as int] == listener.deep_view());
    if named {
        found.push(
            ConfigConflict::new(
                "duplicate-listener",
                "listener ".to_owned().concat(listener.name.as_str()).concat(
                    " is defined more than once",
                ),
            ),
        );
    }
    let ghost naming = found.deep_view();
    assert(naming =~= if named {
        seq![duplicate_listener(listener.name@)]
    } else {
        Seq::<ConfigConflictView>::empty()
    });
    match bound {
        Some(k) => {
            let earlier = &listeners[k];
            assert(all[k as int] == earlier.deep_view());
            if earlier.protocol != listener.protocol || earlier.tls_secret.is_some()
                != listener.tls_secret.is_some() {
                found.push(
                    ConfigConflict::new(
                        "listener-bind-conflict",
                        "listeners ".to_owned().concat(earlier.name.as_str()).concat(
                            " and ",
                        ).concat(listener.name.as_str()).concat(" both bind ").concat(
                            listener.bind.text().as_str(),
                        ).concat(" with incompatible protocol or TLS mode"),
                    ),
                );
                assert(found.deep_view() =~= naming + seq![
                    bind_conflict(earlier.name@, listener.name@, listener.bind.deep_view()),
                ]);
            } else {
                assert(found.deep_view() =~= naming + Seq::<ConfigConflictView>::empty());
            }
        },
        None => {
            assert(found.deep_view() =~= naming + Seq::<ConfigConflictView>::empty());
        },
    }
    found
}

/// The conflict of one cluster with the ones before it.
fn check_cluster(clusters: &Vec<Cluster>, i: usize) -> (found: Vec<ConfigConflict>)
    requires
        i < clusters.len(),
    ensures
        found.deep_view() == cluster_conflicts_at(clusters.deep_view(), i as int),
{
    let mut found: Vec<ConfigConflict> = Vec::new();
    assert(clusters.deep_view()[i as int] == clusters@[i as int].deep_view());
    if named_among(clusters, i, clusters[i].name.as_str()) {
        found.push(
            ConfigConflict::new(
                "duplicate-cluster",
                "cluster ".to_owned().concat(clusters[i].name.as_str()).concat(
                    " is defined more than once",
                ),
            ),
        );
    }
    assert(found.deep_view() =~= cluster_conflicts_at(clusters.deep_view(), i as int));
    found
}

/// Whether a cluster before place `n` has this name.
fn named_among(clusters: &Vec<Cluster>, n: usize, name: &str) -> (found: bool)
    requires
        n <= clusters.len(),
    ensures
        found == cluster_named_before(clusters.deep_view(), n as int, name@),
{
    let mut j: usize = 0;
    while j < n
        invariant
            j <= n <= clusters.len(),
            !cluster_named_before(clusters.deep_view(), j as int, name@),
        decreases n - j,
    {
        assert(clusters.deep_view()[j as int].name == clusters@[j as int].name@);
        if crate::text::same_text(clusters[j].name.as_str(), name) {
            return true;
        }
        j += 1;
    }
    false
}

/// The conflicts of one route.
fn check_route(listener: &str, route: &Route, clusters: &Vec<Cluster>) -> (found: Vec<
    ConfigConflict,
>)
    ensures
        found.deep_view() == route_check(listener@, clusters.deep_view())(route.deep_view()),
{
    let mut found: Vec<ConfigConflict> = Vec::new();
    let destinations: &Vec<WeightedCluster> = &route.weighted_clusters;
    if destinations.len() == 0 {
        found.push(
            ConfigConflict::new(
                "empty-route-destination",
                "route ".to_owned().concat(route.name.as_str()).concat(" on listener ").concat(
                    listener,
                ).concat(" has no weighted clusters"),
            ),
        );
    }
    let ghost emptiness = found.deep_view();
    let ghost check = destination_check(route.name@, clusters.deep_view());
    let ghost all = destinations.deep_view();
    assert(emptiness =~= if destinations.len() == 0 {
        seq![empty_destination(route.name@, listener@)]
    } else {
        Seq::<ConfigConflictView>::empty()
    });
    let mut i: usize = 0;
    assert(all.take(0) =~= Seq::<WeightedClusterView>::empty());
    assert(found.deep_view() =~= emptiness + all.take(0).filter_map(check));
    while i < destinations.len()
        invariant
            i <= destinations.len(),
            destinations == &route.weighted_clusters,
            all == destinations.deep_view(),
            check == destination_check(route.name@, clusters.deep_view()),
            found.deep_view() == emptiness + all.take(i as int).filter_map(check),
        decreases destinations.len() - i,
    {
        let name: &str = destinations[i].name.as_str();
        let ghost before = found.deep_view();
        proof {
            assert(all[i as int] == destinations@[i as int].deep_view());
            all.lemma_filter_map_take_succ(check, i as int);
        }
        if !named_among(clusters, clusters.len(), name) {
            found.push(
                ConfigConflict::new(
                    "missing-cluster",
                    "route ".to_owned().concat(route.name.as_str()).concat(
                        " references missing cluster ",
                    ).concat(name),
                ),
            );
            assert(found.deep_view() =~= before.push(missing_cluster(route.name@, name@)));
        }
        assert(found.deep_view() =~= emptiness + all.take(i as int + 1).filter_map(check));
        i += 1;
    }
    assert(all.take(i as int) =~= all);
    found
}

/// The conflicts of the routes of one virtual host.
fn check_host(listener: &str, host: &VirtualHost, clusters: &Vec<Cluster>) -> (found: Vec<
    ConfigConflict,
>)
    ensures
        found.deep_view() == host_check(listener@, clusters.deep_view())(host.deep_view()),
{
    let mut found: Vec<ConfigConflict> = Vec::new();
    let ghost check = route_check(listener@, clusters.deep_view());
    let ghost all = host.routes.deep_view();
    let mut i: usize = 0;
    assert(all.take(0) =~= Seq::<RouteView>::empty());
    assert(found.deep_view() =~= all.take(0).flat_map(check));
    while i < host.routes.len()
        invariant
            i <= host.routes.len(),
            all == host.routes.deep_view(),
            check == route_check(listener@, clusters.deep_view()),
            found.deep_view() == all.take(i as int).flat_map(check),
        decreases host.routes.len() - i,
    {
        let ghost before = found.deep_view();
        let mut more: Vec<ConfigConflict> = check_route(listener, &host.routes[i], clusters);
        let ghost added = more.deep_view();
        found.append(&mut more);
        proof {
            assert(found.deep_view() =~= before + added);
            all.lemma_flat_map_take_append(check, i as int);
        }
        i += 1;
    }
    assert(all.take(i as int) =~= all);
    found
}

/// The conflicts of the routes of one listener.
fn check_routing(listener: &Listener, clusters: &Vec<Cluster>) -> (found: Vec<ConfigConflict>)
    ensures
        found.deep_view() == routing_check(clusters.deep_view())(listener.deep_view()),
{
    let mut found: Vec<ConfigConflict> = Vec::new();
    let ghost check = host_check(listener.name@, clusters.deep_view());
    let ghost all = listener.virtual_hosts.deep_view();
    let mut i: usize = 0;
    assert(all.take(0) =~= Seq::<VirtualHostView>::empty());
    assert(found.deep_view() =~= all.take(0).flat_map(check));
    while i < listener.virtual_hosts.len()
        invariant
            i <= listener.virtual_hosts.len(),
            all == listener.virtual_hosts.deep_view(),
            check == host_check(listener.name@, clusters.deep_view()),
            found.deep_view() == all.take(i as int).flat_map(check),
        decreases listener.virtual_hosts.len() - i,
    {
        let ghost before = found.deep_view();
        let mut more: Vec<ConfigConflict> = check_host(
            listener.name.as_str(),
            &listener.virtual_hosts[i],
            clusters,
        );
        let ghost added = more.deep_view();
        found.append(&mut more);
        proof {
            assert(found.deep_view() =~= before + added);
            all.lemma_flat_map_take_append(check, i as int);
        }
        i += 1;
    }
    assert(all.take(i as int) =~= all);
    found
}

impl RuntimeConfig {
    /// Reports all conflicts of the configuration. It can be applied when
    /// there are none.
    pub fn validate(&self) -> (outcome: Result<(), Vec<ConfigConflict>>)
        ensures
            outcome is Ok <==> self.deep_view().valid(),
            outcome matches Err(conflicts) ==> conflicts.deep_view()
                == self.deep_view().conflicts(),
    {
        let mut conflicts: Vec<ConfigConflict> = Vec::new();
        let ghost listeners = self.listeners.deep_view();
        let ghost clusters = self.clusters.deep_view();

        let mut i: usize = 0;
        assert(Seq::new(0, |k: int| listener_conflicts_at(listeners, k)) =~= Seq::empty());
        assert(conflicts.deep_view() =~= listener_conflicts(listeners, 0));
        while i < self.listeners.len()
            invariant
                i <= self.listeners.len(),
                listeners == self.listeners.deep_view(),
                conflicts.deep_view() == listener_conflicts(listeners, i as nat),
            decreases self.listeners.len() - i,
        {
            let ghost before = conflicts.deep_view();
            let mut more: Vec<ConfigConflict> = check_listener(&self.listeners, i);
            let ghost added = more.deep_view();
            conflicts.append(&mut more);
            proof {
                assert(conflicts.deep_view() =~= before + added);
                let found = Seq::new(i as nat, |k: int| listener_conflicts_at(listeners, k));
                assert(Seq::new((i + 1) as nat, |k: int| listener_conflicts_at(listeners, k))
                    =~= found.push(added));
                found.lemma_flatten_push(added);
            }
            i += 1;
        }
        let ghost first = conflicts.deep_view();

        let mut j: usize = 0;
        assert(Seq::new(0, |k: int| cluster_conflicts_at(clusters, k)) =~= Seq::empty());
        assert(conflicts.deep_view() =~= first + cluster_conflicts(clusters, 0));
        while j < self.clusters.len()
            invariant
                j <= self.clusters.len(),
                clusters == self.clusters.deep_view(),
                conflicts.deep_view() == first + cluster_conflicts(clusters, j as nat),
            decreases self.clusters.len() - j,
        {
            let ghost before = conflicts.deep_view();
            let mut more: Vec<ConfigConflict> = check_cluster(&self.clusters, j);
            let ghost added = more.deep_view();
            conflicts.append(&mut more);
            proof {
                assert(conflicts.deep_view() =~= before + added);
                let found = Seq::new(j as nat, |k: int| cluster_conflicts_at(clusters, k));
                assert(Seq::new((j + 1) as nat, |k: int| cluster_conflicts_at(clusters, k))
                    =~= found.push(added));
                found.lemma_flatten_push(added);
                assert(before + added =~= first + cluster_conflicts(clusters, (j + 1) as nat));
            }
            j += 1;
        }
        let ghost second = conflicts.deep_view();

        let ghost check = routing_check(clusters);
        let mut n: usize = 0;
        assert(listeners.take(0) =~= Seq::<ListenerView>::empty());
        assert(conflicts.deep_view() =~= second + listeners.take(0).flat_map(check));
        while n < self.listeners.len()
            invariant
                n <= self.listeners.len(),
                listeners == self.listeners.deep_view(),
                clusters == self.clusters.deep_view(),
                check == routing_check(clusters),
                conflicts.deep_view() == second + listeners.take(n as int).flat_map(check),
            decreases self.listeners.len() - n,
        {
            let ghost before = conflicts.deep_view();
            let mut more: Vec<ConfigConflict> = check_routing(&self.listeners[n], &self.clusters);
            let ghost added = more.deep_view();
            conflicts.append(&mut more);
            proof {
                assert(conflicts.deep_view() =~= before + added);
                listeners.lemma_flat_map_take_append(check, n as int);
                assert(before + added =~= second + listeners.take(n as int + 1).flat_map(check));
            }
            n += 1;
        }
        assert(listeners.take(n as int) =~= listeners);
        assert(conflicts.deep_view() == self.deep_view().conflicts());
        if conflicts.len() == 0 {
            Ok(())
        } else {
            Err(conflicts)
        }
    }
}

} // verus!
