//! What the gateway knows from the control plane: the resources it asked for
//! and the ones it was given.

use crate::config::{
    Cluster, ClusterView, Endpoint, EndpointView, Listener, ListenerView, Route, RouteView,
    RuntimeConfig, RuntimeConfigView, TlsSecretView, VirtualHost, VirtualHostView,
    WeightedClusterView,
};
use crate::convert::{
    assigned, convert_virtual_hosts, converted_host, endpoints_from_assignment,
};
use crate::error::{XdsError, XdsErrorView};
use crate::names::{ascending, in_order, sorted_unique, NameMap};
use crate::proto;
use crate::same::Same;
use crate::snapshots::{
    decode_resource, decoded, listener_kept, listener_snapshot, tls_of_cluster,
    upstream_tls_from_cluster, ClusterSnapshot, ClusterSnapshotView, ListenerSnapshot,
    ListenerSnapshotView,
};
use crate::text::same_text;
use vstd::prelude::*;
use vstd::string::*;

verus! {

pub const LISTENER_TYPE: &'static str = "type.googleapis.com/listener.v1.Listener";

pub const ROUTE_TYPE: &'static str = "type.googleapis.com/route.v1.RouteConfiguration";

pub const CLUSTER_TYPE: &'static str = "type.googleapis.com/cluster.v1.Cluster";

pub const ENDPOINT_TYPE: &'static str = "type.googleapis.com/endpoint.v1.ClusterLoadAssignment";

/// The resources without those that were asked for, or none at all where
/// everything was asked for.
pub open spec fn pruned<V>(resources: Map<Seq<char>, V>, requested: Seq<Seq<char>>) -> Map<
    Seq<char>,
    V,
> {
    if requested.len() == 0 {
        Map::<Seq<char>, V>::empty()
    } else {
        resources.remove_keys(requested.to_set())
    }
}

/// Takes out the resources that were asked for, or all of them where
/// everything was asked for.
pub fn prune_requested<V: DeepView>(resources: &mut NameMap<V>, requested: &Vec<String>)
    requires
        old(resources).wf(),
    ensures
        final(resources).wf(),
        final(resources)@ == pruned(old(resources)@, requested.deep_view()),
        final(resources).deep_view() == pruned(old(resources).deep_view(), requested.deep_view()),
{
    let ghost known = resources@;
    let ghost names = requested.deep_view();
    if requested.len() == 0 {
        resources.clear();
        assert(resources.deep_view() =~= Map::<Seq<char>, V::V>::empty());
    } else {
        let mut i: usize = 0;
        assert(names.take(0).to_set() =~= Set::<Seq<char>>::empty());
        assert(known.remove_keys(names.take(0).to_set()) =~= known);
        while i < requested.len()
            invariant
                i <= requested.len(),
                names == requested.deep_view(),
                resources.wf(),
                resources@ == known.remove_keys(names.take(i as int).to_set()),
            decreases requested.len() - i,
        {
            resources.remove(requested[i].as_str());
            proof {
                let seen = names.take(i as int);
                assert(names.take(i as int + 1) =~= seen.push(names[i as int]));
                seen.lemma_push_to_set_commute(names[i as int]);
                assert(resources@ =~= known.remove_keys(names.take(i as int + 1).to_set()));
            }
            i += 1;
        }
        assert(names.take(i as int) =~= names);
        assert(resources.deep_view() =~= old(resources).deep_view().remove_keys(names.to_set()));
    }
}

/// The resources known so far, each kind by name, and the names asked for, by
/// resource type.
pub struct AdsState {
    subscriptions: NameMap<Vec<String>>,
    listeners: NameMap<ListenerSnapshot>,
    routes: NameMap<Vec<VirtualHost>>,
    clusters: NameMap<ClusterSnapshot>,
    endpoints: NameMap<Vec<Endpoint>>,
}

/// What is known and what was asked for.
#[verifier::ext_equal]
pub struct AdsStateView {
    pub subscriptions: Map<Seq<char>, Seq<Seq<char>>>,
    pub listeners: Map<Seq<char>, ListenerSnapshotView>,
    pub routes: Map<Seq<char>, Seq<VirtualHostView>>,
    pub clusters: Map<Seq<char>, ClusterSnapshotView>,
    pub endpoints: Map<Seq<char>, Seq<EndpointView>>,
}

impl DeepView for AdsState {
    type V = AdsStateView;

    closed spec fn deep_view(&self) -> AdsStateView {
        AdsStateView {
            subscriptions: self.subscriptions.deep_view(),
            listeners: self.listeners.deep_view(),
            routes: self.routes.deep_view(),
            clusters: self.clusters.deep_view(),
            endpoints: self.endpoints.deep_view(),
        }
    }
}

/// The names that a response makes worth asking for.
#[derive(Debug, PartialEq, Eq)]
pub struct DiscoveryUpdates {
    pub route_names: Vec<String>,
    pub cluster_names: Vec<String>,
    pub eds_names: Vec<String>,
}

/// What updates stand for.
#[verifier::ext_equal]
pub struct DiscoveryUpdatesView {
    pub route_names: Seq<Seq<char>>,
    pub cluster_names: Seq<Seq<char>>,
    pub eds_names: Seq<Seq<char>>,
}

impl DeepView for DiscoveryUpdates {
    type V = DiscoveryUpdatesView;

    open spec fn deep_view(&self) -> DiscoveryUpdatesView {
        DiscoveryUpdatesView {
            route_names: self.route_names.deep_view(),
            cluster_names: self.cluster_names.deep_view(),
            eds_names: self.eds_names.deep_view(),
        }
    }
}

/// Updates without names.
pub open spec fn no_updates() -> DiscoveryUpdatesView {
    DiscoveryUpdatesView {
        route_names: Seq::<Seq<char>>::empty(),
        cluster_names: Seq::<Seq<char>>::empty(),
        eds_names: Seq::<Seq<char>>::empty(),
    }
}

impl DiscoveryUpdatesView {
    /// What to ask for: routes, clusters and endpoints, as far as there are
    /// names.
    pub open spec fn wanted(self) -> Seq<(Seq<char>, Seq<Seq<char>>)> {
        (if self.route_names.len() > 0 {
            seq![(ROUTE_TYPE@, self.route_names)]
        } else {
            Seq::<(Seq<char>, Seq<Seq<char>>)>::empty()
        }) + (if self.cluster_names.len() > 0 {
            seq![(CLUSTER_TYPE@, self.cluster_names)]
        } else {
            Seq::<(Seq<char>, Seq<Seq<char>>)>::empty()
        }) + (if self.eds_names.len() > 0 {
            seq![(ENDPOINT_TYPE@, self.eds_names)]
        } else {
            Seq::<(Seq<char>, Seq<Seq<char>>)>::empty()
        })
    }
}

impl Default for DiscoveryUpdates {
    fn default() -> (updates: Self)
        ensures
            updates.deep_view() == no_updates(),
    {
        let updates = DiscoveryUpdates {
            route_names: Vec::new(),
            cluster_names: Vec::new(),
            eds_names: Vec::new(),
        };
        assert(updates.deep_view() =~= no_updates());
        updates
    }
}

impl DiscoveryUpdates {
    /// The resource types to ask for, each with its names.
    pub fn subscriptions(self) -> (wanted: Vec<(&'static str, Vec<String>)>)
        ensures
            wanted.deep_view() == self.deep_view().wanted(),
    {
        let mut wanted: Vec<(&'static str, Vec<String>)> = Vec::new();
        let ghost view = self.deep_view();
        if self.route_names.len() > 0 {
            wanted.push((ROUTE_TYPE, self.route_names));
        }
        if self.cluster_names.len() > 0 {
            wanted.push((CLUSTER_TYPE, self.cluster_names));
        }
        if self.eds_names.len() > 0 {
            wanted.push((ENDPOINT_TYPE, self.eds_names));
        }
        assert(wanted.deep_view() =~= view.wanted());
        wanted
    }
}

/// Takes items one by one into a state, and stops at the first failure.
pub open spec fn absorbed<S, R>(
    state: S,
    items: Seq<R>,
    step: spec_fn(S, R) -> Result<S, XdsErrorView>,
) -> (S, Option<XdsErrorView>)
    decreases items.len(),
{
    if items.len() == 0 {
        (state, None)
    } else {
        let (before, failure) = absorbed(state, items.drop_last(), step);
        match failure {
            Some(_) => (before, failure),
            None => match step(before, items.last()) {
                Ok(after) => (after, None),
                Err(error) => (before, Some(error)),
            },
        }
    }
}

/// After a failure, nothing more is taken in.
proof fn lemma_absorbed_stops<S, R>(
    state: S,
    items: Seq<R>,
    more: Seq<R>,
    step: spec_fn(S, R) -> Result<S, XdsErrorView>,
)
    requires
        absorbed(state, items, step).1 is Some,
    ensures
        absorbed(state, items + more, step) == absorbed(state, items, step),
    decreases more.len(),
{
    if more.len() == 0 {
        assert(items + more =~= items);
    } else {
        assert((items + more).drop_last() =~= items + more.drop_last());
        lemma_absorbed_stops(state, items, more.drop_last(), step);
    }
}

/// One more item of a list is taken in.
proof fn lemma_absorbed_next<S, R>(
    state: S,
    items: Seq<R>,
    at: int,
    step: spec_fn(S, R) -> Result<S, XdsErrorView>,
)
    requires
        0 <= at < items.len(),
        absorbed(state, items.take(at), step).1 is None,
    ensures
        match step(absorbed(state, items.take(at), step).0, items[at]) {
            Ok(after) => absorbed(state, items.take(at + 1), step) == (
                after,
                None::<XdsErrorView>,
            ),
            Err(error) => absorbed(state, items, step) == (
                absorbed(state, items.take(at), step).0,
                Some(error),
            ),
        },
{
    let upto = items.take(at + 1);
    assert(upto.drop_last() =~= items.take(at));
    assert(upto.last() == items[at]);
    if step(absorbed(state, items.take(at), step).0, items[at]) is Err {
        lemma_absorbed_stops(state, upto, items.skip(at + 1), step);
        assert(upto + items.skip(at + 1) =~= items);
    }
}

/// Takes in a listener.
pub open spec fn take_listener() -> spec_fn(
    AdsStateView,
    proto::AnyView<proto::ListenerView>,
) -> Result<AdsStateView, XdsErrorView> {
    |state: AdsStateView, resource: proto::AnyView<proto::ListenerView>|
        match decoded(LISTENER_TYPE@, resource) {
            Ok(listener) => match listener_kept(listener) {
                Ok(snapshot) => Ok(
                    AdsStateView {
                        listeners: state.listeners.insert(snapshot.listener.name, snapshot),
                        ..state
                    },
                ),
                Err(error) => Err(error),
            },
            Err(error) => Err(error),
        }
}

/// Takes in a route configuration.
pub open spec fn take_routes() -> spec_fn(
    AdsStateView,
    proto::AnyView<proto::RouteConfigurationView>,
) -> Result<AdsStateView, XdsErrorView> {
    |state: AdsStateView, resource: proto::AnyView<proto::RouteConfigurationView>|
        match decoded(ROUTE_TYPE@, resource) {
            Ok(route) => Ok(
                AdsStateView {
                    routes: state.routes.insert(
                        route.name,
                        route.virtual_hosts.map_values(converted_host()),
                    ),
                    ..state
                },
            ),
            Err(error) => Err(error),
        }
}

/// The name under which the endpoints of a cluster are found: the one that the
/// cluster gives, or else its own.
pub open spec fn endpoint_name(cluster: proto::ClusterView) -> Seq<char> {
    match cluster.eds_cluster_config {
        Some(eds) => if eds.service_name.len() > 0 {
            eds.service_name
        } else {
            cluster.name
        },
        None => cluster.name,
    }
}

/// What is kept of a cluster.
pub open spec fn cluster_kept(cluster: proto::ClusterView) -> ClusterSnapshotView {
    ClusterSnapshotView {
        name: cluster.name,
        eds_service_name: endpoint_name(cluster),
        tls: tls_of_cluster(cluster),
    }
}

/// Takes in a cluster, with the endpoints it brings along. One without a name
/// is passed over.
pub open spec fn take_cluster() -> spec_fn(
    AdsStateView,
    proto::AnyView<proto::ClusterView>,
) -> Result<AdsStateView, XdsErrorView> {
    |state: AdsStateView, resource: proto::AnyView<proto::ClusterView>|
        match decoded(CLUSTER_TYPE@, resource) {
            Ok(cluster) => if cluster.name.len() == 0 {
                Ok(state)
            } else {
                Ok(
                    AdsStateView {
                        endpoints: match cluster.load_assignment {
                            Some(assignment) => state.endpoints.insert(
                                endpoint_name(cluster),
                                assigned(assignment),
                            ),
                            None => state.endpoints,
                        },
                        clusters: state.clusters.insert(cluster.name, cluster_kept(cluster)),
                        ..state
                    },
                )
            },
            Err(error) => Err(error),
        }
}

/// Takes in the endpoints of a cluster. Those of a cluster without a name are
/// passed over.
pub open spec fn take_assignment() -> spec_fn(
    AdsStateView,
    proto::AnyView<proto::ClusterLoadAssignmentView>,
) -> Result<AdsStateView, XdsErrorView> {
    |state: AdsStateView, resource: proto::AnyView<proto::ClusterLoadAssignmentView>|
        match decoded(ENDPOINT_TYPE@, resource) {
            Ok(assignment) => if assignment.cluster_name.len() == 0 {
                Ok(state)
            } else {
                Ok(
                    AdsStateView {
                        endpoints: state.endpoints.insert(
                            assignment.cluster_name,
                            assigned(assignment),
                        ),
                        ..state
                    },
                )
            },
            Err(error) => Err(error),
        }
}

/// The route resources that a listener refers to.
pub open spec fn routes_referred() -> spec_fn(ListenerSnapshotView) -> Seq<Seq<char>> {
    |snapshot: ListenerSnapshotView| snapshot.route_names
}

/// The clusters that a route leads to.
pub open spec fn route_destinations() -> spec_fn(RouteView) -> Seq<Seq<char>> {
    |route: RouteView|
        route.weighted_clusters.map_values(
            |cluster: WeightedClusterView| cluster.name,
        )
}

/// The clusters that a virtual host leads to.
pub open spec fn host_destinations() -> spec_fn(VirtualHostView) -> Seq<Seq<char>> {
    |host: VirtualHostView| host.routes.flat_map(route_destinations())
}

/// The clusters that virtual hosts lead to.
pub open spec fn destinations() -> spec_fn(Seq<VirtualHostView>) -> Seq<Seq<char>> {
    |hosts: Seq<VirtualHostView>| hosts.flat_map(host_destinations())
}

/// The name under which the endpoints of a kept cluster are found.
pub open spec fn endpoints_referred() -> spec_fn(ClusterSnapshotView) -> Seq<char> {
    |cluster: ClusterSnapshotView| cluster.eds_service_name
}

/// The virtual hosts of a route resource, none where it is not known.
pub open spec fn hosts_of_route(routes: Map<Seq<char>, Seq<VirtualHostView>>) -> spec_fn(
    Seq<char>,
) -> Seq<VirtualHostView> {
    |name: Seq<char>|
        if routes.dom().contains(name) {
            routes[name]
        } else {
            Seq::<VirtualHostView>::empty()
        }
}

/// A listener with its virtual hosts: those it brings along, then those of the
/// routes it refers to.
pub open spec fn listener_with_hosts(routes: Map<Seq<char>, Seq<VirtualHostView>>) -> spec_fn(
    ListenerSnapshotView,
) -> ListenerView {
    |snapshot: ListenerSnapshotView|
        ListenerView {
            virtual_hosts: snapshot.inline_virtual_hosts + snapshot.route_names.flat_map(
                hosts_of_route(routes),
            ),
            ..snapshot.listener
        }
}

/// A cluster with its endpoints, none where they are not known.
pub open spec fn cluster_with_endpoints(
    endpoints: Map<Seq<char>, Seq<EndpointView>>,
) -> spec_fn(ClusterSnapshotView) -> ClusterView {
    |snapshot: ClusterSnapshotView|
        ClusterView {
            name: snapshot.name,
            endpoints: if endpoints.dom().contains(snapshot.eds_service_name) {
                endpoints[snapshot.eds_service_name]
            } else {
                Seq::<EndpointView>::empty()
            },
            tls: snapshot.tls,
        }
}

impl AdsStateView {
    /// The names asked for of a resource type.
    pub open spec fn subscription(self, type_url: Seq<char>) -> Seq<Seq<char>> {
        if self.subscriptions.dom().contains(type_url) {
            self.subscriptions[type_url]
        } else {
            Seq::<Seq<char>>::empty()
        }
    }

    /// The state in which names of a resource type were asked for.
    pub open spec fn subscribed(self, type_url: Seq<char>, names: Seq<Seq<char>>) -> AdsStateView {
        AdsStateView {
            subscriptions: self.subscriptions.insert(type_url, ascending(names.to_set())),
            ..self
        }
    }

    /// The route resources that the listeners refer to.
    pub open spec fn route_names(self) -> Seq<Seq<char>> {
        ascending(in_order(self.listeners).flat_map(routes_referred()).to_set())
    }

    /// The clusters that the route resources lead to.
    pub open spec fn cluster_names(self) -> Seq<Seq<char>> {
        ascending(in_order(self.routes).flat_map(destinations()).to_set())
    }

    /// The names under which the endpoints of the clusters are found.
    pub open spec fn eds_names(self) -> Seq<Seq<char>> {
        ascending(in_order(self.clusters).map_values(endpoints_referred()).to_set())
    }

    /// The configuration that the known resources make up.
    pub open spec fn runtime_config(self, version: Seq<char>) -> RuntimeConfigView {
        RuntimeConfigView {
            version: if version.len() == 0 {
                "ads"@
            } else {
                version
            },
            listeners: in_order(self.listeners).map_values(listener_with_hosts(self.routes)),
            clusters: in_order(self.clusters).map_values(cluster_with_endpoints(self.endpoints)),
            secrets: Seq::<TlsSecretView>::empty(),
        }
    }

    /// The state after listeners came in, and the failure that stopped them.
    pub open spec fn with_listeners(
        self,
        resources: Seq<proto::AnyView<proto::ListenerView>>,
    ) -> (AdsStateView, Option<XdsErrorView>) {
        absorbed(
            AdsStateView {
                listeners: pruned(self.listeners, self.subscription(LISTENER_TYPE@)),
                ..self
            },
            resources,
            take_listener(),
        )
    }

    /// The state after route configurations came in, and the failure that
    /// stopped them.
    pub open spec fn with_routes(
        self,
        resources: Seq<proto::AnyView<proto::RouteConfigurationView>>,
    ) -> (AdsStateView, Option<XdsErrorView>) {
        absorbed(
            AdsStateView {
                routes: pruned(self.routes, self.subscription(ROUTE_TYPE@)),
                ..self
            },
            resources,
            take_routes(),
        )
    }

    /// The state after clusters came in, and the failure that stopped them.
    pub open spec fn with_clusters(
        self,
        resources: Seq<proto::AnyView<proto::ClusterView>>,
    ) -> (AdsStateView, Option<XdsErrorView>) {
        absorbed(
            AdsStateView {
                clusters: pruned(self.clusters, self.subscription(CLUSTER_TYPE@)),
                ..self
            },
            resources,
            take_cluster(),
        )
    }

    /// The state after endpoints came in, and the failure that stopped them.
    pub open spec fn with_endpoints(
        self,
        resources: Seq<proto::AnyView<proto::ClusterLoadAssignmentView>>,
    ) -> (AdsStateView, Option<XdsErrorView>) {
        absorbed(
            AdsStateView {
                endpoints: pruned(self.endpoints, self.subscription(ENDPOINT_TYPE@)),
                ..self
            },
            resources,
            take_assignment(),
        )
    }

    /// The state after a response, and the failure that stopped it. A response
    /// of a type that the gateway does not know changes nothing.
    pub open spec fn after(self, resources: proto::ResourcesView) -> (
        AdsStateView,
        Option<XdsErrorView>,
    ) {
        match resources {
            proto::ResourcesView::Listeners(items) => self.with_listeners(items),
            proto::ResourcesView::Routes(items) => self.with_routes(items),
            proto::ResourcesView::Clusters(items) => self.with_clusters(items),
            proto::ResourcesView::Assignments(items) => self.with_endpoints(items),
            proto::ResourcesView::Unknown => (self, None),
        }
    }

    /// The names that a response made worth asking for, once it is taken in.
    pub open spec fn updates(self, resources: proto::ResourcesView) -> DiscoveryUpdatesView {
        match resources {
            proto::ResourcesView::Listeners(_) => DiscoveryUpdatesView {
                route_names: self.route_names(),
                ..no_updates()
            },
            proto::ResourcesView::Routes(_) => DiscoveryUpdatesView {
                cluster_names: self.cluster_names(),
                ..no_updates()
            },
            proto::ResourcesView::Clusters(_) => DiscoveryUpdatesView {
                eds_names: self.eds_names(),
                ..no_updates()
            },
            proto::ResourcesView::Assignments(_) => no_updates(),
            proto::ResourcesView::Unknown => no_updates(),
        }
    }
}

/// A state in which nothing is known and nothing was asked for.
pub open spec fn nothing_known() -> AdsStateView {
    AdsStateView {
        subscriptions: Map::<Seq<char>, Seq<Seq<char>>>::empty(),
        listeners: Map::<Seq<char>, ListenerSnapshotView>::empty(),
        routes: Map::<Seq<char>, Seq<VirtualHostView>>::empty(),
        clusters: Map::<Seq<char>, ClusterSnapshotView>::empty(),
        endpoints: Map::<Seq<char>, Seq<EndpointView>>::empty(),
    }
}

/// The kinds of resources.
#[derive(Debug, Clone, Copy, PartialEq, Eq, Structural)]
pub enum ResourceKind {
    Listener,
    Route,
    Cluster,
    Endpoint,
    Unknown,
}

/// The kind of resource that a type names.
pub open spec fn kind_of(type_url: Seq<char>) -> ResourceKind {
    if type_url == LISTENER_TYPE@ {
        ResourceKind::Listener
    } else if type_url == ROUTE_TYPE@ {
        ResourceKind::Route
    } else if type_url == CLUSTER_TYPE@ {
        ResourceKind::Cluster
    } else if type_url == ENDPOINT_TYPE@ {
        ResourceKind::Endpoint
    } else {
        ResourceKind::Unknown
    }
}

/// The kind of resource that a type names. It tells how the resources of a
/// response are to be decoded.
pub fn resource_kind(type_url: &str) -> (kind: ResourceKind)
    ensures
        kind == kind_of(type_url@),
{
    if same_text(type_url, LISTENER_TYPE) {
        ResourceKind::Listener
    } else if same_text(type_url, ROUTE_TYPE) {
        ResourceKind::Route
    } else if same_text(type_url, CLUSTER_TYPE) {
        ResourceKind::Cluster
    } else if same_text(type_url, ENDPOINT_TYPE) {
        ResourceKind::Endpoint
    } else {
        ResourceKind::Unknown
    }
}

impl proto::DiscoveryResponseView {
    /// The resources were decoded as the type of the response says.
    pub open spec fn consistent(self) -> bool {
        match self.resources {
            proto::ResourcesView::Listeners(_) => kind_of(self.type_url) == ResourceKind::Listener,
            proto::ResourcesView::Routes(_) => kind_of(self.type_url) == ResourceKind::Route,
            proto::ResourcesView::Clusters(_) => kind_of(self.type_url) == ResourceKind::Cluster,
            proto::ResourcesView::Assignments(_) => kind_of(self.type_url)
                == ResourceKind::Endpoint,
            proto::ResourcesView::Unknown => kind_of(self.type_url) == ResourceKind::Unknown,
        }
    }
}

impl AdsState {
    /// Each kind of resource is held in order.
    pub closed spec fn wf(&self) -> bool {
        &&& self.subscriptions.wf()
        &&& self.listeners.wf()
        &&& self.routes.wf()
        &&& self.clusters.wf()
        &&& self.endpoints.wf()
    }
}

impl Default for AdsState {
    fn default() -> (state: Self)
        ensures
            state.wf(),
            state.deep_view() == nothing_known(),
    {
        let state = AdsState {
            subscriptions: NameMap::new(),
            listeners: NameMap::new(),
            routes: NameMap::new(),
            clusters: NameMap::new(),
            endpoints: NameMap::new(),
        };
        assert(state.deep_view() =~= nothing_known());
        state
    }
}

impl AdsState {
    /// The names asked for of a resource type.
    pub fn subscription(&self, type_url: &str) -> (names: Vec<String>)
        requires
            self.wf(),
        ensures
            names.deep_view() == self.deep_view().subscription(type_url@),
    {
        match self.subscriptions.get(type_url) {
            Some(known) => {
                let names: Vec<String> = known.clone();
                assert(names.deep_view() =~= known.deep_view());
                names
            },
            None => {
                let names: Vec<String> = Vec::new();
                assert(names.deep_view() =~= Seq::<Seq<char>>::empty());
                names
            },
        }
    }

    /// Asks for names of a resource type. Tells whether other names were asked
    /// for before.
    pub fn set_subscription(&mut self, type_url: &str, names: Vec<String>) -> (changed: bool)
        requires
            old(self).wf(),
        ensures
            final(self).wf(),
            final(self).deep_view() == old(self).deep_view().subscribed(
                type_url@,
                names.deep_view(),
            ),
            changed == !(old(self).deep_view().subscriptions.dom().contains(type_url@)
                && old(self).deep_view().subscriptions[type_url@] == ascending(
                names.deep_view().to_set(),
            )),
    {
        let ghost asked = names.deep_view();
        let names: Vec<String> = sorted_unique(names);
        if let Some(known) = self.subscriptions.get(type_url) {
            if known.same_as(&names) {
                assert(self.deep_view() =~= old(self).deep_view().subscribed(type_url@, asked));
                return false;
            }
        }
        self.subscriptions.insert(type_url.to_owned(), names);
        assert(self.deep_view() =~= old(self).deep_view().subscribed(type_url@, asked));
        true
    }

    /// The route resources that the listeners refer to.
    pub fn route_names(&self) -> (names: Vec<String>)
        requires
            self.wf(),
        ensures
            names.deep_view() == self.deep_view().route_names(),
    {
        let ghost all = in_order(self.listeners.deep_view());
        let mut names: Vec<String> = Vec::new();
        let n: usize = self.listeners.len();
        let mut i: usize = 0;
        proof {
            assert(self.listeners.deep_view().dom() =~= self.listeners@.dom());
            assert(all.take(0) =~= Seq::<ListenerSnapshotView>::empty());
            assert(names.deep_view() =~= all.take(0).flat_map(routes_referred()));
        }
        while i < n
            invariant
                self.wf(),
                i <= n,
                all == in_order(self.listeners.deep_view()),
                all.len() == n,
                n == ascending(self.listeners@.dom()).len(),
                names.deep_view() == all.take(i as int).flat_map(routes_referred()),
            decreases n - i,
        {
            let snapshot: &ListenerSnapshot = self.listeners.value_at(i);
            let mut more: Vec<String> = snapshot.route_names.clone();
            let ghost before = names.deep_view();
            proof {
                self.listeners.lemma_deep_order(i as int);
                all.lemma_flat_map_take_append(routes_referred(), i as int);
                assert(more.deep_view() =~= snapshot.route_names.deep_view());
            }
            let ghost added = more.deep_view();
            names.append(&mut more);
            assert(names.deep_view() =~= before + added);
            i += 1;
        }
        assert(all.take(i as int) =~= all);
        sorted_unique(names)
    }

    /// The clusters that the route resources lead to.
    pub fn cluster_names(&self) -> (names: Vec<String>)
        requires
            self.wf(),
        ensures
            names.deep_view() == self.deep_view().cluster_names(),
    {
        let ghost all = in_order(self.routes.deep_view());
        let mut names: Vec<String> = Vec::new();
        let n: usize = self.routes.len();
        let mut i: usize = 0;
        proof {
            assert(self.routes.deep_view().dom() =~= self.routes@.dom());
            assert(all.take(0) =~= Seq::<Seq<VirtualHostView>>::empty());
            assert(names.deep_view() =~= all.take(0).flat_map(destinations()));
        }
        while i < n
            invariant
                self.wf(),
                i <= n,
                all == in_order(self.routes.deep_view()),
                all.len() == n,
                n == ascending(self.routes@.dom()).len(),
                names.deep_view() == all.take(i as int).flat_map(destinations()),
            decreases n - i,
        {
            let mut more: Vec<String> = names_of_destinations(self.routes.value_at(i));
            let ghost before = names.deep_view();
            let ghost added = more.deep_view();
            proof {
                self.routes.lemma_deep_order(i as int);
                all.lemma_flat_map_take_append(destinations(), i as int);
            }
            names.append(&mut more);
            assert(names.deep_view() =~= before + added);
            i += 1;
        }
        assert(all.take(i as int) =~= all);
        sorted_unique(names)
    }

    /// The names under which the endpoints of the clusters are found.
    pub fn eds_names(&self) -> (names: Vec<String>)
        requires
            self.wf(),
        ensures
            names.deep_view() == self.deep_view().eds_names(),
    {
        let ghost all = in_order(self.clusters.deep_view());
        let mut names: Vec<String> = Vec::new();
        let n: usize = self.clusters.len();
        let mut i: usize = 0;
        proof {
            assert(self.clusters.deep_view().dom() =~= self.clusters@.dom());
        }
        while i < n
            invariant
                self.wf(),
                i <= n,
                all == in_order(self.clusters.deep_view()),
                all.len() == n,
                n == ascending(self.clusters@.dom()).len(),
                names.deep_view() == all.take(i as int).map_values(endpoints_referred()),
            decreases n - i,
        {
            let snapshot: &ClusterSnapshot = self.clusters.value_at(i);
            let ghost before = names.deep_view();
            proof {
                self.clusters.lemma_deep_order(i as int);
            }
            names.push(snapshot.eds_service_name.clone());
            assert(names.deep_view() =~= before.push(all[i as int].eds_service_name));
            assert(names.deep_view() =~= all.take(i as int + 1).map_values(endpoints_referred()));
            i += 1;
        }
        assert(all.take(i as int) =~= all);
        sorted_unique(names)
    }

    /// Takes in listeners. They come in place of the ones asked for.
    pub fn apply_listeners(&mut self, resources: &Vec<proto::Any<proto::Listener>>) -> (outcome:
        Result<DiscoveryUpdates, XdsError>)
        requires
            old(self).wf(),
        ensures
            final(self).wf(),
            final(self).deep_view() == old(self).deep_view().with_listeners(
                resources.deep_view(),
            ).0,
            match outcome {
                Ok(updates) => old(self).deep_view().with_listeners(resources.deep_view()).1 is None
                    && updates.deep_view() == (DiscoveryUpdatesView {
                    route_names: final(self).deep_view().route_names(),
                    ..no_updates()
                }),
                Err(error) => old(self).deep_view().with_listeners(resources.deep_view()).1
                    == Some(error.deep_view()),
            },
    {
        let requested: Vec<String> = self.subscription(LISTENER_TYPE);
        prune_requested(&mut self.listeners, &requested);
        let ghost start = self.deep_view();
        let ghost all = resources.deep_view();
        let mut i: usize = 0;
        proof {
            assert(start =~= (AdsStateView {
                listeners: pruned(
                    old(self).deep_view().listeners,
                    old(self).deep_view().subscription(LISTENER_TYPE@),
                ),
                ..old(self).deep_view()
            }));
            assert(all.take(0) =~= Seq::<proto::AnyView<proto::ListenerView>>::empty());
        }
        while i < resources.len()
            invariant
                i <= resources.len(),
                all == resources.deep_view(),
                self.wf(),
                absorbed(start, all, take_listener()) == old(self).deep_view().with_listeners(all),
                absorbed(start, all.take(i as int), take_listener()) == (
                    self.deep_view(),
                    None::<XdsErrorView>,
                ),
            decreases resources.len() - i,
        {
            let ghost known = self.deep_view();
            proof {
                assert(all[i as int] == resources@[i as int].deep_view());
                lemma_absorbed_next(start, all, i as int, take_listener());
            }
            let listener: &proto::Listener = match decode_resource(LISTENER_TYPE, &resources[i]) {
                Ok(listener) => listener,
                Err(error) => {
                    return Err(error);
                },
            };
            let snapshot: ListenerSnapshot = match listener_snapshot(listener) {
                Ok(snapshot) => snapshot,
                Err(error) => {
                    return Err(error);
                },
            };
            let ghost view = snapshot.deep_view();
            self.listeners.insert(snapshot.listener.name.clone(), snapshot);
            assert(self.deep_view() =~= (AdsStateView {
                listeners: known.listeners.insert(view.listener.name, view),
                ..known
            }));
            i += 1;
        }
        assert(all.take(i as int) =~= all);
        let route_names: Vec<String> = self.route_names();
        let updates = DiscoveryUpdates { route_names, ..DiscoveryUpdates::default() };
        Ok(updates)
    }

    /// Takes in route configurations. They come in place of the ones asked for.
    pub fn apply_routes(&mut self, resources: &Vec<proto::Any<proto::RouteConfiguration>>) -> (outcome:
        Result<DiscoveryUpdates, XdsError>)
        requires
            old(self).wf(),
        ensures
            final(self).wf(),
            final(self).deep_view() == old(self).deep_view().with_routes(resources.deep_view()).0,
            match outcome {
                Ok(updates) => old(self).deep_view().with_routes(resources.deep_view()).1 is None
                    && updates.deep_view() == (DiscoveryUpdatesView {
                    cluster_names: final(self).deep_view().cluster_names(),
                    ..no_updates()
                }),
                Err(error) => old(self).deep_view().with_routes(resources.deep_view()).1 == Some(
                    error.deep_view(),
                ),
            },
    {
        let requested: Vec<String> = self.subscription(ROUTE_TYPE);
        prune_requested(&mut self.routes, &requested);
        let ghost start = self.deep_view();
        let ghost all = resources.deep_view();
        let mut i: usize = 0;
        proof {
            assert(start =~= (AdsStateView {
                routes: pruned(
                    old(self).deep_view().routes,
                    old(self).deep_view().subscription(ROUTE_TYPE@),
                ),
                ..old(self).deep_view()
            }));
            assert(all.take(0) =~= Seq::<proto::AnyView<proto::RouteConfigurationView>>::empty());
        }
        while i < resources.len()
            invariant
                i <= resources.len(),
                all == resources.deep_view(),
                self.wf(),
                absorbed(start, all, take_routes()) == old(self).deep_view().with_routes(all),
                absorbed(start, all.take(i as int), take_routes()) == (
                    self.deep_view(),
                    None::<XdsErrorView>,
                ),
            decreases resources.len() - i,
        {
            let ghost known = self.deep_view();
            proof {
                assert(all[i as int] == resources@[i as int].deep_view());
                lemma_absorbed_next(start, all, i as int, take_routes());
            }
            let route: &proto::RouteConfiguration = match decode_resource(
                ROUTE_TYPE,
                &resources[i],
            ) {
                Ok(route) => route,
                Err(error) => {
                    return Err(error);
                },
            };
            let hosts: Vec<VirtualHost> = convert_virtual_hosts(&route.virtual_hosts);
            let ghost view = hosts.deep_view();
            self.routes.insert(route.name.clone(), hosts);
            assert(self.deep_view() =~= (AdsStateView {
                routes: known.routes.insert(route.name@, view),
                ..known
            }));
            i += 1;
        }
        assert(all.take(i as int) =~= all);
        let cluster_names: Vec<String> = self.cluster_names();
        let updates = DiscoveryUpdates { cluster_names, ..DiscoveryUpdates::default() };
        Ok(updates)
    }

    /// Takes in clusters. They come in place of the ones asked for.
    pub fn apply_clusters(&mut self, resources: &Vec<proto::Any<proto::Cluster>>) -> (outcome:
        Result<DiscoveryUpdates, XdsError>)
        requires
            old(self).wf(),
        ensures
            final(self).wf(),
            final(self).deep_view() == old(self).deep_view().with_clusters(resources.deep_view()).0,
            match outcome {
                Ok(updates) => old(self).deep_view().with_clusters(resources.deep_view()).1 is None
                    && updates.deep_view() == (DiscoveryUpdatesView {
                    eds_names: final(self).deep_view().eds_names(),
                    ..no_updates()
                }),
                Err(error) => old(self).deep_view().with_clusters(resources.deep_view()).1 == Some(
                    error.deep_view(),
                ),
            },
    {
        let requested: Vec<String> = self.subscription(CLUSTER_TYPE);
        prune_requested(&mut self.clusters, &requested);
        let ghost start = self.deep_view();
        let ghost all = resources.deep_view();
        let mut i: usize = 0;
        proof {
            assert(start =~= (AdsStateView {
                clusters: pruned(
                    old(self).deep_view().clusters,
                    old(self).deep_view().subscription(CLUSTER_TYPE@),
                ),
                ..old(self).deep_view()
            }));
            assert(all.take(0) =~= Seq::<proto::AnyView<proto::ClusterView>>::empty());
        }
        while i < resources.len()
            invariant
                i <= resources.len(),
                all == resources.deep_view(),
                self.wf(),
                absorbed(start, all, take_cluster()) == old(self).deep_view().with_clusters(all),
                absorbed(start, all.take(i as int), take_cluster()) == (
                    self.deep_view(),
                    None::<XdsErrorView>,
                ),
            decreases resources.len() - i,
        {
            let ghost known = self.deep_view();
            proof {
                assert(all[i as int] == resources@[i as int].deep_view());
                lemma_absorbed_next(start, all, i as int, take_cluster());
            }
            let cluster: &proto::Cluster = match decode_resource(CLUSTER_TYPE, &resources[i]) {
                Ok(cluster) => cluster,
                Err(error) => {
                    return Err(error);
                },
            };
            if !cluster.name.as_str().is_empty() {
                let eds_service_name: String = eds_service_name(cluster);
                if let Some(assignment) = &cluster.load_assignment {
                    self.endpoints.insert(
                        eds_service_name.clone(),
                        endpoints_from_assignment(assignment),
                    );
                }
                let snapshot = ClusterSnapshot {
                    name: cluster.name.clone(),
                    eds_service_name,
                    tls: upstream_tls_from_cluster(cluster),
                };
                assert(snapshot.deep_view() =~= cluster_kept(cluster.deep_view()));
                self.clusters.insert(cluster.name.clone(), snapshot);
                proof {
                    let view = cluster.deep_view();
                    assert(self.deep_view() =~= (AdsStateView {
                        endpoints: match view.load_assignment {
                            Some(assignment) => known.endpoints.insert(
                                endpoint_name(view),
                                assigned(assignment),
                            ),
                            None => known.endpoints,
                        },
                        clusters: known.clusters.insert(view.name, cluster_kept(view)),
                        ..known
                    }));
                }
            }
            i += 1;
        }
        assert(all.take(i as int) =~= all);
        let eds_names: Vec<String> = self.eds_names();
        let updates = DiscoveryUpdates { eds_names, ..DiscoveryUpdates::default() };
        Ok(updates)
    }

    /// Takes in endpoints. They come in place of the ones asked for.
    pub fn apply_endpoints(
        &mut self,
        resources: &Vec<proto::Any<proto::ClusterLoadAssignment>>,
    ) -> (outcome: Result<DiscoveryUpdates, XdsError>)
        requires
            old(self).wf(),
        ensures
            final(self).wf(),
            final(self).deep_view() == old(self).deep_view().with_endpoints(
                resources.deep_view(),
            ).0,
            match outcome {
                Ok(updates) => old(self).deep_view().with_endpoints(resources.deep_view()).1 is None
                    && updates.deep_view() == no_updates(),
                Err(error) => old(self).deep_view().with_endpoints(resources.deep_view()).1
                    == Some(error.deep_view()),
            },
    {
        let requested: Vec<String> = self.subscription(ENDPOINT_TYPE);
        prune_requested(&mut self.endpoints, &requested);
        let ghost start = self.deep_view();
        let ghost all = resources.deep_view();
        let mut i: usize = 0;
        proof {
            assert(start =~= (AdsStateView {
                endpoints: pruned(
                    old(self).deep_view().endpoints,
                    old(self).deep_view().subscription(ENDPOINT_TYPE@),
                ),
                ..old(self).deep_view()
            }));
            assert(all.take(0)
                =~= Seq::<proto::AnyView<proto::ClusterLoadAssignmentView>>::empty());
        }
        while i < resources.len()
            invariant
                i <= resources.len(),
                all == resources.deep_view(),
                self.wf(),
                absorbed(start, all, take_assignment()) == old(self).deep_view().with_endpoints(
                    all,
                ),
                absorbed(start, all.take(i as int), take_assignment()) == (
                    self.deep_view(),
                    None::<XdsErrorView>,
                ),
            decreases resources.len() - i,
        {
            let ghost known = self.deep_view();
            proof {
                assert(all[i as int] == resources@[i as int].deep_view());
                lemma_absorbed_next(start, all, i as int, take_assignment());
            }
            let assignment: &proto::ClusterLoadAssignment = match decode_resource(
                ENDPOINT_TYPE,
                &resources[i],
            ) {
                Ok(assignment) => assignment,
                Err(error) => {
                    return Err(error);
                },
            };
            if !assignment.cluster_name.as_str().is_empty() {
                let endpoints: Vec<Endpoint> = endpoints_from_assignment(assignment);
                let ghost view = endpoints.deep_view();
                self.endpoints.insert(assignment.cluster_name.clone(), endpoints);
                assert(self.deep_view() =~= (AdsStateView {
                    endpoints: known.endpoints.insert(assignment.cluster_name@, view),
                    ..known
                }));
            }
            i += 1;
        }
        assert(all.take(i as int) =~= all);
        Ok(DiscoveryUpdates::default())
    }

    /// Takes in a response. Tells which names it made worth asking for.
    pub fn apply_response(&mut self, response: &proto::DiscoveryResponse) -> (outcome: Result<
        DiscoveryUpdates,
        XdsError,
    >)
        requires
            old(self).wf(),
            response.deep_view().consistent(),
        ensures
            final(self).wf(),
            final(self).deep_view() == old(self).deep_view().after(
                response.deep_view().resources,
            ).0,
            match outcome {
                Ok(updates) => old(self).deep_view().after(response.deep_view().resources).1 is None
                    && updates.deep_view() == final(self).deep_view().updates(
                    response.deep_view().resources,
                ),
                Err(error) => old(self).deep_view().after(response.deep_view().resources).1
                    == Some(error.deep_view()),
            },
    {
        match &response.resources {
            proto::Resources::Listeners(items) => self.apply_listeners(items),
            proto::Resources::Routes(items) => self.apply_routes(items),
            proto::Resources::Clusters(items) => self.apply_clusters(items),
            proto::Resources::Assignments(items) => self.apply_endpoints(items),
            proto::Resources::Unknown => Ok(DiscoveryUpdates::default()),
        }
    }

    /// The configuration that the known resources make up.
    pub fn runtime_config(&self, version: &str) -> (config: RuntimeConfig)
        requires
            self.wf(),
        ensures
            config.deep_view() == self.deep_view().runtime_config(version@),
    {
        let config = RuntimeConfig {
            version: if version.is_empty() {
                "ads".to_owned()
            } else {
                version.to_owned()
            },
            listeners: self.config_listeners(),
            clusters: self.config_clusters(),
            secrets: Vec::new(),
        };
        assert(config.secrets.deep_view() =~= Seq::<TlsSecretView>::empty());
        config
    }

    /// The listeners with their virtual hosts.
    fn config_listeners(&self) -> (listeners: Vec<Listener>)
        requires
            self.wf(),
        ensures
            listeners.deep_view() == in_order(self.listeners.deep_view()).map_values(
                listener_with_hosts(self.routes.deep_view()),
            ),
    {
        let ghost all = in_order(self.listeners.deep_view());
        let ghost full = listener_with_hosts(self.routes.deep_view());
        let mut listeners: Vec<Listener> = Vec::new();
        let n: usize = self.listeners.len();
        let mut i: usize = 0;
        proof {
            assert(self.listeners.deep_view().dom() =~= self.listeners@.dom());
        }
        while i < n
            invariant
                self.wf(),
                i <= n,
                all == in_order(self.listeners.deep_view()),
                full == listener_with_hosts(self.routes.deep_view()),
                all.len() == n,
                n == ascending(self.listeners@.dom()).len(),
                listeners.deep_view() == all.take(i as int).map_values(full),
            decreases n - i,
        {
            let snapshot: &ListenerSnapshot = self.listeners.value_at(i);
            proof {
                self.listeners.lemma_deep_order(i as int);
            }
            let mut listener: Listener = snapshot.listener.clone();
            listener.virtual_hosts = self.hosts_of(snapshot);
            assert(listener.deep_view() =~= full(all[i as int]));
            let ghost before = listeners.deep_view();
            listeners.push(listener);
            assert(listeners.deep_view() =~= before.push(full(all[i as int])));
            assert(listeners.deep_view() =~= all.take(i as int + 1).map_values(full));
            i += 1;
        }
        assert(all.take(i as int) =~= all);
        listeners
    }

    /// The virtual hosts of a listener.
    fn hosts_of(&self, snapshot: &ListenerSnapshot) -> (hosts: Vec<VirtualHost>)
        requires
            self.wf(),
        ensures
            hosts.deep_view() == snapshot.deep_view().inline_virtual_hosts
                + snapshot.deep_view().route_names.flat_map(
                hosts_of_route(self.routes.deep_view()),
            ),
    {
        let ghost names = snapshot.route_names.deep_view();
        let ghost inline = snapshot.inline_virtual_hosts.deep_view();
        let ghost of_route = hosts_of_route(self.routes.deep_view());
        let mut hosts: Vec<VirtualHost> = snapshot.inline_virtual_hosts.clone();
        let mut i: usize = 0;
        proof {
            assert(hosts.deep_view() =~= inline);
            assert(names.take(0) =~= Seq::<Seq<char>>::empty());
            assert(inline + names.take(0).flat_map(of_route) =~= inline);
        }
        while i < snapshot.route_names.len()
            invariant
                self.wf(),
                i <= snapshot.route_names.len(),
                names == snapshot.route_names.deep_view(),
                of_route == hosts_of_route(self.routes.deep_view()),
                hosts.deep_view() == inline + names.take(i as int).flat_map(of_route),
            decreases snapshot.route_names.len() - i,
        {
            let ghost before = hosts.deep_view();
            proof {
                names.lemma_flat_map_take_append(of_route, i as int);
                assert(names[i as int] == snapshot.route_names@[i as int]@);
            }
            if let Some(known) = self.routes.get(snapshot.route_names[i].as_str()) {
                let mut more: Vec<VirtualHost> = known.clone();
                assert(more.deep_view() =~= known.deep_view());
                let ghost added = more.deep_view();
                hosts.append(&mut more);
                assert(hosts.deep_view() =~= before + added);
            }
            assert(hosts.deep_view() =~= inline + names.take(i as int + 1).flat_map(of_route));
            i += 1;
        }
        assert(names.take(i as int) =~= names);
        hosts
    }

    /// The clusters with their endpoints.
    fn config_clusters(&self) -> (clusters: Vec<Cluster>)
        requires
            self.wf(),
        ensures
            clusters.deep_view() == in_order(self.clusters.deep_view()).map_values(
                cluster_with_endpoints(self.endpoints.deep_view()),
            ),
    {
        let ghost all = in_order(self.clusters.deep_view());
        let ghost full = cluster_with_endpoints(self.endpoints.deep_view());
        let mut clusters: Vec<Cluster> = Vec::new();
        let n: usize = self.clusters.len();
        let mut i: usize = 0;
        proof {
            assert(self.clusters.deep_view().dom() =~= self.clusters@.dom());
        }
        while i < n
            invariant
                self.wf(),
                i <= n,
                all == in_order(self.clusters.deep_view()),
                full == cluster_with_endpoints(self.endpoints.deep_view()),
                all.len() == n,
                n == ascending(self.clusters@.dom()).len(),
                clusters.deep_view() == all.take(i as int).map_values(full),
            decreases n - i,
        {
            let snapshot: &ClusterSnapshot = self.clusters.value_at(i);
            proof {
                self.clusters.lemma_deep_order(i as int);
            }
            let endpoints: Vec<Endpoint> = match self.endpoints.get(
                snapshot.eds_service_name.as_str(),
            ) {
                Some(known) => {
                    let endpoints: Vec<Endpoint> = known.clone();
                    assert(endpoints.deep_view() =~= known.deep_view());
                    endpoints
                },
                None => {
                    let endpoints: Vec<Endpoint> = Vec::new();
                    assert(endpoints.deep_view() =~= Seq::<EndpointView>::empty());
                    endpoints
                },
            };
            let cluster = Cluster {
                name: snapshot.name.clone(),
                endpoints,
                tls: snapshot.tls.clone(),
            };
            assert(cluster.deep_view() =~= full(all[i as int]));
            let ghost before = clusters.deep_view();
            clusters.push(cluster);
            assert(clusters.deep_view() =~= before.push(full(all[i as int])));
            assert(clusters.deep_view() =~= all.take(i as int + 1).map_values(full));
            i += 1;
        }
        assert(all.take(i as int) =~= all);
        clusters
    }
}

/// The name under which the endpoints of a cluster are found.
fn eds_service_name(cluster: &proto::Cluster) -> (name: String)
    ensures
        name@ == endpoint_name(cluster.deep_view()),
{
    if let Some(eds) = &cluster.eds_cluster_config {
        if !eds.service_name.as_str().is_empty() {
            return eds.service_name.clone();
        }
    }
    cluster.name.clone()
}

/// The clusters that a route leads to.
fn names_of_route(route: &Route) -> (names: Vec<String>)
    ensures
        names.deep_view() == route_destinations()(route.deep_view()),
{
    let ghost all = route.weighted_clusters.deep_view();
    let ghost full = route_destinations()(route.deep_view());
    let mut names: Vec<String> = Vec::new();
    let mut i: usize = 0;
    while i < route.weighted_clusters.len()
        invariant
            i <= route.weighted_clusters.len(),
            all == route.weighted_clusters.deep_view(),
            full == route_destinations()(route.deep_view()),
            full.len() == all.len(),
            names.deep_view() == full.take(i as int),
        decreases route.weighted_clusters.len() - i,
    {
        proof {
            assert(all[i as int] == route.weighted_clusters@[i as int].deep_view());
        }
        let ghost before = names.deep_view();
        names.push(route.weighted_clusters[i].name.clone());
        assert(names.deep_view() =~= before.push(all[i as int].name));
        assert(names.deep_view() =~= full.take(i as int + 1));
        i += 1;
    }
    assert(full.take(i as int) =~= full);
    names
}

/// The clusters that a virtual host leads to.
fn names_of_host(host: &VirtualHost) -> (names: Vec<String>)
    ensures
        names.deep_view() == host_destinations()(host.deep_view()),
{
    let ghost all = host.routes.deep_view();
    let mut names: Vec<String> = Vec::new();
    let mut i: usize = 0;
    proof {
        assert(all.take(0) =~= Seq::<RouteView>::empty());
        assert(names.deep_view() =~= all.take(0).flat_map(route_destinations()));
    }
    while i < host.routes.len()
        invariant
            i <= host.routes.len(),
            all == host.routes.deep_view(),
            names.deep_view() == all.take(i as int).flat_map(route_destinations()),
        decreases host.routes.len() - i,
    {
        let mut more: Vec<String> = names_of_route(&host.routes[i]);
        let ghost before = names.deep_view();
        let ghost added = more.deep_view();
        proof {
            assert(all[i as int] == host.routes@[i as int].deep_view());
            all.lemma_flat_map_take_append(route_destinations(), i as int);
        }
        names.append(&mut more);
        assert(names.deep_view() =~= before + added);
        i += 1;
    }
    assert(all.take(i as int) =~= all);
    names
}

/// The clusters that virtual hosts lead to.
fn names_of_destinations(hosts: &Vec<VirtualHost>) -> (names: Vec<String>)
    ensures
        names.deep_view() == destinations()(hosts.deep_view()),
{
    let ghost all = hosts.deep_view();
    let mut names: Vec<String> = Vec::new();
    let mut i: usize = 0;
    proof {
        assert(all.take(0) =~= Seq::<VirtualHostView>::empty());
        assert(names.deep_view() =~= all.take(0).flat_map(host_destinations()));
    }
    while i < hosts.len()
        invariant
            i <= hosts.len(),
            all == hosts.deep_view(),
            names.deep_view() == all.take(i as int).flat_map(host_destinations()),
        decreases hosts.len() - i,
    {
        let mut more: Vec<String> = names_of_host(&hosts[i]);
        let ghost before = names.deep_view();
        let ghost added = more.deep_view();
        proof {
            assert(all[i as int] == hosts@[i as int].deep_view());
            all.lemma_flat_map_take_append(host_destinations(), i as int);
        }
        names.append(&mut more);
        assert(names.deep_view() =~= before + added);
        i += 1;
    }
    assert(all.take(i as int) =~= all);
    names
}

} // verus!
