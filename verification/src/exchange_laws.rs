//! What a response makes of the known resources, and what it is answered.

use crate::ads::{
    absorbed, cluster_kept, nothing_known, pruned, take_assignment, take_cluster, take_listener,
    take_routes, AdsStateView, CLUSTER_TYPE, ENDPOINT_TYPE, LISTENER_TYPE, ROUTE_TYPE,
};
use crate::ads_laws::{
    law_resources_stay_coherent, law_response_changes_its_kind_alone, lemma_finite_ascending,
};
use crate::client::{
    acknowledgement, first_request, followed, started_session, DiscoveryRequestView, NodeView,
    SessionView, XdsClientConfigView,
};
use crate::config_laws::lemma_first_found;
use crate::convert::{assigned, converted_host};
use crate::error::XdsErrorView;
use crate::names::ascending;
use crate::proto;
use crate::routing::called;
use crate::snapshots::{
    listener_kept, tls_of_cluster, ListenerSnapshotView, UPSTREAM_TLS_SUFFIX,
};
use crate::state::ProxyStateView;
use vstd::prelude::*;

verus! {

/// Whether a listener of this name is among decoded resources.
pub open spec fn listener_given(
    resources: Seq<proto::AnyView<proto::ListenerView>>,
    name: Seq<char>,
) -> bool {
    exists|i: int|
        0 <= i < resources.len() && (#[trigger] resources[i]).value is Ok
            && resources[i].value->Ok_0.name == name
}

/// Whether a route configuration of this name is among decoded resources.
pub open spec fn route_given(
    resources: Seq<proto::AnyView<proto::RouteConfigurationView>>,
    name: Seq<char>,
) -> bool {
    exists|i: int|
        0 <= i < resources.len() && (#[trigger] resources[i]).value is Ok
            && resources[i].value->Ok_0.name == name
}

/// Whether a cluster of this name is among decoded resources.
pub open spec fn cluster_given(
    resources: Seq<proto::AnyView<proto::ClusterView>>,
    name: Seq<char>,
) -> bool {
    exists|i: int|
        0 <= i < resources.len() && (#[trigger] resources[i]).value is Ok
            && resources[i].value->Ok_0.name == name && name.len() > 0
}

/// Whether endpoints of a cluster of this name are among decoded resources.
pub open spec fn assignment_given(
    resources: Seq<proto::AnyView<proto::ClusterLoadAssignmentView>>,
    name: Seq<char>,
) -> bool {
    exists|i: int|
        0 <= i < resources.len() && (#[trigger] resources[i]).value is Ok
            && resources[i].value->Ok_0.cluster_name == name && name.len() > 0
}

/// Whether a resource that was known stays known when others come in: it was
/// not asked for by name, and not everything was asked for.
pub open spec fn kept<V>(
    known: Map<Seq<char>, V>,
    requested: Seq<Seq<char>>,
    name: Seq<char>,
) -> bool {
    known.dom().contains(name) && requested.len() > 0 && !requested.contains(name)
}

proof fn lemma_listeners_in(
    state: AdsStateView,
    resources: Seq<proto::AnyView<proto::ListenerView>>,
    name: Seq<char>,
)
    requires
        absorbed(state, resources, take_listener()).1 is None,
    ensures
        absorbed(state, resources, take_listener()).0.listeners.dom().contains(name) <==> (
        listener_given(resources, name) || state.listeners.dom().contains(name)),
        !listener_given(resources, name) && state.listeners.dom().contains(name) ==> absorbed(
            state,
            resources,
            take_listener(),
        ).0.listeners[name] == state.listeners[name],
    decreases resources.len(),
{
    if resources.len() > 0 {
        let earlier = resources.drop_last();
        let n = resources.len() - 1;
        lemma_listeners_in(state, earlier, name);
        if listener_given(earlier, name) {
            let i = choose|i: int|
                0 <= i < earlier.len() && ((#[trigger] earlier[i]).value is Ok
                    && earlier[i].value->Ok_0.name == name);
            assert(resources[i] == earlier[i]);
        }
        if listener_given(resources, name) {
            let i = choose|i: int|
                0 <= i < resources.len() && ((#[trigger] resources[i]).value is Ok
                    && resources[i].value->Ok_0.name == name);
            if i < n {
                assert(earlier[i] == resources[i]);
            }
        }
        assert(resources[n] == resources.last());
    }
}

proof fn lemma_routes_in(
    state: AdsStateView,
    resources: Seq<proto::AnyView<proto::RouteConfigurationView>>,
    name: Seq<char>,
)
    requires
        absorbed(state, resources, take_routes()).1 is None,
    ensures
        absorbed(state, resources, take_routes()).0.routes.dom().contains(name) <==> (route_given(
            resources,
            name,
        ) || state.routes.dom().contains(name)),
        !route_given(resources, name) && state.routes.dom().contains(name) ==> absorbed(
            state,
            resources,
            take_routes(),
        ).0.routes[name] == state.routes[name],
    decreases resources.len(),
{
    if resources.len() > 0 {
        let earlier = resources.drop_last();
        let n = resources.len() - 1;
        lemma_routes_in(state, earlier, name);
        if route_given(earlier, name) {
            let i = choose|i: int|
                0 <= i < earlier.len() && ((#[trigger] earlier[i]).value is Ok
                    && earlier[i].value->Ok_0.name == name);
            assert(resources[i] == earlier[i]);
        }
        if route_given(resources, name) {
            let i = choose|i: int|
                0 <= i < resources.len() && ((#[trigger] resources[i]).value is Ok
                    && resources[i].value->Ok_0.name == name);
            if i < n {
                assert(earlier[i] == resources[i]);
            }
        }
        assert(resources[n] == resources.last());
    }
}

proof fn lemma_clusters_in(
    state: AdsStateView,
    resources: Seq<proto::AnyView<proto::ClusterView>>,
    name: Seq<char>,
)
    requires
        absorbed(state, resources, take_cluster()).1 is None,
    ensures
        absorbed(state, resources, take_cluster()).0.clusters.dom().contains(name) <==> (
        cluster_given(resources, name) || state.clusters.dom().contains(name)),
        !cluster_given(resources, name) && state.clusters.dom().contains(name) ==> absorbed(
            state,
            resources,
            take_cluster(),
        ).0.clusters[name] == state.clusters[name],
    decreases resources.len(),
{
    if resources.len() > 0 {
        let earlier = resources.drop_last();
        let n = resources.len() - 1;
        lemma_clusters_in(state, earlier, name);
        if cluster_given(earlier, name) {
            let i = choose|i: int|
                0 <= i < earlier.len() && ((#[trigger] earlier[i]).value is Ok
                    && earlier[i].value->Ok_0.name == name && name.len() > 0);
            assert(resources[i] == earlier[i]);
        }
        if cluster_given(resources, name) {
            let i = choose|i: int|
                0 <= i < resources.len() && ((#[trigger] resources[i]).value is Ok
                    && resources[i].value->Ok_0.name == name && name.len() > 0);
            if i < n {
                assert(earlier[i] == resources[i]);
            }
        }
        assert(resources[n] == resources.last());
    }
}

proof fn lemma_assignments_in(
    state: AdsStateView,
    resources: Seq<proto::AnyView<proto::ClusterLoadAssignmentView>>,
    name: Seq<char>,
)
    requires
        absorbed(state, resources, take_assignment()).1 is None,
    ensures
        absorbed(state, resources, take_assignment()).0.endpoints.dom().contains(name) <==> (
        assignment_given(resources, name) || state.endpoints.dom().contains(name)),
        !assignment_given(resources, name) && state.endpoints.dom().contains(name) ==> absorbed(
            state,
            resources,
            take_assignment(),
        ).0.endpoints[name] == state.endpoints[name],
    decreases resources.len(),
{
    if resources.len() > 0 {
        let earlier = resources.drop_last();
        let n = resources.len() - 1;
        lemma_assignments_in(state, earlier, name);
        if assignment_given(earlier, name) {
            let i = choose|i: int|
                0 <= i < earlier.len() && ((#[trigger] earlier[i]).value is Ok
                    && earlier[i].value->Ok_0.cluster_name == name && name.len() > 0);
            assert(resources[i] == earlier[i]);
        }
        if assignment_given(resources, name) {
            let i = choose|i: int|
                0 <= i < resources.len() && ((#[trigger] resources[i]).value is Ok
                    && resources[i].value->Ok_0.cluster_name == name && name.len() > 0);
            if i < n {
                assert(earlier[i] == resources[i]);
            }
        }
        assert(resources[n] == resources.last());
    }
}

/// The listeners of a response come in place of the ones asked for: afterwards a
/// listener is known where it was given, or where it was known and not asked
/// for.
pub proof fn law_listeners_are_replaced(
    state: AdsStateView,
    resources: Seq<proto::AnyView<proto::ListenerView>>,
    name: Seq<char>,
)
    requires
        state.with_listeners(resources).1 is None,
    ensures
        state.with_listeners(resources).0.listeners.dom().contains(name) <==> (listener_given(
            resources,
            name,
        ) || kept(state.listeners, state.subscription(LISTENER_TYPE@), name)),
        !listener_given(resources, name) && state.with_listeners(
            resources,
        ).0.listeners.dom().contains(name) ==> state.with_listeners(resources).0.listeners[name]
            == state.listeners[name],
{
    let start = AdsStateView {
        listeners: pruned(state.listeners, state.subscription(LISTENER_TYPE@)),
        ..state
    };
    lemma_listeners_in(start, resources, name);
}

/// The route configurations of a response come in place of the ones asked for.
pub proof fn law_routes_are_replaced(
    state: AdsStateView,
    resources: Seq<proto::AnyView<proto::RouteConfigurationView>>,
    name: Seq<char>,
)
    requires
        state.with_routes(resources).1 is None,
    ensures
        state.with_routes(resources).0.routes.dom().contains(name) <==> (route_given(
            resources,
            name,
        ) || kept(state.routes, state.subscription(ROUTE_TYPE@), name)),
        !route_given(resources, name) && state.with_routes(resources).0.routes.dom().contains(name)
            ==> state.with_routes(resources).0.routes[name] == state.routes[name],
{
    let start = AdsStateView {
        routes: pruned(state.routes, state.subscription(ROUTE_TYPE@)),
        ..state
    };
    lemma_routes_in(start, resources, name);
}

/// The clusters of a response come in place of the ones asked for. Those
/// without a name are passed over.
pub proof fn law_clusters_are_replaced(
    state: AdsStateView,
    resources: Seq<proto::AnyView<proto::ClusterView>>,
    name: Seq<char>,
)
    requires
        state.with_clusters(resources).1 is None,
    ensures
        state.with_clusters(resources).0.clusters.dom().contains(name) <==> (cluster_given(
            resources,
            name,
        ) || kept(state.clusters, state.subscription(CLUSTER_TYPE@), name)),
        !cluster_given(resources, name) && state.with_clusters(
            resources,
        ).0.clusters.dom().contains(name) ==> state.with_clusters(resources).0.clusters[name]
            == state.clusters[name],
{
    let start = AdsStateView {
        clusters: pruned(state.clusters, state.subscription(CLUSTER_TYPE@)),
        ..state
    };
    lemma_clusters_in(start, resources, name);
}

/// The endpoints of a response come in place of the ones asked for. Those of a
/// cluster without a name are passed over.
pub proof fn law_endpoints_are_replaced(
    state: AdsStateView,
    resources: Seq<proto::AnyView<proto::ClusterLoadAssignmentView>>,
    name: Seq<char>,
)
    requires
        state.with_endpoints(resources).1 is None,
    ensures
        state.with_endpoints(resources).0.endpoints.dom().contains(name) <==> (assignment_given(
            resources,
            name,
        ) || kept(state.endpoints, state.subscription(ENDPOINT_TYPE@), name)),
        !assignment_given(resources, name) && state.with_endpoints(
            resources,
        ).0.endpoints.dom().contains(name) ==> state.with_endpoints(resources).0.endpoints[name]
            == state.endpoints[name],
{
    let start = AdsStateView {
        endpoints: pruned(state.endpoints, state.subscription(ENDPOINT_TYPE@)),
        ..state
    };
    lemma_assignments_in(start, resources, name);
}

/// A listener that a response gave is known as it was given last.
pub proof fn law_last_listener_counts(
    state: AdsStateView,
    resources: Seq<proto::AnyView<proto::ListenerView>>,
    at: int,
)
    requires
        state.with_listeners(resources).1 is None,
        0 <= at < resources.len(),
        resources[at].value is Ok,
        forall|i: int|
            at < i < resources.len() && (#[trigger] resources[i]).value is Ok
                ==> resources[i].value->Ok_0.name != resources[at].value->Ok_0.name,
    ensures
        state.with_listeners(resources).0.listeners.dom().contains(resources[at].value->Ok_0.name),
        listener_kept(resources[at].value->Ok_0) == Ok::<ListenerSnapshotView, XdsErrorView>(
            state.with_listeners(resources).0.listeners[resources[at].value->Ok_0.name],
        ),
{
    let start = AdsStateView {
        listeners: pruned(state.listeners, state.subscription(LISTENER_TYPE@)),
        ..state
    };
    lemma_last_listener(start, resources, at);
}

proof fn lemma_last_listener(
    state: AdsStateView,
    resources: Seq<proto::AnyView<proto::ListenerView>>,
    at: int,
)
    requires
        absorbed(state, resources, take_listener()).1 is None,
        0 <= at < resources.len(),
        resources[at].value is Ok,
        forall|i: int|
            at < i < resources.len() && (#[trigger] resources[i]).value is Ok
                ==> resources[i].value->Ok_0.name != resources[at].value->Ok_0.name,
    ensures
        absorbed(state, resources, take_listener()).0.listeners.dom().contains(
            resources[at].value->Ok_0.name,
        ),
        listener_kept(resources[at].value->Ok_0) == Ok::<ListenerSnapshotView, XdsErrorView>(
            absorbed(state, resources, take_listener()).0.listeners[resources[at].value->Ok_0.name],
        ),
    decreases resources.len(),
{
    let n = resources.len() - 1;
    assert(resources[n] == resources.last());
    if at < n {
        let earlier = resources.drop_last();
        assert(earlier[at] == resources[at]);
        assert forall|i: int|
            at < i < earlier.len() && (#[trigger] earlier[i]).value is Ok implies earlier[i].value->Ok_0.name
            != earlier[at].value->Ok_0.name by {
            assert(earlier[i] == resources[i]);
        }
        lemma_last_listener(state, earlier, at);
    }
}

/// A route configuration that a response gave is known as it was given last.
pub proof fn law_last_route_counts(
    state: AdsStateView,
    resources: Seq<proto::AnyView<proto::RouteConfigurationView>>,
    at: int,
)
    requires
        state.with_routes(resources).1 is None,
        0 <= at < resources.len(),
        resources[at].value is Ok,
        forall|i: int|
            at < i < resources.len() && (#[trigger] resources[i]).value is Ok
                ==> resources[i].value->Ok_0.name != resources[at].value->Ok_0.name,
    ensures
        state.with_routes(resources).0.routes.dom().contains(resources[at].value->Ok_0.name),
        state.with_routes(resources).0.routes[resources[at].value->Ok_0.name]
            == resources[at].value->Ok_0.virtual_hosts.map_values(converted_host()),
{
    let start = AdsStateView {
        routes: pruned(state.routes, state.subscription(ROUTE_TYPE@)),
        ..state
    };
    lemma_last_route(start, resources, at);
}

proof fn lemma_last_route(
    state: AdsStateView,
    resources: Seq<proto::AnyView<proto::RouteConfigurationView>>,
    at: int,
)
    requires
        absorbed(state, resources, take_routes()).1 is None,
        0 <= at < resources.len(),
        resources[at].value is Ok,
        forall|i: int|
            at < i < resources.len() && (#[trigger] resources[i]).value is Ok
                ==> resources[i].value->Ok_0.name != resources[at].value->Ok_0.name,
    ensures
        absorbed(state, resources, take_routes()).0.routes.dom().contains(
            resources[at].value->Ok_0.name,
        ),
        absorbed(state, resources, take_routes()).0.routes[resources[at].value->Ok_0.name]
            == resources[at].value->Ok_0.virtual_hosts.map_values(converted_host()),
    decreases resources.len(),
{
    let n = resources.len() - 1;
    assert(resources[n] == resources.last());
    if at < n {
        let earlier = resources.drop_last();
        assert(earlier[at] == resources[at]);
        assert forall|i: int|
            at < i < earlier.len() && (#[trigger] earlier[i]).value is Ok implies earlier[i].value->Ok_0.name
            != earlier[at].value->Ok_0.name by {
            assert(earlier[i] == resources[i]);
        }
        lemma_last_route(state, earlier, at);
    }
}

/// A cluster that a response gave is known as it was given last.
pub proof fn law_last_cluster_counts(
    state: AdsStateView,
    resources: Seq<proto::AnyView<proto::ClusterView>>,
    at: int,
)
    requires
        state.with_clusters(resources).1 is None,
        0 <= at < resources.len(),
        resources[at].value is Ok,
        resources[at].value->Ok_0.name.len() > 0,
        forall|i: int|
            at < i < resources.len() && (#[trigger] resources[i]).value is Ok
                ==> resources[i].value->Ok_0.name != resources[at].value->Ok_0.name,
    ensures
        state.with_clusters(resources).0.clusters.dom().contains(resources[at].value->Ok_0.name),
        state.with_clusters(resources).0.clusters[resources[at].value->Ok_0.name]
            == cluster_kept(resources[at].value->Ok_0),
{
    let start = AdsStateView {
        clusters: pruned(state.clusters, state.subscription(CLUSTER_TYPE@)),
        ..state
    };
    lemma_last_cluster(start, resources, at);
}

proof fn lemma_last_cluster(
    state: AdsStateView,
    resources: Seq<proto::AnyView<proto::ClusterView>>,
    at: int,
)
    requires
        absorbed(state, resources, take_cluster()).1 is None,
        0 <= at < resources.len(),
        resources[at].value is Ok,
        resources[at].value->Ok_0.name.len() > 0,
        forall|i: int|
            at < i < resources.len() && (#[trigger] resources[i]).value is Ok
                ==> resources[i].value->Ok_0.name != resources[at].value->Ok_0.name,
    ensures
        absorbed(state, resources, take_cluster()).0.clusters.dom().contains(
            resources[at].value->Ok_0.name,
        ),
        absorbed(state, resources, take_cluster()).0.clusters[resources[at].value->Ok_0.name]
            == cluster_kept(resources[at].value->Ok_0),
    decreases resources.len(),
{
    let n = resources.len() - 1;
    assert(resources[n] == resources.last());
    if at < n {
        let earlier = resources.drop_last();
        assert(earlier[at] == resources[at]);
        assert forall|i: int|
            at < i < earlier.len() && (#[trigger] earlier[i]).value is Ok implies earlier[i].value->Ok_0.name
            != earlier[at].value->Ok_0.name by {
            assert(earlier[i] == resources[i]);
        }
        lemma_last_cluster(state, earlier, at);
    }
}

/// Endpoints that a response gave are known as they were given last.
pub proof fn law_last_assignment_counts(
    state: AdsStateView,
    resources: Seq<proto::AnyView<proto::ClusterLoadAssignmentView>>,
    at: int,
)
    requires
        state.with_endpoints(resources).1 is None,
        0 <= at < resources.len(),
        resources[at].value is Ok,
        resources[at].value->Ok_0.cluster_name.len() > 0,
        forall|i: int|
            at < i < resources.len() && (#[trigger] resources[i]).value is Ok
                ==> resources[i].value->Ok_0.cluster_name != resources[at].value->Ok_0.cluster_name,
    ensures
        state.with_endpoints(resources).0.endpoints.dom().contains(resources[at].value->Ok_0.cluster_name),
        state.with_endpoints(resources).0.endpoints[resources[at].value->Ok_0.cluster_name]
            == assigned(resources[at].value->Ok_0),
{
    let start = AdsStateView {
        endpoints: pruned(state.endpoints, state.subscription(ENDPOINT_TYPE@)),
        ..state
    };
    lemma_last_assignment(start, resources, at);
}

proof fn lemma_last_assignment(
    state: AdsStateView,
    resources: Seq<proto::AnyView<proto::ClusterLoadAssignmentView>>,
    at: int,
)
    requires
        absorbed(state, resources, take_assignment()).1 is None,
        0 <= at < resources.len(),
        resources[at].value is Ok,
        resources[at].value->Ok_0.cluster_name.len() > 0,
        forall|i: int|
            at < i < resources.len() && (#[trigger] resources[i]).value is Ok
                ==> resources[i].value->Ok_0.cluster_name != resources[at].value->Ok_0.cluster_name,
    ensures
        absorbed(state, resources, take_assignment()).0.endpoints.dom().contains(
            resources[at].value->Ok_0.cluster_name,
        ),
        absorbed(state, resources, take_assignment()).0.endpoints[resources[at].value->Ok_0.cluster_name]
            == assigned(resources[at].value->Ok_0),
    decreases resources.len(),
{
    let n = resources.len() - 1;
    assert(resources[n] == resources.last());
    if at < n {
        let earlier = resources.drop_last();
        assert(earlier[at] == resources[at]);
        assert forall|i: int|
            at < i < earlier.len() && (#[trigger] earlier[i]).value is Ok implies earlier[i].value->Ok_0.cluster_name
            != earlier[at].value->Ok_0.cluster_name by {
            assert(earlier[i] == resources[i]);
        }
        lemma_last_assignment(state, earlier, at);
    }
}

/// A cluster that comes with TLS settings is marked in the configuration: the
/// upstreams that are chosen in it have those settings.
pub proof fn law_tls_context_marks_cluster(
    state: AdsStateView,
    resources: Seq<proto::AnyView<proto::ClusterView>>,
    at: int,
    version: Seq<char>,
)
    requires
        state.coherent(),
        state.with_clusters(resources).1 is None,
        0 <= at < resources.len(),
        resources[at].value is Ok,
        resources[at].value->Ok_0.name.len() > 0,
        forall|i: int|
            at < i < resources.len() && (#[trigger] resources[i]).value is Ok
                ==> resources[i].value->Ok_0.name != resources[at].value->Ok_0.name,
    ensures
        ({
            let cluster = resources[at].value->Ok_0;
            let found = state.with_clusters(resources).0.runtime_config(version).cluster_called(
                cluster.name,
            );
            found is Some && found->0.tls == tls_of_cluster(cluster)
        }),
        resources[at].value->Ok_0.transport_socket matches Some(socket)
            ==> socket.typed_config matches Some(any) ==> UPSTREAM_TLS_SUFFIX@.is_suffix_of(
            any.type_url,
        ) && any.value is Ok ==> state.with_clusters(resources).0.runtime_config(
            version,
        ).cluster_called(resources[at].value->Ok_0.name)->0.tls is Some,
{
    law_last_cluster_counts(state, resources, at);
    law_resources_stay_coherent(
        state,
        proto::ResourcesView::Clusters(resources),
        CLUSTER_TYPE@,
        Seq::<Seq<char>>::empty(),
    );
    let after = state.with_clusters(resources).0;
    let name = resources[at].value->Ok_0.name;
    let clusters = after.runtime_config(version).clusters;
    lemma_finite_ascending(after.clusters.dom());
    let names = ascending(after.clusters.dom());
    assert(names.to_set().contains(name));
    let k = choose|k: int| 0 <= k < names.len() && names[k] == name;
    assert(clusters[k].name == name);
    assert(called(name)(clusters[k]));
    lemma_first_found(clusters, called(name));
    let found = after.runtime_config(version).cluster_called(name)->0;
    let j = choose|j: int| 0 <= j < clusters.len() && clusters[j] == found;
    assert(names.to_set().contains(names[j]));
    assert(after.clusters[names[j]].name == names[j]);
    assert(names[j] == name);
}

/// Asking for the same names again changes nothing.
pub proof fn law_asking_again_changes_nothing(
    state: AdsStateView,
    type_url: Seq<char>,
    names: Seq<Seq<char>>,
)
    ensures
        state.subscribed(type_url, names).asks_for(type_url, names),
        state.subscribed(type_url, names).subscribed(type_url, names) == state.subscribed(
            type_url,
            names,
        ),
        state.asks_for(type_url, names) ==> state.subscribed(type_url, names) == state,
{
    assert(state.subscribed(type_url, names).subscribed(type_url, names) =~= state.subscribed(
        type_url,
        names,
    ));
    if state.asks_for(type_url, names) {
        assert(state.subscribed(type_url, names) =~= state);
    }
}

/// A response that is taken in is acknowledged before anything else, with its
/// own type, version and nonce and with the names that were asked for when it
/// came.
pub proof fn law_responses_are_acknowledged(
    session: SessionView,
    response: proto::DiscoveryResponseView,
)
    ensures
        ({
            let requests = session.answered(
                session.state.after(response.resources).0,
                response,
            ).1.requests;
            &&& requests.len() > 0
            &&& requests[0] == (DiscoveryRequestView {
                version_info: response.version_info,
                node: session.node,
                resource_names: session.state.subscription(response.type_url),
                type_url: response.type_url,
                response_nonce: response.nonce,
            })
        }),
{
    law_response_changes_its_kind_alone(session.state, response.resources);
}

/// What one wanted name list leads to.
proof fn lemma_followed_one(
    state: AdsStateView,
    node: NodeView,
    type_url: Seq<char>,
    names: Seq<Seq<char>>,
)
    ensures
        followed(state, node, seq![(type_url, names)]) == (
            state.subscribed(type_url, names),
            if state.asks_for(type_url, names) {
                Seq::<DiscoveryRequestView>::empty()
            } else {
                seq![first_request(node, type_url, names)]
            },
        ),
{
    let one = seq![(type_url, names)];
    let none = Seq::<(Seq<char>, Seq<Seq<char>>)>::empty();
    assert(one.drop_last() =~= none);
    assert(followed(state, node, none) == (state, Seq::<DiscoveryRequestView>::empty()));
    assert(Seq::<DiscoveryRequestView>::empty().push(first_request(node, type_url, names))
        =~= seq![first_request(node, type_url, names)]);
}

/// The names that a response makes worth asking for, and their type.
pub open spec fn discovered(state: AdsStateView, resources: proto::ResourcesView) -> Option<
    (Seq<char>, Seq<Seq<char>>),
> {
    match resources {
        proto::ResourcesView::Listeners(_) => if state.route_names().len() > 0 {
            Some((ROUTE_TYPE@, state.route_names()))
        } else {
            None
        },
        proto::ResourcesView::Routes(_) => if state.cluster_names().len() > 0 {
            Some((CLUSTER_TYPE@, state.cluster_names()))
        } else {
            None
        },
        proto::ResourcesView::Clusters(_) => if state.eds_names().len() > 0 {
            Some((ENDPOINT_TYPE@, state.eds_names()))
        } else {
            None
        },
        _ => None,
    }
}

/// Listeners lead to routes, routes to clusters and clusters to endpoints: the
/// names that a response of one kind refers to are asked for, once. What is
/// asked for already is not asked for again.
pub proof fn law_discovered_names_are_asked_for(
    session: SessionView,
    state: AdsStateView,
    response: proto::DiscoveryResponseView,
)
    ensures
        match discovered(state, response.resources) {
            Some((type_url, names)) => {
                let (after, progress) = session.answered(state, response);
                &&& after.state == state.subscribed(type_url, names)
                &&& after.state.asks_for(type_url, names)
                &&& progress.requests == seq![
                    acknowledgement(
                        session.node,
                        state.subscription(response.type_url),
                        response,
                    ),
                ] + if state.asks_for(type_url, names) {
                    Seq::<DiscoveryRequestView>::empty()
                } else {
                    seq![first_request(session.node, type_url, names)]
                }
            },
            None => {
                let (after, progress) = session.answered(state, response);
                &&& after.state == state
                &&& progress.requests == seq![
                    acknowledgement(
                        session.node,
                        state.subscription(response.type_url),
                        response,
                    ),
                ]
            },
        },
{
    let wanted = state.updates(response.resources).wanted();
    let ack = acknowledgement(session.node, state.subscription(response.type_url), response);
    match discovered(state, response.resources) {
        Some((type_url, names)) => {
            assert(wanted =~= seq![(type_url, names)]);
            lemma_followed_one(state, session.node, type_url, names);
        },
        None => {
            assert(wanted =~= Seq::<(Seq<char>, Seq<Seq<char>>)>::empty());
            assert(seq![ack] + Seq::<DiscoveryRequestView>::empty() =~= seq![ack]);
        },
    }
}

/// An exchange starts with coherent resources and keeps them so.
pub proof fn law_exchange_stays_coherent(
    client: XdsClientConfigView,
    node_id: Seq<char>,
    session: SessionView,
    response: proto::DiscoveryResponseView,
)
    requires
        session.state.coherent(),
    ensures
        started_session(client, node_id).state.coherent(),
        session.answered(
            session.state.after(response.resources).0,
            response,
        ).0.state.coherent(),
        session.answered(session.state.after(response.resources).0, response).0.node
            == session.node,
{
    law_resources_stay_coherent(
        nothing_known(),
        response.resources,
        LISTENER_TYPE@,
        client.listener_names,
    );
    law_resources_stay_coherent(
        session.state,
        response.resources,
        LISTENER_TYPE@,
        client.listener_names,
    );
    let state = session.state.after(response.resources).0;
    law_discovered_names_are_asked_for(session, state, response);
    match discovered(state, response.resources) {
        Some((type_url, names)) => {
            law_resources_stay_coherent(state, response.resources, type_url, names);
        },
        None => {},
    }
}

/// A configuration that an exchange hands out has no conflicts, so the gateway
/// puts it to use and is ready.
pub proof fn law_handed_out_config_is_put_to_use(
    session: SessionView,
    state: AdsStateView,
    response: proto::DiscoveryResponseView,
    proxy: ProxyStateView,
)
    requires
        session.answered(state, response).1.config is Some,
    ensures
        ({
            let config = session.answered(state, response).1.config->0;
            &&& config.valid()
            &&& proxy.offered(config).ready
            &&& proxy.offered(config).config == config
            &&& config == session.answered(state, response).0.state.runtime_config(
                response.version_info,
            )
        }),
{
}

} // verus!
