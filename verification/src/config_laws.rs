//! What holds of configurations and of the requests that they route.

use crate::config::{
    ClusterView, ListenerView, RouteView, RuntimeConfigView, VirtualHostView, HTTP_LISTENER_PORT,
};
use crate::error::DxgateErrorView;
use crate::forward::{
    authority, gateway_failure, FailureView, UpstreamView, NOT_FOUND, SERVICE_UNAVAILABLE,
};
use crate::forward_laws::law_share_of_chosen_cluster_holds_turn;
use crate::picker_laws::{law_chosen_cluster_has_weight, law_chosen_endpoint_is_healthy};
use crate::routing::{
    accepting, called, candidates, covering, domain_covers, first_with, listening_on, routes_of,
    MatchInputView,
};
use crate::state::{
    chosen_cluster, endpoint_turn, healthy, total_weight, weight_before, ProxyStateView,
};
use crate::validate::{
    cluster_conflicts, cluster_conflicts_at, cluster_named_before, compatible, destination_check,
    has_cluster, host_check, last_bound, listener_conflicts, listener_conflicts_at,
    listener_named_before, route_check, routing_check,
};
use vstd::prelude::*;

verus! {

/// Parts together hold nothing exactly where none holds anything.
proof fn lemma_flatten_empty<A>(parts: Seq<Seq<A>>)
    ensures
        parts.flatten().len() == 0 <==> forall|i: int|
            0 <= i < parts.len() ==> (#[trigger] parts[i]).len() == 0,
    decreases parts.len(),
{
    if parts.len() > 0 {
        let earlier = parts.drop_last();
        lemma_flatten_empty(earlier);
        earlier.lemma_flatten_push(parts.last());
        assert(earlier.push(parts.last()) =~= parts);
        if parts.flatten().len() == 0 {
            assert forall|i: int| 0 <= i < parts.len() implies (#[trigger] parts[i]).len() == 0 by {
                if i < parts.len() - 1 {
                    assert(parts[i] == earlier[i]);
                }
            }
        }
        if forall|i: int| 0 <= i < parts.len() ==> (#[trigger] parts[i]).len() == 0 {
            assert forall|i: int| 0 <= i < earlier.len() implies (#[trigger] earlier[i]).len()
                == 0 by {
                assert(earlier[i] == parts[i]);
            }
            assert(parts[parts.len() - 1].len() == 0);
        }
    }
}

/// A flattened map is empty exactly where each image is.
pub proof fn lemma_flat_map_empty<A, B>(items: Seq<A>, f: spec_fn(A) -> Seq<B>)
    ensures
        items.flat_map(f).len() == 0 <==> forall|i: int|
            0 <= i < items.len() ==> f(#[trigger] items[i]).len() == 0,
{
    let parts = items.map_values(f);
    lemma_flatten_empty(parts);
    if items.flat_map(f).len() == 0 {
        assert forall|i: int| 0 <= i < items.len() implies f(#[trigger] items[i]).len() == 0 by {
            assert(parts[i].len() == 0);
        }
    }
}

/// A filtered map is empty exactly where nothing is kept.
pub proof fn lemma_filter_map_empty<A, B>(items: Seq<A>, f: spec_fn(A) -> Option<B>)
    ensures
        items.filter_map(f).len() == 0 <==> forall|i: int|
            0 <= i < items.len() ==> f(#[trigger] items[i]) is None,
    decreases items.len(),
{
    if items.len() > 0 {
        let earlier = items.drop_last();
        lemma_filter_map_empty(earlier, f);
        let n = items.len() - 1;
        items.lemma_filter_map_take_succ(f, n);
        assert(items.take(n) =~= earlier);
        assert(items.take(n + 1) =~= items);
        if items.filter_map(f).len() == 0 {
            assert forall|i: int| 0 <= i < items.len() implies f(#[trigger] items[i]) is None by {
                if i < n {
                    assert(items[i] == earlier[i]);
                }
            }
        }
        if forall|i: int| 0 <= i < items.len() ==> f(#[trigger] items[i]) is None {
            assert forall|i: int| 0 <= i < earlier.len() implies f(#[trigger] earlier[i]) is None by {
                assert(earlier[i] == items[i]);
            }
            assert(f(items[n]) is None);
        }
    }
}

/// What a flattened map holds comes from one of its images.
pub proof fn lemma_flat_map_from<A, B>(items: Seq<A>, f: spec_fn(A) -> Seq<B>, x: B)
    requires
        items.flat_map(f).contains(x),
    ensures
        exists|i: int| 0 <= i < items.len() && f(#[trigger] items[i]).contains(x),
    decreases items.len(),
{
    if items.len() > 0 {
        let earlier = items.drop_last();
        let n = items.len() - 1;
        items.lemma_flat_map_take_append(f, n);
        assert(items.take(n) =~= earlier);
        assert(items.take(n + 1) =~= items);
        let k = choose|k: int| 0 <= k < items.flat_map(f).len() && items.flat_map(f)[k] == x;
        if k < earlier.flat_map(f).len() {
            assert(earlier.flat_map(f)[k] == x);
            lemma_flat_map_from(earlier, f, x);
            let i = choose|i: int| 0 <= i < earlier.len() && f(#[trigger] earlier[i]).contains(x);
            assert(items[i] == earlier[i]);
        } else {
            assert(f(items[n])[k - earlier.flat_map(f).len()] == x);
        }
    } else {
        assert(items.map_values(f) =~= Seq::<Seq<B>>::empty());
    }
}

/// Where the first element with a property is found, and what it says if there
/// is none.
pub proof fn lemma_first_found<T>(items: Seq<T>, wanted: spec_fn(T) -> bool)
    ensures
        match first_with(items, wanted) {
            Some(item) => wanted(item) && items.contains(item),
            None => forall|i: int| 0 <= i < items.len() ==> !wanted(#[trigger] items[i]),
        },
    decreases items.len(),
{
    if items.len() > 0 {
        if wanted(items[0]) {
            assert(items.contains(items[0]));
        } else {
            let rest = items.skip(1);
            lemma_first_found(rest, wanted);
            match first_with(rest, wanted) {
                Some(item) => {
                    let k = choose|k: int| 0 <= k < rest.len() && rest[k] == item;
                    assert(items[k + 1] == item);
                },
                None => {
                    assert forall|i: int| 0 <= i < items.len() implies !wanted(
                        #[trigger] items[i],
                    ) by {
                        if i > 0 {
                            assert(rest[i - 1] == items[i]);
                        }
                    }
                },
            }
        }
    }
}

/// No two listeners have one name, and listeners on one address agree.
pub open spec fn listeners_agree(listeners: Seq<ListenerView>) -> bool {
    forall|i: int|
        0 <= i < listeners.len() ==> !listener_named_before(
            listeners,
            i,
            (#[trigger] listeners[i]).name,
        ) && match last_bound(listeners, i, listeners[i].bind) {
            Some(earlier) => compatible(earlier, listeners[i]),
            None => true,
        }
}

/// No two clusters have one name.
pub open spec fn clusters_differ(clusters: Seq<ClusterView>) -> bool {
    forall|i: int|
        0 <= i < clusters.len() ==> !cluster_named_before(clusters, i, (#[trigger] clusters[i]).name)
}

/// A route leads somewhere, and only to clusters that are there.
pub open spec fn leads_to(route: RouteView, clusters: Seq<ClusterView>) -> bool {
    route.weighted_clusters.len() > 0 && forall|i: int|
        0 <= i < route.weighted_clusters.len() ==> has_cluster(
            clusters,
            (#[trigger] route.weighted_clusters[i]).name,
        )
}

/// All routes of a virtual host lead to clusters that are there.
pub open spec fn host_leads(host: VirtualHostView, clusters: Seq<ClusterView>) -> bool {
    forall|i: int| 0 <= i < host.routes.len() ==> leads_to(#[trigger] host.routes[i], clusters)
}

/// All routes of a listener lead to clusters that are there.
pub open spec fn listener_leads(listener: ListenerView, clusters: Seq<ClusterView>) -> bool {
    forall|i: int|
        0 <= i < listener.virtual_hosts.len() ==> host_leads(
            #[trigger] listener.virtual_hosts[i],
            clusters,
        )
}

proof fn lemma_route_check(route: RouteView, listener: Seq<char>, clusters: Seq<ClusterView>)
    ensures
        route_check(listener, clusters)(route).len() == 0 <==> leads_to(route, clusters),
{
    let f = destination_check(route.name, clusters);
    lemma_filter_map_empty(route.weighted_clusters, f);
    if leads_to(route, clusters) {
        assert forall|i: int| 0 <= i < route.weighted_clusters.len() implies f(
            #[trigger] route.weighted_clusters[i],
        ) is None by {}
    }
    if route_check(listener, clusters)(route).len() == 0 {
        assert forall|i: int| 0 <= i < route.weighted_clusters.len() implies has_cluster(
            clusters,
            (#[trigger] route.weighted_clusters[i]).name,
        ) by {
            assert(f(route.weighted_clusters[i]) is None);
        }
    }
}

proof fn lemma_host_check(host: VirtualHostView, listener: Seq<char>, clusters: Seq<ClusterView>)
    ensures
        host_check(listener, clusters)(host).len() == 0 <==> host_leads(host, clusters),
{
    let f = route_check(listener, clusters);
    lemma_flat_map_empty(host.routes, f);
    assert forall|i: int| 0 <= i < host.routes.len() implies (f(#[trigger] host.routes[i]).len()
        == 0 <==> leads_to(host.routes[i], clusters)) by {
        lemma_route_check(host.routes[i], listener, clusters);
    }
}

proof fn lemma_routing_check(listener: ListenerView, clusters: Seq<ClusterView>)
    ensures
        routing_check(clusters)(listener).len() == 0 <==> listener_leads(listener, clusters),
{
    let f = host_check(listener.name, clusters);
    lemma_flat_map_empty(listener.virtual_hosts, f);
    assert forall|i: int| 0 <= i < listener.virtual_hosts.len() implies (f(
        #[trigger] listener.virtual_hosts[i],
    ).len() == 0 <==> host_leads(listener.virtual_hosts[i], clusters)) by {
        lemma_host_check(listener.virtual_hosts[i], listener.name, clusters);
    }
}

/// Listeners have no conflicts exactly where they agree.
pub proof fn lemma_listener_conflicts(listeners: Seq<ListenerView>)
    ensures
        listener_conflicts(listeners, listeners.len()).len() == 0 <==> listeners_agree(listeners),
{
    let parts = Seq::new(listeners.len(), |i: int| listener_conflicts_at(listeners, i));
    lemma_flatten_empty(parts);
    if listeners_agree(listeners) {
        assert forall|i: int| 0 <= i < parts.len() implies (#[trigger] parts[i]).len() == 0 by {
            assert(!listener_named_before(listeners, i, listeners[i].name));
        }
    }
    if parts.flatten().len() == 0 {
        assert forall|i: int| 0 <= i < listeners.len() implies !listener_named_before(
            listeners,
            i,
            (#[trigger] listeners[i]).name,
        ) && match last_bound(listeners, i, listeners[i].bind) {
            Some(earlier) => compatible(earlier, listeners[i]),
            None => true,
        } by {
            assert(parts[i].len() == 0);
        }
    }
}

/// Clusters have no conflicts exactly where their names differ.
pub proof fn lemma_cluster_conflicts(clusters: Seq<ClusterView>)
    ensures
        cluster_conflicts(clusters, clusters.len()).len() == 0 <==> clusters_differ(clusters),
{
    let parts = Seq::new(clusters.len(), |i: int| cluster_conflicts_at(clusters, i));
    lemma_flatten_empty(parts);
    if clusters_differ(clusters) {
        assert forall|i: int| 0 <= i < parts.len() implies (#[trigger] parts[i]).len() == 0 by {
            assert(!cluster_named_before(clusters, i, clusters[i].name));
        }
    }
    if parts.flatten().len() == 0 {
        assert forall|i: int| 0 <= i < clusters.len() implies !cluster_named_before(
            clusters,
            i,
            (#[trigger] clusters[i]).name,
        ) by {
            assert(parts[i].len() == 0);
        }
    }
}

/// A configuration can be applied exactly where its listeners agree, its
/// clusters have different names, and each route leads somewhere and only to
/// clusters that are there.
pub proof fn law_valid_means(config: RuntimeConfigView)
    ensures
        config.valid() <==> {
            &&& listeners_agree(config.listeners)
            &&& clusters_differ(config.clusters)
            &&& forall|i: int|
                0 <= i < config.listeners.len() ==> listener_leads(
                    #[trigger] config.listeners[i],
                    config.clusters,
                )
        },
{
    let listeners = config.listeners;
    let clusters = config.clusters;
    lemma_listener_conflicts(listeners);
    lemma_cluster_conflicts(clusters);
    lemma_flat_map_empty(listeners, routing_check(clusters));
    assert forall|i: int| 0 <= i < listeners.len() implies (routing_check(clusters)(
        #[trigger] listeners[i],
    ).len() == 0 <==> listener_leads(listeners[i], clusters)) by {
        lemma_routing_check(listeners[i], clusters);
    }
}

/// Where a request has a route, the route accepts it and belongs to a virtual
/// host that covers its host name, of the first listener on the port.
pub proof fn law_route_is_of_covering_host(
    config: RuntimeConfigView,
    port: u16,
    input: MatchInputView,
)
    requires
        config.route_of(port, input) is Some,
    ensures
        config.route_of(port, input)->0.accepts(input),
        config.listener_on(port) is Some,
        config.listeners.contains(config.listener_on(port)->0),
        config.listener_on(port)->0.bind.port == port,
        exists|i: int|
            0 <= i < config.listener_on(port)->0.virtual_hosts.len() && (
            #[trigger] config.listener_on(port)->0.virtual_hosts[i]).covers(input.host)
                && config.listener_on(port)->0.virtual_hosts[i].routes.contains(
                config.route_of(port, input)->0,
            ),
{
    lemma_first_found(config.listeners, listening_on(port));
    let listener = config.listener_on(port)->0;
    let route = config.route_of(port, input)->0;
    let hosts = listener.virtual_hosts;
    lemma_first_found(candidates(hosts, input.host), accepting(input));
    let able = hosts.filter(covering(input.host));
    lemma_flat_map_from(able, routes_of(), route);
    let k = choose|k: int| 0 <= k < able.len() && routes_of()(#[trigger] able[k]).contains(route);
    hosts.lemma_filter_pred(covering(input.host), k);
    assert(able.contains(able[k]));
    hosts.lemma_filter_contains_rev(covering(input.host), able[k]);
    let i = choose|i: int| 0 <= i < hosts.len() && hosts[i] == able[k];
    assert(hosts[i].covers(input.host));
}

/// A request has no route only where no route of a covering virtual host of the
/// listener on the port accepts it.
pub proof fn law_no_route_is_missed(
    config: RuntimeConfigView,
    port: u16,
    input: MatchInputView,
    host: VirtualHostView,
    route: RouteView,
)
    requires
        config.route_of(port, input) is None,
        config.listener_on(port) is Some,
        config.listener_on(port)->0.virtual_hosts.contains(host),
        host.covers(input.host),
        host.routes.contains(route),
    ensures
        !route.accepts(input),
{
    let hosts = config.listener_on(port)->0.virtual_hosts;
    let able = hosts.filter(covering(input.host));
    let all = candidates(hosts, input.host);
    lemma_first_found(all, accepting(input));
    let i = choose|i: int| 0 <= i < hosts.len() && hosts[i] == host;
    hosts.lemma_filter_contains(covering(input.host), i);
    let k = choose|k: int| 0 <= k < able.len() && able[k] == host;
    lemma_flat_map_to(able, routes_of(), k, route);
    let at = choose|at: int| 0 <= at < all.len() && all[at] == route;
    assert(!accepting(input)(all[at]));
}

/// What an image holds, the flattened map holds.
pub proof fn lemma_flat_map_to<A, B>(items: Seq<A>, f: spec_fn(A) -> Seq<B>, i: int, x: B)
    requires
        0 <= i < items.len(),
        f(items[i]).contains(x),
    ensures
        items.flat_map(f).contains(x),
    decreases items.len(),
{
    let n = items.len() - 1;
    let earlier = items.drop_last();
    items.lemma_flat_map_take_append(f, n);
    assert(items.take(n) =~= earlier);
    assert(items.take(n + 1) =~= items);
    if i == n {
        let image = f(items[n]);
        let k = choose|k: int| 0 <= k < image.len() && image[k] == x;
        assert(items.flat_map(f)[earlier.flat_map(f).len() + k] == x);
    } else {
        assert(earlier[i] == items[i]);
        lemma_flat_map_to(earlier, f, i, x);
        let k = choose|k: int| 0 <= k < earlier.flat_map(f).len() && earlier.flat_map(f)[k] == x;
        assert(items.flat_map(f)[k] == x);
    }
}

/// A virtual host for all hosts covers every host name.
pub proof fn law_star_covers_every_host(host: VirtualHostView, name: Seq<char>)
    requires
        host.domains.contains("*"@),
    ensures
        host.covers(name),
{
    let i = choose|i: int| 0 <= i < host.domains.len() && host.domains[i] == "*"@;
    assert(domain_covers(host.domains[i], name));
}

/// With a configuration that could be applied, a request fails for want of a
/// route or of a healthy endpoint, and for nothing else.
pub proof fn law_valid_config_always_leads_somewhere(state: ProxyStateView, input: MatchInputView)
    requires
        state.config.valid(),
    ensures
        match state.chosen_upstream(input).1 {
            Ok(_) => true,
            Err(answer) => {
                ||| answer == gateway_failure(
                    NOT_FOUND,
                    DxgateErrorView::RouteNotFound { host: input.host, path: input.path },
                )
                ||| exists|i: int|
                    0 <= i < state.config.clusters.len() && healthy(
                        (#[trigger] state.config.clusters[i]).endpoints,
                    ).len() == 0 && answer == gateway_failure(
                        SERVICE_UNAVAILABLE,
                        DxgateErrorView::NoHealthyEndpoints(state.config.clusters[i].name),
                    )
            },
        },
{
    law_valid_means(state.config);
    if let Some(route) = state.config.route_of(HTTP_LISTENER_PORT, input) {
        law_route_is_of_covering_host(state.config, HTTP_LISTENER_PORT, input);
        let listener = state.config.listener_on(HTTP_LISTENER_PORT)->0;
        let l = choose|l: int|
            0 <= l < state.config.listeners.len() && state.config.listeners[l] == listener;
        assert(listener_leads(state.config.listeners[l], state.config.clusters));
        let h = choose|h: int|
            0 <= h < listener.virtual_hosts.len() && (#[trigger] listener.virtual_hosts[h]).covers(
                input.host,
            ) && listener.virtual_hosts[h].routes.contains(route);
        assert(host_leads(listener.virtual_hosts[h], state.config.clusters));
        let routes = listener.virtual_hosts[h].routes;
        let r = choose|r: int| 0 <= r < routes.len() && routes[r] == route;
        assert(leads_to(routes[r], state.config.clusters));
        let clusters = route.weighted_clusters;
        let place = chosen_cluster(clusters, state.picker_counter);
        if total_weight(clusters) > 0 {
            law_chosen_cluster_has_weight(clusters, state.picker_counter);
        }
        let name = clusters[place].name;
        assert(has_cluster(state.config.clusters, name));
        let c = choose|c: int|
            0 <= c < state.config.clusters.len() && #[trigger] state.config.clusters[c].name
                == name;
        lemma_first_found(state.config.clusters, called(name));
        assert(called(name)(state.config.clusters[c]));
        let cluster = state.config.cluster_called(name)->0;
        if healthy(cluster.endpoints).len() == 0 {
            let i = choose|i: int|
                0 <= i < state.config.clusters.len() && state.config.clusters[i] == cluster;
            assert(state.config.clusters[i] == cluster);
            assert(state.chosen_upstream(input).1 == Err::<UpstreamView, FailureView>(
                gateway_failure(
                    SERVICE_UNAVAILABLE,
                    DxgateErrorView::NoHealthyEndpoints(cluster.name),
                ),
            ));
        }
    }
}

/// The upstream of a request is a healthy endpoint of the cluster that the
/// weights of its route choose, with the TLS settings of that cluster. Its URI
/// is an HTTPS one exactly where there are such settings, and it keeps the path
/// of the request.
pub proof fn law_upstream_is_healthy_endpoint_of_cluster(
    state: ProxyStateView,
    input: MatchInputView,
)
    requires
        state.chosen_upstream(input).1 is Ok,
    ensures
        exists|i: int|
            {
                let upstream = state.chosen_upstream(input).1->Ok_0;
                0 <= i < state.config.clusters.len() && (
                #[trigger] state.config.clusters[i]).name == upstream.cluster
                    && state.config.clusters[i].endpoints.contains(upstream.endpoint)
                    && state.config.clusters[i].tls == upstream.tls
            },
        exists|k: int|
            {
                let wanted = state.config.route_of(80, input)->0.weighted_clusters;
                let turn = (state.picker_counter as int % 0x1_0000_0000) % (total_weight(
                    wanted,
                ) as int);
                &&& 0 <= k < wanted.len()
                &&& wanted[k].name == state.chosen_upstream(input).1->Ok_0.cluster
                &&& total_weight(wanted) == 0 ==> k == 0
                &&& total_weight(wanted) > 0 ==> #[trigger] weight_before(
                    state.config.route_of(80, input)->0.weighted_clusters,
                    k,
                ) <= turn < weight_before(wanted, k + 1)
            },
        state.chosen_upstream(input).1->Ok_0.endpoint.healthy,
        state.chosen_upstream(input).1->Ok_0.uri == (if state.chosen_upstream(
            input,
        ).1->Ok_0.tls is Some {
            "https"@
        } else {
            "http"@
        }) + "://"@ + authority(state.chosen_upstream(input).1->Ok_0.endpoint) + input.path,
{
    let upstream = state.chosen_upstream(input).1->Ok_0;
    let route = state.config.route_of(HTTP_LISTENER_PORT, input)->0;
    let clusters = route.weighted_clusters;
    let name = clusters[chosen_cluster(clusters, state.picker_counter)].name;
    let cluster = state.config.cluster_called(name)->0;
    let after = state.after_cluster_choice(clusters);
    let k = chosen_cluster(clusters, state.picker_counter);
    law_share_of_chosen_cluster_holds_turn(clusters, state.picker_counter);
    assert(weight_before(clusters, k) >= 0);
    lemma_first_found(state.config.clusters, called(name));
    let i = choose|i: int|
        0 <= i < state.config.clusters.len() && state.config.clusters[i] == cluster;
    law_chosen_endpoint_is_healthy(cluster.endpoints, after.picker_counter);
    assert(upstream.endpoint == healthy(cluster.endpoints)[endpoint_turn(
        after.picker_counter,
        healthy(cluster.endpoints).len(),
    )]);
    assert(state.config.clusters[i].endpoints.contains(upstream.endpoint));
}

/// A request that is sent on takes one turn for the cluster, where the route has
/// weights, and one for the endpoint. Both are counted together.
pub proof fn law_requests_take_both_turns(state: ProxyStateView, input: MatchInputView)
    requires
        state.chosen_upstream(input).1 is Ok,
    ensures
        state.chosen_upstream(input).0 == if total_weight(
            state.config.route_of(HTTP_LISTENER_PORT, input)->0.weighted_clusters,
        ) == 0 {
            state.after_choice()
        } else {
            state.after_choice().after_choice()
        },
{
}

} // verus!
