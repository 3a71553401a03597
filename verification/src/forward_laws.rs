//! What holds of where requests are sent and of what is answered instead.

use crate::config::{EndpointView, RouteView, RuntimeConfigView, WeightedClusterView};
use crate::error::DxgateErrorView;
use crate::forward::{
    authority, failure, request_input, with_objection, CauseView, FailureView, UpstreamView,
};
use crate::headers::{first_named, host_of, text_header, visible_text};
use crate::picker_laws::{law_weights_are_shares, lemma_owner_share, times_chosen};
use crate::routing::{is_healthy, MatchInputView};
use crate::routing_laws::{
    law_first_cluster_of_name, law_request_takes_first_route, law_route_is_one_that_is_taken, takes,
};
use crate::state::{
    chosen_cluster, cluster_turn, counted, endpoint_turn, healthy, initial_state, lemma_turn_owner,
    total_weight, turn_owner, weight_before, ProxyStateView,
};
use crate::text::decimal;
use vstd::prelude::*;

verus! {

/// The weight before a place is the sum of the weights of the earlier places.
pub proof fn law_weights_add_up(clusters: Seq<WeightedClusterView>, n: int)
    requires
        0 <= n < clusters.len(),
    ensures
        weight_before(clusters, 0) == 0,
        weight_before(clusters, n + 1) == weight_before(clusters, n) + clusters[n].weight,
        total_weight(clusters) == weight_before(clusters, clusters.len() as int),
{
}

/// The cluster that a count chooses is the one whose share holds the turn: the
/// low half of the count, as a remainder of all weights together, is not below
/// the weights before the cluster and below these with its own. Without any
/// weight it is the first.
pub proof fn law_share_of_chosen_cluster_holds_turn(
    clusters: Seq<WeightedClusterView>,
    counter: u64,
)
    requires
        clusters.len() > 0,
    ensures
        0 <= chosen_cluster(clusters, counter) < clusters.len(),
        total_weight(clusters) == 0 ==> chosen_cluster(clusters, counter) == 0,
        total_weight(clusters) > 0 ==> weight_before(clusters, chosen_cluster(clusters, counter))
            <= (counter as int % 0x1_0000_0000) % (total_weight(clusters) as int) < weight_before(
            clusters,
            chosen_cluster(clusters, counter) + 1,
        ),
{
    if total_weight(clusters) > 0 {
        let turn = cluster_turn(counter as int, total_weight(clusters) as int);
        lemma_owner_share(clusters, turn, clusters.len() as int);
    }
}

/// No other cluster is chosen than the one whose share holds the turn.
pub proof fn law_turn_chooses_its_share(
    clusters: Seq<WeightedClusterView>,
    counter: u64,
    at: int,
)
    requires
        0 <= at < clusters.len(),
        weight_before(clusters, at) <= (counter as int % 0x1_0000_0000) % (total_weight(
            clusters,
        ) as int) < weight_before(clusters, at + 1),
        total_weight(clusters) > 0,
    ensures
        chosen_cluster(clusters, counter) == at,
{
    lemma_turn_owner(clusters, cluster_turn(counter as int, total_weight(clusters) as int), at);
}

/// A choice is counted, and the count begins again after its greatest value.
/// Nothing else changes.
pub proof fn law_choice_is_counted(state: ProxyStateView)
    ensures
        counted(state.picker_counter) == (state.picker_counter + 1) % 0x1_0000_0000_0000_0000,
        state.after_choice().picker_counter == (state.picker_counter + 1) % 0x1_0000_0000_0000_0000,
        state.after_choice().config == state.config,
        state.after_choice().conflicts == state.conflicts,
        state.after_choice().ready == state.ready,
{
}

/// The endpoint that a count chooses stands at the remainder of the count among
/// the healthy ones.
pub proof fn law_count_chooses_endpoint(counter: u64, n: nat)
    requires
        n > 0,
    ensures
        0 <= endpoint_turn(counter, n) < n,
        counter <= usize::MAX ==> endpoint_turn(counter, n) == counter as int % n as int,
        endpoint_turn(counter, n) == (counter as usize) as int % n as int,
{
}

/// The healthy endpoints of a list are those that are marked so, each as often
/// and in the order in which it stands there.
pub proof fn law_healthy_are_those_marked(
    before: Seq<EndpointView>,
    endpoint: EndpointView,
    after: Seq<EndpointView>,
)
    ensures
        healthy(Seq::<EndpointView>::empty()).len() == 0,
        healthy(before.push(endpoint)) == if endpoint.healthy {
            healthy(before).push(endpoint)
        } else {
            healthy(before)
        },
        healthy(before + after) == healthy(before) + healthy(after),
    decreases after.len(),
{
    assert(is_healthy()(endpoint) == endpoint.healthy);
    before.lemma_filter_push(endpoint, is_healthy());
    reveal(Seq::filter);
    if after.len() == 0 {
        assert(before + after =~= before);
        assert(healthy(before + after) =~= healthy(before) + healthy(after));
    } else {
        let fewer = after.drop_last();
        law_healthy_are_those_marked(before, endpoint, fewer);
        assert((before + fewer).push(after.last()) =~= before + after);
        (before + fewer).lemma_filter_push(after.last(), is_healthy());
        fewer.lemma_filter_push(after.last(), is_healthy());
        assert(fewer.push(after.last()) =~= after);
        assert(healthy(before + after) =~= healthy(before) + healthy(after));
    }
}

/// A new state holds its configuration, is not ready, has no conflicts and has
/// made no choice.
pub proof fn law_new_state_waits(config: RuntimeConfigView)
    ensures
        initial_state(config).config == config,
        initial_state(config).conflicts.len() == 0,
        !initial_state(config).ready,
        initial_state(config).picker_counter == 0,
        initial_state(config).readiness().version == config.version,
{
}

/// A valid configuration takes the place of the one before, and the state is
/// ready and without conflicts. One that is not valid leaves the configuration
/// and is told by its conflicts. The count of choices goes on either way.
pub proof fn law_offer_is_taken_or_told(state: ProxyStateView, config: RuntimeConfigView)
    ensures
        state.offered(config).picker_counter == state.picker_counter,
        state.offered(config).ready <==> config.conflicts().len() == 0,
        state.offered(config).conflicts == config.conflicts(),
        config.conflicts().len() == 0 ==> state.offered(config).config == config,
        config.conflicts().len() > 0 ==> state.offered(config).config == state.config,
        state.readiness().ready == state.ready,
        state.readiness().version == state.config.version,
        state.readiness().conflicts == state.conflicts,
        config.valid() <==> config.conflicts().len() == 0,
{
    if config.conflicts().len() == 0 {
        assert(state.offered(config).conflicts =~= config.conflicts());
    }
}

/// The weights of a request can be added up exactly where it takes no route, or
/// where the destinations of its route weigh less than 4294967296 together.
pub proof fn law_weights_fit_below_bound(
    state: ProxyStateView,
    input: MatchInputView,
    l: int,
    h: int,
    r: int,
)
    ensures
        (forall|i: int, j: int, k: int| !#[trigger] takes(state.config, 80, input, i, j, k))
            ==> state.weights_fit(input),
        takes(state.config, 80, input, l, h, r) ==> (state.weights_fit(input) <==> total_weight(
            state.config.listeners[l].virtual_hosts[h].routes[r].weighted_clusters,
        ) <= 4294967295),
{
    if takes(state.config, 80, input, l, h, r) {
        law_request_takes_first_route(state.config, 80, input, l, h, r);
    }
    if state.config.route_of(80, input) is Some {
        law_route_is_one_that_is_taken(state.config, 80, input);
    }
}

/// A failure has the status and the message that it is made of.
pub proof fn law_failure_has_status_and_message(status: u16, message: Seq<char>)
    ensures
        failure(status, message).status == status,
        failure(status, message).cause == CauseView::Message(message),
{
}

/// A request that takes no route is answered that there is none for its host and
/// path, and no choice is made.
pub proof fn law_request_without_route_is_not_found(state: ProxyStateView, input: MatchInputView)
    requires
        forall|l: int, h: int, r: int| !#[trigger] takes(state.config, 80, input, l, h, r),
    ensures
        state.chosen_upstream(input).0 == state,
        state.chosen_upstream(input).1 is Err,
        state.chosen_upstream(input).1->Err_0.status == 404,
        state.chosen_upstream(input).1->Err_0.cause == CauseView::Gateway(
            DxgateErrorView::RouteNotFound { host: input.host, path: input.path },
        ),
{
    if state.config.route_of(80, input) is Some {
        law_route_is_one_that_is_taken(state.config, 80, input);
    }
}

/// A request whose route has no destinations is answered so, and no choice is
/// made.
pub proof fn law_route_without_clusters_is_unavailable(
    state: ProxyStateView,
    input: MatchInputView,
    l: int,
    h: int,
    r: int,
)
    requires
        takes(state.config, 80, input, l, h, r),
        state.config.listeners[l].virtual_hosts[h].routes[r].weighted_clusters.len() == 0,
    ensures
        state.chosen_upstream(input).0 == state,
        state.chosen_upstream(input).1 is Err,
        state.chosen_upstream(input).1->Err_0.status == 503,
        state.chosen_upstream(input).1->Err_0.cause == CauseView::Message("route has no clusters"@),
{
    law_request_takes_first_route(state.config, 80, input, l, h, r);
}

/// Whether a place among the destinations of a route is the one for a count: the
/// one whose share holds the turn, or the first where there are no weights.
pub open spec fn is_due(clusters: Seq<WeightedClusterView>, counter: u64, k: int) -> bool {
    &&& 0 <= k < clusters.len()
    &&& if total_weight(clusters) == 0 {
        k == 0
    } else {
        weight_before(clusters, k) <= (counter as int % 0x1_0000_0000) % (total_weight(
            clusters,
        ) as int) < weight_before(clusters, k + 1)
    }
}

/// The count after the choice of a destination: one more where there are
/// weights.
pub open spec fn count_after(clusters: Seq<WeightedClusterView>, counter: u64) -> int {
    if total_weight(clusters) == 0 {
        counter as int
    } else {
        (counter + 1) % 0x1_0000_0000_0000_0000
    }
}

/// A place that is due is the one that is chosen.
proof fn lemma_due(clusters: Seq<WeightedClusterView>, counter: u64, k: int)
    requires
        is_due(clusters, counter, k),
    ensures
        chosen_cluster(clusters, counter) == k,
{
    if total_weight(clusters) > 0 {
        law_turn_chooses_its_share(clusters, counter, k);
    }
}

/// A request whose due destination is not among the clusters is answered with
/// that destination's name.
pub proof fn law_unknown_destination_is_unavailable(
    state: ProxyStateView,
    input: MatchInputView,
    l: int,
    h: int,
    r: int,
    k: int,
)
    requires
        takes(state.config, 80, input, l, h, r),
        is_due(
            state.config.listeners[l].virtual_hosts[h].routes[r].weighted_clusters,
            state.picker_counter,
            k,
        ),
        forall|c: int|
            0 <= c < state.config.clusters.len() ==> (#[trigger] state.config.clusters[c]).name
                != state.config.listeners[l].virtual_hosts[h].routes[r].weighted_clusters[k].name,
    ensures
        ({
            let wanted = state.config.listeners[l].virtual_hosts[h].routes[r].weighted_clusters;
            &&& state.chosen_upstream(input).0 == ProxyStateView {
                picker_counter: count_after(wanted, state.picker_counter) as u64,
                ..state
            }
            &&& state.chosen_upstream(input).1 is Err
            &&& state.chosen_upstream(input).1->Err_0.status == 503
            &&& state.chosen_upstream(input).1->Err_0.cause == CauseView::Message(
                "cluster "@ + wanted[k].name + " not found"@,
            )
        }),
{
    let wanted = state.config.listeners[l].virtual_hosts[h].routes[r].weighted_clusters;
    law_request_takes_first_route(state.config, 80, input, l, h, r);
    lemma_due(wanted, state.picker_counter, k);
    law_first_cluster_of_name(state.config, wanted[k].name, state.config.clusters.len() as int);
}

/// A request is sent to the destination that the weights of its route choose:
/// to an endpoint of the first cluster of that destination's name, with that
/// cluster's TLS settings. The endpoint is the one among the healthy ones whose
/// turn it is by the count after the choice of the destination. Where none is
/// healthy, the request is answered so.
pub proof fn law_request_goes_where_weights_say(
    state: ProxyStateView,
    input: MatchInputView,
    l: int,
    h: int,
    r: int,
    k: int,
    c: int,
)
    requires
        takes(state.config, 80, input, l, h, r),
        is_due(
            state.config.listeners[l].virtual_hosts[h].routes[r].weighted_clusters,
            state.picker_counter,
            k,
        ),
        0 <= c < state.config.clusters.len(),
        state.config.clusters[c].name
            == state.config.listeners[l].virtual_hosts[h].routes[r].weighted_clusters[k].name,
        forall|b: int|
            0 <= b < c ==> (#[trigger] state.config.clusters[b]).name
                != state.config.clusters[c].name,
    ensures
        ({
            let wanted = state.config.listeners[l].virtual_hosts[h].routes[r].weighted_clusters;
            let cluster = state.config.clusters[c];
            let able = healthy(cluster.endpoints);
            let (after, outcome) = state.chosen_upstream(input);
            let count = count_after(wanted, state.picker_counter) as u64;
            &&& after.config == state.config
            &&& after.conflicts == state.conflicts
            &&& after.ready == state.ready
            &&& able.len() == 0 ==> {
                &&& after.picker_counter == count
                &&& outcome is Err
                &&& outcome->Err_0.status == 503
                &&& outcome->Err_0.cause == CauseView::Gateway(
                    DxgateErrorView::NoHealthyEndpoints(wanted[k].name),
                )
            }
            &&& able.len() > 0 ==> {
                &&& after.picker_counter == (count + 1) % 0x1_0000_0000_0000_0000
                &&& outcome is Ok
                &&& outcome->Ok_0.cluster == wanted[k].name
                &&& outcome->Ok_0.tls == cluster.tls
                &&& outcome->Ok_0.endpoint == able[endpoint_turn(count, able.len())]
                &&& outcome->Ok_0.uri == (if cluster.tls is Some {
                    "https://"@
                } else {
                    "http://"@
                }) + authority(outcome->Ok_0.endpoint) + input.path
            }
        }),
{
    let wanted = state.config.listeners[l].virtual_hosts[h].routes[r].weighted_clusters;
    let cluster = state.config.clusters[c];
    law_request_takes_first_route(state.config, 80, input, l, h, r);
    lemma_due(wanted, state.picker_counter, k);
    law_first_cluster_of_name(state.config, wanted[k].name, c);
    let able = healthy(cluster.endpoints);
    if able.len() > 0 {
        let endpoint = able[endpoint_turn(
            count_after(wanted, state.picker_counter) as u64,
            able.len(),
        )];
        assert("https"@ + "://"@ =~= "https://"@) by {
            reveal_strlit("https");
            reveal_strlit("://");
            reveal_strlit("https://");
        }
        assert("http"@ + "://"@ =~= "http://"@) by {
            reveal_strlit("http");
            reveal_strlit("://");
            reveal_strlit("http://");
        }
        assert(state.chosen_upstream(input).1->Ok_0.uri =~= (if cluster.tls is Some {
            "https://"@
        } else {
            "http://"@
        }) + authority(endpoint) + input.path);
    }
}

/// No request is sent to a destination without weight while another destination
/// of its route has weight.
pub proof fn law_weightless_destinations_get_nothing(
    state: ProxyStateView,
    input: MatchInputView,
    l: int,
    h: int,
    r: int,
)
    requires
        takes(state.config, 80, input, l, h, r),
        total_weight(state.config.listeners[l].virtual_hosts[h].routes[r].weighted_clusters) > 0,
        state.chosen_upstream(input).1 is Ok,
    ensures
        exists|k: int|
            #![trigger state.config.listeners[l].virtual_hosts[h].routes[r].weighted_clusters[k]]
            {
                let wanted = state.config.listeners[l].virtual_hosts[h].routes[r].weighted_clusters;
                &&& 0 <= k < wanted.len()
                &&& wanted[k].weight > 0
                &&& wanted[k].name == state.chosen_upstream(input).1->Ok_0.cluster
            },
{
    let wanted = state.config.listeners[l].virtual_hosts[h].routes[r].weighted_clusters;
    law_request_takes_first_route(state.config, 80, input, l, h, r);
    law_share_of_chosen_cluster_holds_turn(wanted, state.picker_counter);
    let k = chosen_cluster(wanted, state.picker_counter);
    law_weights_add_up(wanted, k);
    crate::config_laws::lemma_first_found(
        state.config.clusters,
        crate::routing::called(wanted[k].name),
    );
    assert(wanted[k].name == state.chosen_upstream(input).1->Ok_0.cluster);
}

/// How many of the requests that find a count from `start` on, `n` counts in a
/// row, are sent to a cluster.
pub open spec fn times_sent(
    state: ProxyStateView,
    input: MatchInputView,
    start: int,
    n: nat,
    name: Seq<char>,
) -> nat
    decreases n,
{
    if n == 0 {
        0
    } else {
        let outcome = (ProxyStateView { picker_counter: (start + n - 1) as u64, ..state }).chosen_upstream(
            input,
        ).1;
        times_sent(state, input, start, (n - 1) as nat, name) + if outcome is Ok
            && outcome->Ok_0.cluster == name {
            1nat
        } else {
            0nat
        }
    }
}

/// Requests are sent as often to a cluster as its place is chosen.
proof fn lemma_sent_as_chosen(
    state: ProxyStateView,
    input: MatchInputView,
    route: RouteView,
    start: int,
    n: nat,
    place: int,
)
    requires
        state.config.route_of(80, input) == Some(route),
        total_weight(route.weighted_clusters) > 0,
        0 <= place < route.weighted_clusters.len(),
        0 <= start,
        start + n <= 0x1_0000_0000_0000_0000,
        forall|a: int|
            0 <= a < route.weighted_clusters.len() ==> {
                let cluster = state.config.cluster_called(
                    (#[trigger] route.weighted_clusters[a]).name,
                );
                cluster is Some && healthy(cluster->0.endpoints).len() > 0
            },
        forall|a: int|
            0 <= a < route.weighted_clusters.len() && a != place ==> (
            #[trigger] route.weighted_clusters[a]).name != route.weighted_clusters[place].name,
    ensures
        times_sent(state, input, start, n, route.weighted_clusters[place].name) == times_chosen(
            route.weighted_clusters,
            start,
            n,
            place,
        ),
    decreases n,
{
    if n > 0 {
        lemma_sent_as_chosen(state, input, route, start, (n - 1) as nat, place);
        let clusters = route.weighted_clusters;
        let count = (start + n - 1) as u64;
        let at = chosen_cluster(clusters, count);
        law_share_of_chosen_cluster_holds_turn(clusters, count);
        let there = ProxyStateView { picker_counter: count, ..state };
        let name = clusters[at].name;
        crate::config_laws::lemma_first_found(state.config.clusters, crate::routing::called(name));
        assert(there.chosen_upstream(input).1 is Ok);
        assert(there.chosen_upstream(input).1->Ok_0.cluster == name);
        assert(at == turn_owner(clusters, cluster_turn(start + n - 1, total_weight(clusters) as int)));
    }
}

/// Among requests that find as many counts in a row as the destinations of their
/// route weigh together, each destination gets as many as its weight says. Each
/// destination is a cluster that has a healthy endpoint, and no other
/// destination has the name of the one that is looked at.
pub proof fn law_destinations_get_their_shares(
    state: ProxyStateView,
    input: MatchInputView,
    route: RouteView,
    counter: u64,
    place: int,
)
    requires
        state.config.route_of(80, input) == Some(route),
        0 < total_weight(route.weighted_clusters) <= u32::MAX,
        counter % 0x1_0000_0000 + total_weight(route.weighted_clusters) <= 0x1_0000_0000,
        0 <= place < route.weighted_clusters.len(),
        forall|a: int|
            0 <= a < route.weighted_clusters.len() ==> {
                let cluster = state.config.cluster_called(
                    (#[trigger] route.weighted_clusters[a]).name,
                );
                cluster is Some && healthy(cluster->0.endpoints).len() > 0
            },
        forall|a: int|
            0 <= a < route.weighted_clusters.len() && a != place ==> (
            #[trigger] route.weighted_clusters[a]).name != route.weighted_clusters[place].name,
    ensures
        times_sent(
            state,
            input,
            counter as int,
            total_weight(route.weighted_clusters),
            route.weighted_clusters[place].name,
        ) == route.weighted_clusters[place].weight,
{
    let total = total_weight(route.weighted_clusters);
    vstd::arithmetic::div_mod::lemma_fundamental_div_mod(counter as int, 0x1_0000_0000);
    assert(counter + total <= 0x1_0000_0000_0000_0000);
    lemma_sent_as_chosen(state, input, route, counter as int, total, place);
    law_weights_are_shares(route.weighted_clusters, counter, place);
}

/// Where an endpoint is reached: its address, a colon and its port. An address
/// with colons stands in square brackets, unless it begins with one.
pub proof fn law_authority_is_address_and_port(endpoint: EndpointView)
    ensures
        endpoint.address.contains(':') && endpoint.address[0] != '[' ==> authority(endpoint)
            == seq!['['] + endpoint.address + seq![']', ':'] + decimal(endpoint.port as nat),
        !endpoint.address.contains(':') || endpoint.address[0] == '[' ==> authority(endpoint)
            == endpoint.address + seq![':'] + decimal(endpoint.port as nat),
{
    reveal_strlit(":");
    reveal_strlit("[");
    reveal_strlit("]");
    let port = decimal(endpoint.port as nat);
    assert(":"@ =~= seq![':']);
    assert("["@ =~= seq!['[']);
    assert("]"@ =~= seq![']']);
    assert(seq!['['] + endpoint.address + seq![']'] + (seq![':'] + port) =~= seq!['[']
        + endpoint.address + seq![']', ':'] + port);
    assert(endpoint.address + (seq![':'] + port) =~= endpoint.address + seq![':'] + port);
}

/// An upstream whose address is objected to is a failure with the objection.
/// Nothing else is changed by an objection, or by none.
pub proof fn law_objection_stops_upstream(
    outcome: Result<UpstreamView, FailureView>,
    objection: Option<Seq<char>>,
)
    ensures
        outcome is Ok && objection is Some ==> {
            &&& with_objection(outcome, objection) is Err
            &&& with_objection(outcome, objection)->Err_0.status == 502
            &&& with_objection(outcome, objection)->Err_0.cause == CauseView::Message(
                "invalid upstream uri: "@ + objection->0,
            )
        },
        outcome is Err || objection is None ==> with_objection(outcome, objection) == outcome,
{
}

/// Header bytes are text exactly where each is visible ASCII, a space or a tab,
/// and each stands for the character of its number.
pub proof fn law_visible_bytes_are_text(bytes: Seq<u8>)
    ensures
        visible_text(bytes) is Some <==> forall|i: int|
            0 <= i < bytes.len() ==> {
                let byte = #[trigger] bytes[i];
                32 <= byte <= 126 || byte == 9
            },
        visible_text(bytes) is Some ==> {
            &&& visible_text(bytes)->0.len() == bytes.len()
            &&& forall|i: int|
                0 <= i < bytes.len() ==> #[trigger] visible_text(bytes)->0[i] as int == bytes[i]
        },
{
    if forall|i: int| 0 <= i < bytes.len() ==> crate::headers::is_visible(#[trigger] bytes[i]) {
        assert forall|i: int| 0 <= i < bytes.len() implies ({
            let byte = #[trigger] bytes[i];
            32 <= byte <= 126 || byte == 9
        }) by {
            assert(crate::headers::is_visible(bytes[i]));
        }
    }
}

/// The value of a header is that of the first entry of the name, and there is
/// none exactly where no entry has the name.
pub proof fn law_first_entry_counts(
    entries: Seq<(Seq<char>, Seq<u8>)>,
    name: Seq<char>,
    at: int,
)
    requires
        0 <= at <= entries.len(),
        forall|k: int| 0 <= k < at ==> (#[trigger] entries[k]).0 != name,
        at < entries.len() ==> entries[at].0 == name,
    ensures
        first_named(entries, name) == if at < entries.len() {
            Some(entries[at].1)
        } else {
            None
        },
    decreases entries.len(),
{
    if entries.len() > 0 && at > 0 {
        let rest = entries.skip(1);
        assert forall|k: int| 0 <= k < at - 1 implies (#[trigger] rest[k]).0 != name by {
            assert(rest[k] == entries[k + 1]);
        }
        assert(entries[0].0 != name);
        law_first_entry_counts(rest, name, at - 1);
    }
}

/// The host name of a request is what stands before the first colon of its first
/// `host` header, where that is text. Without one, the request is for any host.
/// A request without a path is for the root.
pub proof fn law_request_is_read_from_head(
    entries: Seq<(Seq<char>, Seq<u8>)>,
    path: Option<Seq<char>>,
    name: Seq<char>,
    rest: Seq<char>,
)
    requires
        !name.contains(':'),
    ensures
        first_named(entries, "host"@) is None || visible_text(first_named(entries, "host"@)->0)
            is None ==> host_of(entries) is None && request_input(entries, path).host == seq!['*'],
        first_named(entries, "host"@) is Some && (visible_text(first_named(entries, "host"@)->0)
            == Some(name) || visible_text(first_named(entries, "host"@)->0) == Some(
            name + seq![':'] + rest,
        )) ==> host_of(entries) == Some(name) && request_input(entries, path).host == name,
        path is Some ==> request_input(entries, path).path == path->0,
        path is None ==> request_input(entries, path).path == seq!['/'],
{
    crate::headers::law_port_is_ignored(name, rest);
    assert("*"@ =~= seq!['*']) by {
        reveal_strlit("*");
    }
    assert("/"@ =~= seq!['/']) by {
        reveal_strlit("/");
    }
}

/// The headers that conditions are held against are those whose value is text,
/// each with its name, as often and in the order in which they come.
pub proof fn law_text_headers_are_kept(
    entries: Seq<(Seq<char>, Seq<u8>)>,
    entry: (Seq<char>, Seq<u8>),
    path: Option<Seq<char>>,
)
    ensures
        request_input(Seq::empty(), path).headers.len() == 0,
        request_input(entries.push(entry), path).headers == if visible_text(entry.1) is Some {
            request_input(entries, path).headers.push((entry.0, visible_text(entry.1)->0))
        } else {
            request_input(entries, path).headers
        },
{
    let all = entries.push(entry);
    let n = entries.len() as int;
    all.lemma_filter_map_take_succ(text_header(), n);
    assert(all.take(n) =~= entries);
    assert(all.take(n + 1) =~= all);
    assert(all[n] == entry);
    reveal(Seq::filter_map);
}

} // verus!
