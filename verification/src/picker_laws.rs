//! What holds of the choices of clusters and endpoints over many requests.

use crate::config::{EndpointView, RuntimeConfigView, WeightedClusterView};
use crate::routing::is_healthy;
use crate::state::{
    chosen_cluster, cluster_turn, endpoint_turn, healthy, initial_state, lemma_turn_owner,
    lemma_weight_grows, total_weight, turn_owner, weight_before, ProxyStateView,
};
use vstd::arithmetic::div_mod::{
    lemma_fundamental_div_mod, lemma_fundamental_div_mod_converse, lemma_mod_multiples_vanish,
    lemma_small_mod,
};
use vstd::prelude::*;

verus! {

/// Every turn belongs to a cluster that has weight and whose share holds it.
pub proof fn lemma_owner_share(clusters: Seq<WeightedClusterView>, turn: int, n: int)
    requires
        0 <= turn < weight_before(clusters, n),
        0 <= n <= clusters.len(),
    ensures
        exists|at: int|
            0 <= at < n && #[trigger] weight_before(clusters, at) <= turn < weight_before(
                clusters,
                at + 1,
            ) && turn_owner(clusters, turn) == at,
    decreases n,
{
    if turn >= weight_before(clusters, n - 1) {
        lemma_turn_owner(clusters, turn, n - 1);
        assert(weight_before(clusters, n - 1) <= turn < weight_before(clusters, (n - 1) + 1));
    } else {
        lemma_owner_share(clusters, turn, n - 1);
    }
}

/// A choice among clusters of which one has weight falls on one of them, and
/// never on one without weight.
pub proof fn law_chosen_cluster_has_weight(clusters: Seq<WeightedClusterView>, counter: u64)
    requires
        total_weight(clusters) > 0,
    ensures
        0 <= chosen_cluster(clusters, counter) < clusters.len(),
        clusters[chosen_cluster(clusters, counter)].weight > 0,
{
    let total = total_weight(clusters) as int;
    let turn = cluster_turn(counter as int, total);
    lemma_owner_share(clusters, turn, clusters.len() as int);
}

/// How many of the `n` choices from a given count on fall on a cluster.
pub open spec fn times_chosen(
    clusters: Seq<WeightedClusterView>,
    start: int,
    n: nat,
    place: int,
) -> nat
    decreases n,
{
    if n == 0 {
        0
    } else {
        times_chosen(clusters, start, (n - 1) as nat, place) + if turn_owner(
            clusters,
            cluster_turn(start + n - 1, total_weight(clusters) as int),
        ) == place {
            1nat
        } else {
            0nat
        }
    }
}

/// Choices that take the same turns fall on the same clusters.
proof fn lemma_same_turns(
    clusters: Seq<WeightedClusterView>,
    a: int,
    b: int,
    n: nat,
    place: int,
)
    requires
        forall|k: int|
            0 <= k < n ==> #[trigger] cluster_turn(a + k, total_weight(clusters) as int)
                == cluster_turn(b + k, total_weight(clusters) as int),
    ensures
        times_chosen(clusters, a, n, place) == times_chosen(clusters, b, n, place),
    decreases n,
{
    if n > 0 {
        lemma_same_turns(clusters, a, b, (n - 1) as nat, place);
        assert(cluster_turn(a + (n - 1), total_weight(clusters) as int) == cluster_turn(
            b + (n - 1),
            total_weight(clusters) as int,
        ));
        assert(a + (n - 1) == a + n - 1);
        assert(b + (n - 1) == b + n - 1);
    }
}

/// The first choice of many can be counted apart.
proof fn lemma_first_choice(clusters: Seq<WeightedClusterView>, start: int, n: nat, place: int)
    requires
        n > 0,
    ensures
        times_chosen(clusters, start, n, place) == times_chosen(
            clusters,
            start + 1,
            (n - 1) as nat,
            place,
        ) + if turn_owner(clusters, cluster_turn(start, total_weight(clusters) as int)) == place {
            1nat
        } else {
            0nat
        },
    decreases n,
{
    if n == 1 {
        assert(times_chosen(clusters, start, 0, place) == 0);
        assert(times_chosen(clusters, start + 1, 0, place) == 0);
        assert(start + n - 1 == start);
    } else {
        lemma_first_choice(clusters, start, (n - 1) as nat, place);
        assert(start + 1 + (n - 1) - 1 == start + n - 1);
        assert(((n - 1) as nat - 1) as nat == (n - 2) as nat);
    }
}

/// In the turns from the first on, each cluster is chosen as its share says.
proof fn lemma_share_from_zero(clusters: Seq<WeightedClusterView>, n: nat, place: int)
    requires
        n <= total_weight(clusters) <= u32::MAX,
        0 <= place < clusters.len(),
    ensures
        times_chosen(clusters, 0, n, place) == if n <= weight_before(clusters, place) {
            0
        } else if n <= weight_before(clusters, place + 1) {
            (n - weight_before(clusters, place)) as nat
        } else {
            clusters[place].weight as nat
        },
    decreases n,
{
    lemma_weight_grows(clusters, place, place + 1);
    lemma_weight_grows(clusters, place + 1, clusters.len() as int);
    if n > 0 {
        lemma_share_from_zero(clusters, (n - 1) as nat, place);
        let total = total_weight(clusters) as int;
        let turn = n - 1;
        assert(cluster_turn(0 + n - 1, total) == turn) by {
            lemma_small_mod(turn as nat, 0x1_0000_0000);
            lemma_small_mod(turn as nat, total as nat);
        }
        if weight_before(clusters, place) <= turn < weight_before(clusters, place + 1) {
            lemma_turn_owner(clusters, turn, place);
        } else {
            lemma_owner_share(clusters, turn, clusters.len() as int);
        }
    }
}

/// A window of as many choices as there are turns, moved on by one.
proof fn lemma_window_moves(clusters: Seq<WeightedClusterView>, start: int, place: int)
    requires
        0 < total_weight(clusters),
        0 <= start,
        start + total_weight(clusters) < 0x1_0000_0000,
    ensures
        times_chosen(clusters, start + 1, total_weight(clusters), place) == times_chosen(
            clusters,
            start,
            total_weight(clusters),
            place,
        ),
{
    let total = total_weight(clusters) as int;
    lemma_first_choice(clusters, start, total as nat, place);
    assert(cluster_turn(start + total, total) == cluster_turn(start, total)) by {
        lemma_small_mod((start + total) as nat, 0x1_0000_0000);
        lemma_small_mod(start as nat, 0x1_0000_0000);
        lemma_mod_multiples_vanish(1, start, total);
        assert(total * 1 + start == start + total);
    }
    assert(start + 1 + total - 1 == start + total);
}

/// Each window of as many choices as there are turns has the same shares, as
/// long as the count stays within its low half.
proof fn lemma_window(clusters: Seq<WeightedClusterView>, start: int, place: int)
    requires
        0 < total_weight(clusters),
        0 <= start,
        start + total_weight(clusters) <= 0x1_0000_0000,
    ensures
        times_chosen(clusters, start, total_weight(clusters), place) == times_chosen(
            clusters,
            0,
            total_weight(clusters),
            place,
        ),
    decreases start,
{
    if start > 0 {
        lemma_window(clusters, start - 1, place);
        lemma_window_moves(clusters, start - 1, place);
    }
}

/// Among as many successive choices as the clusters weigh together, each
/// cluster is chosen as often as its weight says. The choices may begin at any
/// count whose low half does not overflow within them. They are choices of a
/// cluster with none of an endpoint in between, as those are counted too.
pub proof fn law_weights_are_shares(
    clusters: Seq<WeightedClusterView>,
    counter: u64,
    place: int,
)
    requires
        0 < total_weight(clusters) <= u32::MAX,
        counter % 0x1_0000_0000 + total_weight(clusters) <= 0x1_0000_0000,
        0 <= place < clusters.len(),
    ensures
        times_chosen(clusters, counter as int, total_weight(clusters), place)
            == clusters[place].weight,
{
    let total = total_weight(clusters) as int;
    let low = counter as int % 0x1_0000_0000;
    assert forall|k: int| 0 <= k < total implies #[trigger] cluster_turn(counter + k, total)
        == cluster_turn(low + k, total) by {
        lemma_fundamental_div_mod(counter as int, 0x1_0000_0000);
        lemma_mod_multiples_vanish(counter as int / 0x1_0000_0000, low + k, 0x1_0000_0000);
        assert(0x1_0000_0000 * (counter as int / 0x1_0000_0000) + (low + k) == counter + k);
    }
    lemma_same_turns(clusters, counter as int, low, total as nat, place);
    lemma_window(clusters, low, place);
    lemma_share_from_zero(clusters, total as nat, place);
    lemma_weight_grows(clusters, place + 1, clusters.len() as int);
}

/// Choices come round again after as many as the clusters weigh together, as
/// long as the low half of the count does not overflow in between.
pub proof fn law_cluster_choices_repeat(clusters: Seq<WeightedClusterView>, counter: u64)
    requires
        0 < total_weight(clusters),
        counter % 0x1_0000_0000 + total_weight(clusters) < 0x1_0000_0000,
        counter + total_weight(clusters) <= u64::MAX,
    ensures
        chosen_cluster(clusters, (counter + total_weight(clusters)) as u64) == chosen_cluster(
            clusters,
            counter,
        ),
{
    let total = total_weight(clusters) as int;
    let low = counter as int % 0x1_0000_0000;
    lemma_fundamental_div_mod(counter as int, 0x1_0000_0000);
    lemma_mod_multiples_vanish(counter as int / 0x1_0000_0000, low + total, 0x1_0000_0000);
    assert(0x1_0000_0000 * (counter as int / 0x1_0000_0000) + (low + total) == counter + total);
    lemma_small_mod((low + total) as nat, 0x1_0000_0000);
    lemma_mod_multiples_vanish(1, low, total);
    assert(total * 1 + low == low + total);
}

/// The chosen endpoint is one of the healthy ones of the list.
pub proof fn law_chosen_endpoint_is_healthy(endpoints: Seq<EndpointView>, counter: u64)
    requires
        healthy(endpoints).len() > 0,
    ensures
        healthy(endpoints)[endpoint_turn(counter, healthy(endpoints).len())].healthy,
        endpoints.contains(
            healthy(endpoints)[endpoint_turn(counter, healthy(endpoints).len())],
        ),
{
    let able = healthy(endpoints);
    let place = endpoint_turn(counter, able.len());
    assert(able.contains(able[place]));
    endpoints.lemma_filter_pred(is_healthy(), place);
    endpoints.lemma_filter_contains_rev(is_healthy(), able[place]);
}

/// Whether as many choices can be made before the count overflows, both as it is
/// held and as it is used to find a place.
pub open spec fn count_holds(counter: u64, n: nat) -> bool {
    counter + n <= u64::MAX + 1 && (counter as usize) + n <= usize::MAX + 1
}

/// The count that is used to find a place goes up by one with each choice.
proof fn lemma_used_count(counter: u64, later: u64)
    requires
        counter + later <= u64::MAX,
        (counter as usize) + later <= usize::MAX,
    ensures
        ((counter + later) as u64) as usize == (counter as usize) + later,
{
    let top: usize = usize::MAX;
    assert(((counter + later) as u64) as usize == (counter as usize) + later) by (bit_vector)
        requires
            counter + later <= 0xffff_ffff_ffff_ffff,
            (counter as usize) + later <= top,
    ;
}

/// The turn of a choice that comes a number of choices after another one.
proof fn lemma_later_turn(n: nat, counter: u64, later: int)
    requires
        0 <= later < n,
        count_holds(counter, n),
    ensures
        0 <= endpoint_turn(counter, n) < n,
        endpoint_turn((counter + later) as u64, n) == if endpoint_turn(counter, n) + later < n {
            endpoint_turn(counter, n) + later
        } else {
            endpoint_turn(counter, n) + later - n
        },
        endpoint_turn((counter + later) as u64, n) == (endpoint_turn(counter, n) + later)
            % n as int,
{
    let total = n as int;
    let count = (counter as usize) as int;
    let q = count / total;
    let r = count % total;
    lemma_used_count(counter, later as u64);
    assert((((counter + later) as u64) as usize) as int == count + later);
    lemma_fundamental_div_mod(count, total);
    if r + later < total {
        assert(count + later == q * total + (r + later)) by (nonlinear_arith)
            requires
                count == total * q + r,
        ;
        lemma_fundamental_div_mod_converse(count + later, total, q, r + later);
        lemma_small_mod((r + later) as nat, n);
    } else {
        assert(count + later == (q + 1) * total + (r + later - total)) by (nonlinear_arith)
            requires
                count == total * q + r,
        ;
        lemma_fundamental_div_mod_converse(count + later, total, q + 1, r + later - total);
        lemma_fundamental_div_mod_converse(r + later, total, 1, r + later - total);
    }
}

/// Among as many successive choices as there are healthy endpoints, each of
/// them is chosen exactly once, as long as the count does not overflow. Each
/// choice falls on the place after that of the choice before it, and the first
/// of all on the first place.
pub proof fn law_endpoints_take_turns(n: nat, counter: u64, place: int)
    requires
        0 <= place < n,
        count_holds(counter, n),
    ensures
        exists|k: int| 0 <= k < n && #[trigger] endpoint_turn((counter + k) as u64, n) == place,
        forall|a: int, b: int|
            0 <= a < n && 0 <= b < n && #[trigger] endpoint_turn((counter + a) as u64, n)
                == place && #[trigger] endpoint_turn((counter + b) as u64, n) == place ==> a == b,
        forall|k: int|
            0 <= k < n ==> #[trigger] endpoint_turn((counter + k) as u64, n) == (endpoint_turn(
                counter,
                n,
            ) + k) % n as int,
        endpoint_turn(0, n) == 0,
{
    lemma_later_turn(n, counter, 0);
    lemma_small_mod(0, n);
    let first = endpoint_turn(counter, n);
    let k = if place >= first {
        place - first
    } else {
        place - first + n
    };
    lemma_later_turn(n, counter, k);
    assert(endpoint_turn((counter + k) as u64, n) == place);
    assert forall|a: int, b: int|
        0 <= a < n && 0 <= b < n && #[trigger] endpoint_turn((counter + a) as u64, n) == place
            && #[trigger] endpoint_turn((counter + b) as u64, n) == place implies a == b by {
        lemma_later_turn(n, counter, a);
        lemma_later_turn(n, counter, b);
    }
    assert forall|k: int| 0 <= k < n implies #[trigger] endpoint_turn((counter + k) as u64, n) == (
    endpoint_turn(counter, n) + k) % n as int by {
        lemma_later_turn(n, counter, k);
    }
}

/// The state after some choices.
pub open spec fn after_choices(state: ProxyStateView, k: nat) -> ProxyStateView
    decreases k,
{
    if k == 0 {
        state
    } else {
        after_choices(state, (k - 1) as nat).after_choice()
    }
}

/// The endpoints that are chosen one after the other.
pub open spec fn chosen_in_a_row(state: ProxyStateView, endpoints: Seq<EndpointView>, k: nat) -> Seq<
    EndpointView,
> {
    Seq::new(
        k,
        |i: int|
            healthy(endpoints)[endpoint_turn(
                after_choices(state, i as nat).picker_counter,
                healthy(endpoints).len(),
            )],
    )
}

/// The count after some choices.
proof fn lemma_after_choices(state: ProxyStateView, k: nat)
    requires
        state.picker_counter + k <= u64::MAX,
    ensures
        after_choices(state, k).picker_counter == state.picker_counter + k,
    decreases k,
{
    if k > 0 {
        lemma_after_choices(state, (k - 1) as nat);
    }
}

/// As many choices in a row as there are healthy endpoints give all of these in
/// the order of the list, from some place on and round to it again. With no
/// choice made before, that is the first place.
pub proof fn law_endpoints_come_in_order(state: ProxyStateView, endpoints: Seq<EndpointView>)
    requires
        healthy(endpoints).len() > 0,
        count_holds(state.picker_counter, healthy(endpoints).len()),
    ensures
        ({
            let able = healthy(endpoints);
            let first = endpoint_turn(state.picker_counter, able.len());
            &&& 0 <= first < able.len()
            &&& chosen_in_a_row(state, endpoints, able.len()) == able.skip(first) + able.take(first)
            &&& state.picker_counter == 0 ==> chosen_in_a_row(state, endpoints, able.len()) == able
        }),
{
    let able = healthy(endpoints);
    let n = able.len();
    let counter = state.picker_counter;
    let first = endpoint_turn(counter, n);
    let chosen = chosen_in_a_row(state, endpoints, n);
    lemma_later_turn(n, counter, 0);
    assert forall|i: int| 0 <= i < n implies #[trigger] chosen[i] == (able.skip(first) + able.take(
        first,
    ))[i] by {
        lemma_after_choices(state, i as nat);
        lemma_later_turn(n, counter, i);
        assert(after_choices(state, i as nat).picker_counter == (counter + i) as u64);
    }
    assert(chosen =~= able.skip(first) + able.take(first));
    if counter == 0 {
        lemma_small_mod(0, n);
        assert(able.skip(0) + able.take(0) =~= able);
    }
}

/// A gateway that is ready uses a configuration without conflicts: this holds
/// at the start, and offering a configuration or making a choice keeps it.
pub proof fn law_ready_means_valid(
    state: ProxyStateView,
    first: RuntimeConfigView,
    config: RuntimeConfigView,
)
    requires
        state.coherent(),
    ensures
        initial_state(first).coherent(),
        state.offered(config).coherent(),
        state.offered(config).ready <==> config.valid(),
        state.after_choice().coherent(),
{
}

/// A refused configuration changes nothing of the one in use: requests are
/// served as before.
pub proof fn law_refusal_keeps_config(state: ProxyStateView, config: RuntimeConfigView)
    requires
        !config.valid(),
    ensures
        state.offered(config).config == state.config,
        state.offered(config).picker_counter == state.picker_counter,
        state.offered(config).readiness().version == state.config.version,
        state.offered(config).readiness().conflicts == config.conflicts(),
{
}

/// Offering the configuration in use again is accepted and changes neither it
/// nor the order of choices.
pub proof fn law_same_offer_changes_nothing(state: ProxyStateView)
    requires
        state.coherent(),
        state.ready,
    ensures
        state.offered(state.config) == state,
{
    assert(state.offered(state.config) =~= state);
}

} // verus!
