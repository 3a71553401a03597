//! What holds of the order of endpoints.

use crate::config::EndpointView;
use crate::convert::{by_address, endpoint_before, with_endpoint};
use crate::names::{
    lemma_precedes_irreflexive, lemma_precedes_total, lemma_precedes_transitive,
};
use vstd::prelude::*;

verus! {

/// The test for the endpoints of one address and port.
pub open spec fn located(address: Seq<char>, port: u16) -> spec_fn(EndpointView) -> bool {
    |endpoint: EndpointView| endpoint.address == address && endpoint.port == port
}

/// No endpoint comes before an earlier one.
pub open spec fn is_sorted(endpoints: Seq<EndpointView>) -> bool {
    forall|i: int, j: int|
        0 <= i < j < endpoints.len() ==> !endpoint_before(
            #[trigger] endpoints[j],
            #[trigger] endpoints[i],
        )
}

proof fn lemma_before_asymmetric(a: EndpointView, b: EndpointView)
    requires
        endpoint_before(a, b),
    ensures
        !endpoint_before(b, a),
{
    lemma_precedes_irreflexive(a.address);
    if endpoint_before(b, a) {
        if a.address != b.address {
            lemma_precedes_transitive(a.address, b.address, a.address);
        }
    }
}

/// What comes before an endpoint comes before all that the endpoint does not
/// come after.
proof fn lemma_not_before_transitive(a: EndpointView, b: EndpointView, c: EndpointView)
    requires
        !endpoint_before(a, b),
        !endpoint_before(b, c),
    ensures
        !endpoint_before(a, c),
{
    lemma_precedes_total(a.address, b.address);
    lemma_precedes_total(b.address, c.address);
    lemma_precedes_total(a.address, c.address);
    lemma_precedes_irreflexive(a.address);
    lemma_precedes_irreflexive(b.address);
    lemma_precedes_irreflexive(c.address);
    if endpoint_before(a, c) {
        if a.address == c.address {
            if b.address != a.address {
                lemma_precedes_transitive(c.address, b.address, a.address);
            }
        } else {
            if b.address == a.address {
            } else if b.address == c.address {
            } else {
                lemma_precedes_transitive(c.address, b.address, a.address);
                lemma_precedes_transitive(a.address, c.address, a.address);
            }
        }
    }
}

proof fn lemma_with_endpoint_holds(sorted: Seq<EndpointView>, endpoint: EndpointView, x: EndpointView)
    requires
        with_endpoint(sorted, endpoint).contains(x),
    ensures
        x == endpoint || sorted.contains(x),
    decreases sorted.len(),
{
    let more = with_endpoint(sorted, endpoint);
    let k = choose|k: int| 0 <= k < more.len() && more[k] == x;
    if sorted.len() > 0 && endpoint_before(endpoint, sorted.last()) {
        let before = with_endpoint(sorted.drop_last(), endpoint);
        if k < before.len() {
            assert(before[k] == x);
            lemma_with_endpoint_holds(sorted.drop_last(), endpoint, x);
            if x != endpoint {
                let m = choose|m: int| 0 <= m < sorted.len() - 1 && sorted.drop_last()[m] == x;
                assert(sorted[m] == x);
            }
        } else {
            assert(sorted[sorted.len() - 1] == x);
        }
    } else if k < sorted.len() {
        assert(sorted[k] == x);
    }
}

proof fn lemma_with_endpoint_sorted(sorted: Seq<EndpointView>, endpoint: EndpointView)
    requires
        is_sorted(sorted),
    ensures
        is_sorted(with_endpoint(sorted, endpoint)),
    decreases sorted.len(),
{
    let more = with_endpoint(sorted, endpoint);
    if sorted.len() > 0 && endpoint_before(endpoint, sorted.last()) {
        let rest = sorted.drop_last();
        let before = with_endpoint(rest, endpoint);
        assert forall|i: int, j: int| 0 <= i < j < rest.len() implies !endpoint_before(
            #[trigger] rest[j],
            #[trigger] rest[i],
        ) by {
            assert(!endpoint_before(sorted[j], sorted[i]));
        }
        lemma_with_endpoint_sorted(rest, endpoint);
        assert forall|i: int, j: int| 0 <= i < j < more.len() implies !endpoint_before(
            #[trigger] more[j],
            #[trigger] more[i],
        ) by {
            if j < before.len() {
                assert(!endpoint_before(before[j], before[i]));
            } else {
                assert(before[i] == more[i]);
                assert(before.contains(before[i]));
                lemma_with_endpoint_holds(rest, endpoint, before[i]);
                if before[i] == endpoint {
                    lemma_before_asymmetric(endpoint, sorted.last());
                } else {
                    let m = choose|m: int| 0 <= m < rest.len() && rest[m] == before[i];
                    assert(!endpoint_before(sorted[sorted.len() - 1], sorted[m]));
                }
            }
        }
    } else {
        assert forall|i: int, j: int| 0 <= i < j < more.len() implies !endpoint_before(
            #[trigger] more[j],
            #[trigger] more[i],
        ) by {
            if j < sorted.len() {
                assert(!endpoint_before(sorted[j], sorted[i]));
            } else {
                let last = sorted[sorted.len() - 1];
                if i < sorted.len() - 1 {
                    assert(!endpoint_before(last, sorted[i]));
                    lemma_not_before_transitive(endpoint, last, sorted[i]);
                }
            }
        }
    }
}

/// Endpoints come in the order of their addresses, and those of one address in
/// the order of their ports.
pub proof fn law_endpoints_are_sorted(endpoints: Seq<EndpointView>)
    ensures
        is_sorted(by_address(endpoints)),
    decreases endpoints.len(),
{
    if endpoints.len() > 0 {
        law_endpoints_are_sorted(endpoints.drop_last());
        lemma_with_endpoint_sorted(by_address(endpoints.drop_last()), endpoints.last());
    }
}

proof fn lemma_with_endpoint_stable(
    sorted: Seq<EndpointView>,
    endpoint: EndpointView,
    address: Seq<char>,
    port: u16,
)
    ensures
        with_endpoint(sorted, endpoint).filter(located(address, port)) == sorted.push(
            endpoint,
        ).filter(located(address, port)),
    decreases sorted.len(),
{
    let here = located(address, port);
    if sorted.len() > 0 && endpoint_before(endpoint, sorted.last()) {
        let rest = sorted.drop_last();
        lemma_with_endpoint_stable(rest, endpoint, address, port);
        assert(rest.push(sorted.last()) =~= sorted);
        with_endpoint(rest, endpoint).lemma_filter_push(sorted.last(), here);
        rest.lemma_filter_push(endpoint, here);
        rest.lemma_filter_push(sorted.last(), here);
        sorted.lemma_filter_push(endpoint, here);
        lemma_precedes_irreflexive(endpoint.address);
    }
}

/// Endpoints are neither lost nor added, and those of one address and port keep
/// the order in which they came.
pub proof fn law_same_endpoints_keep_their_order(
    endpoints: Seq<EndpointView>,
    address: Seq<char>,
    port: u16,
)
    ensures
        by_address(endpoints).filter(located(address, port)) == endpoints.filter(
            located(address, port),
        ),
        by_address(endpoints).len() == endpoints.len(),
    decreases endpoints.len(),
{
    if endpoints.len() == 0 {
        assert(endpoints =~= by_address(endpoints));
    } else {
        let here = located(address, port);
        let earlier = endpoints.drop_last();
        law_same_endpoints_keep_their_order(earlier, address, port);
        lemma_with_endpoint_stable(by_address(earlier), endpoints.last(), address, port);
        assert(earlier.push(endpoints.last()) =~= endpoints);
        by_address(earlier).lemma_filter_push(endpoints.last(), here);
        earlier.lemma_filter_push(endpoints.last(), here);
        lemma_with_endpoint_len(by_address(earlier), endpoints.last());
    }
}

proof fn lemma_with_endpoint_len(sorted: Seq<EndpointView>, endpoint: EndpointView)
    ensures
        with_endpoint(sorted, endpoint).len() == sorted.len() + 1,
    decreases sorted.len(),
{
    if sorted.len() > 0 && endpoint_before(endpoint, sorted.last()) {
        lemma_with_endpoint_len(sorted.drop_last(), endpoint);
    }
}

} // verus!
