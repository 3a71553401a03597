//! What holds of the conditions that a request meets and of the route it takes.

use crate::config::{
    ClusterView, HeaderMatchView, ListenerView, PathMatchView, RouteMatchView, RouteView,
    RuntimeConfigView, VirtualHostView,
};
use crate::routing::{
    accepting, called, candidates, covering, domain_covers, first_with, lemma_first_with,
    listening_on, routes_of, MatchInputView,
};
use crate::text_laws::{law_case_of_letters_is_ignored, same_letter};
use vstd::prelude::*;

verus! {

/// A domain covers a host name where it is a star, where it is the name up to
/// the case of letters, or where it is a star and a dot before an end of the
/// name. It covers no other.
pub proof fn law_domain_is_star_name_or_ending(domain: Seq<char>, host: Seq<char>)
    ensures
        domain_covers(domain, host) <==> {
            ||| domain == seq!['*']
            ||| domain.len() == host.len() && forall|i: int|
                0 <= i < domain.len() ==> same_letter(#[trigger] domain[i], host[i])
            ||| exists|before: Seq<char>, ending: Seq<char>|
                domain == seq!['*', '.'] + ending && host == #[trigger] (before + ending)
        },
{
    assert("*"@ =~= seq!['*']) by {
        reveal_strlit("*");
    }
    assert("*."@ =~= seq!['*', '.']) by {
        reveal_strlit("*.");
    }
    law_case_of_letters_is_ignored(domain, host);
    if "*."@.is_prefix_of(domain) && domain.skip(2).is_suffix_of(host) {
        let ending = domain.skip(2);
        let before = host.take(host.len() - ending.len());
        assert(domain =~= seq!['*', '.'] + ending);
        assert(host =~= before + ending);
    }
    if exists|before: Seq<char>, ending: Seq<char>|
        domain == seq!['*', '.'] + ending && host == #[trigger] (before + ending) {
        let (before, ending) = choose|before: Seq<char>, ending: Seq<char>|
            domain == seq!['*', '.'] + ending && host == #[trigger] (before + ending);
        assert(domain.skip(2) =~= ending);
        assert(host.skip(host.len() - ending.len()) =~= ending);
        assert(domain.take(2) =~= seq!['*', '.']);
    }
}

/// A virtual host covers a host name exactly where one of its domains does.
pub proof fn law_host_covers_by_a_domain(vhost: VirtualHostView, host: Seq<char>)
    ensures
        vhost.covers(host) <==> exists|i: int|
            0 <= i < vhost.domains.len() && domain_covers(#[trigger] vhost.domains[i], host),
{
}

/// A prefix accepts the paths that begin with it, an exact path itself alone.
pub proof fn law_path_begins_or_is(expected: Seq<char>, path: Seq<char>)
    ensures
        PathMatchView::Prefix(expected).accepts(path) <==> exists|rest: Seq<char>|
            path == #[trigger] (expected + rest),
        PathMatchView::Exact(expected).accepts(path) <==> path == expected,
{
    if expected.is_prefix_of(path) {
        assert(path =~= expected + path.skip(expected.len() as int));
    }
    if exists|rest: Seq<char>| path == #[trigger] (expected + rest) {
        let rest = choose|rest: Seq<char>| path == #[trigger] (expected + rest);
        assert(path.take(expected.len() as int) =~= expected);
    }
}

/// Whether a request has a header of this name, its letters in either case, with
/// this value.
pub open spec fn has_header(input: MatchInputView, name: Seq<char>, value: Seq<char>) -> bool {
    exists|i: int|
        {
            let header = #[trigger] input.headers[i];
            &&& 0 <= i < input.headers.len()
            &&& header.1 == value
            &&& header.0.len() == name.len()
            &&& forall|k: int| 0 <= k < name.len() ==> same_letter(#[trigger] name[k], header.0[k])
        }
}

/// A header condition is met exactly where the request has such a header.
pub proof fn law_header_condition_wants_header(condition: HeaderMatchView, input: MatchInputView)
    ensures
        condition.accepts(input) <==> has_header(input, condition.name, condition.value),
{
    assert forall|i: int| 0 <= i < input.headers.len() implies (
    crate::text::same_ignoring_case((#[trigger] input.headers[i]).0, condition.name) <==> {
        let header = input.headers[i];
        &&& header.0.len() == condition.name.len()
        &&& forall|k: int|
            0 <= k < condition.name.len() ==> same_letter(#[trigger] condition.name[k], header.0[k])
    }) by {
        let name = input.headers[i].0;
        law_case_of_letters_is_ignored(name, condition.name);
        if name.len() == condition.name.len() {
            if forall|k: int| 0 <= k < name.len() ==> same_letter(#[trigger] name[k], condition.name[k]) {
                assert forall|k: int| 0 <= k < name.len() implies same_letter(
                    #[trigger] condition.name[k],
                    name[k],
                ) by {
                    assert(same_letter(name[k], condition.name[k]));
                }
            }
            if forall|k: int| 0 <= k < name.len() ==> same_letter(#[trigger] condition.name[k], name[k]) {
                assert forall|k: int| 0 <= k < name.len() implies same_letter(
                    #[trigger] name[k],
                    condition.name[k],
                ) by {
                    assert(same_letter(condition.name[k], name[k]));
                }
            }
        }
    }
    if condition.accepts(input) {
        let i = choose|i: int|
            0 <= i < input.headers.len() && crate::text::same_ignoring_case(
                (#[trigger] input.headers[i]).0,
                condition.name,
            ) && input.headers[i].1 == condition.value;
        assert(input.headers[i].1 == condition.value);
    }
}

/// A condition accepts a request exactly where it accepts the path and the
/// request has each of the headers that it wants: one that is missing is enough
/// to refuse.
pub proof fn law_condition_wants_path_and_every_header(
    condition: RouteMatchView,
    input: MatchInputView,
)
    ensures
        condition.accepts(input) <==> condition.path.accepts(input.path) && forall|i: int|
            0 <= i < condition.headers.len() ==> has_header(
                input,
                (#[trigger] condition.headers[i]).name,
                condition.headers[i].value,
            ),
{
    assert forall|i: int| 0 <= i < condition.headers.len() implies (
    #[trigger] condition.headers[i]).accepts(input) == has_header(
        input,
        condition.headers[i].name,
        condition.headers[i].value,
    ) by {
        law_header_condition_wants_header(condition.headers[i], input);
    }
}

/// A header condition more makes a condition accept the requests that it
/// accepted and that have the header, and no others.
pub proof fn law_further_header_narrows(
    condition: RouteMatchView,
    header: HeaderMatchView,
    input: MatchInputView,
)
    ensures
        (RouteMatchView { headers: condition.headers.push(header), ..condition }).accepts(input)
            <==> condition.accepts(input) && has_header(input, header.name, header.value),
{
    let further = RouteMatchView { headers: condition.headers.push(header), ..condition };
    law_header_condition_wants_header(header, input);
    assert(further.headers[condition.headers.len() as int] == header);
    if further.accepts(input) {
        assert forall|i: int| 0 <= i < condition.headers.len() implies (
        #[trigger] condition.headers[i]).accepts(input) by {
            assert(further.headers[i] == condition.headers[i]);
        }
    }
}

/// A route accepts a request exactly where it has no conditions or one of them
/// accepts it.
pub proof fn law_route_accepts_by_a_condition(route: RouteView, input: MatchInputView)
    ensures
        route.matches.len() == 0 ==> route.accepts(input),
        route.matches.len() > 0 ==> (route.accepts(input) <==> exists|i: int|
            0 <= i < route.matches.len() && (#[trigger] route.matches[i]).accepts(input)),
{
}

/// The place of the first element with a property.
proof fn lemma_first_place<T>(items: Seq<T>, wanted: spec_fn(T) -> bool) -> (at: int)
    ensures
        0 <= at <= items.len(),
        forall|k: int| 0 <= k < at ==> !wanted(#[trigger] items[k]),
        at < items.len() ==> wanted(items[at]),
        first_with(items, wanted) == if at < items.len() {
            Some(items[at])
        } else {
            None
        },
    decreases items.len(),
{
    if items.len() == 0 {
        0
    } else if wanted(items[0]) {
        0
    } else {
        let rest = items.skip(1);
        let at = lemma_first_place(rest, wanted) + 1;
        assert forall|k: int| 0 <= k < at implies !wanted(#[trigger] items[k]) by {
            if k > 0 {
                assert(rest[k - 1] == items[k]);
            }
        }
        at
    }
}

/// The listener on a port is the first that is bound to it, and there is none
/// exactly where none is bound to it.
pub proof fn law_first_listener_on_port(config: RuntimeConfigView, port: u16, at: int)
    requires
        0 <= at <= config.listeners.len(),
        forall|k: int| 0 <= k < at ==> (#[trigger] config.listeners[k]).bind.port != port,
        at < config.listeners.len() ==> config.listeners[at].bind.port == port,
    ensures
        config.listener_on(port) == if at < config.listeners.len() {
            Some(config.listeners[at])
        } else {
            None::<ListenerView>
        },
{
    lemma_first_with(config.listeners, listening_on(port), at);
}

/// The cluster of a name is the first that has it, and there is none exactly
/// where none has it.
pub proof fn law_first_cluster_of_name(config: RuntimeConfigView, name: Seq<char>, at: int)
    requires
        0 <= at <= config.clusters.len(),
        forall|k: int| 0 <= k < at ==> (#[trigger] config.clusters[k]).name != name,
        at < config.clusters.len() ==> config.clusters[at].name == name,
    ensures
        config.cluster_called(name) == if at < config.clusters.len() {
            Some(config.clusters[at])
        } else {
            None::<ClusterView>
        },
{
    lemma_first_with(config.clusters, called(name), at);
}

/// Whether a request on a port takes one route of one virtual host of one
/// listener: the listener is the first on the port, the host covers the host
/// name, the route accepts the request, and neither an earlier route of the host
/// nor a route of an earlier host that covers the name does.
pub open spec fn takes(
    config: RuntimeConfigView,
    port: u16,
    input: MatchInputView,
    l: int,
    h: int,
    r: int,
) -> bool {
    let listener = config.listeners[l];
    let vhost = listener.virtual_hosts[h];
    &&& 0 <= l < config.listeners.len()
    &&& listener.bind.port == port
    &&& forall|k: int| 0 <= k < l ==> (#[trigger] config.listeners[k]).bind.port != port
    &&& 0 <= h < listener.virtual_hosts.len()
    &&& vhost.covers(input.host)
    &&& 0 <= r < vhost.routes.len()
    &&& vhost.routes[r].accepts(input)
    &&& forall|k: int| 0 <= k < r ==> !(#[trigger] vhost.routes[k]).accepts(input)
    &&& forall|g: int, k: int|
        0 <= g < h && listener.virtual_hosts[g].covers(input.host) && 0 <= k
            < listener.virtual_hosts[g].routes.len()
            ==> !(#[trigger] listener.virtual_hosts[g].routes[k]).accepts(input)
}

/// The first of parts put one after the other.
proof fn lemma_first_of_parts(hosts: Seq<VirtualHostView>, input: MatchInputView)
    ensures
        match first_with(candidates(hosts, input.host), accepting(input)) {
            Some(route) => exists|h: int, r: int|
                {
                    &&& 0 <= h < hosts.len()
                    &&& hosts[h].covers(input.host)
                    &&& 0 <= r < hosts[h].routes.len()
                    &&& (#[trigger] hosts[h].routes[r]).accepts(input)
                    &&& hosts[h].routes[r] == route
                    &&& forall|k: int| 0 <= k < r ==> !(#[trigger] hosts[h].routes[k]).accepts(input)
                    &&& forall|g: int, k: int|
                        0 <= g < h && hosts[g].covers(input.host) && 0 <= k < hosts[g].routes.len()
                            ==> !(#[trigger] hosts[g].routes[k]).accepts(input)
                },
            None => forall|g: int, k: int|
                0 <= g < hosts.len() && hosts[g].covers(input.host) && 0 <= k
                    < hosts[g].routes.len() ==> !(#[trigger] hosts[g].routes[k]).accepts(input),
        },
    decreases hosts.len(),
{
    if hosts.len() == 0 {
        assert(hosts.filter(covering(input.host)) =~= Seq::<VirtualHostView>::empty());
        assert(hosts.filter(covering(input.host)).map_values(routes_of()) =~= Seq::<
            Seq<RouteView>,
        >::empty());
        assert(candidates(hosts, input.host) =~= Seq::<RouteView>::empty());
    } else {
        let earlier = hosts.drop_last();
        let n = hosts.len() - 1;
        let last = hosts.last();
        lemma_first_of_parts(earlier, input);
        assert(earlier.push(last) =~= hosts);
        earlier.lemma_filter_push(last, covering(input.host));
        let able = earlier.filter(covering(input.host));
        let front = candidates(earlier, input.host);
        let all = candidates(hosts, input.host);
        assert forall|g: int, k: int| 0 <= g < n && 0 <= k < hosts[g].routes.len() implies (
        #[trigger] hosts[g].routes[k]) == earlier[g].routes[k] by {
            assert(hosts[g] == earlier[g]);
        }
        if last.covers(input.host) {
            let more = able.push(last);
            assert(covering(input.host)(last));
            more.lemma_flat_map_take_append(routes_of(), able.len() as int);
            assert(more.take(able.len() as int) =~= able);
            assert(more.take(able.len() as int + 1) =~= more);
            assert(all =~= front + last.routes);
            let p = lemma_first_place(front, accepting(input));
            let q = lemma_first_place(last.routes, accepting(input));
            if p < front.len() {
                assert forall|k: int| 0 <= k < p implies !accepting(input)(#[trigger] all[k]) by {
                    assert(all[k] == front[k]);
                }
                lemma_first_with(all, accepting(input), p);
                assert(first_with(all, accepting(input)) == first_with(front, accepting(input)));
                lemma_lift(earlier, hosts, input);
            } else {
                let at = front.len() + q;
                assert forall|k: int| 0 <= k < at implies !accepting(input)(#[trigger] all[k]) by {
                    if k < front.len() {
                        assert(all[k] == front[k]);
                    } else {
                        assert(all[k] == last.routes[k - front.len()]);
                    }
                }
                if q < last.routes.len() {
                    assert(all[at] == last.routes[q]);
                }
                lemma_first_with(all, accepting(input), at);
                assert forall|g: int, k: int|
                    0 <= g < n && hosts[g].covers(input.host) && 0 <= k
                        < hosts[g].routes.len() implies !(#[trigger] hosts[g].routes[k]).accepts(
                    input,
                ) by {
                    assert(hosts[g] == earlier[g]);
                    assert(!earlier[g].routes[k].accepts(input));
                }
                assert forall|k: int| 0 <= k < q implies !(#[trigger] last.routes[k]).accepts(
                    input,
                ) by {
                    assert(!accepting(input)(last.routes[k]));
                }
                if q < last.routes.len() {
                    assert(hosts[n].routes[q].accepts(input));
                }
            }
        } else {
            assert(!covering(input.host)(last));
            assert(all == front);
            lemma_lift(earlier, hosts, input);
        }
    }
}

/// What holds of all virtual hosts but the last, where the last adds nothing.
proof fn lemma_lift(earlier: Seq<VirtualHostView>, hosts: Seq<VirtualHostView>, input: MatchInputView)
    requires
        hosts.len() > 0,
        earlier == hosts.drop_last(),
        first_with(candidates(hosts, input.host), accepting(input)) == first_with(
            candidates(earlier, input.host),
            accepting(input),
        ),
        first_with(candidates(earlier, input.host), accepting(input)) is None ==> !hosts.last().covers(
            input.host,
        ),
        match first_with(candidates(earlier, input.host), accepting(input)) {
            Some(route) => exists|h: int, r: int|
                {
                    &&& 0 <= h < earlier.len()
                    &&& earlier[h].covers(input.host)
                    &&& 0 <= r < earlier[h].routes.len()
                    &&& (#[trigger] earlier[h].routes[r]).accepts(input)
                    &&& earlier[h].routes[r] == route
                    &&& forall|k: int|
                        0 <= k < r ==> !(#[trigger] earlier[h].routes[k]).accepts(input)
                    &&& forall|g: int, k: int|
                        0 <= g < h && earlier[g].covers(input.host) && 0 <= k
                            < earlier[g].routes.len() ==> !(
                        #[trigger] earlier[g].routes[k]).accepts(input)
                },
            None => forall|g: int, k: int|
                0 <= g < earlier.len() && earlier[g].covers(input.host) && 0 <= k
                    < earlier[g].routes.len() ==> !(#[trigger] earlier[g].routes[k]).accepts(input),
        },
    ensures
        match first_with(candidates(hosts, input.host), accepting(input)) {
            Some(route) => exists|h: int, r: int|
                {
                    &&& 0 <= h < hosts.len()
                    &&& hosts[h].covers(input.host)
                    &&& 0 <= r < hosts[h].routes.len()
                    &&& (#[trigger] hosts[h].routes[r]).accepts(input)
                    &&& hosts[h].routes[r] == route
                    &&& forall|k: int| 0 <= k < r ==> !(#[trigger] hosts[h].routes[k]).accepts(input)
                    &&& forall|g: int, k: int|
                        0 <= g < h && hosts[g].covers(input.host) && 0 <= k < hosts[g].routes.len()
                            ==> !(#[trigger] hosts[g].routes[k]).accepts(input)
                },
            None => forall|g: int, k: int|
                0 <= g < hosts.len() && hosts[g].covers(input.host) && 0 <= k
                    < hosts[g].routes.len() ==> !(#[trigger] hosts[g].routes[k]).accepts(input),
        },
{
    match first_with(candidates(earlier, input.host), accepting(input)) {
        Some(route) => {
            let (h, r) = choose|h: int, r: int|
                {
                    &&& 0 <= h < earlier.len()
                    &&& earlier[h].covers(input.host)
                    &&& 0 <= r < earlier[h].routes.len()
                    &&& (#[trigger] earlier[h].routes[r]).accepts(input)
                    &&& earlier[h].routes[r] == route
                    &&& forall|k: int|
                        0 <= k < r ==> !(#[trigger] earlier[h].routes[k]).accepts(input)
                    &&& forall|g: int, k: int|
                        0 <= g < h && earlier[g].covers(input.host) && 0 <= k
                            < earlier[g].routes.len() ==> !(
                        #[trigger] earlier[g].routes[k]).accepts(input)
                };
            assert(hosts[h] == earlier[h]);
            assert(hosts[h].routes[r].accepts(input));
            assert forall|g: int, k: int|
                0 <= g < h && hosts[g].covers(input.host) && 0 <= k
                    < hosts[g].routes.len() implies !(#[trigger] hosts[g].routes[k]).accepts(
                input,
            ) by {
                assert(hosts[g] == earlier[g]);
                assert(!earlier[g].routes[k].accepts(input));
            }
        },
        None => {
            assert forall|g: int, k: int|
                0 <= g < hosts.len() && hosts[g].covers(input.host) && 0 <= k
                    < hosts[g].routes.len() implies !(#[trigger] hosts[g].routes[k]).accepts(
                input,
            ) by {
                if g < earlier.len() {
                    assert(hosts[g] == earlier[g]);
                    assert(!earlier[g].routes[k].accepts(input));
                }
            }
        },
    }
}

/// The route of a request is the one that it takes, wherever it takes one.
pub proof fn law_request_takes_first_route(
    config: RuntimeConfigView,
    port: u16,
    input: MatchInputView,
    l: int,
    h: int,
    r: int,
)
    requires
        takes(config, port, input, l, h, r),
    ensures
        config.route_of(port, input) == Some(config.listeners[l].virtual_hosts[h].routes[r]),
{
    law_first_listener_on_port(config, port, l);
    let hosts = config.listeners[l].virtual_hosts;
    lemma_first_of_parts(hosts, input);
    let found = first_with(candidates(hosts, input.host), accepting(input));
    assert(hosts[h].routes[r].accepts(input));
    if let Some(route) = found {
        let (g, k) = choose|g: int, k: int|
            {
                &&& 0 <= g < hosts.len()
                &&& hosts[g].covers(input.host)
                &&& 0 <= k < hosts[g].routes.len()
                &&& (#[trigger] hosts[g].routes[k]).accepts(input)
                &&& hosts[g].routes[k] == route
                &&& forall|j: int| 0 <= j < k ==> !(#[trigger] hosts[g].routes[j]).accepts(input)
                &&& forall|f: int, j: int|
                    0 <= f < g && hosts[f].covers(input.host) && 0 <= j < hosts[f].routes.len()
                        ==> !(#[trigger] hosts[f].routes[j]).accepts(input)
            };
        assert(g == h);
        assert(k == r);
    }
}

/// A request has a route only where it takes one.
pub proof fn law_route_is_one_that_is_taken(
    config: RuntimeConfigView,
    port: u16,
    input: MatchInputView,
)
    requires
        config.route_of(port, input) is Some,
    ensures
        exists|l: int, h: int, r: int| #[trigger] takes(config, port, input, l, h, r),
{
    let l = lemma_first_place(config.listeners, listening_on(port));
    assert forall|k: int| 0 <= k < l implies (#[trigger] config.listeners[k]).bind.port != port by {
        assert(!listening_on(port)(config.listeners[k]));
    }
    let hosts = config.listeners[l].virtual_hosts;
    lemma_first_of_parts(hosts, input);
    let route = config.route_of(port, input)->0;
    let (h, r) = choose|h: int, r: int|
        {
            &&& 0 <= h < hosts.len()
            &&& hosts[h].covers(input.host)
            &&& 0 <= r < hosts[h].routes.len()
            &&& (#[trigger] hosts[h].routes[r]).accepts(input)
            &&& hosts[h].routes[r] == route
            &&& forall|k: int| 0 <= k < r ==> !(#[trigger] hosts[h].routes[k]).accepts(input)
            &&& forall|g: int, k: int|
                0 <= g < h && hosts[g].covers(input.host) && 0 <= k < hosts[g].routes.len()
                    ==> !(#[trigger] hosts[g].routes[k]).accepts(input)
        };
    assert(takes(config, port, input, l, h, r));
}

} // verus!
