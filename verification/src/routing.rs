//! Which route a request takes.

use crate::config::{
    Cluster, ClusterView, Endpoint, EndpointView, HeaderMatch, HeaderMatchView, Listener,
    ListenerView, PathMatch, PathMatchView, Route, RouteMatch, RouteMatchView, RouteView,
    RuntimeConfig, RuntimeConfigView, VirtualHost, VirtualHostView,
};
use crate::error::{DxgateError, DxgateErrorView};
use crate::text::{
    ends_with, same_ignoring_case, same_text, same_text_ignoring_case, starts_with,
};
use vstd::prelude::*;
use vstd::string::*;

verus! {

/// The parts of a request that routes are chosen by.
pub struct MatchInput<'a> {
    pub host: &'a str,
    pub path: &'a str,
    pub headers: &'a [(String, String)],
}

/// What the routed parts of a request stand for.
pub struct MatchInputView {
    pub host: Seq<char>,
    pub path: Seq<char>,
    pub headers: Seq<(Seq<char>, Seq<char>)>,
}

impl<'a> DeepView for MatchInput<'a> {
    type V = MatchInputView;

    open spec fn deep_view(&self) -> MatchInputView {
        MatchInputView {
            host: self.host@,
            path: self.path@,
            headers: self.headers.deep_view(),
        }
    }
}

/// The first element with a property.
pub open spec fn first_with<T>(items: Seq<T>, wanted: spec_fn(T) -> bool) -> Option<T>
    decreases items.len(),
{
    if items.len() == 0 {
        None
    } else if wanted(items[0]) {
        Some(items[0])
    } else {
        first_with(items.skip(1), wanted)
    }
}

/// An element with the property, after elements without it, is the first.
pub proof fn lemma_first_with<T>(items: Seq<T>, wanted: spec_fn(T) -> bool, at: int)
    requires
        0 <= at <= items.len(),
        forall|k: int| 0 <= k < at ==> !wanted(#[trigger] items[k]),
        at < items.len() ==> wanted(items[at]),
    ensures
        first_with(items, wanted) == if at < items.len() {
            Some(items[at])
        } else {
            None
        },
    decreases at,
{
    if at > 0 {
        assert(!wanted(items[0]));
        assert forall|k: int| 0 <= k < at - 1 implies !wanted(#[trigger] items.skip(1)[k]) by {
            assert(items.skip(1)[k] == items[k + 1]);
        }
        lemma_first_with(items.skip(1), wanted, at - 1);
    }
}

/// The first element of two sequences together is the first of the earlier
/// sequence, or else that of the later one.
pub proof fn lemma_first_with_add<T>(a: Seq<T>, b: Seq<T>, wanted: spec_fn(T) -> bool)
    ensures
        first_with(a + b, wanted) == match first_with(a, wanted) {
            Some(item) => Some(item),
            None => first_with(b, wanted),
        },
    decreases a.len(),
{
    if a.len() == 0 {
        assert(a + b =~= b);
    } else {
        assert((a + b).skip(1) =~= a.skip(1) + b);
        lemma_first_with_add(a.skip(1), b, wanted);
    }
}

/// Whether a domain of a virtual host covers a host name: any host, the same
/// name in any case, or any host that ends as the pattern does.
pub open spec fn domain_covers(domain: Seq<char>, host: Seq<char>) -> bool {
    ||| domain == "*"@
    ||| same_ignoring_case(domain, host)
    ||| ("*."@.is_prefix_of(domain) && domain.skip(2).is_suffix_of(host))
}

impl VirtualHostView {
    /// Whether one of the domains covers the host name.
    pub open spec fn covers(self, host: Seq<char>) -> bool {
        exists|i: int| 0 <= i < self.domains.len() && domain_covers(#[trigger] self.domains[i], host)
    }
}

impl PathMatchView {
    /// Whether a path begins with the prefix, or is the exact path.
    pub open spec fn accepts(self, path: Seq<char>) -> bool {
        match self {
            PathMatchView::Prefix(prefix) => prefix.is_prefix_of(path),
            PathMatchView::Exact(exact) => path == exact,
        }
    }
}

impl HeaderMatchView {
    /// Whether the request has the header, its name in any case, with exactly
    /// the wanted value.
    pub open spec fn accepts(self, input: MatchInputView) -> bool {
        exists|i: int|
            0 <= i < input.headers.len() && same_ignoring_case(
                (#[trigger] input.headers[i]).0,
                self.name,
            ) && input.headers[i].1 == self.value
    }
}

impl RouteMatchView {
    /// Whether the path and all header conditions are met.
    pub open spec fn accepts(self, input: MatchInputView) -> bool {
        self.path.accepts(input.path) && forall|i: int|
            0 <= i < self.headers.len() ==> (#[trigger] self.headers[i]).accepts(input)
    }
}

impl RouteView {
    /// Whether there are no conditions, or one of them is met.
    pub open spec fn accepts(self, input: MatchInputView) -> bool {
        self.matches.len() == 0 || exists|i: int|
            0 <= i < self.matches.len() && (#[trigger] self.matches[i]).accepts(input)
    }
}

/// The routes that a request may take, in the order in which they are tried.
pub open spec fn candidates(hosts: Seq<VirtualHostView>, host: Seq<char>) -> Seq<RouteView> {
    hosts.filter(covering(host)).flat_map(routes_of())
}

/// The test for a virtual host that covers a host name.
pub open spec fn covering(host: Seq<char>) -> spec_fn(VirtualHostView) -> bool {
    |vhost: VirtualHostView| vhost.covers(host)
}

/// The routes of a virtual host.
pub open spec fn routes_of() -> spec_fn(VirtualHostView) -> Seq<RouteView> {
    |vhost: VirtualHostView| vhost.routes
}

/// The test for a route that accepts a request.
pub open spec fn accepting(input: MatchInputView) -> spec_fn(RouteView) -> bool {
    |route: RouteView| route.accepts(input)
}

/// The test for a listener on a port.
pub open spec fn listening_on(port: u16) -> spec_fn(ListenerView) -> bool {
    |listener: ListenerView| listener.bind.port == port
}

/// The test for a cluster of a name.
pub open spec fn called(name: Seq<char>) -> spec_fn(ClusterView) -> bool {
    |cluster: ClusterView| cluster.name == name
}

/// The test for a healthy endpoint.
pub open spec fn is_healthy() -> spec_fn(EndpointView) -> bool {
    |endpoint: EndpointView| endpoint.healthy
}

impl RuntimeConfigView {
    /// The first listener on a port.
    pub open spec fn listener_on(self, port: u16) -> Option<ListenerView> {
        first_with(self.listeners, listening_on(port))
    }

    /// The first cluster of a name.
    pub open spec fn cluster_called(self, name: Seq<char>) -> Option<ClusterView> {
        first_with(self.clusters, called(name))
    }

    /// The route of a request: the first that accepts it, among the routes of
    /// the virtual hosts that cover its host name.
    pub open spec fn route_of(self, port: u16, input: MatchInputView) -> Option<RouteView> {
        match self.listener_on(port) {
            Some(listener) => first_with(
                candidates(listener.virtual_hosts, input.host),
                accepting(input),
            ),
            None => None,
        }
    }
}

/// Whether a domain of a virtual host covers a host name.
fn domain_matches(domain: &str, host: &str) -> (covered: bool)
    ensures
        covered == domain_covers(domain@, host@),
{
    if same_text(domain, "*") || same_text_ignoring_case(domain, host) {
        return true;
    }
    proof {
        reveal_strlit("*.");
    }
    if starts_with(domain, "*.") {
        let n: usize = domain.unicode_len();
        let suffix: &str = domain.substring_char(2, n);
        assert(suffix@ =~= domain@.skip(2));
        ends_with(host, suffix)
    } else {
        false
    }
}

impl VirtualHost {
    /// Whether one of the domains covers the host name.
    pub fn matches_host(&self, host: &str) -> (covered: bool)
        ensures
            covered == self.deep_view().covers(host@),
    {
        let mut i: usize = 0;
        while i < self.domains.len()
            invariant
                i <= self.domains.len(),
                forall|k: int|
                    0 <= k < i ==> !domain_covers(#[trigger] self.domains.deep_view()[k], host@),
            decreases self.domains.len() - i,
        {
            assert(self.domains.deep_view()[i as int] == self.domains@[i as int]@);
            if domain_matches(self.domains[i].as_str(), host) {
                assert(domain_covers(self.deep_view().domains[i as int], host@));
                return true;
            }
            i += 1;
        }
        false
    }
}

impl Route {
    /// Whether the route accepts a request.
    pub fn matches(&self, input: &MatchInput<'_>) -> (accepted: bool)
        ensures
            accepted == self.deep_view().accepts(input.deep_view()),
    {
        if self.matches.len() == 0 {
            return true;
        }
        let mut i: usize = 0;
        while i < self.matches.len()
            invariant
                i <= self.matches.len(),
                forall|k: int|
                    0 <= k < i ==> !(#[trigger] self.matches.deep_view()[k]).accepts(
                        input.deep_view(),
                    ),
            decreases self.matches.len() - i,
        {
            assert(self.matches.deep_view()[i as int] == self.matches@[i as int].deep_view());
            if self.matches[i].matches(input) {
                return true;
            }
            i += 1;
        }
        false
    }
}

impl RouteMatch {
    /// Whether the condition is met by a request.
    pub fn matches(&self, input: &MatchInput<'_>) -> (accepted: bool)
        ensures
            accepted == self.deep_view().accepts(input.deep_view()),
    {
        if !self.path.matches(input.path) {
            return false;
        }
        let mut i: usize = 0;
        while i < self.headers.len()
            invariant
                i <= self.headers.len(),
                forall|k: int|
                    0 <= k < i ==> (#[trigger] self.headers.deep_view()[k]).accepts(
                        input.deep_view(),
                    ),
            decreases self.headers.len() - i,
        {
            assert(self.headers.deep_view()[i as int] == self.headers@[i as int].deep_view());
            if !self.headers[i].matches(input) {
                assert(!self.deep_view().headers[i as int].accepts(input.deep_view()));
                return false;
            }
            i += 1;
        }
        true
    }
}

impl PathMatch {
    /// Whether the condition is met by a path.
    pub fn matches(&self, path: &str) -> (accepted: bool)
        ensures
            accepted == self.deep_view().accepts(path@),
    {
        match self {
            PathMatch::Prefix(prefix) => starts_with(path, prefix.as_str()),
            PathMatch::Exact(exact) => same_text(path, exact.as_str()),
        }
    }
}

impl HeaderMatch {
    /// Whether the request has the header with the value.
    pub fn matches(&self, input: &MatchInput<'_>) -> (accepted: bool)
        ensures
            accepted == self.deep_view().accepts(input.deep_view()),
    {
        let ghost headers = input.deep_view().headers;
        let mut i: usize = 0;
        while i < input.headers.len()
            invariant
                i <= input.headers@.len(),
                headers == input.deep_view().headers,
                forall|k: int|
                    0 <= k < i ==> !(same_ignoring_case((#[trigger] headers[k]).0, self.name@)
                        && headers[k].1 == self.value@),
            decreases input.headers@.len() - i,
        {
            let pair = &input.headers[i];
            assert(headers[i as int] == (pair.0@, pair.1@));
            if same_text_ignoring_case(pair.0.as_str(), self.name.as_str()) && same_text(
                pair.1.as_str(),
                self.value.as_str(),
            ) {
                return true;
            }
            i += 1;
        }
        false
    }
}

impl Cluster {
    /// The endpoints that can take requests.
    pub fn healthy_endpoints(&self) -> (healthy: Vec<&Endpoint>)
        ensures
            healthy.deep_view() == self.deep_view().endpoints.filter(is_healthy()),
    {
        healthy_among(self.endpoints.as_slice())
    }
}

/// The healthy ones of some endpoints.
pub fn healthy_among<'a>(endpoints: &'a [Endpoint]) -> (healthy: Vec<&'a Endpoint>)
    ensures
        healthy.deep_view() == endpoints.deep_view().filter(is_healthy()),
{
    let mut healthy: Vec<&'a Endpoint> = Vec::new();
    let ghost all = endpoints.deep_view();
    let mut i: usize = 0;
    assert(all.take(0) =~= Seq::<EndpointView>::empty());
    assert(healthy.deep_view() =~= all.take(0).filter(is_healthy())) by {
        reveal(Seq::filter);
    }
    while i < endpoints.len()
        invariant
            i <= endpoints@.len(),
            all == endpoints.deep_view(),
            healthy.deep_view() == all.take(i as int).filter(is_healthy()),
        decreases endpoints@.len() - i,
    {
        let endpoint: &'a Endpoint = &endpoints[i];
        let ghost before = healthy.deep_view();
        proof {
            assert(all[i as int] == endpoint.deep_view());
            assert(all.take(i as int + 1) =~= all.take(i as int).push(all[i as int]));
            all.take(i as int).lemma_filter_push(all[i as int], is_healthy());
        }
        if endpoint.healthy {
            healthy.push(endpoint);
            assert(healthy.deep_view() =~= before.push(endpoint.deep_view()));
        }
        i += 1;
    }
    assert(all.take(i as int) =~= all);
    healthy
}

/// The error for a request without a route.
fn no_route(input: &MatchInput<'_>) -> (error: DxgateError)
    ensures
        error.deep_view() == (DxgateErrorView::RouteNotFound {
            host: input.host@,
            path: input.path@,
        }),
{
    DxgateError::RouteNotFound { host: input.host.to_owned(), path: input.path.to_owned() }
}

impl RuntimeConfig {
    /// The first listener on a port.
    pub fn listener_by_port(&self, port: u16) -> (found: Option<&Listener>)
        ensures
            found.deep_view() == self.deep_view().listener_on(port),
    {
        let ghost all = self.listeners.deep_view();
        let ghost wanted = listening_on(port);
        let mut i: usize = 0;
        while i < self.listeners.len()
            invariant
                i <= self.listeners.len(),
                all == self.listeners.deep_view(),
                wanted == listening_on(port),
                forall|k: int| 0 <= k < i ==> !wanted(#[trigger] all[k]),
            decreases self.listeners.len() - i,
        {
            assert(all[i as int] == self.listeners@[i as int].deep_view());
            if self.listeners[i].bind.port == port {
                proof {
                    lemma_first_with(all, wanted, i as int);
                }
                return Some(&self.listeners[i]);
            }
            i += 1;
        }
        proof {
            lemma_first_with(all, wanted, i as int);
        }
        None
    }

    /// The first cluster of a name.
    pub fn cluster(&self, name: &str) -> (found: Option<&Cluster>)
        ensures
            found.deep_view() == self.deep_view().cluster_called(name@),
    {
        let ghost all = self.clusters.deep_view();
        let ghost wanted = called(name@);
        let mut i: usize = 0;
        while i < self.clusters.len()
            invariant
                i <= self.clusters.len(),
                all == self.clusters.deep_view(),
                wanted == called(name@),
                forall|k: int| 0 <= k < i ==> !wanted(#[trigger] all[k]),
            decreases self.clusters.len() - i,
        {
            assert(all[i as int] == self.clusters@[i as int].deep_view());
            if same_text(self.clusters[i].name.as_str(), name) {
                proof {
                    lemma_first_with(all, wanted, i as int);
                }
                return Some(&self.clusters[i]);
            }
            i += 1;
        }
        proof {
            lemma_first_with(all, wanted, i as int);
        }
        None
    }

    /// The route of a request that came in on a port.
    pub fn route_for<'a>(&'a self, port: u16, input: &MatchInput<'_>) -> (outcome: Result<
        &'a Route,
        DxgateError,
    >)
        ensures
            match outcome {
                Ok(route) => self.deep_view().route_of(port, input.deep_view()) == Some(
                    route.deep_view(),
                ),
                Err(error) => self.deep_view().route_of(port, input.deep_view()) is None
                    && error.deep_view() == (DxgateErrorView::RouteNotFound {
                    host: input.host@,
                    path: input.path@,
                }),
            },
    {
        let listener: &'a Listener = match self.listener_by_port(port) {
            Some(listener) => listener,
            None => {
                return Err(no_route(input));
            },
        };
        let hosts: &'a Vec<VirtualHost> = &listener.virtual_hosts;
        let ghost all = hosts.deep_view();
        let ghost host = input.host@;
        let ghost wanted = accepting(input.deep_view());
        let mut i: usize = 0;
        assert(all.take(0) =~= Seq::<VirtualHostView>::empty());
        assert(candidates(all.take(0), host) =~= Seq::<RouteView>::empty()) by {
            reveal(Seq::filter);
        }
        while i < hosts.len()
            invariant
                i <= hosts.len(),
                all == hosts.deep_view(),
                host == input.host@,
                wanted == accepting(input.deep_view()),
                first_with(candidates(all.take(i as int), host), wanted) is None,
                self.deep_view().route_of(port, input.deep_view()) == first_with(
                    candidates(all, host),
                    wanted,
                ),
            decreases hosts.len() - i,
        {
            let vhost: &'a VirtualHost = &hosts[i];
            proof {
                assert(all[i as int] == vhost.deep_view());
                lemma_candidates_step(all, i as int, host);
            }
            if vhost.matches_host(input.host) {
                let routes: &'a Vec<Route> = &vhost.routes;
                let ghost here = routes.deep_view();
                let mut j: usize = 0;
                while j < routes.len()
                    invariant
                        j <= routes.len(),
                        here == routes.deep_view(),
                        i < hosts.len(),
                        all == hosts.deep_view(),
                        host == input.host@,
                        wanted == accepting(input.deep_view()),
                        forall|k: int| 0 <= k < j ==> !wanted(#[trigger] here[k]),
                        all[i as int].routes == here,
                        all[i as int].covers(host),
                        candidates(all.take(i as int + 1), host) == candidates(
                            all.take(i as int),
                            host,
                        ) + here,
                        first_with(candidates(all.take(i as int), host), wanted) is None,
                        self.deep_view().route_of(port, input.deep_view()) == first_with(
                            candidates(all, host),
                            wanted,
                        ),
                    decreases routes.len() - j,
                {
                    let route: &'a Route = &routes[j];
                    assert(here[j as int] == route.deep_view());
                    if route.matches(input) {
                        proof {
                            lemma_first_with(here, wanted, j as int);
                            lemma_first_with_add(candidates(all.take(i as int), host), here, wanted);
                            lemma_candidates_prefix(all, i as int + 1, host, wanted);
                        }
                        return Ok(route);
                    }
                    j += 1;
                }
                proof {
                    lemma_first_with(here, wanted, j as int);
                    lemma_first_with_add(candidates(all.take(i as int), host), here, wanted);
                }
            }
            i += 1;
        }
        assert(all.take(i as int) =~= all);
        Err(no_route(input))
    }
}

/// The candidates grow by the routes of each further virtual host that covers
/// the host name.
proof fn lemma_candidates_step(hosts: Seq<VirtualHostView>, i: int, host: Seq<char>)
    requires
        0 <= i < hosts.len(),
    ensures
        candidates(hosts.take(i + 1), host) == candidates(hosts.take(i), host) + (if hosts[i].covers(
            host,
        ) {
            hosts[i].routes
        } else {
            Seq::<RouteView>::empty()
        }),
{
    let chosen = hosts.take(i).filter(covering(host));
    assert(hosts.take(i + 1) =~= hosts.take(i).push(hosts[i]));
    hosts.take(i).lemma_filter_push(hosts[i], covering(host));
    if hosts[i].covers(host) {
        chosen.lemma_flat_map_push(routes_of(), hosts[i]);
    } else {
        assert(candidates(hosts.take(i), host) + Seq::<RouteView>::empty() =~= candidates(
            hosts.take(i),
            host,
        ));
    }
}

/// What is found among the first virtual hosts is found among all of them.
proof fn lemma_candidates_prefix(
    hosts: Seq<VirtualHostView>,
    n: int,
    host: Seq<char>,
    wanted: spec_fn(RouteView) -> bool,
)
    requires
        0 <= n <= hosts.len(),
        first_with(candidates(hosts.take(n), host), wanted) is Some,
    ensures
        first_with(candidates(hosts, host), wanted) == first_with(
            candidates(hosts.take(n), host),
            wanted,
        ),
    decreases hosts.len() - n,
{
    if n < hosts.len() {
        lemma_candidates_step(hosts, n, host);
        let more = if hosts[n].covers(host) {
            hosts[n].routes
        } else {
            Seq::<RouteView>::empty()
        };
        lemma_first_with_add(candidates(hosts.take(n), host), more, wanted);
        lemma_candidates_prefix(hosts, n + 1, host, wanted);
    } else {
        assert(hosts.take(n) =~= hosts);
    }
}

} // verus!
