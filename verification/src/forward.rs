//! Where a request is sent on to, and what is answered where it cannot be.

use crate::config::{
    Cluster, ClusterView, Endpoint, EndpointView, Route, RuntimeConfig, UpstreamTls,
    UpstreamTlsView, WeightedCluster, WeightedClusterView, HTTP_LISTENER_PORT,
};
use crate::error::{DxgateError, DxgateErrorView};
use crate::headers::{header_entries, header_pairs, host_header, host_of, text_header};
use crate::routing::{MatchInput, MatchInputView};
use crate::state::{
    chosen_cluster, endpoint_turn, healthy, lemma_weight_grows, total_weight, weight_before,
    ProxyState, ProxyStateView,
};
use crate::text::{contains_char, decimal, decimal_text, starts_with};
use http::{HeaderMap, HeaderValue};
use vstd::prelude::*;
use vstd::string::*;

verus! {

pub const NOT_FOUND: u16 = 404;

pub const BAD_GATEWAY: u16 = 502;

pub const SERVICE_UNAVAILABLE: u16 = 503;

/// What the `http` crate objects to in a text that is to be a URI.
pub uninterp spec fn uri_objection(text: Seq<char>) -> Option<Seq<char>>;

/// Has the `http` crate read a text as an `http::Uri`, by `str::parse`. Gives
/// the text of its error where it refuses.
#[verifier::external_body]
fn object_to_uri(text: &str) -> (objection: Option<String>)
    ensures
        objection.deep_view() == uri_objection(text@),
{
    text.parse::<http::Uri>().err().map(|error| error.to_string())
}

/// Why a request failed: an error of the gateway, or a message of its own.
#[derive(Debug, PartialEq, Eq)]
pub enum Cause {
    Gateway(DxgateError),
    Message(String),
}

/// What a cause stands for.
pub enum CauseView {
    Gateway(DxgateErrorView),
    Message(Seq<char>),
}

impl DeepView for Cause {
    type V = CauseView;

    open spec fn deep_view(&self) -> CauseView {
        match self {
            Cause::Gateway(error) => CauseView::Gateway(error.deep_view()),
            Cause::Message(text) => CauseView::Message(text@),
        }
    }
}

/// The answer to a request that cannot be sent on.
#[derive(Debug, PartialEq, Eq)]
pub struct Failure {
    pub status: u16,
    pub cause: Cause,
}

/// What a failure stands for.
pub struct FailureView {
    pub status: u16,
    pub cause: CauseView,
}

impl DeepView for Failure {
    type V = FailureView;

    open spec fn deep_view(&self) -> FailureView {
        FailureView { status: self.status, cause: self.cause.deep_view() }
    }
}

/// A failure with an error of the gateway.
pub open spec fn gateway_failure(status: u16, error: DxgateErrorView) -> FailureView {
    FailureView { status, cause: CauseView::Gateway(error) }
}

/// A failure with a message.
pub open spec fn failure(status: u16, message: Seq<char>) -> FailureView {
    FailureView { status, cause: CauseView::Message(message) }
}

impl Failure {
    /// A failure with a message.
    pub fn new(status: u16, message: String) -> (answer: Self)
        ensures
            answer.deep_view() == failure(status, message@),
    {
        Failure { status, cause: Cause::Message(message) }
    }

    /// The answer where the upstream could not be reached or did not answer.
    pub fn upstream(message: String) -> (answer: Self)
        ensures
            answer.deep_view() == failure(BAD_GATEWAY, message@),
    {
        Failure::new(BAD_GATEWAY, message)
    }
}

/// The upstream that a request is sent on to.
#[derive(Debug)]
pub struct Upstream {
    pub cluster: String,
    pub endpoint: Endpoint,
    pub tls: Option<UpstreamTls>,
    pub uri: String,
}

/// What an upstream stands for.
#[verifier::ext_equal]
pub struct UpstreamView {
    pub cluster: Seq<char>,
    pub endpoint: EndpointView,
    pub tls: Option<UpstreamTlsView>,
    pub uri: Seq<char>,
}

impl DeepView for Upstream {
    type V = UpstreamView;

    open spec fn deep_view(&self) -> UpstreamView {
        UpstreamView {
            cluster: self.cluster@,
            endpoint: self.endpoint.deep_view(),
            tls: self.tls.deep_view(),
            uri: self.uri@,
        }
    }
}

/// The authority of an endpoint in a URI. An address with colons is put in
/// brackets, unless it starts with one.
pub open spec fn authority(endpoint: EndpointView) -> Seq<char> {
    let port = ":"@ + decimal(endpoint.port as nat);
    if endpoint.address.contains(':') && !(endpoint.address.len() > 0 && endpoint.address[0]
        == '[') {
        "["@ + endpoint.address + "]"@ + port
    } else {
        endpoint.address + port
    }
}

/// The authority of an endpoint in a URI.
pub fn endpoint_authority(endpoint: &Endpoint) -> (text: String)
    ensures
        text@ == authority(endpoint.deep_view()),
{
    let port: String = decimal_text(endpoint.port as u32);
    proof {
        reveal_strlit("[");
    }
    let bracketed: bool = starts_with(endpoint.address.as_str(), "[");
    proof {
        let address = endpoint.address@;
        if address.len() > 0 && address[0] == '[' {
            assert("["@ =~= address.take(1));
            assert("["@.is_prefix_of(address));
        } else if bracketed {
            assert("["@[0] == address[0]);
        }
    }
    let text: String = if contains_char(endpoint.address.as_str(), ':') && !bracketed {
        "[".to_owned().concat(endpoint.address.as_str()).concat("]").concat(":").concat(
            port.as_str(),
        )
    } else {
        endpoint.address.clone().concat(":").concat(port.as_str())
    };
    assert(text@ =~= authority(endpoint.deep_view()));
    text
}

/// The URI of a path at an endpoint of a cluster.
pub open spec fn upstream_uri(cluster: ClusterView, endpoint: EndpointView, path: Seq<char>) -> Seq<
    char,
> {
    (if cluster.tls is Some {
        "https"@
    } else {
        "http"@
    }) + "://"@ + authority(endpoint) + path
}

impl ProxyStateView {
    /// The state after a choice among weighted clusters.
    pub open spec fn after_cluster_choice(
        self,
        clusters: Seq<WeightedClusterView>,
    ) -> ProxyStateView {
        if total_weight(clusters) == 0 {
            self
        } else {
            self.after_choice()
        }
    }

    /// The state after the choice of an upstream for a request, and the
    /// upstream or the reason why there is none.
    pub open spec fn chosen_upstream(self, input: MatchInputView) -> (
        ProxyStateView,
        Result<UpstreamView, FailureView>,
    ) {
        match self.config.route_of(HTTP_LISTENER_PORT, input) {
            None => (
                self,
                Err(
                    gateway_failure(
                        NOT_FOUND,
                        DxgateErrorView::RouteNotFound { host: input.host, path: input.path },
                    ),
                ),
            ),
            Some(route) => {
                let clusters = route.weighted_clusters;
                let after = self.after_cluster_choice(clusters);
                if clusters.len() == 0 {
                    (after, Err(failure(SERVICE_UNAVAILABLE, "route has no clusters"@)))
                } else {
                    let name = clusters[chosen_cluster(clusters, self.picker_counter)].name;
                    match self.config.cluster_called(name) {
                        None => (
                            after,
                            Err(
                                failure(
                                    SERVICE_UNAVAILABLE,
                                    "cluster "@ + name + " not found"@,
                                ),
                            ),
                        ),
                        Some(cluster) => after.upstream_in(cluster, input.path),
                    }
                }
            },
        }
    }

    /// The state after the choice of an endpoint of a cluster, and the upstream
    /// or the reason why there is none.
    pub open spec fn upstream_in(self, cluster: ClusterView, path: Seq<char>) -> (
        ProxyStateView,
        Result<UpstreamView, FailureView>,
    ) {
        let able = healthy(cluster.endpoints);
        if able.len() == 0 {
            (
                self,
                Err(
                    gateway_failure(
                        SERVICE_UNAVAILABLE,
                        DxgateErrorView::NoHealthyEndpoints(cluster.name),
                    ),
                ),
            )
        } else {
            let endpoint = able[endpoint_turn(self.picker_counter, able.len())];
            (
                self.after_choice(),
                Ok(
                    UpstreamView {
                        cluster: cluster.name,
                        endpoint,
                        tls: cluster.tls,
                        uri: upstream_uri(cluster, endpoint, path),
                    },
                ),
            )
        }
    }

    /// Whether the weights of the route that a request takes can be summed up.
    pub open spec fn weights_fit(self, input: MatchInputView) -> bool {
        match self.config.route_of(HTTP_LISTENER_PORT, input) {
            Some(route) => total_weight(route.weighted_clusters) <= u32::MAX,
            None => true,
        }
    }
}

/// Whether the weights of some clusters can be summed up.
pub fn weights_fit(clusters: &[WeightedCluster]) -> (fit: bool)
    ensures
        fit == (total_weight(clusters.deep_view()) <= u32::MAX),
{
    let ghost all = clusters.deep_view();
    let mut total: u32 = 0;
    let mut i: usize = 0;
    while i < clusters.len()
        invariant
            i <= clusters.len(),
            all == clusters.deep_view(),
            total == weight_before(all, i as int),
        decreases clusters.len() - i,
    {
        proof {
            assert(all[i as int] == clusters@[i as int].deep_view());
            lemma_weight_grows(all, i as int + 1, all.len() as int);
        }
        match total.checked_add(clusters[i].weight) {
            Some(sum) => {
                total = sum;
            },
            None => {
                return false;
            },
        }
        i += 1;
    }
    true
}

/// An upstream whose URI the `http` crate may object to.
pub open spec fn with_objection(
    outcome: Result<UpstreamView, FailureView>,
    objection: Option<Seq<char>>,
) -> Result<UpstreamView, FailureView> {
    match (outcome, objection) {
        (Ok(_), Some(text)) => Err(failure(BAD_GATEWAY, "invalid upstream uri: "@ + text)),
        _ => outcome,
    }
}

/// The upstream, unless the `http` crate objected to its URI.
pub fn checked_upstream(upstream: Upstream, objection: Option<String>) -> (outcome: Result<
    Upstream,
    Failure,
>)
    ensures
        match outcome {
            Ok(kept) => objection is None && kept.deep_view() == upstream.deep_view(),
            Err(answer) => objection is Some && answer.deep_view() == failure(
                BAD_GATEWAY,
                "invalid upstream uri: "@ + objection->0@,
            ),
        },
{
    match objection {
        Some(text) => Err(
            Failure::upstream("invalid upstream uri: ".to_owned().concat(text.as_str())),
        ),
        None => Ok(upstream),
    }
}

/// What routing reads of a request. A request without a host is for any host,
/// and one without a path is for the root.
pub open spec fn request_input(
    entries: Seq<(Seq<char>, Seq<u8>)>,
    path: Option<Seq<char>>,
) -> MatchInputView {
    MatchInputView {
        host: match host_of(entries) {
            Some(host) => host,
            None => "*"@,
        },
        path: match path {
            Some(path) => path,
            None => "/"@,
        },
        headers: entries.filter_map(text_header()),
    }
}

impl ProxyState {
    /// Chooses the upstream for a request.
    pub fn choose_upstream(&mut self, input: &MatchInput<'_>) -> (outcome: Result<
        Upstream,
        Failure,
    >)
        requires
            old(self).deep_view().weights_fit(input.deep_view()),
        ensures
            match outcome {
                Ok(upstream) => (
                    final(self).deep_view(),
                    Ok::<UpstreamView, FailureView>(upstream.deep_view()),
                ) == old(self).deep_view().chosen_upstream(input.deep_view()),
                Err(answer) => (
                    final(self).deep_view(),
                    Err::<UpstreamView, FailureView>(answer.deep_view()),
                ) == old(self).deep_view().chosen_upstream(input.deep_view()),
            },
    {
        let cfg: RuntimeConfig = self.config();
        let route: &Route = match cfg.route_for(HTTP_LISTENER_PORT, input) {
            Ok(route) => route,
            Err(error) => {
                return Err(Failure { status: NOT_FOUND, cause: Cause::Gateway(error) });
            },
        };
        let weighted: &WeightedCluster = match self.pick_cluster(
            route.weighted_clusters.as_slice(),
        ) {
            Some(weighted) => weighted,
            None => {
                return Err(
                    Failure::new(SERVICE_UNAVAILABLE, "route has no clusters".to_owned()),
                );
            },
        };
        let cluster: &Cluster = match cfg.cluster(weighted.name.as_str()) {
            Some(cluster) => cluster,
            None => {
                return Err(
                    Failure::new(
                        SERVICE_UNAVAILABLE,
                        "cluster ".to_owned().concat(weighted.name.as_str()).concat(" not found"),
                    ),
                );
            },
        };
        let endpoint: &Endpoint = match self.pick_endpoint(
            cluster.name.as_str(),
            cluster.endpoints.as_slice(),
        ) {
            Ok(endpoint) => endpoint,
            Err(error) => {
                return Err(Failure { status: SERVICE_UNAVAILABLE, cause: Cause::Gateway(error) });
            },
        };
        let scheme: &'static str = if cluster.tls.is_some() {
            "https"
        } else {
            "http"
        };
        let uri: String = scheme.to_owned().concat("://").concat(
            endpoint_authority(endpoint).as_str(),
        ).concat(input.path);
        Ok(
            Upstream {
                cluster: cluster.name.clone(),
                endpoint: endpoint.clone(),
                tls: cluster.tls.clone(),
                uri,
            },
        )
    }

    /// Whether the weights of the route that a request takes can be summed up.
    pub fn can_weigh(&self, input: &MatchInput<'_>) -> (fit: bool)
        ensures
            fit == self.deep_view().weights_fit(input.deep_view()),
    {
        let cfg: RuntimeConfig = self.config();
        match cfg.route_for(HTTP_LISTENER_PORT, input) {
            Ok(route) => weights_fit(route.weighted_clusters.as_slice()),
            Err(_) => true,
        }
    }

    /// Finds the upstream for a request with these headers and this path and
    /// query. There is no answer where the weights of the route cannot be
    /// summed up.
    pub fn forward(&mut self, headers: &HeaderMap<HeaderValue>, path: Option<&str>) -> (answer:
        Option<Result<Upstream, Failure>>)
        ensures
            answer is Some <==> old(self).deep_view().weights_fit(
                request_input(header_entries(*headers), path.deep_view()),
            ),
            answer is None ==> final(self).deep_view() == old(self).deep_view(),
            answer matches Some(outcome) ==> {
                let (after, chosen) = old(self).deep_view().chosen_upstream(
                    request_input(header_entries(*headers), path.deep_view()),
                );
                let checked = with_objection(
                    chosen,
                    match chosen {
                        Ok(upstream) => uri_objection(upstream.uri),
                        Err(_) => None,
                    },
                );
                final(self).deep_view() == after && match outcome {
                    Ok(upstream) => checked == Ok::<UpstreamView, FailureView>(
                        upstream.deep_view(),
                    ),
                    Err(answer) => checked == Err::<UpstreamView, FailureView>(answer.deep_view()),
                }
            },
    {
        let host: String = match host_header(headers) {
            Some(host) => host,
            None => "*".to_owned(),
        };
        let path: &str = match path {
            Some(path) => path,
            None => "/",
        };
        let pairs: Vec<(String, String)> = header_pairs(headers);
        let input = MatchInput { host: host.as_str(), path, headers: pairs.as_slice() };
        if !self.can_weigh(&input) {
            return None;
        }
        match self.choose_upstream(&input) {
            Ok(upstream) => {
                let objection: Option<String> = object_to_uri(upstream.uri.as_str());
                Some(checked_upstream(upstream, objection))
            },
            Err(answer) => Some(Err(answer)),
        }
    }
}

} // verus!
