//! The parts of the xDS messages that the gateway reads.
//!
//! A packed message is held together with the outcome of decoding it, so that
//! the places where a malformed message matters are decided here.

use vstd::prelude::*;

verus! {

/// A packed message: its type, and what its bytes decode to, or else the text
/// of the decoding error.
#[derive(Debug)]
pub struct Any<T> {
    pub type_url: String,
    pub value: Result<T, String>,
}

/// What a packed message stands for.
pub struct AnyView<V> {
    pub type_url: Seq<char>,
    pub value: Result<V, Seq<char>>,
}

impl<T: DeepView> DeepView for Any<T> {
    type V = AnyView<T::V>;

    open spec fn deep_view(&self) -> AnyView<T::V> {
        AnyView {
            type_url: self.type_url@,
            value: match self.value {
                Ok(message) => Ok(message.deep_view()),
                Err(text) => Err(text@),
            },
        }
    }
}

/// An address with a numbered port. No port is held where the message names it otherwise.
#[derive(Debug)]
pub struct SocketAddress {
    pub address: String,
    pub port_value: Option<u32>,
}

/// What this message stands for.
pub struct SocketAddressView {
    pub address: Seq<char>,
    pub port_value: Option<u32>,
}

impl DeepView for SocketAddress {
    type V = SocketAddressView;

    open spec fn deep_view(&self) -> SocketAddressView {
        SocketAddressView {
            address: self.address@,
            port_value: self.port_value,
        }
    }
}

/// A network address. Nothing is held where it is not a socket address.
#[derive(Debug)]
pub struct Address {
    pub socket_address: Option<SocketAddress>,
}

/// What this message stands for.
pub struct AddressView {
    pub socket_address: Option<SocketAddressView>,
}

impl DeepView for Address {
    type V = AddressView;

    open spec fn deep_view(&self) -> AddressView {
        AddressView {
            socket_address: self.socket_address.deep_view(),
        }
    }
}

/// A listener resource.
#[derive(Debug)]
pub struct Listener {
    pub name: String,
    pub address: Option<Address>,
    pub api_listener: Option<ApiListener>,
    pub filter_chains: Vec<FilterChain>,
}

/// What this message stands for.
pub struct ListenerView {
    pub name: Seq<char>,
    pub address: Option<AddressView>,
    pub api_listener: Option<ApiListenerView>,
    pub filter_chains: Seq<FilterChainView>,
}

impl DeepView for Listener {
    type V = ListenerView;

    open spec fn deep_view(&self) -> ListenerView {
        ListenerView {
            name: self.name@,
            address: self.address.deep_view(),
            api_listener: self.api_listener.deep_view(),
            filter_chains: self.filter_chains.deep_view(),
        }
    }
}

/// The connection manager of a listener without filters.
#[derive(Debug)]
pub struct ApiListener {
    pub api_listener: Option<Any<HttpConnectionManager>>,
}

/// What this message stands for.
pub struct ApiListenerView {
    pub api_listener: Option<AnyView<HttpConnectionManagerView>>,
}

impl DeepView for ApiListener {
    type V = ApiListenerView;

    open spec fn deep_view(&self) -> ApiListenerView {
        ApiListenerView {
            api_listener: self.api_listener.deep_view(),
        }
    }
}

/// A chain of network filters.
#[derive(Debug)]
pub struct FilterChain {
    pub filters: Vec<Filter>,
}

/// What this message stands for.
pub struct FilterChainView {
    pub filters: Seq<FilterView>,
}

impl DeepView for FilterChain {
    type V = FilterChainView;

    open spec fn deep_view(&self) -> FilterChainView {
        FilterChainView {
            filters: self.filters.deep_view(),
        }
    }
}

/// A network filter. Nothing is held where its configuration is not typed.
#[derive(Debug)]
pub struct Filter {
    pub name: String,
    pub typed_config: Option<Any<HttpConnectionManager>>,
}

/// What this message stands for.
pub struct FilterView {
    pub name: Seq<char>,
    pub typed_config: Option<AnyView<HttpConnectionManagerView>>,
}

impl DeepView for Filter {
    type V = FilterView;

    open spec fn deep_view(&self) -> FilterView {
        FilterView {
            name: self.name@,
            typed_config: self.typed_config.deep_view(),
        }
    }
}

/// The filter that turns connections into requests.
#[derive(Debug)]
pub struct HttpConnectionManager {
    pub route_specifier: Option<RouteSpecifier>,
}

/// What this message stands for.
pub struct HttpConnectionManagerView {
    pub route_specifier: Option<RouteSpecifierView>,
}

impl DeepView for HttpConnectionManager {
    type V = HttpConnectionManagerView;

    open spec fn deep_view(&self) -> HttpConnectionManagerView {
        HttpConnectionManagerView {
            route_specifier: self.route_specifier.deep_view(),
        }
    }
}

/// Where the routes of a connection manager come from.
#[derive(Debug)]
pub enum RouteSpecifier {
    Rds(Rds),
    RouteConfig(RouteConfiguration),
}

/// What this choice stands for.
pub enum RouteSpecifierView {
    Rds(RdsView),
    RouteConfig(RouteConfigurationView),
}

impl DeepView for RouteSpecifier {
    type V = RouteSpecifierView;

    open spec fn deep_view(&self) -> RouteSpecifierView {
        match self {
            RouteSpecifier::Rds(inner) => RouteSpecifierView::Rds(inner.deep_view()),
            RouteSpecifier::RouteConfig(inner) => RouteSpecifierView::RouteConfig(inner.deep_view()),
        }
    }
}

/// A reference to a route resource.
#[derive(Debug)]
pub struct Rds {
    pub route_config_name: String,
}

/// What this message stands for.
pub struct RdsView {
    pub route_config_name: Seq<char>,
}

impl DeepView for Rds {
    type V = RdsView;

    open spec fn deep_view(&self) -> RdsView {
        RdsView {
            route_config_name: self.route_config_name@,
        }
    }
}

/// A route resource.
#[derive(Debug)]
pub struct RouteConfiguration {
    pub name: String,
    pub virtual_hosts: Vec<VirtualHost>,
}

/// What this message stands for.
pub struct RouteConfigurationView {
    pub name: Seq<char>,
    pub virtual_hosts: Seq<VirtualHostView>,
}

impl DeepView for RouteConfiguration {
    type V = RouteConfigurationView;

    open spec fn deep_view(&self) -> RouteConfigurationView {
        RouteConfigurationView {
            name: self.name@,
            virtual_hosts: self.virtual_hosts.deep_view(),
        }
    }
}

/// A virtual host of a route resource.
#[derive(Debug)]
pub struct VirtualHost {
    pub name: String,
    pub domains: Vec<String>,
    pub routes: Vec<Route>,
}

/// What this message stands for.
pub struct VirtualHostView {
    pub name: Seq<char>,
    pub domains: Seq<Seq<char>>,
    pub routes: Seq<RouteView>,
}

impl DeepView for VirtualHost {
    type V = VirtualHostView;

    open spec fn deep_view(&self) -> VirtualHostView {
        VirtualHostView {
            name: self.name@,
            domains: self.domains.deep_view(),
            routes: self.routes.deep_view(),
        }
    }
}

/// A route of a virtual host.
#[derive(Debug)]
pub struct Route {
    pub name: String,
    pub route_match: Option<RouteMatch>,
    pub action: Option<Action>,
}

/// What this message stands for.
pub struct RouteView {
    pub name: Seq<char>,
    pub route_match: Option<RouteMatchView>,
    pub action: Option<ActionView>,
}

impl DeepView for Route {
    type V = RouteView;

    open spec fn deep_view(&self) -> RouteView {
        RouteView {
            name: self.name@,
            route_match: self.route_match.deep_view(),
            action: self.action.deep_view(),
        }
    }
}

/// What is done with the requests of a route.
#[derive(Debug)]
pub enum Action {
    Route(RouteAction),
    NonForwardingAction,
}

/// What this choice stands for.
pub enum ActionView {
    Route(RouteActionView),
    NonForwardingAction,
}

impl DeepView for Action {
    type V = ActionView;

    open spec fn deep_view(&self) -> ActionView {
        match self {
            Action::Route(inner) => ActionView::Route(inner.deep_view()),
            Action::NonForwardingAction => ActionView::NonForwardingAction,
        }
    }
}

/// The destination of a route.
#[derive(Debug)]
pub struct RouteAction {
    pub cluster_specifier: Option<ClusterSpecifier>,
}

/// What this message stands for.
pub struct RouteActionView {
    pub cluster_specifier: Option<ClusterSpecifierView>,
}

impl DeepView for RouteAction {
    type V = RouteActionView;

    open spec fn deep_view(&self) -> RouteActionView {
        RouteActionView {
            cluster_specifier: self.cluster_specifier.deep_view(),
        }
    }
}

/// One cluster, or several with weights.
#[derive(Debug)]
pub enum ClusterSpecifier {
    Cluster(String),
    WeightedClusters(Vec<ClusterWeight>),
}

/// What this choice stands for.
pub enum ClusterSpecifierView {
    Cluster(Seq<char>),
    WeightedClusters(Seq<ClusterWeightView>),
}

impl DeepView for ClusterSpecifier {
    type V = ClusterSpecifierView;

    open spec fn deep_view(&self) -> ClusterSpecifierView {
        match self {
            ClusterSpecifier::Cluster(inner) => ClusterSpecifierView::Cluster(inner@),
            ClusterSpecifier::WeightedClusters(inner) => ClusterSpecifierView::WeightedClusters(inner.deep_view()),
        }
    }
}

/// A cluster and its weight.
#[derive(Debug)]
pub struct ClusterWeight {
    pub name: String,
    pub weight: Option<u32>,
}

/// What this message stands for.
pub struct ClusterWeightView {
    pub name: Seq<char>,
    pub weight: Option<u32>,
}

impl DeepView for ClusterWeight {
    type V = ClusterWeightView;

    open spec fn deep_view(&self) -> ClusterWeightView {
        ClusterWeightView {
            name: self.name@,
            weight: self.weight,
        }
    }
}

/// The condition of a route.
#[derive(Debug)]
pub struct RouteMatch {
    pub path_specifier: Option<PathSpecifier>,
    pub headers: Vec<HeaderMatcher>,
}

/// What this message stands for.
pub struct RouteMatchView {
    pub path_specifier: Option<PathSpecifierView>,
    pub headers: Seq<HeaderMatcherView>,
}

impl DeepView for RouteMatch {
    type V = RouteMatchView;

    open spec fn deep_view(&self) -> RouteMatchView {
        RouteMatchView {
            path_specifier: self.path_specifier.deep_view(),
            headers: self.headers.deep_view(),
        }
    }
}

/// A condition on the path.
#[derive(Debug)]
pub enum PathSpecifier {
    Prefix(String),
    Path(String),
    SafeRegex,
}

/// What this choice stands for.
pub enum PathSpecifierView {
    Prefix(Seq<char>),
    Path(Seq<char>),
    SafeRegex,
}

impl DeepView for PathSpecifier {
    type V = PathSpecifierView;

    open spec fn deep_view(&self) -> PathSpecifierView {
        match self {
            PathSpecifier::Prefix(inner) => PathSpecifierView::Prefix(inner@),
            PathSpecifier::Path(inner) => PathSpecifierView::Path(inner@),
            PathSpecifier::SafeRegex => PathSpecifierView::SafeRegex,
        }
    }
}

/// A condition on a header.
#[derive(Debug)]
pub struct HeaderMatcher {
    pub name: String,
    pub header_match_specifier: Option<HeaderMatchSpecifier>,
}

/// What this message stands for.
pub struct HeaderMatcherView {
    pub name: Seq<char>,
    pub header_match_specifier: Option<HeaderMatchSpecifierView>,
}

impl DeepView for HeaderMatcher {
    type V = HeaderMatcherView;

    open spec fn deep_view(&self) -> HeaderMatcherView {
        HeaderMatcherView {
            name: self.name@,
            header_match_specifier: self.header_match_specifier.deep_view(),
        }
    }
}

/// How a header is compared.
#[derive(Debug)]
pub enum HeaderMatchSpecifier {
    ExactMatch(String),
    SafeRegexMatch,
}

/// What this choice stands for.
pub enum HeaderMatchSpecifierView {
    ExactMatch(Seq<char>),
    SafeRegexMatch,
}

impl DeepView for HeaderMatchSpecifier {
    type V = HeaderMatchSpecifierView;

    open spec fn deep_view(&self) -> HeaderMatchSpecifierView {
        match self {
            HeaderMatchSpecifier::ExactMatch(inner) => HeaderMatchSpecifierView::ExactMatch(inner@),
            HeaderMatchSpecifier::SafeRegexMatch => HeaderMatchSpecifierView::SafeRegexMatch,
        }
    }
}

/// A cluster resource.
#[derive(Debug)]
pub struct Cluster {
    pub name: String,
    pub eds_cluster_config: Option<EdsClusterConfig>,
    pub load_assignment: Option<ClusterLoadAssignment>,
    pub transport_socket: Option<TransportSocket>,
}

/// What this message stands for.
pub struct ClusterView {
    pub name: Seq<char>,
    pub eds_cluster_config: Option<EdsClusterConfigView>,
    pub load_assignment: Option<ClusterLoadAssignmentView>,
    pub transport_socket: Option<TransportSocketView>,
}

impl DeepView for Cluster {
    type V = ClusterView;

    open spec fn deep_view(&self) -> ClusterView {
        ClusterView {
            name: self.name@,
            eds_cluster_config: self.eds_cluster_config.deep_view(),
            load_assignment: self.load_assignment.deep_view(),
            transport_socket: self.transport_socket.deep_view(),
        }
    }
}

/// The name under which the endpoints of a cluster are found.
#[derive(Debug)]
pub struct EdsClusterConfig {
    pub service_name: String,
}

/// What this message stands for.
pub struct EdsClusterConfigView {
    pub service_name: Seq<char>,
}

impl DeepView for EdsClusterConfig {
    type V = EdsClusterConfigView;

    open spec fn deep_view(&self) -> EdsClusterConfigView {
        EdsClusterConfigView {
            service_name: self.service_name@,
        }
    }
}

/// How connections to a cluster are made.
#[derive(Debug)]
pub struct TransportSocket {
    pub typed_config: Option<Any<UpstreamTlsContext>>,
}

/// What this message stands for.
pub struct TransportSocketView {
    pub typed_config: Option<AnyView<UpstreamTlsContextView>>,
}

impl DeepView for TransportSocket {
    type V = TransportSocketView;

    open spec fn deep_view(&self) -> TransportSocketView {
        TransportSocketView {
            typed_config: self.typed_config.deep_view(),
        }
    }
}

/// The TLS settings of a cluster.
#[derive(Debug)]
pub struct UpstreamTlsContext {
    pub sni: String,
    pub common_tls_context: Option<CommonTlsContext>,
}

/// What this message stands for.
pub struct UpstreamTlsContextView {
    pub sni: Seq<char>,
    pub common_tls_context: Option<CommonTlsContextView>,
}

impl DeepView for UpstreamTlsContext {
    type V = UpstreamTlsContextView;

    open spec fn deep_view(&self) -> UpstreamTlsContextView {
        UpstreamTlsContextView {
            sni: self.sni@,
            common_tls_context: self.common_tls_context.deep_view(),
        }
    }
}

/// The certificates and protocols of TLS connections.
#[derive(Debug)]
pub struct CommonTlsContext {
    pub tls_certificate_certificate_provider_instance: Option<CertificateProviderInstance>,
    pub alpn_protocols: Vec<String>,
    pub combined_validation_context: Option<CombinedCertificateValidationContext>,
}

/// What this message stands for.
pub struct CommonTlsContextView {
    pub tls_certificate_certificate_provider_instance: Option<CertificateProviderInstanceView>,
    pub alpn_protocols: Seq<Seq<char>>,
    pub combined_validation_context: Option<CombinedCertificateValidationContextView>,
}

impl DeepView for CommonTlsContext {
    type V = CommonTlsContextView;

    open spec fn deep_view(&self) -> CommonTlsContextView {
        CommonTlsContextView {
            tls_certificate_certificate_provider_instance: self.tls_certificate_certificate_provider_instance.deep_view(),
            alpn_protocols: self.alpn_protocols.deep_view(),
            combined_validation_context: self.combined_validation_context.deep_view(),
        }
    }
}

/// A reference to a certificate provider.
#[derive(Debug)]
pub struct CertificateProviderInstance {
    pub instance_name: String,
}

/// What this message stands for.
pub struct CertificateProviderInstanceView {
    pub instance_name: Seq<char>,
}

impl DeepView for CertificateProviderInstance {
    type V = CertificateProviderInstanceView;

    open spec fn deep_view(&self) -> CertificateProviderInstanceView {
        CertificateProviderInstanceView {
            instance_name: self.instance_name@,
        }
    }
}

/// How the certificate of a server is checked.
#[derive(Debug)]
pub struct CombinedCertificateValidationContext {
    pub validation_context_certificate_provider_instance: Option<CertificateProviderInstance>,
}

/// What this message stands for.
pub struct CombinedCertificateValidationContextView {
    pub validation_context_certificate_provider_instance: Option<CertificateProviderInstanceView>,
}

impl DeepView for CombinedCertificateValidationContext {
    type V = CombinedCertificateValidationContextView;

    open spec fn deep_view(&self) -> CombinedCertificateValidationContextView {
        CombinedCertificateValidationContextView {
            validation_context_certificate_provider_instance: self.validation_context_certificate_provider_instance.deep_view(),
        }
    }
}

/// An endpoint resource.
#[derive(Debug)]
pub struct ClusterLoadAssignment {
    pub cluster_name: String,
    pub endpoints: Vec<LocalityLbEndpoints>,
}

/// What this message stands for.
pub struct ClusterLoadAssignmentView {
    pub cluster_name: Seq<char>,
    pub endpoints: Seq<LocalityLbEndpointsView>,
}

impl DeepView for ClusterLoadAssignment {
    type V = ClusterLoadAssignmentView;

    open spec fn deep_view(&self) -> ClusterLoadAssignmentView {
        ClusterLoadAssignmentView {
            cluster_name: self.cluster_name@,
            endpoints: self.endpoints.deep_view(),
        }
    }
}

/// The endpoints of one locality.
#[derive(Debug)]
pub struct LocalityLbEndpoints {
    pub lb_endpoints: Vec<LbEndpoint>,
}

/// What this message stands for.
pub struct LocalityLbEndpointsView {
    pub lb_endpoints: Seq<LbEndpointView>,
}

impl DeepView for LocalityLbEndpoints {
    type V = LocalityLbEndpointsView;

    open spec fn deep_view(&self) -> LocalityLbEndpointsView {
        LocalityLbEndpointsView {
            lb_endpoints: self.lb_endpoints.deep_view(),
        }
    }
}

/// An endpoint with its health. No health is held where the message gives a number without a meaning.
#[derive(Debug)]
pub struct LbEndpoint {
    pub host_identifier: Option<Endpoint>,
    pub health_status: Option<HealthStatus>,
}

/// What this message stands for.
pub struct LbEndpointView {
    pub host_identifier: Option<EndpointView>,
    pub health_status: Option<HealthStatus>,
}

impl DeepView for LbEndpoint {
    type V = LbEndpointView;

    open spec fn deep_view(&self) -> LbEndpointView {
        LbEndpointView {
            host_identifier: self.host_identifier.deep_view(),
            health_status: self.health_status,
        }
    }
}

/// The address of an endpoint.
#[derive(Debug)]
pub struct Endpoint {
    pub address: Option<Address>,
}

/// What this message stands for.
pub struct EndpointView {
    pub address: Option<AddressView>,
}

impl DeepView for Endpoint {
    type V = EndpointView;

    open spec fn deep_view(&self) -> EndpointView {
        EndpointView {
            address: self.address.deep_view(),
        }
    }
}

/// The health of an endpoint.
#[derive(Debug, Clone, Copy, PartialEq, Eq, Structural)]
pub enum HealthStatus {
    Unknown,
    Healthy,
    Unhealthy,
    Draining,
    Timeout,
    Degraded,
}

/// The resources of a response, decoded as its type says. Those of a type that
/// the gateway does not know are not decoded.
#[derive(Debug)]
pub enum Resources {
    Listeners(Vec<Any<Listener>>),
    Routes(Vec<Any<RouteConfiguration>>),
    Clusters(Vec<Any<Cluster>>),
    Assignments(Vec<Any<ClusterLoadAssignment>>),
    Unknown,
}

/// What the resources of a response stand for.
pub enum ResourcesView {
    Listeners(Seq<AnyView<ListenerView>>),
    Routes(Seq<AnyView<RouteConfigurationView>>),
    Clusters(Seq<AnyView<ClusterView>>),
    Assignments(Seq<AnyView<ClusterLoadAssignmentView>>),
    Unknown,
}

impl DeepView for Resources {
    type V = ResourcesView;

    open spec fn deep_view(&self) -> ResourcesView {
        match self {
            Resources::Listeners(items) => ResourcesView::Listeners(items.deep_view()),
            Resources::Routes(items) => ResourcesView::Routes(items.deep_view()),
            Resources::Clusters(items) => ResourcesView::Clusters(items.deep_view()),
            Resources::Assignments(items) => ResourcesView::Assignments(items.deep_view()),
            Resources::Unknown => ResourcesView::Unknown,
        }
    }
}

/// A response of the control plane.
#[derive(Debug)]
pub struct DiscoveryResponse {
    pub version_info: String,
    pub resources: Resources,
    pub type_url: String,
    pub nonce: String,
}

/// What this message stands for.
pub struct DiscoveryResponseView {
    pub version_info: Seq<char>,
    pub resources: ResourcesView,
    pub type_url: Seq<char>,
    pub nonce: Seq<char>,
}

impl DeepView for DiscoveryResponse {
    type V = DiscoveryResponseView;

    open spec fn deep_view(&self) -> DiscoveryResponseView {
        DiscoveryResponseView {
            version_info: self.version_info@,
            resources: self.resources.deep_view(),
            type_url: self.type_url@,
            nonce: self.nonce@,
        }
    }
}

} // verus!
