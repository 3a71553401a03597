//! The runtime configuration: listeners with their routes, and clusters with
//! their endpoints.

use crate::address::{SocketAddr, SocketAddrView};
use crate::same::Same;
use vstd::prelude::*;
use vstd::string::*;

verus! {

pub const HTTP_LISTENER_PORT: u16 = 80;

pub const HTTPS_LISTENER_PORT: u16 = 443;

pub const ADMIN_PORT: u16 = 15021;

/// A complete configuration of the proxy.
#[derive(Debug, PartialEq, Eq)]
pub struct RuntimeConfig {
    pub version: String,
    pub listeners: Vec<Listener>,
    pub clusters: Vec<Cluster>,
    pub secrets: Vec<TlsSecret>,
}

/// What a configuration stands for.
#[verifier::ext_equal]
pub struct RuntimeConfigView {
    pub version: Seq<char>,
    pub listeners: Seq<ListenerView>,
    pub clusters: Seq<ClusterView>,
    pub secrets: Seq<TlsSecretView>,
}

impl DeepView for RuntimeConfig {
    type V = RuntimeConfigView;

    open spec fn deep_view(&self) -> RuntimeConfigView {
        RuntimeConfigView {
            version: self.version@,
            listeners: self.listeners.deep_view(),
            clusters: self.clusters.deep_view(),
            secrets: self.secrets.deep_view(),
        }
    }
}

impl Clone for RuntimeConfig {
    fn clone(&self) -> (copy: Self)
        ensures
            copy.deep_view() == self.deep_view(),
    {
        let copy = RuntimeConfig {
            version: self.version.clone(),
            listeners: self.listeners.clone(),
            clusters: self.clusters.clone(),
            secrets: self.secrets.clone(),
        };
        assert(copy.listeners.deep_view() =~= self.listeners.deep_view());
        assert(copy.clusters.deep_view() =~= self.clusters.deep_view());
        assert(copy.secrets.deep_view() =~= self.secrets.deep_view());
        copy
    }
}

impl Same for RuntimeConfig {
    fn same_as(&self, other: &Self) -> (same: bool) {
        self.version.same_as(&other.version) && self.listeners.same_as(&other.listeners)
            && self.clusters.same_as(&other.clusters) && self.secrets.same_as(&other.secrets)
    }
}

impl RuntimeConfig {
    /// A configuration with a version and nothing else.
    pub fn empty(version: &str) -> (config: Self)
        ensures
            config.deep_view() == (RuntimeConfigView {
                version: version@,
                listeners: Seq::<ListenerView>::empty(),
                clusters: Seq::<ClusterView>::empty(),
                secrets: Seq::<TlsSecretView>::empty(),
            }),
    {
        let config = RuntimeConfig {
            version: version.to_owned(),
            listeners: Vec::new(),
            clusters: Vec::new(),
            secrets: Vec::new(),
        };
        assert(config.listeners.deep_view() =~= Seq::<ListenerView>::empty());
        assert(config.clusters.deep_view() =~= Seq::<ClusterView>::empty());
        assert(config.secrets.deep_view() =~= Seq::<TlsSecretView>::empty());
        config
    }
}

/// What is served on one address.
#[derive(Debug, PartialEq, Eq)]
pub struct Listener {
    pub name: String,
    pub bind: SocketAddr,
    pub protocol: ListenerProtocol,
    pub virtual_hosts: Vec<VirtualHost>,
    pub tls_secret: Option<String>,
}

/// What a listener stands for.
#[verifier::ext_equal]
pub struct ListenerView {
    pub name: Seq<char>,
    pub bind: SocketAddrView,
    pub protocol: ListenerProtocol,
    pub virtual_hosts: Seq<VirtualHostView>,
    pub tls_secret: Option<Seq<char>>,
}

impl DeepView for Listener {
    type V = ListenerView;

    open spec fn deep_view(&self) -> ListenerView {
        ListenerView {
            name: self.name@,
            bind: self.bind.deep_view(),
            protocol: self.protocol,
            virtual_hosts: self.virtual_hosts.deep_view(),
            tls_secret: self.tls_secret.deep_view(),
        }
    }
}

impl Clone for Listener {
    fn clone(&self) -> (copy: Self)
        ensures
            copy.deep_view() == self.deep_view(),
    {
        let copy = Listener {
            name: self.name.clone(),
            bind: self.bind.clone(),
            protocol: self.protocol,
            virtual_hosts: self.virtual_hosts.clone(),
            tls_secret: self.tls_secret.clone(),
        };
        assert(copy.virtual_hosts.deep_view() =~= self.virtual_hosts.deep_view());
        copy
    }
}

impl Same for Listener {
    fn same_as(&self, other: &Self) -> (same: bool) {
        self.name.same_as(&other.name) && self.bind.same_as(&other.bind) && self.protocol
            == other.protocol && self.virtual_hosts.same_as(&other.virtual_hosts)
            && self.tls_secret.same_as(&other.tls_secret)
    }
}

/// Whether a listener speaks HTTP in the clear or over TLS.
#[derive(Debug, Clone, Copy, PartialEq, Eq, Structural)]
pub enum ListenerProtocol {
    Http,
    Https,
}

/// The routes of a group of host names.
#[derive(Debug, PartialEq, Eq)]
pub struct VirtualHost {
    pub name: String,
    pub domains: Vec<String>,
    pub routes: Vec<Route>,
}

/// What a virtual host stands for.
#[verifier::ext_equal]
pub struct VirtualHostView {
    pub name: Seq<char>,
    pub domains: Seq<Seq<char>>,
    pub routes: Seq<RouteView>,
}

impl DeepView for VirtualHost {
    type V = VirtualHostView;

    open spec fn deep_view(&self) -> VirtualHostView {
        VirtualHostView {
            name: self.name@,
            domains: self.domains.deep_view(),
            routes: self.routes.deep_view(),
        }
    }
}

impl Clone for VirtualHost {
    fn clone(&self) -> (copy: Self)
        ensures
            copy.deep_view() == self.deep_view(),
    {
        let copy = VirtualHost {
            name: self.name.clone(),
            domains: self.domains.clone(),
            routes: self.routes.clone(),
        };
        assert(copy.domains.deep_view() =~= self.domains.deep_view());
        assert(copy.routes.deep_view() =~= self.routes.deep_view());
        copy
    }
}

impl Same for VirtualHost {
    fn same_as(&self, other: &Self) -> (same: bool) {
        self.name.same_as(&other.name) && self.domains.same_as(&other.domains)
            && self.routes.same_as(&other.routes)
    }
}

/// Where the requests that meet one of some conditions go.
#[derive(Debug, PartialEq, Eq)]
pub struct Route {
    pub name: String,
    pub matches: Vec<RouteMatch>,
    pub weighted_clusters: Vec<WeightedCluster>,
}

/// What a route stands for.
#[verifier::ext_equal]
pub struct RouteView {
    pub name: Seq<char>,
    pub matches: Seq<RouteMatchView>,
    pub weighted_clusters: Seq<WeightedClusterView>,
}

impl DeepView for Route {
    type V = RouteView;

    open spec fn deep_view(&self) -> RouteView {
        RouteView {
            name: self.name@,
            matches: self.matches.deep_view(),
            weighted_clusters: self.weighted_clusters.deep_view(),
        }
    }
}

impl Clone for Route {
    fn clone(&self) -> (copy: Self)
        ensures
            copy.deep_view() == self.deep_view(),
    {
        let copy = Route {
            name: self.name.clone(),
            matches: self.matches.clone(),
            weighted_clusters: self.weighted_clusters.clone(),
        };
        assert(copy.matches.deep_view() =~= self.matches.deep_view());
        assert(copy.weighted_clusters.deep_view() =~= self.weighted_clusters.deep_view());
        copy
    }
}

impl Same for Route {
    fn same_as(&self, other: &Self) -> (same: bool) {
        self.name.same_as(&other.name) && self.matches.same_as(&other.matches)
            && self.weighted_clusters.same_as(&other.weighted_clusters)
    }
}

/// A condition on the path and the headers of a request.
#[derive(Debug, PartialEq, Eq)]
pub struct RouteMatch {
    pub path: PathMatch,
    pub headers: Vec<HeaderMatch>,
}

/// What a condition stands for.
#[verifier::ext_equal]
pub struct RouteMatchView {
    pub path: PathMatchView,
    pub headers: Seq<HeaderMatchView>,
}

impl DeepView for RouteMatch {
    type V = RouteMatchView;

    open spec fn deep_view(&self) -> RouteMatchView {
        RouteMatchView { path: self.path.deep_view(), headers: self.headers.deep_view() }
    }
}

impl Clone for RouteMatch {
    fn clone(&self) -> (copy: Self)
        ensures
            copy.deep_view() == self.deep_view(),
    {
        let copy = RouteMatch { path: self.path.clone(), headers: self.headers.clone() };
        assert(copy.headers.deep_view() =~= self.headers.deep_view());
        copy
    }
}

impl Same for RouteMatch {
    fn same_as(&self, other: &Self) -> (same: bool) {
        self.path.same_as(&other.path) && self.headers.same_as(&other.headers)
    }
}

/// A condition on a path.
#[derive(Debug, PartialEq, Eq)]
pub enum PathMatch {
    Prefix(String),
    Exact(String),
}

/// What a condition on a path stands for.
pub enum PathMatchView {
    Prefix(Seq<char>),
    Exact(Seq<char>),
}

impl DeepView for PathMatch {
    type V = PathMatchView;

    open spec fn deep_view(&self) -> PathMatchView {
        match self {
            PathMatch::Prefix(prefix) => PathMatchView::Prefix(prefix@),
            PathMatch::Exact(exact) => PathMatchView::Exact(exact@),
        }
    }
}

impl Clone for PathMatch {
    fn clone(&self) -> (copy: Self)
        ensures
            copy.deep_view() == self.deep_view(),
    {
        match self {
            PathMatch::Prefix(prefix) => PathMatch::Prefix(prefix.clone()),
            PathMatch::Exact(exact) => PathMatch::Exact(exact.clone()),
        }
    }
}

impl Same for PathMatch {
    fn same_as(&self, other: &Self) -> (same: bool) {
        match (self, other) {
            (PathMatch::Prefix(a), PathMatch::Prefix(b)) => a.same_as(b),
            (PathMatch::Exact(a), PathMatch::Exact(b)) => a.same_as(b),
            _ => false,
        }
    }
}

impl Default for PathMatch {
    fn default() -> (path: Self)
        ensures
            path.deep_view() == PathMatchView::Prefix("/"@),
    {
        PathMatch::Prefix("/".to_owned())
    }
}

/// A header that a request must have.
#[derive(Debug, PartialEq, Eq)]
pub struct HeaderMatch {
    pub name: String,
    pub value: String,
}

/// What a header condition stands for.
pub struct HeaderMatchView {
    pub name: Seq<char>,
    pub value: Seq<char>,
}

impl DeepView for HeaderMatch {
    type V = HeaderMatchView;

    open spec fn deep_view(&self) -> HeaderMatchView {
        HeaderMatchView { name: self.name@, value: self.value@ }
    }
}

impl Clone for HeaderMatch {
    fn clone(&self) -> (copy: Self)
        ensures
            copy.deep_view() == self.deep_view(),
    {
        HeaderMatch { name: self.name.clone(), value: self.value.clone() }
    }
}

impl Same for HeaderMatch {
    fn same_as(&self, other: &Self) -> (same: bool) {
        self.name.same_as(&other.name) && self.value.same_as(&other.value)
    }
}

/// A destination and its share of the requests.
#[derive(Debug, PartialEq, Eq)]
pub struct WeightedCluster {
    pub name: String,
    pub weight: u32,
}

/// What a weighted destination stands for.
pub struct WeightedClusterView {
    pub name: Seq<char>,
    pub weight: u32,
}

impl DeepView for WeightedCluster {
    type V = WeightedClusterView;

    open spec fn deep_view(&self) -> WeightedClusterView {
        WeightedClusterView { name: self.name@, weight: self.weight }
    }
}

impl Clone for WeightedCluster {
    fn clone(&self) -> (copy: Self)
        ensures
            copy.deep_view() == self.deep_view(),
    {
        WeightedCluster { name: self.name.clone(), weight: self.weight }
    }
}

impl Same for WeightedCluster {
    fn same_as(&self, other: &Self) -> (same: bool) {
        self.name.same_as(&other.name) && self.weight == other.weight
    }
}

/// A named group of endpoints.
#[derive(Debug, PartialEq, Eq)]
pub struct Cluster {
    pub name: String,
    pub endpoints: Vec<Endpoint>,
    pub tls: Option<UpstreamTls>,
}

/// What a cluster stands for.
#[verifier::ext_equal]
pub struct ClusterView {
    pub name: Seq<char>,
    pub endpoints: Seq<EndpointView>,
    pub tls: Option<UpstreamTlsView>,
}

impl DeepView for Cluster {
    type V = ClusterView;

    open spec fn deep_view(&self) -> ClusterView {
        ClusterView {
            name: self.name@,
            endpoints: self.endpoints.deep_view(),
            tls: self.tls.deep_view(),
        }
    }
}

impl Clone for Cluster {
    fn clone(&self) -> (copy: Self)
        ensures
            copy.deep_view() == self.deep_view(),
    {
        let copy = Cluster {
            name: self.name.clone(),
            endpoints: self.endpoints.clone(),
            tls: self.tls.clone(),
        };
        assert(copy.endpoints.deep_view() =~= self.endpoints.deep_view());
        copy
    }
}

impl Same for Cluster {
    fn same_as(&self, other: &Self) -> (same: bool) {
        self.name.same_as(&other.name) && self.endpoints.same_as(&other.endpoints)
            && self.tls.same_as(&other.tls)
    }
}

/// How connections to a cluster are secured.
#[derive(Debug, PartialEq, Eq)]
pub struct UpstreamTls {
    pub sni: Option<String>,
    pub certificate_provider: Option<String>,
    pub validation_provider: Option<String>,
    pub alpn_protocols: Vec<String>,
}

/// What the TLS settings of a cluster stand for.
#[verifier::ext_equal]
pub struct UpstreamTlsView {
    pub sni: Option<Seq<char>>,
    pub certificate_provider: Option<Seq<char>>,
    pub validation_provider: Option<Seq<char>>,
    pub alpn_protocols: Seq<Seq<char>>,
}

impl DeepView for UpstreamTls {
    type V = UpstreamTlsView;

    open spec fn deep_view(&self) -> UpstreamTlsView {
        UpstreamTlsView {
            sni: self.sni.deep_view(),
            certificate_provider: self.certificate_provider.deep_view(),
            validation_provider: self.validation_provider.deep_view(),
            alpn_protocols: self.alpn_protocols.deep_view(),
        }
    }
}

impl Clone for UpstreamTls {
    fn clone(&self) -> (copy: Self)
        ensures
            copy.deep_view() == self.deep_view(),
    {
        let copy = UpstreamTls {
            sni: self.sni.clone(),
            certificate_provider: self.certificate_provider.clone(),
            validation_provider: self.validation_provider.clone(),
            alpn_protocols: self.alpn_protocols.clone(),
        };
        assert(copy.alpn_protocols.deep_view() =~= self.alpn_protocols.deep_view());
        copy
    }
}

impl Same for UpstreamTls {
    fn same_as(&self, other: &Self) -> (same: bool) {
        self.sni.same_as(&other.sni) && self.certificate_provider.same_as(
            &other.certificate_provider,
        ) && self.validation_provider.same_as(&other.validation_provider)
            && self.alpn_protocols.same_as(&other.alpn_protocols)
    }
}

/// One address that serves a cluster.
#[derive(Debug, PartialEq, Eq)]
pub struct Endpoint {
    pub address: String,
    pub port: u16,
    pub healthy: bool,
    pub node_name: Option<String>,
}

/// What an endpoint stands for.
pub struct EndpointView {
    pub address: Seq<char>,
    pub port: u16,
    pub healthy: bool,
    pub node_name: Option<Seq<char>>,
}

impl DeepView for Endpoint {
    type V = EndpointView;

    open spec fn deep_view(&self) -> EndpointView {
        EndpointView {
            address: self.address@,
            port: self.port,
            healthy: self.healthy,
            node_name: self.node_name.deep_view(),
        }
    }
}

impl Clone for Endpoint {
    fn clone(&self) -> (copy: Self)
        ensures
            copy.deep_view() == self.deep_view(),
    {
        Endpoint {
            address: self.address.clone(),
            port: self.port,
            healthy: self.healthy,
            node_name: self.node_name.clone(),
        }
    }
}

impl Same for Endpoint {
    fn same_as(&self, other: &Self) -> (same: bool) {
        self.address.same_as(&other.address) && self.port == other.port && self.healthy
            == other.healthy && self.node_name.same_as(&other.node_name)
    }
}

/// The health of an endpoint of which nothing is said.
pub fn default_true() -> (healthy: bool)
    ensures
        healthy,
{
    true
}

/// A certificate chain with its private key.
#[derive(Debug, PartialEq, Eq)]
pub struct TlsSecret {
    pub name: String,
    pub certificate_chain_pem: String,
    pub private_key_pem: String,
}

/// What a secret stands for.
pub struct TlsSecretView {
    pub name: Seq<char>,
    pub certificate_chain_pem: Seq<char>,
    pub private_key_pem: Seq<char>,
}

impl DeepView for TlsSecret {
    type V = TlsSecretView;

    open spec fn deep_view(&self) -> TlsSecretView {
        TlsSecretView {
            name: self.name@,
            certificate_chain_pem: self.certificate_chain_pem@,
            private_key_pem: self.private_key_pem@,
        }
    }
}

impl Clone for TlsSecret {
    fn clone(&self) -> (copy: Self)
        ensures
            copy.deep_view() == self.deep_view(),
    {
        TlsSecret {
            name: self.name.clone(),
            certificate_chain_pem: self.certificate_chain_pem.clone(),
            private_key_pem: self.private_key_pem.clone(),
        }
    }
}

impl Same for TlsSecret {
    fn same_as(&self, other: &Self) -> (same: bool) {
        self.name.same_as(&other.name) && self.certificate_chain_pem.same_as(
            &other.certificate_chain_pem,
        ) && self.private_key_pem.same_as(&other.private_key_pem)
    }
}

} // verus!
