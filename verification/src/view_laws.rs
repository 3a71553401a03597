//! What holds of the values that the library takes and gives, and of what they
//! stand for.

use crate::address::{IpAddr, IpAddrView, SocketAddr};
use crate::ads::DiscoveryUpdates;
use crate::client::{DiscoveryRequest, Node, Progress, XdsClientConfig};
use crate::config::{
    Cluster, Endpoint, HeaderMatch, Listener, PathMatch, PathMatchView, Route, RouteMatch,
    RuntimeConfig, TlsSecret, UpstreamTls, VirtualHost, WeightedCluster,
};
use crate::error::{
    ConfigConflict, DxgateError, DxgateErrorView, XdsError, XdsErrorView,
};
use crate::forward::{Cause, CauseView, Failure, Upstream};
use crate::identity::{RouterIdentity, RouterMetadata};
use crate::mtls::{Dispatch, DispatchView, FileWatcherConfig, TlsFiles};
use crate::pem::{pem_view, FileRead, FileReadView};
use crate::proto;
use crate::routing::MatchInput;
use crate::snapshots::{ClusterSnapshot, ListenerSnapshot};
use crate::state::Readiness;
use vstd::prelude::*;

verus! {

/// The parts of a configuration stand for all that they hold: configurations are
/// the same only where all of their parts are.
pub proof fn law_config_tells_all_its_parts(
    config: RuntimeConfig,
    listener: Listener,
    bind: SocketAddr,
    host: VirtualHost,
    route: Route,
    condition: RouteMatch,
    header: HeaderMatch,
    destination: WeightedCluster,
    cluster: Cluster,
    tls: UpstreamTls,
    endpoint: Endpoint,
    secret: TlsSecret,
    conflict: ConfigConflict,
)
    ensures
        config.deep_view().version == config.version@,
        config.deep_view().listeners == config.listeners.deep_view(),
        config.deep_view().clusters == config.clusters.deep_view(),
        config.deep_view().secrets == config.secrets.deep_view(),
        listener.deep_view().name == listener.name@,
        listener.deep_view().bind == listener.bind.deep_view(),
        listener.deep_view().protocol == listener.protocol,
        listener.deep_view().virtual_hosts == listener.virtual_hosts.deep_view(),
        listener.deep_view().tls_secret == listener.tls_secret.deep_view(),
        bind.deep_view().ip == bind.ip.deep_view(),
        bind.deep_view().port == bind.port,
        host.deep_view().name == host.name@,
        host.deep_view().domains == host.domains.deep_view(),
        host.deep_view().routes == host.routes.deep_view(),
        route.deep_view().name == route.name@,
        route.deep_view().matches == route.matches.deep_view(),
        route.deep_view().weighted_clusters == route.weighted_clusters.deep_view(),
        condition.deep_view().path == condition.path.deep_view(),
        condition.deep_view().headers == condition.headers.deep_view(),
        header.deep_view().name == header.name@,
        header.deep_view().value == header.value@,
        destination.deep_view().name == destination.name@,
        destination.deep_view().weight == destination.weight,
        cluster.deep_view().name == cluster.name@,
        cluster.deep_view().endpoints == cluster.endpoints.deep_view(),
        cluster.deep_view().tls == cluster.tls.deep_view(),
        tls.deep_view().sni == tls.sni.deep_view(),
        tls.deep_view().certificate_provider == tls.certificate_provider.deep_view(),
        tls.deep_view().validation_provider == tls.validation_provider.deep_view(),
        tls.deep_view().alpn_protocols == tls.alpn_protocols.deep_view(),
        endpoint.deep_view().address == endpoint.address@,
        endpoint.deep_view().port == endpoint.port,
        endpoint.deep_view().healthy == endpoint.healthy,
        endpoint.deep_view().node_name == endpoint.node_name.deep_view(),
        secret.deep_view().name == secret.name@,
        secret.deep_view().certificate_chain_pem == secret.certificate_chain_pem@,
        secret.deep_view().private_key_pem == secret.private_key_pem@,
        conflict.deep_view().kind == conflict.kind@,
        conflict.deep_view().message == conflict.message@,
{
}

/// Addresses and path conditions stand for what they are made of.
pub proof fn law_addresses_and_paths_tell_their_kind(
    a: u8,
    b: u8,
    c: u8,
    d: u8,
    segments: [u16; 8],
    flowinfo: u32,
    scope_id: u32,
    text: String,
)
    ensures
        IpAddr::V4(a, b, c, d).deep_view() == IpAddrView::V4(a, b, c, d),
        (IpAddr::V6 { segments, flowinfo, scope_id }).deep_view() == (IpAddrView::V6 {
            segments: segments@,
            flowinfo,
            scope_id,
        }),
        PathMatch::Prefix(text).deep_view() == PathMatchView::Prefix(text@),
        PathMatch::Exact(text).deep_view() == PathMatchView::Exact(text@),
{
}

/// Requests, answers and what is kept between them stand for all that they hold.
pub proof fn law_requests_and_answers_tell_all_their_parts(
    input: MatchInput<'_>,
    upstream: Upstream,
    failure: Failure,
    readiness: Readiness,
    listener: ListenerSnapshot,
    cluster: ClusterSnapshot,
    updates: DiscoveryUpdates,
    client: XdsClientConfig,
    node: Node,
    request: DiscoveryRequest,
    progress: Progress,
    identity: RouterIdentity,
    metadata: RouterMetadata,
    watcher: FileWatcherConfig,
    files: TlsFiles,
)
    ensures
        input.deep_view().host == input.host@,
        input.deep_view().path == input.path@,
        input.deep_view().headers == input.headers.deep_view(),
        upstream.deep_view().cluster == upstream.cluster@,
        upstream.deep_view().endpoint == upstream.endpoint.deep_view(),
        upstream.deep_view().tls == upstream.tls.deep_view(),
        upstream.deep_view().uri == upstream.uri@,
        failure.deep_view().status == failure.status,
        failure.deep_view().cause == failure.cause.deep_view(),
        readiness.deep_view().ready == readiness.ready,
        readiness.deep_view().version == readiness.version@,
        readiness.deep_view().conflicts == readiness.conflicts.deep_view(),
        listener.deep_view().listener == listener.listener.deep_view(),
        listener.deep_view().route_names == listener.route_names.deep_view(),
        listener.deep_view().inline_virtual_hosts == listener.inline_virtual_hosts.deep_view(),
        cluster.deep_view().name == cluster.name@,
        cluster.deep_view().eds_service_name == cluster.eds_service_name@,
        cluster.deep_view().tls == cluster.tls.deep_view(),
        updates.deep_view().route_names == updates.route_names.deep_view(),
        updates.deep_view().cluster_names == updates.cluster_names.deep_view(),
        updates.deep_view().eds_names == updates.eds_names.deep_view(),
        client.deep_view().endpoint == client.endpoint@,
        client.deep_view().identity == client.identity.deep_view(),
        client.deep_view().listener_names == client.listener_names.deep_view(),
        client.deep_view().reconnect_delay == client.reconnect_delay,
        node.deep_view().id == node.id@,
        node.deep_view().cluster == node.cluster@,
        node.deep_view().metadata == node.metadata.deep_view(),
        request.deep_view().version_info == request.version_info@,
        request.deep_view().node == request.node.deep_view(),
        request.deep_view().resource_names == request.resource_names.deep_view(),
        request.deep_view().type_url == request.type_url@,
        request.deep_view().response_nonce == request.response_nonce@,
        progress.deep_view().requests == progress.requests.deep_view(),
        progress.deep_view().config == progress.config.deep_view(),
        identity.deep_view().pod_name == identity.pod_name@,
        identity.deep_view().namespace == identity.namespace@,
        identity.deep_view().pod_ip == identity.pod_ip@,
        identity.deep_view().node_name == identity.node_name.deep_view(),
        identity.deep_view().cluster_id == identity.cluster_id@,
        identity.deep_view().dns_domain == identity.dns_domain@,
        metadata.deep_view().generator == metadata.generator@,
        metadata.deep_view().cluster_id == metadata.cluster_id@,
        metadata.deep_view().namespace == metadata.namespace@,
        metadata.deep_view().node_name == metadata.node_name.deep_view(),
        watcher.deep_view().certificate_file == watcher.certificate_file.deep_view(),
        watcher.deep_view().private_key_file == watcher.private_key_file.deep_view(),
        watcher.deep_view().ca_certificate_file == watcher.ca_certificate_file.deep_view(),
        files.deep_view().certificate_file == files.certificate_file@,
        files.deep_view().private_key_file == files.private_key_file@,
        files.deep_view().ca_certificate_file == files.ca_certificate_file@,
{
}

/// Failures stand for what they tell.
pub proof fn law_failures_tell_their_kind(
    text: String,
    other: String,
    error: DxgateError,
    bytes: Vec<u8>,
    items: Vec<Vec<u8>>,
)
    ensures
        Cause::Gateway(error).deep_view() == CauseView::Gateway(error.deep_view()),
        Cause::Message(text).deep_view() == CauseView::Message(text@),
        (DxgateError::RouteNotFound { host: text, path: other }).deep_view() == (
        DxgateErrorView::RouteNotFound { host: text@, path: other@ }),
        DxgateError::NoHealthyEndpoints(text).deep_view() == DxgateErrorView::NoHealthyEndpoints(
            text@,
        ),
        (XdsError::InvalidEndpoint { endpoint: text, source: other }).deep_view() == (
        XdsErrorView::InvalidEndpoint { endpoint: text@, source: other@ }),
        (XdsError::Connect { endpoint: text, source: other }).deep_view() == (
        XdsErrorView::Connect { endpoint: text@, source: other@ }),
        XdsError::StreamOpen(text).deep_view() == XdsErrorView::StreamOpen(text@),
        XdsError::StreamReceive(text).deep_view() == XdsErrorView::StreamReceive(text@),
        XdsError::RequestChannelClosed.deep_view() == XdsErrorView::RequestChannelClosed,
        (XdsError::Decode { type_url: text, source: other }).deep_view() == (XdsErrorView::Decode {
            type_url: text@,
            source: other@,
        }),
        XdsError::RuntimeConfigClosed.deep_view() == XdsErrorView::RuntimeConfigClosed,
        FileRead::OpenFailed(text).deep_view() == FileReadView::OpenFailed(text@),
        FileRead::ReadFailed(text).deep_view() == FileReadView::ReadFailed(text@),
        FileRead::Contents(bytes).deep_view() == FileReadView::Contents(bytes@),
        pem_view(Ok(items)) == Ok::<Seq<Seq<u8>>, Seq<char>>(items.deep_view()),
        pem_view(Err(text)) == Err::<Seq<Seq<u8>>, Seq<char>>(text@),
{
}

/// A way to send a request on stands for the client or the files that it has.
pub proof fn law_dispatch_tells_its_client<C>(client: &C, files: TlsFiles)
    ensures
        Dispatch::<C>::Plain.model() == DispatchView::<C>::Plain,
        Dispatch::Reuse(client).model() == DispatchView::Reuse(*client),
        Dispatch::<C>::Build(files).model() == DispatchView::<C>::Build(files.deep_view()),
{
}

/// Messages of listeners and routes stand for all that they hold.
pub proof fn law_listener_messages_tell_all_their_parts(
    listener: proto::Listener,
    address: proto::Address,
    socket: proto::SocketAddress,
    own: proto::ApiListener,
    chain: proto::FilterChain,
    filter: proto::Filter,
    manager: proto::HttpConnectionManager,
    rds: proto::Rds,
    routes: proto::RouteConfiguration,
    host: proto::VirtualHost,
    route: proto::Route,
    action: proto::RouteAction,
    destination: proto::ClusterWeight,
    condition: proto::RouteMatch,
    header: proto::HeaderMatcher,
)
    ensures
        listener.deep_view().name == listener.name@,
        listener.deep_view().address == listener.address.deep_view(),
        listener.deep_view().api_listener == listener.api_listener.deep_view(),
        listener.deep_view().filter_chains == listener.filter_chains.deep_view(),
        address.deep_view().socket_address == address.socket_address.deep_view(),
        socket.deep_view().address == socket.address@,
        socket.deep_view().port_value == socket.port_value,
        own.deep_view().api_listener == own.api_listener.deep_view(),
        chain.deep_view().filters == chain.filters.deep_view(),
        filter.deep_view().name == filter.name@,
        filter.deep_view().typed_config == filter.typed_config.deep_view(),
        manager.deep_view().route_specifier == manager.route_specifier.deep_view(),
        rds.deep_view().route_config_name == rds.route_config_name@,
        routes.deep_view().name == routes.name@,
        routes.deep_view().virtual_hosts == routes.virtual_hosts.deep_view(),
        host.deep_view().name == host.name@,
        host.deep_view().domains == host.domains.deep_view(),
        host.deep_view().routes == host.routes.deep_view(),
        route.deep_view().name == route.name@,
        route.deep_view().route_match == route.route_match.deep_view(),
        route.deep_view().action == route.action.deep_view(),
        action.deep_view().cluster_specifier == action.cluster_specifier.deep_view(),
        destination.deep_view().name == destination.name@,
        destination.deep_view().weight == destination.weight,
        condition.deep_view().path_specifier == condition.path_specifier.deep_view(),
        condition.deep_view().headers == condition.headers.deep_view(),
        header.deep_view().name == header.name@,
        header.deep_view().header_match_specifier == header.header_match_specifier.deep_view(),
{
}

/// Messages of clusters and endpoints stand for all that they hold.
pub proof fn law_cluster_messages_tell_all_their_parts(
    cluster: proto::Cluster,
    eds: proto::EdsClusterConfig,
    socket: proto::TransportSocket,
    tls: proto::UpstreamTlsContext,
    common: proto::CommonTlsContext,
    instance: proto::CertificateProviderInstance,
    combined: proto::CombinedCertificateValidationContext,
    assignment: proto::ClusterLoadAssignment,
    locality: proto::LocalityLbEndpoints,
    lb: proto::LbEndpoint,
    endpoint: proto::Endpoint,
    response: proto::DiscoveryResponse,
)
    ensures
        cluster.deep_view().name == cluster.name@,
        cluster.deep_view().eds_cluster_config == cluster.eds_cluster_config.deep_view(),
        cluster.deep_view().load_assignment == cluster.load_assignment.deep_view(),
        cluster.deep_view().transport_socket == cluster.transport_socket.deep_view(),
        eds.deep_view().service_name == eds.service_name@,
        socket.deep_view().typed_config == socket.typed_config.deep_view(),
        tls.deep_view().sni == tls.sni@,
        tls.deep_view().common_tls_context == tls.common_tls_context.deep_view(),
        common.deep_view().tls_certificate_certificate_provider_instance
            == common.tls_certificate_certificate_provider_instance.deep_view(),
        common.deep_view().alpn_protocols == common.alpn_protocols.deep_view(),
        common.deep_view().combined_validation_context
            == common.combined_validation_context.deep_view(),
        instance.deep_view().instance_name == instance.instance_name@,
        combined.deep_view().validation_context_certificate_provider_instance
            == combined.validation_context_certificate_provider_instance.deep_view(),
        assignment.deep_view().cluster_name == assignment.cluster_name@,
        assignment.deep_view().endpoints == assignment.endpoints.deep_view(),
        locality.deep_view().lb_endpoints == locality.lb_endpoints.deep_view(),
        lb.deep_view().host_identifier == lb.host_identifier.deep_view(),
        lb.deep_view().health_status == lb.health_status,
        endpoint.deep_view().address == endpoint.address.deep_view(),
        response.deep_view().version_info == response.version_info@,
        response.deep_view().resources == response.resources.deep_view(),
        response.deep_view().type_url == response.type_url@,
        response.deep_view().nonce == response.nonce@,
{
}

/// Choices within messages stand for what was chosen, and packed messages for
/// what they hold.
pub proof fn law_message_choices_tell_their_kind<T: DeepView>(
    text: String,
    rds: proto::Rds,
    routes: proto::RouteConfiguration,
    action: proto::RouteAction,
    weights: Vec<proto::ClusterWeight>,
    any: proto::Any<T>,
)
    ensures
        proto::RouteSpecifier::Rds(rds).deep_view() == proto::RouteSpecifierView::Rds(
            rds.deep_view(),
        ),
        proto::RouteSpecifier::RouteConfig(routes).deep_view()
            == proto::RouteSpecifierView::RouteConfig(routes.deep_view()),
        proto::Action::Route(action).deep_view() == proto::ActionView::Route(action.deep_view()),
        proto::Action::NonForwardingAction.deep_view() == proto::ActionView::NonForwardingAction,
        proto::ClusterSpecifier::Cluster(text).deep_view() == proto::ClusterSpecifierView::Cluster(
            text@,
        ),
        proto::ClusterSpecifier::WeightedClusters(weights).deep_view()
            == proto::ClusterSpecifierView::WeightedClusters(weights.deep_view()),
        proto::PathSpecifier::Prefix(text).deep_view() == proto::PathSpecifierView::Prefix(text@),
        proto::PathSpecifier::Path(text).deep_view() == proto::PathSpecifierView::Path(text@),
        proto::PathSpecifier::SafeRegex.deep_view() == proto::PathSpecifierView::SafeRegex,
        proto::HeaderMatchSpecifier::ExactMatch(text).deep_view()
            == proto::HeaderMatchSpecifierView::ExactMatch(text@),
        proto::HeaderMatchSpecifier::SafeRegexMatch.deep_view()
            == proto::HeaderMatchSpecifierView::SafeRegexMatch,
        any.deep_view().type_url == any.type_url@,
        any.value is Ok ==> any.deep_view().value == Ok::<T::V, Seq<char>>(
            any.value->Ok_0.deep_view(),
        ),
        any.value is Err ==> any.deep_view().value == Err::<T::V, Seq<char>>(any.value->Err_0@),
{
}

} // verus!
