//! What holds of what is kept of listener and cluster messages.

use crate::address::IpAddrView;
use crate::ads::{cluster_kept, endpoint_name};
use crate::ads_laws::lemma_finite_ascending;
use crate::config::ListenerProtocol;
use crate::convert::{converted_host, port_of_listener};
use crate::error::XdsErrorView;
use crate::lists::{lemma_filter_map_holds, lemma_filter_map_push, lemma_flat_map_push};
use crate::names::precedes;
use crate::proto;
use crate::snapshots::{
    all_decoded, authority_of, certificate_provider_of, decoded, inline_hosts, instance_of,
    is_connection_manager, listener_kept, manager_of_filter, managers_of_chain, own_manager,
    packed_managers, referred_route, tls_of_cluster, validation_provider_of, value_or,
};
use crate::text_laws::{
    law_occurrence_means_surroundings, law_parts_make_up_the_text, law_separator_divides,
};
use vstd::prelude::*;

verus! {

/// A well-formed message is what it holds. A malformed one is a failure that
/// tells the type and why.
pub proof fn law_malformed_messages_fail<V>(type_url: Seq<char>, resource: proto::AnyView<V>)
    ensures
        resource.value is Ok ==> decoded(type_url, resource) == Ok::<V, XdsErrorView>(
            resource.value->Ok_0,
        ),
        resource.value is Err ==> decoded(type_url, resource) == Err::<V, XdsErrorView>(
            XdsErrorView::Decode { type_url, source: resource.value->Err_0 },
        ),
{
}

/// Messages are all decoded exactly where none is malformed, and they keep their
/// order. Otherwise the first malformed one is the failure.
pub proof fn law_first_malformed_message_fails<V>(
    type_url: Seq<char>,
    packed: Seq<proto::AnyView<V>>,
    at: int,
)
    requires
        0 <= at <= packed.len(),
        forall|k: int| 0 <= k < at ==> (#[trigger] packed[k]).value is Ok,
        at < packed.len() ==> packed[at].value is Err,
    ensures
        at < packed.len() ==> all_decoded(type_url, packed) == Err::<Seq<V>, XdsErrorView>(
            XdsErrorView::Decode { type_url, source: packed[at].value->Err_0 },
        ),
        at == packed.len() ==> {
            &&& all_decoded(type_url, packed) is Ok
            &&& all_decoded(type_url, packed)->Ok_0.len() == packed.len()
            &&& forall|k: int|
                0 <= k < packed.len() ==> (#[trigger] packed[k]).value->Ok_0 == all_decoded(
                    type_url,
                    packed,
                )->Ok_0[k]
        },
    decreases packed.len(),
{
    if packed.len() > 0 {
        let fewer = packed.drop_last();
        let n = fewer.len() as int;
        assert forall|k: int| 0 <= k < n implies #[trigger] fewer[k] == packed[k] by {}
        if at < n {
            law_first_malformed_message_fails(type_url, fewer, at);
        } else {
            law_first_malformed_message_fails(type_url, fewer, n);
            if at == packed.len() {
                let before = all_decoded(type_url, fewer)->Ok_0;
                let all = all_decoded(type_url, packed)->Ok_0;
                assert(packed[n].value is Ok);
                assert(all == before.push(packed[n].value->Ok_0));
                assert forall|k: int| 0 <= k < packed.len() implies (
                #[trigger] packed[k]).value->Ok_0 == all[k] by {
                    if k < n {
                        assert(fewer[k].value->Ok_0 == before[k]);
                    }
                }
            }
        }
    }
}

/// A filter is a connection manager exactly where its name holds
/// `http_connection_manager`, or its type ends as that of a connection manager.
pub proof fn law_connection_managers_are_known_by_name_or_type(
    name: Seq<char>,
    type_url: Seq<char>,
)
    ensures
        is_connection_manager(name, type_url) <==> (exists|before: Seq<char>, after: Seq<char>|
            name == #[trigger] (before + "http_connection_manager"@ + after)) || (exists|
            before: Seq<char>,
        |
            type_url == #[trigger] (before
                + "extensions.filters.network.http_connection_manager.v1.HttpConnectionManager"@)),
{
    let ending =
        "extensions.filters.network.http_connection_manager.v1.HttpConnectionManager"@;
    law_occurrence_means_surroundings("http_connection_manager"@, name);
    if ending.is_suffix_of(type_url) {
        assert(type_url =~= type_url.take(type_url.len() - ending.len()) + ending);
    }
    if exists|before: Seq<char>| type_url == #[trigger] (before + ending) {
        let before = choose|before: Seq<char>| type_url == #[trigger] (before + ending);
        assert(type_url.subrange(before.len() as int, type_url.len() as int) =~= ending);
    }
}

/// The connection managers of a listener are the one of the listener itself and
/// then those among the filters of its chains, in their order: a last filter
/// adds its settings where it is a connection manager and has settings.
pub proof fn law_connection_managers_come_in_order(
    listener: proto::ListenerView,
    filters: Seq<proto::FilterView>,
    filter: proto::FilterView,
)
    ensures
        listener.filter_chains.len() == 0 ==> packed_managers(listener) == if listener.api_listener
            is Some && listener.api_listener->0.api_listener is Some {
            seq![listener.api_listener->0.api_listener->0]
        } else {
            seq![]
        },
        ({
            let fewer = proto::ListenerView {
                filter_chains: listener.filter_chains.push(proto::FilterChainView { filters }),
                ..listener
            };
            let more = proto::ListenerView {
                filter_chains: listener.filter_chains.push(
                    proto::FilterChainView { filters: filters.push(filter) },
                ),
                ..listener
            };
            &&& filters.len() == 0 ==> packed_managers(fewer) == packed_managers(listener)
            &&& packed_managers(more) == if filter.typed_config is Some && is_connection_manager(
                filter.name,
                filter.typed_config->0.type_url,
            ) {
                packed_managers(fewer).push(filter.typed_config->0)
            } else {
                packed_managers(fewer)
            }
        }),
{
    let chains = listener.filter_chains;
    let short = proto::FilterChainView { filters };
    let long = proto::FilterChainView { filters: filters.push(filter) };
    lemma_flat_map_push(chains, short, managers_of_chain());
    lemma_flat_map_push(chains, long, managers_of_chain());
    lemma_filter_map_push(filters, filter, manager_of_filter());
    let own = own_manager(listener);
    let before = chains.flat_map(managers_of_chain());
    let kept = filters.filter_map(manager_of_filter());
    if chains.len() == 0 {
        assert(chains =~= Seq::<proto::FilterChainView>::empty());
        assert(own + before =~= own);
    }
    if filters.len() == 0 {
        assert(filters =~= Seq::<proto::FilterView>::empty());
        assert(own + (before + kept) =~= own + before);
    }
    if manager_of_filter()(filter) is Some {
        let any = filter.typed_config->0;
        assert(own + (before + kept.push(any)) =~= (own + (before + kept)).push(any));
    }
}

/// Whether a connection manager refers to a route resource by its name.
pub open spec fn refers_to(manager: proto::HttpConnectionManagerView, name: Seq<char>) -> bool {
    &&& manager.route_specifier is Some
    &&& manager.route_specifier->0 is Rds
    &&& manager.route_specifier->0->Rds_0.route_config_name == name
    &&& name.len() > 0
}

/// The virtual hosts that a connection manager brings along are those of its own
/// route configuration, each turned into one of the gateway.
pub proof fn law_managers_bring_their_hosts(manager: proto::HttpConnectionManagerView)
    ensures
        manager.route_specifier is None || manager.route_specifier->0 is Rds ==> inline_hosts()(
            manager,
        ).len() == 0,
        manager.route_specifier is Some && manager.route_specifier->0 is RouteConfig ==> {
            let hosts = manager.route_specifier->0->RouteConfig_0.virtual_hosts;
            &&& inline_hosts()(manager).len() == hosts.len()
            &&& forall|i: int|
                0 <= i < hosts.len() ==> inline_hosts()(manager)[i] == converted_host()(
                    #[trigger] hosts[i],
                )
        },
{
}

/// A listener is kept exactly where its connection managers are all well-formed.
/// It keeps its name, is on all addresses of its port, or of port 80 where none
/// is told, and speaks HTTPS on port 443 alone. It refers to the routes that its
/// managers name, in the order of the names, and has the virtual hosts that they
/// bring along, in the order of the managers.
pub proof fn law_listener_keeps_what_managers_say(
    listener: proto::ListenerView,
    managers: Seq<proto::HttpConnectionManagerView>,
)
    requires
        all_decoded(
            "type.googleapis.com/extensions.filters.network.http_connection_manager.v1.HttpConnectionManager"@,
            packed_managers(listener),
        ) == Ok::<Seq<proto::HttpConnectionManagerView>, XdsErrorView>(managers),
    ensures
        listener_kept(listener) is Ok,
        ({
            let kept = listener_kept(listener)->Ok_0;
            let port = port_of_listener(listener);
            &&& kept.listener.name == listener.name
            &&& kept.listener.bind.ip == IpAddrView::V4(0, 0, 0, 0)
            &&& kept.listener.bind.port == if port is Some {
                port->0
            } else {
                80
            }
            &&& kept.listener.protocol == ListenerProtocol::Https <==> kept.listener.bind.port == 443
            &&& kept.listener.protocol == ListenerProtocol::Http <==> kept.listener.bind.port != 443
            &&& kept.listener.virtual_hosts.len() == 0
            &&& kept.listener.tls_secret is None
            &&& kept.inline_virtual_hosts == managers.flat_map(inline_hosts())
            &&& forall|name: Seq<char>|
                #[trigger] kept.route_names.contains(name) <==> exists|i: int|
                    0 <= i < managers.len() && refers_to(#[trigger] managers[i], name)
            &&& forall|i: int, j: int|
                0 <= i < j < kept.route_names.len() ==> precedes(
                    #[trigger] kept.route_names[i],
                    #[trigger] kept.route_names[j],
                )
        }),
{
    let kept = listener_kept(listener)->Ok_0;
    let named = managers.filter_map(referred_route());
    vstd::seq_lib::seq_to_set_is_finite(named);
    lemma_finite_ascending(named.to_set());
    assert forall|name: Seq<char>| #[trigger] kept.route_names.contains(name) <==> exists|i: int|
        0 <= i < managers.len() && refers_to(#[trigger] managers[i], name) by {
        assert(kept.route_names.contains(name) <==> kept.route_names.to_set().contains(name));
        assert(named.to_set().contains(name) <==> named.contains(name));
        lemma_filter_map_holds(managers, referred_route(), name);
        assert forall|i: int| 0 <= i < managers.len() implies (referred_route()(
            #[trigger] managers[i],
        ) == Some(name) <==> refers_to(managers[i], name)) by {}
        if named.contains(name) {
            let i = choose|i: int|
                0 <= i < managers.len() && referred_route()(#[trigger] managers[i]) == Some(name);
            assert(refers_to(managers[i], name));
        }
        if exists|i: int| 0 <= i < managers.len() && refers_to(#[trigger] managers[i], name) {
            let i = choose|i: int| 0 <= i < managers.len() && refers_to(#[trigger] managers[i], name);
            assert(referred_route()(managers[i]) == Some(name));
        }
    }
}

/// A listener with a malformed connection manager is not kept, and the failure
/// is that of the manager.
pub proof fn law_listener_fails_with_its_managers(
    listener: proto::ListenerView,
    error: XdsErrorView,
)
    requires
        all_decoded(
            "type.googleapis.com/extensions.filters.network.http_connection_manager.v1.HttpConnectionManager"@,
            packed_managers(listener),
        ) == Err::<Seq<proto::HttpConnectionManagerView>, XdsErrorView>(error),
    ensures
        listener_kept(listener) is Err,
        listener_kept(listener)->Err_0 == error,
{
}

/// The virtual hosts of managers that grow by one are those of the others and
/// then its own.
pub proof fn law_hosts_follow_managers(
    managers: Seq<proto::HttpConnectionManagerView>,
    manager: proto::HttpConnectionManagerView,
)
    ensures
        Seq::<proto::HttpConnectionManagerView>::empty().flat_map(inline_hosts()).len() == 0,
        managers.push(manager).flat_map(inline_hosts()) == managers.flat_map(inline_hosts())
            + inline_hosts()(manager),
{
    lemma_flat_map_push(managers, manager, inline_hosts());
}

/// Empty provider names count as none.
pub proof fn law_providers_are_named(common: proto::CommonTlsContextView)
    ensures
        certificate_provider_of(common) is Some <==> {
            &&& common.tls_certificate_certificate_provider_instance is Some
            &&& common.tls_certificate_certificate_provider_instance->0.instance_name.len() > 0
        },
        certificate_provider_of(common) is Some ==> certificate_provider_of(common)->0
            == common.tls_certificate_certificate_provider_instance->0.instance_name,
        validation_provider_of(common) is Some <==> {
            &&& common.combined_validation_context is Some
            &&& common.combined_validation_context->0.validation_context_certificate_provider_instance
                is Some
            &&& common.combined_validation_context->0.validation_context_certificate_provider_instance->0.instance_name.len()
                > 0
        },
        validation_provider_of(common) is Some ==> validation_provider_of(common)->0
            == common.combined_validation_context->0.validation_context_certificate_provider_instance->0.instance_name,
        forall|instance: proto::CertificateProviderInstanceView|
            (#[trigger] instance_of(instance)) == if instance.instance_name.len() > 0 {
                Some(instance.instance_name)
            } else {
                None
            },
{
}

/// The authority of a cluster is what stands between the third and the fourth
/// bar of its name, or after the third where there is no fourth. There is none
/// where that is empty, or where the name has fewer bars.
pub proof fn law_authority_is_fourth_part(
    a: Seq<char>,
    b: Seq<char>,
    c: Seq<char>,
    d: Seq<char>,
    rest: Seq<char>,
)
    requires
        !a.contains('|'),
        !b.contains('|'),
        !c.contains('|'),
        !d.contains('|'),
    ensures
        authority_of(a) is None,
        authority_of(a + seq!['|'] + b) is None,
        authority_of(a + seq!['|'] + (b + seq!['|'] + c)) is None,
        authority_of(a + seq!['|'] + (b + seq!['|'] + (c + seq!['|'] + d))) == if d.len() > 0 {
            Some(d)
        } else {
            None
        },
        authority_of(a + seq!['|'] + (b + seq!['|'] + (c + seq!['|'] + (d + seq!['|'] + rest))))
            == if d.len() > 0 {
            Some(d)
        } else {
            None
        },
{
    law_separator_divides(a, b, '|');
    law_separator_divides(b, c, '|');
    law_separator_divides(a, b + seq!['|'] + c, '|');
    law_separator_divides(c, d, '|');
    law_separator_divides(b, c + seq!['|'] + d, '|');
    law_separator_divides(a, b + seq!['|'] + (c + seq!['|'] + d), '|');
    law_separator_divides(d, rest, '|');
    law_separator_divides(c, d + seq!['|'] + rest, '|');
    law_separator_divides(b, c + seq!['|'] + (d + seq!['|'] + rest), '|');
    law_separator_divides(a, b + seq!['|'] + (c + seq!['|'] + (d + seq!['|'] + rest)), '|');
    law_parts_make_up_the_text(rest, '|');
}

/// A value that is there is taken, otherwise the fallback.
pub proof fn law_fallback_is_for_empty_values(value: Seq<char>, fallback: Option<Seq<char>>)
    ensures
        value.len() > 0 ==> value_or(value, fallback) == Some(value),
        value.len() == 0 ==> value_or(value, fallback) == fallback,
{
}

/// Whether a cluster has a transport socket with well-formed TLS settings.
pub open spec fn has_tls_settings(
    cluster: proto::ClusterView,
    tls: proto::UpstreamTlsContextView,
) -> bool {
    &&& cluster.transport_socket is Some
    &&& cluster.transport_socket->0.typed_config is Some
    &&& cluster.transport_socket->0.typed_config->0.value is Ok
    &&& cluster.transport_socket->0.typed_config->0.value->Ok_0 == tls
    &&& exists|before: Seq<char>|
        cluster.transport_socket->0.typed_config->0.type_url == #[trigger] (before
            + "extensions.transport_sockets.tls.v1.UpstreamTlsContext"@)
}

/// A cluster has TLS exactly where its transport socket has TLS settings that
/// are well-formed. The server name is that of the settings or else the
/// authority of the cluster, and the providers and protocols are those of the
/// settings.
pub proof fn law_cluster_tls_is_that_of_its_socket(
    cluster: proto::ClusterView,
    tls: proto::UpstreamTlsContextView,
)
    ensures
        tls_of_cluster(cluster) is Some <==> exists|t: proto::UpstreamTlsContextView|
            #[trigger] has_tls_settings(cluster, t),
        has_tls_settings(cluster, tls) ==> {
            let kept = tls_of_cluster(cluster)->0;
            &&& tls_of_cluster(cluster) is Some
            &&& kept.sni == if tls.sni.len() > 0 {
                Some(tls.sni)
            } else {
                authority_of(cluster.name)
            }
            &&& tls.common_tls_context is Some ==> {
                &&& kept.certificate_provider == certificate_provider_of(tls.common_tls_context->0)
                &&& kept.validation_provider == validation_provider_of(tls.common_tls_context->0)
                &&& kept.alpn_protocols == tls.common_tls_context->0.alpn_protocols
            }
            &&& tls.common_tls_context is None ==> {
                &&& kept.certificate_provider is None
                &&& kept.validation_provider is None
                &&& kept.alpn_protocols.len() == 0
            }
        },
{
    let ending = "extensions.transport_sockets.tls.v1.UpstreamTlsContext"@;
    if cluster.transport_socket is Some && cluster.transport_socket->0.typed_config is Some {
        let any = cluster.transport_socket->0.typed_config->0;
        if ending.is_suffix_of(any.type_url) {
            assert(any.type_url =~= any.type_url.take(any.type_url.len() - ending.len()) + ending);
        }
        if exists|before: Seq<char>| any.type_url == #[trigger] (before + ending) {
            let before = choose|before: Seq<char>| any.type_url == #[trigger] (before + ending);
            assert(any.type_url.subrange(before.len() as int, any.type_url.len() as int)
                =~= ending);
        }
        if tls_of_cluster(cluster) is Some {
            assert(has_tls_settings(cluster, any.value->Ok_0));
        }
    }
}

/// A cluster is kept with its name and its TLS settings. Its endpoints are found
/// under its service name, or under its own where it has none.
pub proof fn law_cluster_keeps_name_and_service(cluster: proto::ClusterView)
    ensures
        cluster_kept(cluster).name == cluster.name,
        cluster_kept(cluster).tls == tls_of_cluster(cluster),
        cluster_kept(cluster).eds_service_name == endpoint_name(cluster),
        cluster.eds_cluster_config is Some && cluster.eds_cluster_config->0.service_name.len() > 0
            ==> endpoint_name(cluster) == cluster.eds_cluster_config->0.service_name,
        cluster.eds_cluster_config is None || cluster.eds_cluster_config->0.service_name.len() == 0
            ==> endpoint_name(cluster) == cluster.name,
{
}

} // verus!
