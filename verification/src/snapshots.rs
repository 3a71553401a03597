//! What is kept of the listeners and clusters that the control plane sends.

use crate::address::{IpAddr, IpAddrView, SocketAddr, SocketAddrView};
use crate::config::{
    Listener, ListenerProtocol, ListenerView, UpstreamTls, UpstreamTlsView, VirtualHost,
    VirtualHostView,
};
use crate::convert::{
    convert_virtual_hosts, converted_host, listener_port, port_of_listener,
};
use crate::error::{XdsError, XdsErrorView};
use crate::names::{ascending, sorted_unique};
use crate::proto;
use crate::text::{contains, ends_with, occurs_in, split, split_at_each};
use vstd::prelude::*;
use vstd::string::*;

verus! {

pub const CONNECTION_MANAGER_TYPE: &'static str =
    "type.googleapis.com/extensions.filters.network.http_connection_manager.v1.HttpConnectionManager";

pub const CONNECTION_MANAGER_NAME: &'static str = "http_connection_manager";

pub const CONNECTION_MANAGER_SUFFIX: &'static str =
    "extensions.filters.network.http_connection_manager.v1.HttpConnectionManager";

pub const UPSTREAM_TLS_SUFFIX: &'static str =
    "extensions.transport_sockets.tls.v1.UpstreamTlsContext";

/// A listener, the names of the route resources it refers to, and the virtual
/// hosts that it brings along.
#[derive(Debug)]
pub struct ListenerSnapshot {
    pub listener: Listener,
    pub route_names: Vec<String>,
    pub inline_virtual_hosts: Vec<VirtualHost>,
}

/// What is kept of a listener.
#[verifier::ext_equal]
pub struct ListenerSnapshotView {
    pub listener: ListenerView,
    pub route_names: Seq<Seq<char>>,
    pub inline_virtual_hosts: Seq<VirtualHostView>,
}

impl DeepView for ListenerSnapshot {
    type V = ListenerSnapshotView;

    open spec fn deep_view(&self) -> ListenerSnapshotView {
        ListenerSnapshotView {
            listener: self.listener.deep_view(),
            route_names: self.route_names.deep_view(),
            inline_virtual_hosts: self.inline_virtual_hosts.deep_view(),
        }
    }
}

/// A cluster, and the name under which its endpoints are found.
#[derive(Debug)]
pub struct ClusterSnapshot {
    pub name: String,
    pub eds_service_name: String,
    pub tls: Option<UpstreamTls>,
}

/// What is kept of a cluster.
#[verifier::ext_equal]
pub struct ClusterSnapshotView {
    pub name: Seq<char>,
    pub eds_service_name: Seq<char>,
    pub tls: Option<UpstreamTlsView>,
}

impl DeepView for ClusterSnapshot {
    type V = ClusterSnapshotView;

    open spec fn deep_view(&self) -> ClusterSnapshotView {
        ClusterSnapshotView {
            name: self.name@,
            eds_service_name: self.eds_service_name@,
            tls: self.tls.deep_view(),
        }
    }
}

/// A decoded message, or the failure to decode it.
pub open spec fn decoded<V>(type_url: Seq<char>, resource: proto::AnyView<V>) -> Result<
    V,
    XdsErrorView,
> {
    match resource.value {
        Ok(message) => Ok(message),
        Err(source) => Err(XdsErrorView::Decode { type_url, source }),
    }
}

/// A decoded message, or the failure to decode it.
pub fn decode_resource<'a, T: DeepView>(type_url: &str, resource: &'a proto::Any<T>) -> (outcome:
    Result<&'a T, XdsError>)
    ensures
        match outcome {
            Ok(message) => decoded(type_url@, resource.deep_view()) == Ok::<T::V, XdsErrorView>(
                message.deep_view(),
            ),
            Err(error) => decoded(type_url@, resource.deep_view()) == Err::<T::V, XdsErrorView>(
                error.deep_view(),
            ),
        },
{
    match &resource.value {
        Ok(message) => Ok(message),
        Err(source) => Err(
            XdsError::Decode { type_url: type_url.to_owned(), source: source.clone() },
        ),
    }
}

/// Whether a filter is a connection manager, by its name or by its type.
pub open spec fn is_connection_manager(name: Seq<char>, type_url: Seq<char>) -> bool {
    occurs_in(CONNECTION_MANAGER_NAME@, name) || CONNECTION_MANAGER_SUFFIX@.is_suffix_of(type_url)
}

/// Whether a filter is a connection manager, by its name or by its type.
pub fn is_http_connection_manager(
    name: &str,
    any: &proto::Any<proto::HttpConnectionManager>,
) -> (found: bool)
    ensures
        found == is_connection_manager(name@, any.deep_view().type_url),
{
    contains(name, CONNECTION_MANAGER_NAME) || ends_with(
        any.type_url.as_str(),
        CONNECTION_MANAGER_SUFFIX,
    )
}

/// The packed connection manager of a filter.
pub open spec fn manager_of_filter() -> spec_fn(proto::FilterView) -> Option<
    proto::AnyView<proto::HttpConnectionManagerView>,
> {
    |filter: proto::FilterView|
        match filter.typed_config {
            Some(any) => if is_connection_manager(filter.name, any.type_url) {
                Some(any)
            } else {
                None
            },
            None => None,
        }
}

/// The packed connection managers of a filter chain.
pub open spec fn managers_of_chain() -> spec_fn(proto::FilterChainView) -> Seq<
    proto::AnyView<proto::HttpConnectionManagerView>,
> {
    |chain: proto::FilterChainView| chain.filters.filter_map(manager_of_filter())
}

/// The packed connection manager of the listener itself.
pub open spec fn own_manager(listener: proto::ListenerView) -> Seq<
    proto::AnyView<proto::HttpConnectionManagerView>,
> {
    match listener.api_listener {
        Some(api_listener) => match api_listener.api_listener {
            Some(any) => seq![any],
            None => Seq::<proto::AnyView<proto::HttpConnectionManagerView>>::empty(),
        },
        None => Seq::<proto::AnyView<proto::HttpConnectionManagerView>>::empty(),
    }
}

/// The packed connection managers of a listener: its own, and those of its
/// filters.
pub open spec fn packed_managers(listener: proto::ListenerView) -> Seq<
    proto::AnyView<proto::HttpConnectionManagerView>,
> {
    own_manager(listener) + listener.filter_chains.flat_map(managers_of_chain())
}

/// All messages decoded, or the failure to decode the first malformed one.
pub open spec fn all_decoded<V>(type_url: Seq<char>, packed: Seq<proto::AnyView<V>>) -> Result<
    Seq<V>,
    XdsErrorView,
>
    decreases packed.len(),
{
    if packed.len() == 0 {
        Ok(Seq::<V>::empty())
    } else {
        match all_decoded(type_url, packed.drop_last()) {
            Ok(messages) => match decoded(type_url, packed.last()) {
                Ok(message) => Ok(messages.push(message)),
                Err(error) => Err(error),
            },
            Err(error) => Err(error),
        }
    }
}

/// A malformed message stays malformed whatever follows it.
proof fn lemma_all_decoded_prefix<V>(
    type_url: Seq<char>,
    packed: Seq<proto::AnyView<V>>,
    more: Seq<proto::AnyView<V>>,
)
    requires
        all_decoded(type_url, packed) is Err,
    ensures
        all_decoded(type_url, packed + more) == all_decoded(type_url, packed),
    decreases more.len(),
{
    if more.len() == 0 {
        assert(packed + more =~= packed);
    } else {
        assert((packed + more).drop_last() =~= packed + more.drop_last());
        lemma_all_decoded_prefix(type_url, packed, more.drop_last());
    }
}

/// The connection managers of a listener.
pub fn http_connection_managers<'a>(listener: &'a proto::Listener) -> (outcome: Result<
    Vec<&'a proto::HttpConnectionManager>,
    XdsError,
>)
    ensures
        match outcome {
            Ok(managers) => all_decoded(
                CONNECTION_MANAGER_TYPE@,
                packed_managers(listener.deep_view()),
            ) == Ok::<Seq<proto::HttpConnectionManagerView>, XdsErrorView>(managers.deep_view()),
            Err(error) => all_decoded(
                CONNECTION_MANAGER_TYPE@,
                packed_managers(listener.deep_view()),
            ) == Err::<Seq<proto::HttpConnectionManagerView>, XdsErrorView>(error.deep_view()),
        },
{
    let ghost view = listener.deep_view();
    let ghost wanted = CONNECTION_MANAGER_TYPE@;
    let mut managers: Vec<&'a proto::HttpConnectionManager> = Vec::new();
    let chains: &'a Vec<proto::FilterChain> = &listener.filter_chains;
    let ghost all = chains.deep_view();
    let ghost own = own_manager(view);
    let ghost rest = all.flat_map(managers_of_chain());
    proof {
        assert(managers.deep_view() =~= Seq::<proto::HttpConnectionManagerView>::empty());
        assert(all_decoded(
            wanted,
            Seq::<proto::AnyView<proto::HttpConnectionManagerView>>::empty(),
        ) == Ok::<Seq<proto::HttpConnectionManagerView>, XdsErrorView>(managers.deep_view()));
    }

    if let Some(api_listener) = &listener.api_listener {
        if let Some(any) = &api_listener.api_listener {
            proof {
                assert(own.drop_last() =~= Seq::empty());
            }
            match decode_resource(CONNECTION_MANAGER_TYPE, any) {
                Ok(manager) => {
                    managers.push(manager);
                    assert(managers.deep_view() =~= Seq::empty().push(manager.deep_view()));
                },
                Err(error) => {
                    proof {
                        lemma_all_decoded_prefix(wanted, own, rest);
                    }
                    return Err(error);
                },
            }
        }
    }
    let mut i: usize = 0;
    proof {
        assert(all.take(0) =~= Seq::<proto::FilterChainView>::empty());
        assert(own + all.take(0).flat_map(managers_of_chain()) =~= own);
    }
    while i < chains.len()
        invariant
            i <= chains.len(),
            all == chains.deep_view(),
            view == listener.deep_view(),
            view.filter_chains == all,
            own == own_manager(view),
            rest == all.flat_map(managers_of_chain()),
            wanted == CONNECTION_MANAGER_TYPE@,
            all_decoded(wanted, own + all.take(i as int).flat_map(managers_of_chain())) == Ok::<
                Seq<proto::HttpConnectionManagerView>,
                XdsErrorView,
            >(managers.deep_view()),
        decreases chains.len() - i,
    {
        let filters: &'a Vec<proto::Filter> = &chains[i].filters;
        let ghost here = filters.deep_view();
        let ghost earlier = own + all.take(i as int).flat_map(managers_of_chain());
        let mut j: usize = 0;
        proof {
            assert(all[i as int] == chains@[i as int].deep_view());
            all.lemma_flat_map_take_append(managers_of_chain(), i as int);
            assert(own + all.take(i as int + 1).flat_map(managers_of_chain()) =~= earlier
                + here.filter_map(manager_of_filter()));
            assert(here.take(0) =~= Seq::<proto::FilterView>::empty());
            assert(earlier + here.take(0).filter_map(manager_of_filter()) =~= earlier);
        }
        while j < filters.len()
            invariant
                i < chains.len(),
                j <= filters.len(),
                here == filters.deep_view(),
                all == chains.deep_view(),
                all[i as int].filters == here,
                earlier == own + all.take(i as int).flat_map(managers_of_chain()),
                view == listener.deep_view(),
                view.filter_chains == all,
                own == own_manager(view),
                rest == all.flat_map(managers_of_chain()),
                wanted == CONNECTION_MANAGER_TYPE@,
                own + all.take(i as int + 1).flat_map(managers_of_chain()) == earlier
                    + here.filter_map(manager_of_filter()),
                all_decoded(
                    wanted,
                    earlier + here.take(j as int).filter_map(manager_of_filter()),
                ) == Ok::<Seq<proto::HttpConnectionManagerView>, XdsErrorView>(
                    managers.deep_view(),
                ),
            decreases filters.len() - j,
        {
            let filter: &'a proto::Filter = &filters[j];
            let ghost before = earlier + here.take(j as int).filter_map(manager_of_filter());
            let ghost next = earlier + here.take(j as int + 1).filter_map(manager_of_filter());
            let ghost known = managers.deep_view();
            proof {
                assert(here[j as int] == filter.deep_view());
                here.lemma_filter_map_take_succ(manager_of_filter(), j as int);
            }
            let mut taken: bool = false;
            if let Some(any) = &filter.typed_config {
                if is_http_connection_manager(filter.name.as_str(), any) {
                    taken = true;
                    proof {
                        assert(next =~= before.push(any.deep_view()));
                        assert(next.drop_last() =~= before);
                    }
                    match decode_resource(CONNECTION_MANAGER_TYPE, any) {
                        Ok(manager) => {
                            managers.push(manager);
                            assert(managers.deep_view() =~= known.push(manager.deep_view()));
                        },
                        Err(error) => {
                            proof {
                                lemma_managers_split(all, here, own, i as int, j as int + 1);
                                lemma_all_decoded_prefix(
                                    wanted,
                                    next,
                                    here.skip(j as int + 1).filter_map(manager_of_filter())
                                        + all.skip(i as int + 1).flat_map(managers_of_chain()),
                                );
                            }
                            return Err(error);
                        },
                    }
                }
            }
            proof {
                if !taken {
                    assert(next =~= before);
                }
            }
            j += 1;
        }
        assert(here.take(j as int) =~= here);
        i += 1;
    }
    assert(all.take(i as int) =~= all);
    Ok(managers)
}

/// The packed connection managers up to a filter, and those after it.
proof fn lemma_managers_split(
    all: Seq<proto::FilterChainView>,
    here: Seq<proto::FilterView>,
    own: Seq<proto::AnyView<proto::HttpConnectionManagerView>>,
    i: int,
    j: int,
)
    requires
        0 <= i < all.len(),
        all[i].filters == here,
        0 <= j <= here.len(),
    ensures
        own + all.flat_map(managers_of_chain()) == own + all.take(i).flat_map(managers_of_chain())
            + here.take(j).filter_map(manager_of_filter()) + (here.skip(j).filter_map(
            manager_of_filter(),
        ) + all.skip(i + 1).flat_map(managers_of_chain())),
{
    let f = managers_of_chain();
    all.lemma_flat_map_take_append(f, i);
    lemma_flat_map_split(all, f, i + 1);
    lemma_filter_map_split(here, manager_of_filter(), j);
    let a = all.take(i).flat_map(f);
    let b = here.take(j).filter_map(manager_of_filter());
    let c = here.skip(j).filter_map(manager_of_filter());
    let d = all.skip(i + 1).flat_map(f);
    assert(own + (a + (b + c) + d) =~= own + a + b + (c + d));
}

/// A flattened map is that of the first part followed by that of the rest.
pub proof fn lemma_flat_map_split<A, B>(items: Seq<A>, f: spec_fn(A) -> Seq<B>, n: int)
    requires
        0 <= n <= items.len(),
    ensures
        items.flat_map(f) == items.take(n).flat_map(f) + items.skip(n).flat_map(f),
{
    assert(items =~= items.take(n) + items.skip(n));
    let x = items.take(n).map_values(f);
    let y = items.skip(n).map_values(f);
    assert(items.map_values(f) =~= x + y);
    vstd::seq_lib::lemma_flatten_concat(x, y);
}

/// A filtered map is that of the first part followed by that of the rest.
pub proof fn lemma_filter_map_split<A, B>(items: Seq<A>, f: spec_fn(A) -> Option<B>, n: int)
    requires
        0 <= n <= items.len(),
    ensures
        items.filter_map(f) == items.take(n).filter_map(f) + items.skip(n).filter_map(f),
    decreases items.len() - n,
{
    if n == items.len() {
        assert(items.take(n) =~= items);
        assert(items.skip(n) =~= Seq::<A>::empty());
        assert(items.filter_map(f) =~= items.take(n).filter_map(f) + items.skip(n).filter_map(f));
    } else {
        let shorter = items.drop_last();
        lemma_filter_map_split(shorter, f, n);
        assert(shorter.take(n) =~= items.take(n));
        assert(shorter.skip(n) =~= items.skip(n).drop_last());
        assert(items.skip(n).last() == items.last());
        assert(items.filter_map(f) =~= items.take(n).filter_map(f) + items.skip(n).filter_map(f));
    }
}

/// The route resource that a connection manager refers to.
pub open spec fn referred_route() -> spec_fn(proto::HttpConnectionManagerView) -> Option<
    Seq<char>,
> {
    |manager: proto::HttpConnectionManagerView|
        match manager.route_specifier {
            Some(proto::RouteSpecifierView::Rds(rds)) => if rds.route_config_name.len() == 0 {
                None
            } else {
                Some(rds.route_config_name)
            },
            _ => None,
        }
}

/// The virtual hosts that a connection manager brings along.
pub open spec fn inline_hosts() -> spec_fn(proto::HttpConnectionManagerView) -> Seq<
    VirtualHostView,
> {
    |manager: proto::HttpConnectionManagerView|
        match manager.route_specifier {
            Some(proto::RouteSpecifierView::RouteConfig(routes)) => routes.virtual_hosts.map_values(
                converted_host(),
            ),
            _ => Seq::<VirtualHostView>::empty(),
        }
}

/// The listener on all addresses of a port.
pub open spec fn bound_listener(name: Seq<char>, port: u16) -> ListenerView {
    ListenerView {
        name,
        bind: SocketAddrView { ip: IpAddrView::V4(0, 0, 0, 0), port },
        protocol: if port == 443 {
            ListenerProtocol::Https
        } else {
            ListenerProtocol::Http
        },
        virtual_hosts: Seq::<VirtualHostView>::empty(),
        tls_secret: None,
    }
}

/// What is kept of a listener. Its port is 80 where nothing tells it.
pub open spec fn listener_kept(listener: proto::ListenerView) -> Result<
    ListenerSnapshotView,
    XdsErrorView,
> {
    match all_decoded(CONNECTION_MANAGER_TYPE@, packed_managers(listener)) {
        Ok(managers) => Ok(
            ListenerSnapshotView {
                listener: bound_listener(
                    listener.name,
                    match port_of_listener(listener) {
                        Some(port) => port,
                        None => 80,
                    },
                ),
                route_names: ascending(managers.filter_map(referred_route()).to_set()),
                inline_virtual_hosts: managers.flat_map(inline_hosts()),
            },
        ),
        Err(error) => Err(error),
    }
}

/// What is kept of a listener.
pub fn listener_snapshot(listener: &proto::Listener) -> (outcome: Result<
    ListenerSnapshot,
    XdsError,
>)
    ensures
        match outcome {
            Ok(snapshot) => listener_kept(listener.deep_view()) == Ok::<
                ListenerSnapshotView,
                XdsErrorView,
            >(snapshot.deep_view()),
            Err(error) => listener_kept(listener.deep_view()) == Err::<
                ListenerSnapshotView,
                XdsErrorView,
            >(error.deep_view()),
        },
{
    let port: u16 = listener_port(listener).unwrap_or(80);
    let managers: Vec<&proto::HttpConnectionManager> = match http_connection_managers(listener) {
        Ok(managers) => managers,
        Err(error) => {
            return Err(error);
        },
    };
    let mut route_names: Vec<String> = Vec::new();
    let mut inline_virtual_hosts: Vec<VirtualHost> = Vec::new();
    let ghost all = managers.deep_view();
    let mut i: usize = 0;
    proof {
        assert(all.take(0) =~= Seq::<proto::HttpConnectionManagerView>::empty());
        assert(route_names.deep_view() =~= all.take(0).filter_map(referred_route()));
        assert(inline_virtual_hosts.deep_view() =~= all.take(0).flat_map(inline_hosts()));
    }
    while i < managers.len()
        invariant
            i <= managers.len(),
            all == managers.deep_view(),
            route_names.deep_view() == all.take(i as int).filter_map(referred_route()),
            inline_virtual_hosts.deep_view() == all.take(i as int).flat_map(inline_hosts()),
        decreases managers.len() - i,
    {
        let manager: &proto::HttpConnectionManager = managers[i];
        let ghost names_before = route_names.deep_view();
        let ghost hosts_before = inline_virtual_hosts.deep_view();
        proof {
            assert(all[i as int] == manager.deep_view());
            all.lemma_filter_map_take_succ(referred_route(), i as int);
            all.lemma_flat_map_take_append(inline_hosts(), i as int);
            assert(names_before + Seq::<Seq<char>>::empty() =~= names_before);
            assert(hosts_before + Seq::<VirtualHostView>::empty() =~= hosts_before);
        }
        match &manager.route_specifier {
            Some(proto::RouteSpecifier::Rds(rds)) => {
                if !rds.route_config_name.as_str().is_empty() {
                    route_names.push(rds.route_config_name.clone());
                    assert(route_names.deep_view() =~= names_before + seq![rds.route_config_name@]);
                }
            },
            Some(proto::RouteSpecifier::RouteConfig(routes)) => {
                let mut hosts: Vec<VirtualHost> = convert_virtual_hosts(&routes.virtual_hosts);
                let ghost added = hosts.deep_view();
                inline_virtual_hosts.append(&mut hosts);
                assert(inline_virtual_hosts.deep_view() =~= hosts_before + added);
            },
            None => {},
        }
        i += 1;
    }
    assert(all.take(i as int) =~= all);
    let protocol: ListenerProtocol = if port == 443 {
        ListenerProtocol::Https
    } else {
        ListenerProtocol::Http
    };
    let bound = Listener {
        name: listener.name.clone(),
        bind: SocketAddr { ip: IpAddr::V4(0, 0, 0, 0), port },
        protocol,
        virtual_hosts: Vec::new(),
        tls_secret: None,
    };
    assert(bound.virtual_hosts.deep_view() =~= Seq::<VirtualHostView>::empty());
    Ok(
        ListenerSnapshot {
            listener: bound,
            route_names: sorted_unique(route_names),
            inline_virtual_hosts,
        },
    )
}

/// The name of a provider instance, where it has one.
pub open spec fn instance_of(instance: proto::CertificateProviderInstanceView) -> Option<
    Seq<char>,
> {
    if instance.instance_name.len() == 0 {
        None
    } else {
        Some(instance.instance_name)
    }
}

/// The name of a provider instance, where it has one.
pub fn instance_name(instance: &proto::CertificateProviderInstance) -> (name: Option<String>)
    ensures
        name.deep_view() == instance_of(instance.deep_view()),
{
    if instance.instance_name.as_str().is_empty() {
        None
    } else {
        Some(instance.instance_name.clone())
    }
}

/// The provider of the gateway's own certificate.
pub open spec fn certificate_provider_of(common: proto::CommonTlsContextView) -> Option<Seq<char>> {
    match common.tls_certificate_certificate_provider_instance {
        Some(instance) => instance_of(instance),
        None => None,
    }
}

/// The provider of the gateway's own certificate.
pub fn certificate_provider_name(common: &proto::CommonTlsContext) -> (name: Option<String>)
    ensures
        name.deep_view() == certificate_provider_of(common.deep_view()),
{
    match &common.tls_certificate_certificate_provider_instance {
        Some(instance) => instance_name(instance),
        None => None,
    }
}

/// The provider of the roots that server certificates are checked against.
pub open spec fn validation_provider_of(common: proto::CommonTlsContextView) -> Option<Seq<char>> {
    match common.combined_validation_context {
        Some(combined) => match combined.validation_context_certificate_provider_instance {
            Some(instance) => instance_of(instance),
            None => None,
        },
        None => None,
    }
}

/// The provider of the roots that server certificates are checked against.
pub fn validation_provider_name(common: &proto::CommonTlsContext) -> (name: Option<String>)
    ensures
        name.deep_view() == validation_provider_of(common.deep_view()),
{
    match &common.combined_validation_context {
        Some(combined) => match &combined.validation_context_certificate_provider_instance {
            Some(instance) => instance_name(instance),
            None => None,
        },
        None => None,
    }
}

/// The fourth part of a cluster name whose parts are divided by bars.
pub open spec fn authority_of(name: Seq<char>) -> Option<Seq<char>> {
    let parts = split_at_each(name, '|');
    if parts.len() > 3 && parts[3].len() > 0 {
        Some(parts[3])
    } else {
        None
    }
}

/// The fourth part of a cluster name whose parts are divided by bars.
pub fn cluster_authority(name: &str) -> (authority: Option<String>)
    ensures
        authority.deep_view() == authority_of(name@),
{
    let parts: Vec<String> = split(name, '|');
    if parts.len() > 3 {
        assert(parts.deep_view()[3] == parts@[3]@);
        if parts[3].as_str().is_empty() {
            None
        } else {
            Some(parts[3].clone())
        }
    } else {
        None
    }
}

/// The value, or the fallback where the value is empty.
pub open spec fn value_or(value: Seq<char>, fallback: Option<Seq<char>>) -> Option<Seq<char>> {
    if value.len() == 0 {
        fallback
    } else {
        Some(value)
    }
}

/// The value, or the fallback where the value is empty.
pub fn first_non_empty(value: String, fallback: Option<String>) -> (chosen: Option<String>)
    ensures
        chosen.deep_view() == value_or(value@, fallback.deep_view()),
{
    if value.as_str().is_empty() {
        fallback
    } else {
        Some(value)
    }
}

/// The TLS settings of a cluster: those of its transport socket, where that is
/// a TLS socket with well-formed settings.
pub open spec fn tls_of_cluster(cluster: proto::ClusterView) -> Option<UpstreamTlsView> {
    match cluster.transport_socket {
        Some(socket) => match socket.typed_config {
            Some(any) => if !UPSTREAM_TLS_SUFFIX@.is_suffix_of(any.type_url) {
                None
            } else {
                match any.value {
                    Ok(tls) => Some(
                        UpstreamTlsView {
                            sni: value_or(tls.sni, authority_of(cluster.name)),
                            certificate_provider: match tls.common_tls_context {
                                Some(common) => certificate_provider_of(common),
                                None => None,
                            },
                            validation_provider: match tls.common_tls_context {
                                Some(common) => validation_provider_of(common),
                                None => None,
                            },
                            alpn_protocols: match tls.common_tls_context {
                                Some(common) => common.alpn_protocols,
                                None => Seq::<Seq<char>>::empty(),
                            },
                        },
                    ),
                    Err(_) => None,
                }
            },
            None => None,
        },
        None => None,
    }
}

/// The TLS settings of a cluster.
pub fn upstream_tls_from_cluster(cluster: &proto::Cluster) -> (tls: Option<UpstreamTls>)
    ensures
        tls.deep_view() == tls_of_cluster(cluster.deep_view()),
{
    let any: &proto::Any<proto::UpstreamTlsContext> = match &cluster.transport_socket {
        Some(socket) => match &socket.typed_config {
            Some(any) => any,
            None => {
                return None;
            },
        },
        None => {
            return None;
        },
    };
    if !ends_with(any.type_url.as_str(), UPSTREAM_TLS_SUFFIX) {
        return None;
    }
    let tls: &proto::UpstreamTlsContext = match &any.value {
        Ok(tls) => tls,
        Err(_) => {
            return None;
        },
    };
    let sni: Option<String> = first_non_empty(
        tls.sni.clone(),
        cluster_authority(cluster.name.as_str()),
    );
    match &tls.common_tls_context {
        Some(common) => {
            let alpn_protocols: Vec<String> = common.alpn_protocols.clone();
            assert(alpn_protocols.deep_view() =~= common.alpn_protocols.deep_view());
            Some(
                UpstreamTls {
                    sni,
                    certificate_provider: certificate_provider_name(common),
                    validation_provider: validation_provider_name(common),
                    alpn_protocols,
                },
            )
        },
        None => {
            let alpn_protocols: Vec<String> = Vec::new();
            assert(alpn_protocols.deep_view() =~= Seq::<Seq<char>>::empty());
            Some(
                UpstreamTls {
                    sni,
                    certificate_provider: None,
                    validation_provider: None,
                    alpn_protocols,
                },
            )
        },
    }
}

} // verus!
