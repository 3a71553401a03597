//! What holds of the requests of a session and of how failures read.

use crate::ads::{nothing_known, AdsStateView};
use crate::client::{
    acknowledgement, first_request, followed, node_of, started_session, NodeView, SessionView,
    XdsClientConfigView,
};
use crate::error::XdsErrorView;
use crate::identity::RouterIdentityView;
use crate::names::{is_ascending, lemma_ascending_is};
use crate::proto;
use crate::resource_laws::law_subscription_is_what_was_asked;
use vstd::prelude::*;

verus! {

/// A node is told by its id, by its cluster and by entries for what generates
/// its configuration, its cluster and its namespace, and for its host where that
/// is known.
pub proof fn law_node_tells_identity(identity: RouterIdentityView, id: Seq<char>)
    ensures
        node_of(identity, id).id == id,
        node_of(identity, id).cluster == identity.cluster_id,
        node_of(identity, id).metadata.len() == if identity.node_name is Some {
            4int
        } else {
            3int
        },
        node_of(identity, id).metadata[0] == ("GENERATOR"@, "grpc"@),
        node_of(identity, id).metadata[1] == ("CLUSTER_ID"@, identity.cluster_id),
        node_of(identity, id).metadata[2] == ("NAMESPACE"@, identity.namespace),
        identity.node_name is Some ==> node_of(identity, id).metadata[3] == (
            "KUBE_NODE_NAME"@,
            identity.node_name->0,
        ),
        identity.metadata().generator == "grpc"@,
        identity.metadata().cluster_id == identity.cluster_id,
        identity.metadata().namespace == identity.namespace,
        identity.metadata().node_name == identity.node_name,
{
}

/// A first request tells the node, the type and the names, and neither a version
/// nor a nonce. An acknowledgement tells the node and the names, and the type,
/// the version and the nonce of the response.
pub proof fn law_requests_tell_names_and_response(
    node: NodeView,
    type_url: Seq<char>,
    names: Seq<Seq<char>>,
    response: proto::DiscoveryResponseView,
)
    ensures
        first_request(node, type_url, names).node == node,
        first_request(node, type_url, names).type_url == type_url,
        first_request(node, type_url, names).resource_names == names,
        first_request(node, type_url, names).version_info.len() == 0,
        first_request(node, type_url, names).response_nonce.len() == 0,
        acknowledgement(node, names, response).node == node,
        acknowledgement(node, names, response).type_url == response.type_url,
        acknowledgement(node, names, response).resource_names == names,
        acknowledgement(node, names, response).version_info == response.version_info,
        acknowledgement(node, names, response).response_nonce == response.nonce,
{
    reveal_strlit("");
}

/// A session begins without resources and with a subscription to the listeners
/// of its client alone.
pub proof fn law_session_begins_with_listeners(
    client: XdsClientConfigView,
    id: Seq<char>,
    other: Seq<char>,
    name: Seq<char>,
)
    ensures
        ({
            let session = started_session(client, id);
            let listeners = "type.googleapis.com/listener.v1.Listener"@;
            &&& session.node == node_of(client.identity, id)
            &&& session.state.subscription(listeners).contains(name)
                <==> client.listener_names.contains(name)
            &&& other != listeners ==> session.state.subscription(other).len() == 0
            &&& session.state.listeners.dom() == Set::<Seq<char>>::empty()
            &&& session.state.routes.dom() == Set::<Seq<char>>::empty()
            &&& session.state.clusters.dom() == Set::<Seq<char>>::empty()
            &&& session.state.endpoints.dom() == Set::<Seq<char>>::empty()
        }),
{
    law_subscription_is_what_was_asked(
        nothing_known(),
        "type.googleapis.com/listener.v1.Listener"@,
        other,
        client.listener_names,
        name,
    );
}

/// A state asks for names exactly where it subscribes to the type and to these
/// names, whatever their order and however often each is told.
pub proof fn law_asking_means_same_names(
    state: AdsStateView,
    type_url: Seq<char>,
    names: Seq<Seq<char>>,
)
    ensures
        state.asks_for(type_url, names) ==> state.subscriptions.dom().contains(type_url) && forall|
            name: Seq<char>,
        |
            #[trigger] state.subscription(type_url).contains(name) <==> names.contains(name),
        state.subscriptions.dom().contains(type_url) && is_ascending(state.subscription(type_url))
            && (forall|name: Seq<char>|
            #[trigger] state.subscription(type_url).contains(name) <==> names.contains(name))
            ==> state.asks_for(type_url, names),
        state.subscribed(type_url, names).asks_for(type_url, names),
        !state.subscriptions.dom().contains(type_url) ==> !state.asks_for(type_url, names),
{
    if state.asks_for(type_url, names) {
        assert forall|name: Seq<char>| #[trigger]
            state.subscription(type_url).contains(name) <==> names.contains(name) by {
            law_subscription_is_what_was_asked(state, type_url, type_url, names, name);
            assert(state.subscribed(type_url, names).subscription(type_url)
                == state.subscription(type_url));
        }
    }
    let known = state.subscription(type_url);
    if state.subscriptions.dom().contains(type_url) && is_ascending(known) && (forall|
        name: Seq<char>,
    |
        #[trigger] known.contains(name) <==> names.contains(name)) {
        assert(known.to_set() =~= names.to_set()) by {
            assert forall|name: Seq<char>| known.to_set().contains(name)
                == names.to_set().contains(name) by {
                assert(known.contains(name) <==> names.contains(name));
            }
        }
        lemma_ascending_is(known);
    }
}

/// Wanted names are asked for one type after the other. Each is subscribed to,
/// and a request is sent for it exactly where it was not subscribed to before.
pub proof fn law_new_names_are_requested(
    state: AdsStateView,
    node: NodeView,
    wanted: Seq<(Seq<char>, Seq<Seq<char>>)>,
    type_url: Seq<char>,
    names: Seq<Seq<char>>,
)
    ensures
        followed(state, node, seq![]).0 == state,
        followed(state, node, seq![]).1.len() == 0,
        ({
            let (before, requests) = followed(state, node, wanted);
            let (after, more) = followed(state, node, wanted.push((type_url, names)));
            &&& after == before.subscribed(type_url, names)
            &&& before.asks_for(type_url, names) ==> more == requests
            &&& !before.asks_for(type_url, names) ==> more == requests.push(
                first_request(node, type_url, names),
            )
        }),
{
    assert(wanted.push((type_url, names)).drop_last() =~= wanted);
}

/// A response that was taken in is acknowledged first. Then what it makes
/// wanted is asked for. The configuration is handed out exactly where it is
/// valid.
pub proof fn law_answer_follows_from_state(
    session: SessionView,
    state: AdsStateView,
    response: proto::DiscoveryResponseView,
)
    ensures
        ({
            let (after, progress) = session.answered(state, response);
            let (asked, requests) = followed(
                state,
                session.node,
                state.updates(response.resources).wanted(),
            );
            let config = asked.runtime_config(response.version_info);
            &&& after.node == session.node
            &&& after.state == asked
            &&& progress.requests.len() == requests.len() + 1
            &&& progress.requests[0] == acknowledgement(
                session.node,
                state.subscription(response.type_url),
                response,
            )
            &&& forall|i: int|
                0 <= i < requests.len() ==> #[trigger] requests[i] == progress.requests[i + 1]
            &&& progress.config is Some <==> config.conflicts().len() == 0
            &&& progress.config is Some ==> progress.config->0 == config
        }),
{
}

/// How failures read.
pub proof fn law_failures_say_what_failed(
    endpoint: Seq<char>,
    type_url: Seq<char>,
    source: Seq<char>,
)
    ensures
        (XdsErrorView::InvalidEndpoint { endpoint, source }).message() == "invalid xDS endpoint "@
            + endpoint + ": "@ + source,
        (XdsErrorView::Connect { endpoint, source }).message()
            == "failed connecting to xDS endpoint "@ + endpoint + ": "@ + source,
        XdsErrorView::StreamOpen(source).message() == "failed opening ADS stream: "@ + source,
        XdsErrorView::StreamReceive(source).message() == "ADS stream receive failed: "@ + source,
        XdsErrorView::RequestChannelClosed.message() == "ADS request channel is closed"@,
        (XdsErrorView::Decode { type_url, source }).message() == "failed decoding "@ + type_url
            + " resource: "@ + source,
        XdsErrorView::RuntimeConfigClosed.message() == "runtime config watcher is closed"@,
{
}

} // verus!
