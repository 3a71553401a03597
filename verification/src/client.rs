//! The exchange with the control plane: what is asked for at the start, what
//! each response is answered, and which configurations come of it.

use crate::ads::{
    nothing_known, AdsState, AdsStateView, DiscoveryUpdates, LISTENER_TYPE,
};
use crate::config::{RuntimeConfig, RuntimeConfigView};
use crate::error::{XdsError, XdsErrorView};
use crate::identity::{RouterIdentity, RouterIdentityView, RouterMetadata};
use crate::names::{ascending, sorted_unique};
use crate::proto;
use crate::same::Same;
use std::time::Duration;
use vstd::prelude::*;
use vstd::string::*;

verus! {

/// Whether tonic takes a text for the address of a server.
pub uninterp spec fn endpoint_accepted(endpoint: Seq<char>) -> bool;

/// Asks tonic whether a text is the address of a server, by
/// `tonic::transport::Endpoint::from_shared`. It fails where the text is not a
/// URI, as it does for an empty text, and says only that in its error.
#[verifier::external_body]
fn check_endpoint(endpoint: &str) -> (outcome: Result<(), String>)
    ensures
        outcome is Ok <==> endpoint_accepted(endpoint@),
        outcome is Ok ==> endpoint@.len() > 0,
        outcome matches Err(text) ==> text@ == "invalid URI"@,
{
    match tonic::transport::Endpoint::from_shared(endpoint.to_owned()) {
        Ok(_) => Ok(()),
        Err(error) => Err(error.to_string()),
    }
}

/// How to reach the control plane, and what to ask it for.
#[derive(Debug)]
pub struct XdsClientConfig {
    pub endpoint: String,
    pub identity: RouterIdentity,
    pub listener_names: Vec<String>,
    pub reconnect_delay: Duration,
}

/// What client settings stand for.
#[verifier::ext_equal]
pub struct XdsClientConfigView {
    pub endpoint: Seq<char>,
    pub identity: RouterIdentityView,
    pub listener_names: Seq<Seq<char>>,
    pub reconnect_delay: Duration,
}

impl DeepView for XdsClientConfig {
    type V = XdsClientConfigView;

    open spec fn deep_view(&self) -> XdsClientConfigView {
        XdsClientConfigView {
            endpoint: self.endpoint@,
            identity: self.identity.deep_view(),
            listener_names: self.listener_names.deep_view(),
            reconnect_delay: self.reconnect_delay,
        }
    }
}

impl Clone for XdsClientConfig {
    fn clone(&self) -> (copy: Self)
        ensures
            copy.deep_view() == self.deep_view(),
    {
        let listener_names: Vec<String> = self.listener_names.clone();
        assert(listener_names.deep_view() =~= self.listener_names.deep_view());
        XdsClientConfig {
            endpoint: self.endpoint.clone(),
            identity: self.identity.clone(),
            listener_names,
            reconnect_delay: self.reconnect_delay,
        }
    }
}

/// The gateway as the control plane sees it.
#[derive(Debug, PartialEq, Eq)]
pub struct Node {
    pub id: String,
    pub cluster: String,
    pub metadata: Vec<(String, String)>,
}

/// What a node stands for.
#[verifier::ext_equal]
pub struct NodeView {
    pub id: Seq<char>,
    pub cluster: Seq<char>,
    pub metadata: Seq<(Seq<char>, Seq<char>)>,
}

impl DeepView for Node {
    type V = NodeView;

    open spec fn deep_view(&self) -> NodeView {
        NodeView { id: self.id@, cluster: self.cluster@, metadata: self.metadata.deep_view() }
    }
}

impl Clone for Node {
    fn clone(&self) -> (copy: Self)
        ensures
            copy.deep_view() == self.deep_view(),
    {
        let mut metadata: Vec<(String, String)> = Vec::new();
        let mut i: usize = 0;
        while i < self.metadata.len()
            invariant
                i <= self.metadata.len(),
                metadata.deep_view() == self.metadata.deep_view().take(i as int),
            decreases self.metadata.len() - i,
        {
            let ghost before = metadata.deep_view();
            metadata.push((self.metadata[i].0.clone(), self.metadata[i].1.clone()));
            assert(metadata.deep_view() =~= before.push(self.metadata.deep_view()[i as int]));
            assert(metadata.deep_view() =~= self.metadata.deep_view().take(i as int + 1));
            i += 1;
        }
        assert(metadata.deep_view() =~= self.metadata.deep_view());
        Node { id: self.id.clone(), cluster: self.cluster.clone(), metadata }
    }
}

/// The gateway as the control plane sees it.
pub open spec fn node_of(identity: RouterIdentityView, node_id: Seq<char>) -> NodeView {
    let metadata = identity.metadata();
    NodeView {
        id: node_id,
        cluster: identity.cluster_id,
        metadata: seq![
            ("GENERATOR"@, metadata.generator),
            ("CLUSTER_ID"@, metadata.cluster_id),
            ("NAMESPACE"@, metadata.namespace),
        ] + match metadata.node_name {
            Some(node_name) => seq![("KUBE_NODE_NAME"@, node_name)],
            None => Seq::<(Seq<char>, Seq<char>)>::empty(),
        },
    }
}

/// A request to the control plane. It reports no error.
#[derive(Debug, PartialEq, Eq)]
pub struct DiscoveryRequest {
    pub version_info: String,
    pub node: Node,
    pub resource_names: Vec<String>,
    pub type_url: String,
    pub response_nonce: String,
}

/// What a request stands for.
#[verifier::ext_equal]
pub struct DiscoveryRequestView {
    pub version_info: Seq<char>,
    pub node: NodeView,
    pub resource_names: Seq<Seq<char>>,
    pub type_url: Seq<char>,
    pub response_nonce: Seq<char>,
}

impl DeepView for DiscoveryRequest {
    type V = DiscoveryRequestView;

    open spec fn deep_view(&self) -> DiscoveryRequestView {
        DiscoveryRequestView {
            version_info: self.version_info@,
            node: self.node.deep_view(),
            resource_names: self.resource_names.deep_view(),
            type_url: self.type_url@,
            response_nonce: self.response_nonce@,
        }
    }
}

/// A request for names of a resource type that answers no response.
pub open spec fn first_request(
    node: NodeView,
    type_url: Seq<char>,
    names: Seq<Seq<char>>,
) -> DiscoveryRequestView {
    DiscoveryRequestView {
        version_info: ""@,
        node,
        resource_names: names,
        type_url,
        response_nonce: ""@,
    }
}

/// The request that acknowledges a response: it gives back the version and the
/// nonce, with the names asked for.
pub open spec fn acknowledgement(
    node: NodeView,
    names: Seq<Seq<char>>,
    response: proto::DiscoveryResponseView,
) -> DiscoveryRequestView {
    DiscoveryRequestView {
        version_info: response.version_info,
        node,
        resource_names: names,
        type_url: response.type_url,
        response_nonce: response.nonce,
    }
}

/// A request to the control plane.
pub fn discovery_request(
    node: &Node,
    type_url: &str,
    resource_names: Vec<String>,
    version_info: &str,
    response_nonce: &str,
) -> (request: DiscoveryRequest)
    ensures
        request.deep_view() == (DiscoveryRequestView {
            version_info: version_info@,
            node: node.deep_view(),
            resource_names: resource_names.deep_view(),
            type_url: type_url@,
            response_nonce: response_nonce@,
        }),
{
    DiscoveryRequest {
        version_info: version_info.to_owned(),
        node: node.clone(),
        resource_names,
        type_url: type_url.to_owned(),
        response_nonce: response_nonce.to_owned(),
    }
}

/// What to do after an attempt to follow the control plane ended.
#[derive(Debug)]
pub enum AfterAttempt {
    /// Try again after a delay.
    Reconnect(Duration),
    /// Report the failure.
    Fail(XdsError),
}

/// What the next step stands for.
pub enum AfterAttemptView {
    Reconnect(Duration),
    Fail(XdsErrorView),
}

impl DeepView for AfterAttempt {
    type V = AfterAttemptView;

    open spec fn deep_view(&self) -> AfterAttemptView {
        match self {
            AfterAttempt::Reconnect(delay) => AfterAttemptView::Reconnect(*delay),
            AfterAttempt::Fail(error) => AfterAttemptView::Fail(error.deep_view()),
        }
    }
}

/// A client of the control plane.
pub struct XdsClient {
    cfg: XdsClientConfig,
}

impl DeepView for XdsClient {
    type V = XdsClientConfigView;

    closed spec fn deep_view(&self) -> XdsClientConfigView {
        self.cfg.deep_view()
    }
}

impl XdsClient {
    /// A client with these settings.
    pub fn new(cfg: XdsClientConfig) -> (client: Self)
        ensures
            client.deep_view() == cfg.deep_view(),
    {
        XdsClient { cfg }
    }

    /// The address of the control plane, where tonic takes it for one.
    pub fn endpoint(&self) -> (outcome: Result<&str, XdsError>)
        ensures
            match outcome {
                Ok(endpoint) => endpoint_accepted(self.deep_view().endpoint) && endpoint@
                    == self.deep_view().endpoint,
                Err(error) => !endpoint_accepted(self.deep_view().endpoint) && error.deep_view()
                    == (XdsErrorView::InvalidEndpoint {
                    endpoint: self.deep_view().endpoint,
                    source: "invalid URI"@,
                }),
            },
    {
        self.checked_endpoint(check_endpoint(self.cfg.endpoint.as_str()))
    }

    /// The address of the control plane, unless the transport refused it.
    pub fn checked_endpoint(&self, verdict: Result<(), String>) -> (outcome: Result<
        &str,
        XdsError,
    >)
        ensures
            match outcome {
                Ok(endpoint) => verdict is Ok && endpoint@ == self.deep_view().endpoint,
                Err(error) => verdict is Err && error.deep_view()
                    == (XdsErrorView::InvalidEndpoint {
                    endpoint: self.deep_view().endpoint,
                    source: verdict->Err_0@,
                }),
            },
    {
        match verdict {
            Ok(()) => Ok(self.cfg.endpoint.as_str()),
            Err(source) => Err(
                XdsError::InvalidEndpoint { endpoint: self.cfg.endpoint.clone(), source },
            ),
        }
    }

    /// The failure to reach the control plane, with the reason that the
    /// transport gives.
    pub fn connect_error(&self, source: String) -> (error: XdsError)
        ensures
            error.deep_view() == (XdsErrorView::Connect {
                endpoint: self.deep_view().endpoint,
                source: source@,
            }),
    {
        XdsError::Connect { endpoint: self.cfg.endpoint.clone(), source }
    }

    /// What to do after an attempt ended: an address that is no address is
    /// reported, anything else is tried again.
    pub fn after_attempt(&self, outcome: Result<(), XdsError>) -> (next: AfterAttempt)
        ensures
            next.deep_view() == match outcome {
                Err(error) => if error is InvalidEndpoint {
                    AfterAttemptView::Fail(error.deep_view())
                } else {
                    AfterAttemptView::Reconnect(self.deep_view().reconnect_delay)
                },
                Ok(_) => AfterAttemptView::Reconnect(self.deep_view().reconnect_delay),
            },
    {
        match outcome {
            Err(error) => {
                if error.is_final() {
                    AfterAttempt::Fail(error)
                } else {
                    AfterAttempt::Reconnect(self.cfg.reconnect_delay)
                }
            },
            Ok(()) => AfterAttempt::Reconnect(self.cfg.reconnect_delay),
        }
    }

    /// The gateway as the control plane sees it, under a node id.
    pub fn node(&self, node_id: String) -> (node: Node)
        ensures
            node.deep_view() == node_of(self.deep_view().identity, node_id@),
    {
        let metadata: RouterMetadata = self.cfg.identity.metadata();
        let ghost told = metadata.deep_view();
        let mut fields: Vec<(String, String)> = Vec::new();
        fields.push(("GENERATOR".to_owned(), metadata.generator));
        fields.push(("CLUSTER_ID".to_owned(), metadata.cluster_id));
        fields.push(("NAMESPACE".to_owned(), metadata.namespace));
        if let Some(node_name) = metadata.node_name {
            fields.push(("KUBE_NODE_NAME".to_owned(), node_name));
        }
        let node = Node {
            id: node_id,
            cluster: self.cfg.identity.cluster_id.clone(),
            metadata: fields,
        };
        assert(node.metadata.deep_view() =~= node_of(
            self.deep_view().identity,
            node_id@,
        ).metadata);
        node
    }

    /// Starts an exchange: nothing is known, and the configured listeners are
    /// asked for.
    pub fn start(&self, node_id: String) -> (started: (Session, DiscoveryRequest))
        ensures
            started.0.wf(),
            started.0.deep_view() == started_session(self.deep_view(), node_id@),
            started.1.deep_view() == first_request(
                node_of(self.deep_view().identity, node_id@),
                LISTENER_TYPE@,
                ascending(self.deep_view().listener_names.to_set()),
            ),
    {
        let node: Node = self.node(node_id);
        let mut state: AdsState = AdsState::default();
        let listener_names: Vec<String> = self.cfg.listener_names.clone();
        assert(listener_names.deep_view() =~= self.cfg.listener_names.deep_view());
        let names: Vec<String> = sorted_unique(listener_names);
        let asked: Vec<String> = names.clone();
        assert(asked.deep_view() =~= names.deep_view());
        let _ = state.set_subscription(LISTENER_TYPE, asked);
        let request: DiscoveryRequest = discovery_request(&node, LISTENER_TYPE, names, "", "");
        (Session { node, state }, request)
    }
}

/// An exchange with the control plane.
pub struct Session {
    node: Node,
    state: AdsState,
}

/// What an exchange stands for.
#[verifier::ext_equal]
pub struct SessionView {
    pub node: NodeView,
    pub state: AdsStateView,
}

impl DeepView for Session {
    type V = SessionView;

    closed spec fn deep_view(&self) -> SessionView {
        SessionView { node: self.node.deep_view(), state: self.state.deep_view() }
    }
}

/// The exchange that a client starts.
pub open spec fn started_session(client: XdsClientConfigView, node_id: Seq<char>) -> SessionView {
    SessionView {
        node: node_of(client.identity, node_id),
        state: nothing_known().subscribed(LISTENER_TYPE@, client.listener_names),
    }
}

/// What a response leads to.
#[derive(Debug)]
pub struct Progress {
    /// The requests to send, in this order.
    pub requests: Vec<DiscoveryRequest>,
    /// The configuration that the known resources make up, where it has no
    /// conflicts.
    pub config: Option<RuntimeConfig>,
}

/// What the consequences of a response stand for.
#[verifier::ext_equal]
pub struct ProgressView {
    pub requests: Seq<DiscoveryRequestView>,
    pub config: Option<RuntimeConfigView>,
}

impl DeepView for Progress {
    type V = ProgressView;

    open spec fn deep_view(&self) -> ProgressView {
        ProgressView { requests: self.requests.deep_view(), config: self.config.deep_view() }
    }
}

impl AdsStateView {
    /// Whether exactly these names of a resource type were asked for.
    pub open spec fn asks_for(self, type_url: Seq<char>, names: Seq<Seq<char>>) -> bool {
        self.subscriptions.dom().contains(type_url) && self.subscriptions[type_url] == ascending(
            names.to_set(),
        )
    }
}

/// The state and the requests after asking for what is worth asking for. What
/// is asked for already is not asked for again.
pub open spec fn followed(
    state: AdsStateView,
    node: NodeView,
    wanted: Seq<(Seq<char>, Seq<Seq<char>>)>,
) -> (AdsStateView, Seq<DiscoveryRequestView>)
    decreases wanted.len(),
{
    if wanted.len() == 0 {
        (state, Seq::<DiscoveryRequestView>::empty())
    } else {
        let (before, requests) = followed(state, node, wanted.drop_last());
        let (type_url, names) = wanted.last();
        (
            before.subscribed(type_url, names),
            if before.asks_for(type_url, names) {
                requests
            } else {
                requests.push(first_request(node, type_url, names))
            },
        )
    }
}

impl SessionView {
    /// The exchange and the consequences of a response that was taken in, given
    /// the state right after it was.
    pub open spec fn answered(
        self,
        state: AdsStateView,
        response: proto::DiscoveryResponseView,
    ) -> (SessionView, ProgressView) {
        let (asked, requests) = followed(
            state,
            self.node,
            state.updates(response.resources).wanted(),
        );
        let config = asked.runtime_config(response.version_info);
        (
            SessionView { node: self.node, state: asked },
            ProgressView {
                requests: seq![
                    acknowledgement(self.node, state.subscription(response.type_url), response),
                ] + requests,
                config: if config.valid() {
                    Some(config)
                } else {
                    None
                },
            },
        )
    }
}

impl Session {
    /// The known resources are held in order.
    pub closed spec fn wf(&self) -> bool {
        self.state.wf()
    }

    /// Takes in a response. It is acknowledged, then what it made worth asking
    /// for is asked for; and the configuration is handed out where it has no
    /// conflicts. A malformed response is not acknowledged.
    pub fn on_response(&mut self, response: &proto::DiscoveryResponse) -> (outcome: Result<
        Progress,
        XdsError,
    >)
        requires
            old(self).wf(),
            response.deep_view().consistent(),
        ensures
            final(self).wf(),
            match outcome {
                Ok(progress) => {
                    let (state, failure) = old(self).deep_view().state.after(
                        response.deep_view().resources,
                    );
                    failure is None && (final(self).deep_view(), progress.deep_view()) == old(
                        self,
                    ).deep_view().answered(state, response.deep_view())
                },
                Err(error) => {
                    let (state, failure) = old(self).deep_view().state.after(
                        response.deep_view().resources,
                    );
                    failure == Some(error.deep_view()) && final(self).deep_view() == (SessionView {
                        node: old(self).deep_view().node,
                        state,
                    })
                },
            },
    {
        let ghost start = self.deep_view();
        let ghost view = response.deep_view();
        let updates: DiscoveryUpdates = match self.state.apply_response(response) {
            Ok(updates) => updates,
            Err(error) => {
                return Err(error);
            },
        };
        let ghost state = self.state.deep_view();
        let mut requests: Vec<DiscoveryRequest> = Vec::new();
        let acknowledged: DiscoveryRequest = discovery_request(
            &self.node,
            response.type_url.as_str(),
            self.state.subscription(response.type_url.as_str()),
            response.version_info.as_str(),
            response.nonce.as_str(),
        );
        let ghost ack = acknowledgement(start.node, state.subscription(view.type_url), view);
        assert(acknowledged.deep_view() =~= ack);
        requests.push(acknowledged);
        assert(requests.deep_view() =~= seq![ack]);

        let wanted: Vec<(&'static str, Vec<String>)> = updates.subscriptions();
        let ghost all = wanted.deep_view();
        let mut i: usize = 0;
        proof {
            assert(all.take(0) =~= Seq::<(Seq<char>, Seq<Seq<char>>)>::empty());
            assert(seq![ack] + Seq::<DiscoveryRequestView>::empty() =~= seq![ack]);
        }
        while i < wanted.len()
            invariant
                i <= wanted.len(),
                all == wanted.deep_view(),
                self.state.wf(),
                self.node.deep_view() == start.node,
                self.state.deep_view() == followed(state, start.node, all.take(i as int)).0,
                requests.deep_view() == seq![ack] + followed(
                    state,
                    start.node,
                    all.take(i as int),
                ).1,
            decreases wanted.len() - i,
        {
            let ghost before = self.state.deep_view();
            let ghost sent = requests.deep_view();
            proof {
                assert(all[i as int] == wanted@[i as int].deep_view());
                assert(all.take(i as int + 1).drop_last() =~= all.take(i as int));
                assert(all.take(i as int + 1).last() == all[i as int]);
            }
            let type_url: &'static str = wanted[i].0;
            let names: Vec<String> = wanted[i].1.clone();
            let asked: Vec<String> = wanted[i].1.clone();
            assert(names.deep_view() =~= wanted@[i as int].1.deep_view());
            assert(asked.deep_view() =~= wanted@[i as int].1.deep_view());
            if self.state.set_subscription(type_url, asked) {
                let request: DiscoveryRequest = discovery_request(
                    &self.node,
                    type_url,
                    names,
                    "",
                    "",
                );
                let ghost sent_now = request.deep_view();
                requests.push(request);
                assert(requests.deep_view() =~= sent.push(sent_now));
                assert(sent_now =~= first_request(start.node, all[i as int].0, all[i as int].1));
            }
            assert(requests.deep_view() =~= seq![ack] + followed(
                state,
                start.node,
                all.take(i as int + 1),
            ).1);
            i += 1;
        }
        assert(all.take(i as int) =~= all);
        let config: RuntimeConfig = self.state.runtime_config(response.version_info.as_str());
        let config: Option<RuntimeConfig> = match config.validate() {
            Ok(()) => Some(config),
            Err(_) => None,
        };
        Ok(Progress { requests, config })
    }
}

/// The configuration to hand on, where it differs from the current one.
pub fn publication(config: Option<RuntimeConfig>, current: &RuntimeConfig) -> (published: Option<
    RuntimeConfig,
>)
    ensures
        published.deep_view() == match config.deep_view() {
            Some(view) => if view == current.deep_view() {
                None
            } else {
                Some(view)
            },
            None => None,
        },
{
    match config {
        Some(config) => {
            if config.same_as(current) {
                None
            } else {
                Some(config)
            }
        },
        None => None,
    }
}

} // verus!
