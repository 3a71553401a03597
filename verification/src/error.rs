//! What can be wrong with a configuration or with a request.

use crate::same::Same;
use vstd::prelude::*;
use vstd::string::*;

verus! {

/// A reason why a configuration cannot be applied.
#[derive(Debug, PartialEq, Eq)]
pub struct ConfigConflict {
    pub kind: String,
    pub message: String,
}

/// What a conflict stands for.
pub struct ConfigConflictView {
    pub kind: Seq<char>,
    pub message: Seq<char>,
}

impl DeepView for ConfigConflict {
    type V = ConfigConflictView;

    open spec fn deep_view(&self) -> ConfigConflictView {
        ConfigConflictView { kind: self.kind@, message: self.message@ }
    }
}

impl Clone for ConfigConflict {
    fn clone(&self) -> (copy: Self)
        ensures
            copy.deep_view() == self.deep_view(),
    {
        ConfigConflict { kind: self.kind.clone(), message: self.message.clone() }
    }
}

impl Same for ConfigConflict {
    fn same_as(&self, other: &Self) -> (same: bool) {
        self.kind.same_as(&other.kind) && self.message.same_as(&other.message)
    }
}

impl ConfigConflict {
    /// A conflict of a kind, with its explanation.
    pub fn new(kind: &str, message: String) -> (conflict: Self)
        ensures
            conflict.deep_view() == (ConfigConflictView { kind: kind@, message: message@ }),
    {
        ConfigConflict { kind: kind.to_owned(), message }
    }
}

/// Why a request cannot be sent on.
#[derive(Debug, PartialEq, Eq)]
pub enum DxgateError {
    RouteNotFound { host: String, path: String },
    NoHealthyEndpoints(String),
}

/// What an error stands for.
pub enum DxgateErrorView {
    RouteNotFound { host: Seq<char>, path: Seq<char> },
    NoHealthyEndpoints(Seq<char>),
}

impl DeepView for DxgateError {
    type V = DxgateErrorView;

    open spec fn deep_view(&self) -> DxgateErrorView {
        match self {
            DxgateError::RouteNotFound { host, path } => DxgateErrorView::RouteNotFound {
                host: host@,
                path: path@,
            },
            DxgateError::NoHealthyEndpoints(cluster) => DxgateErrorView::NoHealthyEndpoints(
                cluster@,
            ),
        }
    }
}

/// Why the exchange with the control plane failed.
#[derive(Debug, PartialEq, Eq)]
pub enum XdsError {
    InvalidEndpoint { endpoint: String, source: String },
    Connect { endpoint: String, source: String },
    StreamOpen(String),
    StreamReceive(String),
    RequestChannelClosed,
    Decode { type_url: String, source: String },
    RuntimeConfigClosed,
}

/// What a failure stands for.
pub enum XdsErrorView {
    InvalidEndpoint { endpoint: Seq<char>, source: Seq<char> },
    Connect { endpoint: Seq<char>, source: Seq<char> },
    StreamOpen(Seq<char>),
    StreamReceive(Seq<char>),
    RequestChannelClosed,
    Decode { type_url: Seq<char>, source: Seq<char> },
    RuntimeConfigClosed,
}

impl DeepView for XdsError {
    type V = XdsErrorView;

    open spec fn deep_view(&self) -> XdsErrorView {
        match self {
            XdsError::InvalidEndpoint { endpoint, source } => XdsErrorView::InvalidEndpoint {
                endpoint: endpoint@,
                source: source@,
            },
            XdsError::Connect { endpoint, source } => XdsErrorView::Connect {
                endpoint: endpoint@,
                source: source@,
            },
            XdsError::StreamOpen(status) => XdsErrorView::StreamOpen(status@),
            XdsError::StreamReceive(status) => XdsErrorView::StreamReceive(status@),
            XdsError::RequestChannelClosed => XdsErrorView::RequestChannelClosed,
            XdsError::Decode { type_url, source } => XdsErrorView::Decode {
                type_url: type_url@,
                source: source@,
            },
            XdsError::RuntimeConfigClosed => XdsErrorView::RuntimeConfigClosed,
        }
    }
}

impl XdsErrorView {
    /// The text in which a failure is reported.
    pub open spec fn message(self) -> Seq<char> {
        match self {
            XdsErrorView::InvalidEndpoint { endpoint, source } => "invalid xDS endpoint "@
                + endpoint + ": "@ + source,
            XdsErrorView::Connect { endpoint, source } => "failed connecting to xDS endpoint "@
                + endpoint + ": "@ + source,
            XdsErrorView::StreamOpen(status) => "failed opening ADS stream: "@ + status,
            XdsErrorView::StreamReceive(status) => "ADS stream receive failed: "@ + status,
            XdsErrorView::RequestChannelClosed => "ADS request channel is closed"@,
            XdsErrorView::Decode { type_url, source } => "failed decoding "@ + type_url
                + " resource: "@ + source,
            XdsErrorView::RuntimeConfigClosed => "runtime config watcher is closed"@,
        }
    }
}

impl XdsError {
    /// The text in which the failure is reported.
    pub fn message(&self) -> (text: String)
        ensures
            text@ == self.deep_view().message(),
    {
        match self {
            XdsError::InvalidEndpoint { endpoint, source } => "invalid xDS endpoint ".to_owned().concat(
                endpoint.as_str(),
            ).concat(": ").concat(source.as_str()),
            XdsError::Connect { endpoint, source } => "failed connecting to xDS endpoint ".to_owned().concat(
                endpoint.as_str(),
            ).concat(": ").concat(source.as_str()),
            XdsError::StreamOpen(status) => "failed opening ADS stream: ".to_owned().concat(
                status.as_str(),
            ),
            XdsError::StreamReceive(status) => "ADS stream receive failed: ".to_owned().concat(
                status.as_str(),
            ),
            XdsError::RequestChannelClosed => "ADS request channel is closed".to_owned(),
            XdsError::Decode { type_url, source } => "failed decoding ".to_owned().concat(
                type_url.as_str(),
            ).concat(" resource: ").concat(source.as_str()),
            XdsError::RuntimeConfigClosed => "runtime config watcher is closed".to_owned(),
        }
    }

    /// Whether connecting again cannot help: the endpoint itself is not valid.
    pub fn is_final(&self) -> (last: bool)
        ensures
            last == (self is InvalidEndpoint),
    {
        match self {
            XdsError::InvalidEndpoint { .. } => true,
            _ => false,
        }
    }
}

} // verus!
