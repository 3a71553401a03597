//! Who the gateway is.

use vstd::prelude::*;
use vstd::string::*;

verus! {

/// The pod that the gateway runs in.
#[derive(Debug, PartialEq, Eq)]
pub struct RouterIdentity {
    pub pod_name: String,
    pub namespace: String,
    pub pod_ip: String,
    pub node_name: Option<String>,
    pub cluster_id: String,
    pub dns_domain: String,
}

/// What an identity stands for.
#[verifier::ext_equal]
pub struct RouterIdentityView {
    pub pod_name: Seq<char>,
    pub namespace: Seq<char>,
    pub pod_ip: Seq<char>,
    pub node_name: Option<Seq<char>>,
    pub cluster_id: Seq<char>,
    pub dns_domain: Seq<char>,
}

impl DeepView for RouterIdentity {
    type V = RouterIdentityView;

    open spec fn deep_view(&self) -> RouterIdentityView {
        RouterIdentityView {
            pod_name: self.pod_name@,
            namespace: self.namespace@,
            pod_ip: self.pod_ip@,
            node_name: self.node_name.deep_view(),
            cluster_id: self.cluster_id@,
            dns_domain: self.dns_domain@,
        }
    }
}

impl Clone for RouterIdentity {
    fn clone(&self) -> (copy: Self)
        ensures
            copy.deep_view() == self.deep_view(),
    {
        RouterIdentity {
            pod_name: self.pod_name.clone(),
            namespace: self.namespace.clone(),
            pod_ip: self.pod_ip.clone(),
            node_name: self.node_name.clone(),
            cluster_id: self.cluster_id.clone(),
            dns_domain: self.dns_domain.clone(),
        }
    }
}

/// What the control plane is told about the gateway.
#[derive(Debug, PartialEq, Eq)]
pub struct RouterMetadata {
    pub generator: String,
    pub cluster_id: String,
    pub namespace: String,
    pub node_name: Option<String>,
}

/// What metadata stands for.
#[verifier::ext_equal]
pub struct RouterMetadataView {
    pub generator: Seq<char>,
    pub cluster_id: Seq<char>,
    pub namespace: Seq<char>,
    pub node_name: Option<Seq<char>>,
}

impl DeepView for RouterMetadata {
    type V = RouterMetadataView;

    open spec fn deep_view(&self) -> RouterMetadataView {
        RouterMetadataView {
            generator: self.generator@,
            cluster_id: self.cluster_id@,
            namespace: self.namespace@,
            node_name: self.node_name.deep_view(),
        }
    }
}

impl RouterIdentityView {
    /// What the control plane is told about the gateway. It asks for the
    /// resources that a gRPC client is given.
    pub open spec fn metadata(self) -> RouterMetadataView {
        RouterMetadataView {
            generator: "grpc"@,
            cluster_id: self.cluster_id,
            namespace: self.namespace,
            node_name: self.node_name,
        }
    }
}

impl RouterIdentity {
    /// What the control plane is told about the gateway.
    pub fn metadata(&self) -> (metadata: RouterMetadata)
        ensures
            metadata.deep_view() == self.deep_view().metadata(),
    {
        RouterMetadata {
            generator: "grpc".to_owned(),
            cluster_id: self.cluster_id.clone(),
            namespace: self.namespace.clone(),
            node_name: self.node_name.clone(),
        }
    }
}

} // verus!
