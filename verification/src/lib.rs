//! The verified core of dxgate, a gateway proxy that is configured over xDS.

pub mod address;
pub mod address_laws;
pub mod ads;
pub mod ads_laws;
pub mod client;
pub mod config;
pub mod config_laws;
pub mod conflict_laws;
pub mod convert;
pub mod endpoint_laws;
pub mod error;
pub mod exchange_laws;
pub mod forward;
pub mod forward_laws;
pub mod headers;
pub mod identity;
pub mod lists;
pub mod material_laws;
pub mod message_laws;
pub mod mtls;
pub mod mtls_laws;
pub mod names;
pub mod pem;
pub mod picker_laws;
pub mod proto;
pub mod resource_laws;
pub mod routing;
pub mod routing_laws;
pub mod same;
pub mod session_laws;
pub mod snapshot_laws;
pub mod snapshots;
pub mod state;
pub mod text;
pub mod text_laws;
pub mod validate;
pub mod view_laws;
