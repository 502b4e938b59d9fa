//! Entmoot: the verified core of a distributed MQTT databus node.

pub mod admission;
pub mod auth;
pub mod auth_laws;
pub mod broker;
pub mod churn;
pub mod churn_laws;
pub mod clock;
pub mod codec;
pub mod config;
pub mod connection;
pub mod connection_laws;
pub mod ctl;
pub mod durable;
pub mod entry_laws;
pub mod gate;
pub mod health;
pub mod http;
pub mod metrics;
pub mod naming_laws;
pub mod node;
pub mod node_laws;
pub mod packet;
pub mod packet_laws;
pub mod policy;
pub mod prefix;
pub mod quota;
pub mod registry;
pub mod registry_laws;
pub mod retained;
pub mod schema;
pub mod session;
pub mod session_laws;
pub mod staleness;
pub mod store_laws;
pub mod strmap;
pub mod takeover_laws;
pub mod text;
pub mod text_laws;
pub mod topic;
pub mod topic_laws;
