//! Verified core of owntier: the RouterOS API protocol, MikroTik deployment
//! decisions, network records and the encrypted plugin configuration.
pub mod api;
pub mod attrs;
pub mod bytes;
pub mod crypto;
pub mod deploy;
pub mod keys;
pub mod mikrotik_cmd;
pub mod network;
pub mod network_cmd;
pub mod plugin;
pub mod sort;
pub mod wire;
