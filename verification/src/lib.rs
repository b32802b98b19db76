//! OMA-ID endpoint agent library: lease authorization, the local IPC
//! protocol, signed-lease storage, issuer key sets, and the decisions of
//! the agent, its socket service and the PAM front end.

pub mod text;
pub mod authz;
pub mod canonical;
pub mod codec;
pub mod ipc;
pub mod keys;
pub mod store;
pub mod service;
pub mod cli;
pub mod provisioning;
pub mod agent;
pub mod enrollment;
pub mod pam_client;
pub mod pam_module;
