//! Verified core of the DomainEgress local proxy client.
pub mod calls;
pub mod cloud;
pub mod config;
pub mod egress;
pub mod hosts;
pub mod hosts_edit_laws;
pub mod hosts_group_laws;
pub mod hosts_laws;
pub mod ip;
pub mod ip_laws;
pub mod local_net;
pub mod maintenance;
pub mod network;
pub mod policy;
pub mod proxy;
pub mod ssh;
pub mod text;
