//! The controller: mirrors the leases of several hosts into address pools of
//! a cluster.

pub mod config;
pub mod crd;
pub mod reconcile;
