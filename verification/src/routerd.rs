//! The router: marks traffic by the daemon it belongs to and routes it back.

pub mod config;
pub mod datapath;
pub mod ids;
pub mod reconcile;
