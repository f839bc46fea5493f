//! The gateway: routes the leases of several daemons and tells of them.

pub mod config;
pub mod http;
pub mod reconcile;
