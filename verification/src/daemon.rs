//! The daemon that answers for leased addresses and hands them out.

pub mod config;
pub mod dhcp;
pub mod http;
pub mod lease;
pub mod neigh;
pub mod routing;
pub mod state;
