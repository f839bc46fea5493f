//! dumbarp.

use vstd::prelude::*;

pub mod api;
pub mod auth;
pub mod cache;
pub mod client;
pub mod common;
pub mod config;
pub mod daemon;
pub mod dhcp_lease;
pub mod engine;
pub mod gateway;
pub mod iface;
pub mod k8s;
pub mod mac;
pub mod names;
pub mod net;
pub mod order;
pub mod packet;
pub mod routerd;
pub mod routing;
pub mod steer;
pub mod text;
pub mod time;
pub mod xdp;

verus! {

} // verus!
