//! A lease as the daemon keeps it.

use crate::net::Ipv4Addr;
use vstd::prelude::*;

verus! {

#[derive(Debug, Clone, Copy, PartialEq, Eq, Structural)]
pub struct LeaseInfo {
    pub ip: Ipv4Addr,
    pub gateway: Ipv4Addr,
}

} // verus!
