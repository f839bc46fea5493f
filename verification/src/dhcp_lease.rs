//! The lease that a DHCP client holds.

pub mod isc_dhclient;

use vstd::prelude::*;

verus! {

#[derive(Debug, Clone)]
pub struct DhcpLease {
    pub interface: String,
    pub ip_address: String,
    pub subnet_mask: String,
    pub router: String,
    pub expired: bool,
}

#[verifier::ext_equal]
pub struct DhcpLeaseView {
    pub interface: Seq<char>,
    pub ip_address: Seq<char>,
    pub subnet_mask: Seq<char>,
    pub router: Seq<char>,
    pub expired: bool,
}

impl View for DhcpLease {
    type V = DhcpLeaseView;

    open spec fn view(&self) -> DhcpLeaseView {
        DhcpLeaseView {
            interface: self.interface@,
            ip_address: self.ip_address@,
            subnet_mask: self.subnet_mask@,
            router: self.router@,
            expired: self.expired,
        }
    }
}

/// A source of the current lease.
pub trait ReadDhcpLease {
    fn read_dhcp_lease(&self) -> Option<DhcpLease>;
}

} // verus!
