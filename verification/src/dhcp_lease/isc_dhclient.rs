//! The lease files of the ISC DHCP client.

pub mod lease_parser;
pub mod read_lease;
