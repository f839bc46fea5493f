//! What the daemon knows: its token, its identifier and its leases.

use crate::daemon::lease::LeaseInfo;
use crate::names;
use crate::names::NameMap;
use crate::net::Ipv4Addr;
use crate::routing;
use crate::routing::{RouteSpec, RouteSpecView};
use vstd::prelude::*;

verus! {

/// The daemon's state. The leases are kept by the name of their interface.
pub struct AppState {
    pub auth_token: String,
    pub dumbarpd_id: Option<u8>,
    pub leases: NameMap<LeaseInfo>,
}

/// The leased addresses in the order of the interfaces' names.
pub open spec fn leased_ips(leases: NameMap<LeaseInfo>) -> Seq<Ipv4Addr> {
    leases.names().map_values(|n: Seq<char>| leases@[n].ip)
}

/// The routes of the leases in the order of the interfaces' names: from the
/// leased address through the lease's gateway, unmarked.
pub open spec fn lease_routes(leases: NameMap<LeaseInfo>) -> Seq<RouteSpecView> {
    leases.names().map_values(
        |n: Seq<char>|
            RouteSpecView {
                src: leases@[n].ip,
                gateway: leases@[n].gateway,
                iface: n,
                fwmark: None,
            },
    )
}

impl AppState {
    pub fn new(auth_token: String, dumbarpd_id: Option<u8>) -> (s: Self)
        ensures
            s.auth_token == auth_token,
            s.dumbarpd_id == dumbarpd_id,
            s.leases@ == Map::<Seq<char>, LeaseInfo>::empty(),
    {
        AppState { auth_token, dumbarpd_id, leases: NameMap::new() }
    }

    pub fn current_ips(&self) -> (r: Vec<Ipv4Addr>)
        ensures
            r@ == leased_ips(self.leases),
            names::lists_names(self.leases.names(), self.leases@),
    {
        let len: usize = self.leases.len();
        let mut r: Vec<Ipv4Addr> = Vec::new();
        let mut i: usize = 0;
        while i < len
            invariant
                i <= len == self.leases.names().len(),
                r@ == leased_ips(self.leases).take(i as int),
            decreases len - i,
        {
            r.push(self.leases.value_at(i).ip);
            assert(r@ =~= leased_ips(self.leases).take(i + 1));
            i += 1;
        }
        assert(leased_ips(self.leases).take(i as int) =~= leased_ips(self.leases));
        r
    }

    pub fn current_routes(&self) -> (r: Vec<RouteSpec>)
        ensures
            routing::spec_views(r@) == lease_routes(self.leases),
            names::lists_names(self.leases.names(), self.leases@),
    {
        let len: usize = self.leases.len();
        let mut r: Vec<RouteSpec> = Vec::new();
        let mut i: usize = 0;
        while i < len
            invariant
                i <= len == self.leases.names().len(),
                routing::spec_views(r@) == lease_routes(self.leases).take(i as int),
            decreases len - i,
        {
            let info: LeaseInfo = *self.leases.value_at(i);
            let iface: String = self.leases.name_at(i).clone();
            let ghost before = r@;
            r.push(RouteSpec { src: info.ip, gateway: info.gateway, iface, fwmark: None });
            assert(routing::spec_views(r@) =~= routing::spec_views(before).push(r@.last()@));
            assert(routing::spec_views(r@) =~= lease_routes(self.leases).take(i + 1));
            i += 1;
        }
        assert(lease_routes(self.leases).take(i as int) =~= lease_routes(self.leases));
        r
    }
}

/// Each interface with a lease has its address among the leased ones and one
/// route, from that address through the lease's gateway out of the interface,
/// unmarked; there are no others.
pub proof fn law_every_lease_is_served(leases: NameMap<LeaseInfo>, name: Seq<char>)
    requires
        names::lists_names(leases.names(), leases@),
    ensures
        leased_ips(leases).len() == leases.names().len(),
        lease_routes(leases).len() == leases.names().len(),
        leases@.dom().contains(name) ==> leased_ips(leases).contains(leases@[name].ip),
        leases@.dom().contains(name) <==> exists|i: int|
            0 <= i < lease_routes(leases).len() && (#[trigger] lease_routes(leases)[i]).iface
                == name,
        forall|i: int|
            0 <= i < lease_routes(leases).len() && (#[trigger] lease_routes(leases)[i]).iface == name
                ==> lease_routes(leases)[i].src == leases@[name].ip && lease_routes(
                leases,
            )[i].gateway == leases@[name].gateway && lease_routes(leases)[i].fwmark is None
                && leased_ips(leases)[i] == leases@[name].ip,
{
    if leases@.dom().contains(name) {
        let k = leases.names().index_of(name);
        assert(leases.names().contains(name));
        assert(leased_ips(leases)[k] == leases@[name].ip);
        assert(lease_routes(leases)[k].iface == name);
    }
}

} // verus!
