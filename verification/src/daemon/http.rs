//! What the daemon answers to requests.

use crate::api::LeasesResponse;
use crate::daemon::state;
use crate::daemon::state::AppState;
use crate::net;
use crate::net::Ipv4Addr;
use crate::text;
use vstd::prelude::*;

verus! {

/// The answer to a request for the leases: the leased addresses in the order
/// of the interfaces' names, and the daemon's identifier.
pub fn leases_handler(app: &AppState) -> (r: LeasesResponse)
    ensures
        text::texts(r.ips@) == state::leased_ips(app.leases).map_values(
            |ip: Ipv4Addr| ip.text(),
        ),
        r.dumbarpd_id == app.dumbarpd_id,
{
    let ips: Vec<Ipv4Addr> = app.current_ips();
    LeasesResponse { ips: net::texts_of(&ips), dumbarpd_id: app.dumbarpd_id }
}

/// The answer to a request for the daemon's health.
pub fn healthz_handler() -> (r: String)
    ensures
        r@ == "ok"@,
{
    "ok".to_string()
}

/// A peer that reads the answer gets the leased addresses and the identifier.
pub proof fn law_answer_reads_back(
    ips: Seq<Ipv4Addr>,
    dumbarpd_id: Option<u8>,
    label: Seq<char>,
)
    ensures
        crate::api::leases_of(ips.map_values(|ip: Ipv4Addr| ip.text()), dumbarpd_id, label) == Ok::<
            crate::api::LeasesView,
            crate::api::ParseErrorView,
        >(crate::api::LeasesView { ips, dumbarpd_id }),
{
    net::law_texts_read_back(ips);
}

} // verus!
