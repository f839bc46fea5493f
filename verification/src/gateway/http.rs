//! What the gateway answers to requests.

use crate::api;
use crate::api::{
    DaemonEntryView, DaemonRoutesView, DaemonsResponse, EntryFields, Leases, ParseErrorView,
};
use crate::config::DaemonEntry;
use crate::names::NameMap;
use crate::net;
use crate::net::Ipv4Addr;
use crate::text;
use vstd::prelude::*;

verus! {

/// A configured daemon with its leases, as the gateway tells of it.
pub open spec fn told_entry(d: DaemonEntry, leases: Leases) -> EntryFields {
    EntryFields {
        name: d.name@,
        nexthop: d.nexthop.text(),
        device: d.device@,
        dumbarpd_id: leases.dumbarpd_id,
        ips: leases.ips@.map_values(|ip: Ipv4Addr| ip.text()),
    }
}

/// The configured daemons that the gateway has leases of, in order.
pub open spec fn told_entries(daemons: Seq<DaemonEntry>, view: Map<Seq<char>, Leases>) -> Seq<
    EntryFields,
>
    decreases daemons.len(),
{
    if daemons.len() == 0 {
        Seq::empty()
    } else {
        let d = daemons.last();
        let before = told_entries(daemons.drop_last(), view);
        if view.dom().contains(d.name@) {
            before.push(told_entry(d, view[d.name@]))
        } else {
            before
        }
    }
}

/// The answer to a request for the daemons.
pub fn daemons_handler(daemons: &Vec<DaemonEntry>, view: &NameMap<Leases>) -> (r: DaemonsResponse)
    ensures
        api::entry_fields(r.daemons@) == told_entries(daemons@, view@),
{
    let mut entries: Vec<DaemonEntryView> = Vec::new();
    let mut i: usize = 0;
    assert(api::entry_fields(entries@) =~= Seq::<EntryFields>::empty());
    while i < daemons.len()
        invariant
            i <= daemons@.len(),
            api::entry_fields(entries@) == told_entries(daemons@.take(i as int), view@),
        decreases daemons@.len() - i,
    {
        assert(daemons@.take(i + 1).drop_last() =~= daemons@.take(i as int));
        let d: &DaemonEntry = &daemons[i];
        if let Some(leases) = view.get(d.name.as_str()) {
            let ghost before = entries@;
            let entry = DaemonEntryView {
                name: d.name.clone(),
                nexthop: d.nexthop.to_text(),
                device: d.device.clone(),
                dumbarpd_id: leases.dumbarpd_id,
                ips: net::texts_of(&leases.ips),
            };
            assert(entry@ =~= told_entry(*d, *leases));
            entries.push(entry);
            assert(api::entry_fields(entries@) =~= api::entry_fields(before).push(entry@));
        }
        i += 1;
    }
    assert(daemons@.take(i as int) =~= daemons@);
    DaemonsResponse { daemons: entries }
}

/// The answer to a request for the gateway's health.
pub fn healthz_handler() -> (r: String)
    ensures
        r@ == "ok"@,
{
    "ok".to_string()
}

/// What a peer makes of the answer.
pub open spec fn told_routes(daemons: Seq<DaemonEntry>, view: Map<Seq<char>, Leases>) -> Seq<
    DaemonRoutesView,
>
    decreases daemons.len(),
{
    if daemons.len() == 0 {
        Seq::empty()
    } else {
        let d = daemons.last();
        let before = told_routes(daemons.drop_last(), view);
        if view.dom().contains(d.name@) {
            before.push(
                DaemonRoutesView {
                    name: d.name@,
                    nexthop: d.nexthop,
                    device: d.device@,
                    dumbarpd_id: view[d.name@].dumbarpd_id,
                    ips: view[d.name@].ips@,
                },
            )
        } else {
            before
        }
    }
}

/// A peer that reads the answer accepts it, and gets each daemon's next hop,
/// device, identifier and leases as the gateway has them. Every configured
/// daemon has a device.
pub proof fn law_answer_reads_back(
    daemons: Seq<DaemonEntry>,
    view: Map<Seq<char>, Leases>,
    label: Seq<char>,
)
    requires
        forall|i: int| 0 <= i < daemons.len() ==> (#[trigger] daemons[i]).device@.len() > 0,
    ensures
        api::all_routes_of(told_entries(daemons, view), label) == Ok::<
            Seq<DaemonRoutesView>,
            ParseErrorView,
        >(told_routes(daemons, view)),
    decreases daemons.len(),
{
    if daemons.len() > 0 {
        let rest = daemons.drop_last();
        assert forall|i: int| 0 <= i < rest.len() implies (#[trigger] rest[i]).device@.len() > 0 by {
            assert(daemons[i].device@.len() > 0);
        }
        law_answer_reads_back(rest, view, label);
        let d = daemons.last();
        assert(daemons[daemons.len() - 1].device@.len() > 0);
        if view.dom().contains(d.name@) {
            let entry = told_entry(d, view[d.name@]);
            net::law_text_reads_back(d.nexthop);
            net::law_texts_read_back(view[d.name@].ips@);
            assert(told_entries(daemons, view).drop_last() =~= told_entries(rest, view));
        }
    }
}

/// Each configured daemon that the gateway has leases of is told of, in
/// order: its name, next hop, device, identifier and leased addresses. No
/// other daemon is.
pub proof fn law_every_daemon_with_leases_is_told_of(
    first: Seq<DaemonEntry>,
    second: Seq<DaemonEntry>,
    one: DaemonEntry,
    view: Map<Seq<char>, Leases>,
)
    ensures
        told_entries(first + second, view) == told_entries(first, view) + told_entries(
            second,
            view,
        ),
        !view.dom().contains(one.name@) ==> told_entries(seq![one], view).len() == 0,
        view.dom().contains(one.name@) ==> ({
            let told = told_entries(seq![one], view);
            let leases = view[one.name@];
            &&& told.len() == 1
            &&& told[0].name == one.name@
            &&& told[0].nexthop == one.nexthop.text()
            &&& told[0].device == one.device@
            &&& told[0].dumbarpd_id == leases.dumbarpd_id
            &&& told[0].ips.len() == leases.ips@.len()
            &&& forall|i: int|
                0 <= i < leases.ips@.len() ==> #[trigger] told[0].ips[i] == leases.ips@[i].text()
        }),
    decreases second.len(),
{
    reveal_with_fuel(told_entries, 2);
    assert(seq![one].drop_last() =~= Seq::<DaemonEntry>::empty());
    let a = told_entries(first, view);
    let b = told_entries(second, view);
    if second.len() > 0 {
        law_every_daemon_with_leases_is_told_of(first, second.drop_last(), one, view);
        assert((first + second).drop_last() =~= first + second.drop_last());
        assert((first + second).last() == second.last());
        assert(told_entries(first + second, view) =~= a + b);
    } else {
        assert(first + second =~= first);
        assert(a + b =~= a);
    }
}

} // verus!
