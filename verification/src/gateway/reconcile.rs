//! From the daemons' leases to routes.

use crate::api::Leases;
use crate::cache;
use crate::cache::{CachedEntry, LeaseCache, RoundStats};
use crate::config::DaemonEntry;
use crate::names::NameMap;
use crate::routing;
use crate::routing::{RouteSpec, RouteSpecView};
use vstd::prelude::*;

verus! {

/// What the gateway knows of its daemons.
pub type GatewayState = LeaseCache;

/// The unmarked routes of the configured daemons that have leases.
pub open spec fn gateway_routes(
    daemons: Seq<DaemonEntry>,
    leases: Map<Seq<char>, Leases>,
) -> Seq<RouteSpecView>
    decreases daemons.len(),
{
    if daemons.len() == 0 {
        Seq::empty()
    } else {
        let d = daemons.last();
        let before = gateway_routes(daemons.drop_last(), leases);
        if leases.dom().contains(d.name@) {
            before + routing::specs_for(d.nexthop, d.device@, None, leases[d.name@].ips@)
        } else {
            before
        }
    }
}

/// Turns the daemons' leases into routes.
pub fn build_specs(daemons: &Vec<DaemonEntry>, leases: &NameMap<Leases>) -> (desired: Vec<
    RouteSpec,
>)
    ensures
        routing::spec_views(desired@) == gateway_routes(daemons@, leases@),
{
    let mut desired: Vec<RouteSpec> = Vec::new();
    let mut i: usize = 0;
    assert(routing::spec_views(desired@) =~= Seq::<RouteSpecView>::empty());
    while i < daemons.len()
        invariant
            i <= daemons@.len(),
            routing::spec_views(desired@) == gateway_routes(daemons@.take(i as int), leases@),
        decreases daemons@.len() - i,
    {
        assert(daemons@.take(i + 1).drop_last() =~= daemons@.take(i as int));
        let d: &DaemonEntry = &daemons[i];
        if let Some(leased) = leases.get(d.name.as_str()) {
            routing::push_specs(d.nexthop, &d.device, None, &leased.ips, &mut desired);
        }
        i += 1;
    }
    assert(daemons@.take(i as int) =~= daemons@);
    desired
}

/// Plans a pass: takes the daemons' answers and says which routes are wanted.
pub fn plan_round(
    daemons: &Vec<DaemonEntry>,
    results: Vec<(String, Option<Leases>)>,
    state: &mut GatewayState,
    stale: u128,
    now: u128,
) -> (r: (RoundStats, Vec<RouteSpec>))
    ensures
        ({
            let round = cache::round_view(results@);
            let cached = cache::cached_after(old(state)@, round, now, stale);
            let leases = cached.map_values(|e: CachedEntry<Leases>| e.value);
            &&& final(state)@ == cached
            &&& routing::spec_views(r.1@) == gateway_routes(daemons@, leases)
            &&& r.0.fetched_ok == cache::count_ok(round)
            &&& r.0.used_cache == cache::count_cached(old(state)@, round, now, stale)
            &&& r.0.fetched_ok + r.0.used_cache + r.0.dropped == results@.len()
        }),
{
    let (stats, view) = state.apply_round(results, stale, now);
    let ghost leases = state@.map_values(|e: CachedEntry<Leases>| e.value);
    let desired: Vec<RouteSpec> = build_specs(daemons, &view);
    proof {
        assert forall|n: Seq<char>| #[trigger] leases.dom().contains(n) implies leases[n]@
            == view@[n]@ by {
            assert(view@.dom().contains(n));
            assert(cloned(state@[n].value, view@[n]));
        }
        assert(view@.dom() =~= leases.dom());
        lemma_same_routes(daemons@, leases, view@);
    }
    (stats, desired)
}

proof fn lemma_same_routes(
    daemons: Seq<DaemonEntry>,
    a: Map<Seq<char>, Leases>,
    b: Map<Seq<char>, Leases>,
)
    requires
        a.dom() == b.dom(),
        forall|n: Seq<char>| #[trigger] a.dom().contains(n) ==> a[n]@ == b[n]@,
    ensures
        gateway_routes(daemons, a) == gateway_routes(daemons, b),
    decreases daemons.len(),
{
    if daemons.len() > 0 {
        lemma_same_routes(daemons.drop_last(), a, b);
        let n = daemons.last().name@;
        if a.dom().contains(n) {
            assert(a[n]@.ips == b[n]@.ips);
        }
    }
}

/// Each configured daemon that has leases gets a route for each lease, in
/// order: through its next hop, out of its device, unmarked. A daemon without
/// leases gets none.
pub proof fn law_every_lease_is_routed(
    first: Seq<DaemonEntry>,
    second: Seq<DaemonEntry>,
    one: DaemonEntry,
    leases: Map<Seq<char>, Leases>,
)
    ensures
        gateway_routes(first + second, leases) == gateway_routes(first, leases) + gateway_routes(
            second,
            leases,
        ),
        !leases.dom().contains(one.name@) ==> gateway_routes(seq![one], leases).len() == 0,
        leases.dom().contains(one.name@) ==> ({
            let specs = gateway_routes(seq![one], leases);
            let ips = leases[one.name@].ips@;
            &&& specs.len() == ips.len()
            &&& forall|i: int|
                0 <= i < specs.len() ==> (#[trigger] specs[i]).src == ips[i] && specs[i].gateway
                    == one.nexthop && specs[i].iface == one.device@ && specs[i].fwmark is None
        }),
    decreases second.len(),
{
    reveal_with_fuel(gateway_routes, 2);
    assert(seq![one].drop_last() =~= Seq::<DaemonEntry>::empty());
    let a = gateway_routes(first, leases);
    let b = gateway_routes(second, leases);
    if second.len() > 0 {
        law_every_lease_is_routed(first, second.drop_last(), one, leases);
        assert((first + second).drop_last() =~= first + second.drop_last());
        assert((first + second).last() == second.last());
        assert(gateway_routes(first + second, leases) =~= a + b);
    } else {
        assert(first + second =~= first);
        assert(a + b =~= a);
    }
}

} // verus!
