//! From what the daemons or a gateway say to routes, identifiers and marks.

use crate::api;
use crate::api::{DaemonRoutes, DaemonRoutesView, Leases};
use crate::cache;
use crate::cache::{Cache, CachedEntry, LeaseCache, RoundStats};
use crate::names;
use crate::names::NameMap;
use crate::net::Ipv4Addr;
use crate::routerd::config::DaemonEntry;
use crate::routerd::ids;
use crate::routerd::ids::RememberedId;
use crate::routing;
use crate::routing::{RouteSpec, RouteSpecView};
use std::collections::{HashMap, HashSet};
use vstd::prelude::*;

verus! {

/// The name under which a gateway's answer is cached.
pub const GATEWAY_CACHE_KEY: &'static str = "gateway";

/// The device of a daemon: the configured one where there is one.
pub open spec fn device_of(d: DaemonRoutesView, overrides: Map<Seq<char>, String>) -> Seq<char> {
    if overrides.dom().contains(d.name) {
        overrides[d.name]@
    } else {
        d.device
    }
}

/// The routes of the daemons that have an identifier, marked with it.
pub open spec fn gateway_specs(
    daemons: Seq<DaemonRoutesView>,
    overrides: Map<Seq<char>, String>,
    ids: Map<Seq<char>, u8>,
) -> Seq<RouteSpecView>
    decreases daemons.len(),
{
    if daemons.len() == 0 {
        Seq::empty()
    } else {
        let d = daemons.last();
        let before = gateway_specs(daemons.drop_last(), overrides, ids);
        if ids.dom().contains(d.name) {
            before + routing::specs_for(
                d.nexthop,
                device_of(d, overrides),
                Some(ids[d.name] as u32),
                d.ips,
            )
        } else {
            before
        }
    }
}

/// The identifiers of the daemons that have one.
pub open spec fn gateway_ids(daemons: Seq<DaemonRoutesView>, ids: Map<Seq<char>, u8>) -> Set<u8>
    decreases daemons.len(),
{
    if daemons.len() == 0 {
        Set::empty()
    } else {
        let d = daemons.last();
        let before = gateway_ids(daemons.drop_last(), ids);
        if ids.dom().contains(d.name) {
            before.insert(ids[d.name])
        } else {
            before
        }
    }
}

/// Turns a gateway's answer into routes and the identifiers in use. A daemon
/// without an identifier is skipped.
pub fn build_gateway_specs(
    daemons: &Vec<DaemonRoutes>,
    device_overrides: &NameMap<String>,
    ids: &NameMap<u8>,
) -> (r: (Vec<RouteSpec>, HashSet<u8>))
    ensures
        routing::spec_views(r.0@) == gateway_specs(
            api::routes_views(daemons@),
            device_overrides@,
            ids@,
        ),
        r.1@ == gateway_ids(api::routes_views(daemons@), ids@),
{
    broadcast use vstd::std_specs::hash::group_hash_axioms;

    let ghost all = api::routes_views(daemons@);
    let mut id_set: HashSet<u8> = HashSet::new();
    let mut desired: Vec<RouteSpec> = Vec::new();
    let mut i: usize = 0;
    assert(routing::spec_views(desired@) =~= Seq::<RouteSpecView>::empty());
    while i < daemons.len()
        invariant
            i <= daemons@.len(),
            all == api::routes_views(daemons@),
            routing::spec_views(desired@) == gateway_specs(
                all.take(i as int),
                device_overrides@,
                ids@,
            ),
            id_set@ == gateway_ids(all.take(i as int), ids@),
        decreases daemons@.len() - i,
    {
        assert(all.take(i + 1).drop_last() =~= all.take(i as int));
        let d: &DaemonRoutes = &daemons[i];
        assert(all.take(i + 1).last() == d@);
        if let Some(id) = ids.get(d.name.as_str()) {
            id_set.insert(*id);
            let mark: u32 = *id as u32;
            match device_overrides.get(d.name.as_str()) {
                Some(device) => routing::push_specs(
                    d.nexthop,
                    device,
                    Some(mark),
                    &d.ips,
                    &mut desired,
                ),
                None => routing::push_specs(
                    d.nexthop,
                    &d.device,
                    Some(mark),
                    &d.ips,
                    &mut desired,
                ),
            }
        }
        i += 1;
    }
    assert(all.take(i as int) =~= all);
    (desired, id_set)
}

/// The routes of the configured daemons that have both leases and an
/// identifier, marked with it.
pub open spec fn daemon_specs(
    daemons: Seq<DaemonEntry>,
    leases: Map<Seq<char>, Leases>,
    ids: Map<Seq<char>, u8>,
) -> Seq<RouteSpecView>
    decreases daemons.len(),
{
    if daemons.len() == 0 {
        Seq::empty()
    } else {
        let d = daemons.last();
        let before = daemon_specs(daemons.drop_last(), leases, ids);
        if leases.dom().contains(d.name@) && ids.dom().contains(d.name@) {
            before + routing::specs_for(
                d.nexthop,
                d.device@,
                Some(ids[d.name@] as u32),
                leases[d.name@].ips@,
            )
        } else {
            before
        }
    }
}

/// Turns the daemons' leases into routes.
pub fn build_daemon_specs(
    daemons: &Vec<DaemonEntry>,
    leases: &NameMap<Leases>,
    ids: &NameMap<u8>,
) -> (desired: Vec<RouteSpec>)
    ensures
        routing::spec_views(desired@) == daemon_specs(daemons@, leases@, ids@),
{
    let mut desired: Vec<RouteSpec> = Vec::new();
    let mut i: usize = 0;
    assert(routing::spec_views(desired@) =~= Seq::<RouteSpecView>::empty());
    while i < daemons.len()
        invariant
            i <= daemons@.len(),
            routing::spec_views(desired@) == daemon_specs(daemons@.take(i as int), leases@, ids@),
        decreases daemons@.len() - i,
    {
        assert(daemons@.take(i + 1).drop_last() =~= daemons@.take(i as int));
        let d: &DaemonEntry = &daemons[i];
        if let Some(leased) = leases.get(d.name.as_str()) {
            if let Some(id) = ids.get(d.name.as_str()) {
                let mark: u32 = *id as u32;
                routing::push_specs(d.nexthop, &d.device, Some(mark), &leased.ips, &mut desired);
            }
        }
        i += 1;
    }
    assert(daemons@.take(i as int) =~= daemons@);
    desired
}

/// What the configured daemons advertise, in order, by their leases.
pub open spec fn advertised_by(daemons: Seq<DaemonEntry>, leases: Map<Seq<char>, Leases>) -> Seq<
    (Seq<char>, Option<u8>),
> {
    daemons.map_values(
        |d: DaemonEntry|
            (
                d.name@,
                if leases.dom().contains(d.name@) {
                    leases[d.name@].dumbarpd_id
                } else {
                    None
                },
            ),
    )
}

/// Collects what the configured daemons advertise.
pub fn advertised(daemons: &Vec<DaemonEntry>, leases: &NameMap<Leases>) -> (r: Vec<
    (String, Option<u8>),
>)
    ensures
        ids::advertised_view(r@) == advertised_by(daemons@, leases@),
{
    let mut r: Vec<(String, Option<u8>)> = Vec::new();
    let mut i: usize = 0;
    while i < daemons.len()
        invariant
            i <= daemons@.len(),
            ids::advertised_view(r@) == advertised_by(daemons@.take(i as int), leases@),
        decreases daemons@.len() - i,
    {
        let d: &DaemonEntry = &daemons[i];
        let id: Option<u8> = match leases.get(d.name.as_str()) {
            Some(l) => l.dumbarpd_id,
            None => None,
        };
        let ghost before = r@;
        r.push((d.name.clone(), id));
        assert(ids::advertised_view(r@) =~= ids::advertised_view(before).push((d.name@, id)));
        assert(advertised_by(daemons@.take(i + 1), leases@) =~= advertised_by(
            daemons@.take(i as int),
            leases@,
        ).push((d.name@, id)));
        i += 1;
    }
    assert(daemons@.take(i as int) =~= daemons@);
    r
}

/// What a gateway says its daemons advertise, in order.
pub open spec fn advertised_in(daemons: Seq<DaemonRoutesView>) -> Seq<(Seq<char>, Option<u8>)> {
    daemons.map_values(|d: DaemonRoutesView| (d.name, d.dumbarpd_id))
}

/// Collects what a gateway says its daemons advertise.
pub fn advertised_of(daemons: &Vec<DaemonRoutes>) -> (r: Vec<(String, Option<u8>)>)
    ensures
        ids::advertised_view(r@) == advertised_in(api::routes_views(daemons@)),
{
    let mut r: Vec<(String, Option<u8>)> = Vec::new();
    let mut i: usize = 0;
    while i < daemons.len()
        invariant
            i <= daemons@.len(),
            ids::advertised_view(r@) == advertised_in(api::routes_views(daemons@.take(i as int))),
        decreases daemons@.len() - i,
    {
        let d: &DaemonRoutes = &daemons[i];
        let ghost before = r@;
        r.push((d.name.clone(), d.dumbarpd_id));
        let ghost entry = (d.name@, d.dumbarpd_id);
        assert(ids::advertised_view(r@) =~= ids::advertised_view(before).push(entry));
        assert(advertised_in(api::routes_views(daemons@.take(i + 1))) =~= advertised_in(
            api::routes_views(daemons@.take(i as int)),
        ).push(entry));
        i += 1;
    }
    assert(daemons@.take(i as int) =~= daemons@);
    r
}

/// The mark of each marked source address, the last one counting.
pub open spec fn marks_of(specs: Seq<RouteSpecView>) -> Map<u32, u32>
    decreases specs.len(),
{
    if specs.len() == 0 {
        Map::empty()
    } else {
        let before = marks_of(specs.drop_last());
        match specs.last().fwmark {
            Some(mark) => before.insert(specs.last().src.bits, mark),
            None => before,
        }
    }
}

/// Collects the mark of each source address, keyed by the address's number.
pub fn src_marks(desired: &Vec<RouteSpec>) -> (marks: HashMap<u32, u32>)
    ensures
        marks@ == marks_of(routing::spec_views(desired@)),
{
    broadcast use vstd::std_specs::hash::group_hash_axioms;

    let ghost all = routing::spec_views(desired@);
    let mut marks: HashMap<u32, u32> = HashMap::new();
    let mut i: usize = 0;
    while i < desired.len()
        invariant
            i <= desired@.len(),
            all == routing::spec_views(desired@),
            marks@ == marks_of(all.take(i as int)),
        decreases desired@.len() - i,
    {
        assert(all.take(i + 1).drop_last() =~= all.take(i as int));
        assert(all.take(i + 1).last() == desired@[i as int]@);
        if let Some(mark) = desired[i].fwmark {
            marks.insert(desired[i].src.bits, mark);
        }
        i += 1;
    }
    assert(all.take(i as int) =~= all);
    marks
}

/// The identifiers that daemons have.
pub open spec fn ids_in_use(ids: Map<Seq<char>, u8>) -> Set<u8> {
    Set::new(|id: u8| exists|n: Seq<char>| #[trigger] ids.dom().contains(n) && ids[n] == id)
}

/// Collects the identifiers that daemons have.
pub fn id_set(ids: &NameMap<u8>) -> (r: HashSet<u8>)
    ensures
        r@ == ids_in_use(ids@),
{
    broadcast use vstd::std_specs::hash::group_hash_axioms;

    let mut r: HashSet<u8> = HashSet::new();
    let len: usize = ids.len();
    let ghost listed = ids.names();
    let mut i: usize = 0;
    while i < len
        invariant
            i <= len == listed.len(),
            listed == ids.names(),
            names::lists_names(listed, ids@),
            forall|id: u8| #[trigger]
                r@.contains(id) <==> exists|k: int|
                    0 <= k < i && ids@[#[trigger] listed[k]] == id,
        decreases len - i,
    {
        let id: u8 = *ids.value_at(i);
        r.insert(id);
        proof {
            assert forall|x: u8| #[trigger] r@.contains(x) <==> exists|k: int|
                0 <= k < i + 1 && ids@[#[trigger] listed[k]] == x by {
                if x == id {
                    assert(ids@[listed[i as int]] == x);
                }
            }
        }
        i += 1;
    }
    proof {
        let want = ids_in_use(ids@);
        assert forall|x: u8| #[trigger] r@.contains(x) <==> want.contains(x) by {
            if want.contains(x) {
                let n = choose|n: Seq<char>| #[trigger] ids@.dom().contains(n) && ids@[n] == x;
                let k = listed.index_of(n);
                assert(ids@[listed[k]] == x);
            }
        }
        assert(r@ =~= want);
    }
    r
}

/// What one pass has to bring about.
pub struct RoundPlan {
    pub stats: RoundStats,
    pub desired: Vec<RouteSpec>,
    pub ids: HashSet<u8>,
    pub src_marks: HashMap<u32, u32>,
}

/// Plans a pass from the daemons' own answers. `fetched_at` is when the
/// answers were in, `now` when the identifiers are decided.
pub fn plan_via_daemons(
    daemons: &Vec<DaemonEntry>,
    results: Vec<(String, Option<Leases>)>,
    cache: &mut LeaseCache,
    known: &mut NameMap<RememberedId>,
    stale: u128,
    fetched_at: u128,
    now: u128,
) -> (plan: RoundPlan)
    ensures
        ({
            let round = cache::round_view(results@);
            let cached = cache::cached_after(old(cache)@, round, fetched_at, stale);
            let leases = cached.map_values(|e: CachedEntry<Leases>| e.value);
            let resolved = ids::ids_of(advertised_by(daemons@, leases), old(known)@, stale, now);
            &&& final(cache)@ == cached
            &&& final(known)@ == ids::fresh_only(resolved.remembered, stale, now)
            &&& routing::spec_views(plan.desired@) == daemon_specs(
                daemons@,
                leases,
                resolved.out,
            )
            &&& plan.ids@ == ids_in_use(resolved.out)
            &&& plan.src_marks@ == marks_of(routing::spec_views(plan.desired@))
            &&& plan.stats.fetched_ok == cache::count_ok(round)
            &&& plan.stats.used_cache == cache::count_cached(old(cache)@, round, fetched_at, stale)
            &&& plan.stats.fetched_ok + plan.stats.used_cache + plan.stats.dropped
                == results@.len()
        }),
{
    let (stats, view) = cache.apply_round(results, stale, fetched_at);
    let ghost leases = cache@.map_values(|e: CachedEntry<Leases>| e.value);
    proof {
        assert forall|n: Seq<char>| #[trigger] leases.dom().contains(n) implies view@.dom().contains(
            n,
        ) && view@[n]@ == leases[n]@ by {
            assert(view@.dom().contains(n));
            assert(cloned(cache@[n].value, view@[n]));
        }
        assert(view@.dom() =~= leases.dom());
        lemma_same_leases(daemons@, leases, view@);
    }
    let offered: Vec<(String, Option<u8>)> = advertised(daemons, &view);
    let ids: NameMap<u8> = ids::resolve_ids(&offered, known, stale, now);
    let id_set: HashSet<u8> = id_set(&ids);
    let desired: Vec<RouteSpec> = build_daemon_specs(daemons, &view, &ids);
    proof {
        lemma_same_specs(daemons@, leases, view@, ids@);
    }
    let marks: HashMap<u32, u32> = src_marks(&desired);
    RoundPlan { stats, desired, ids: id_set, src_marks: marks }
}

proof fn lemma_same_leases(
    daemons: Seq<DaemonEntry>,
    a: Map<Seq<char>, Leases>,
    b: Map<Seq<char>, Leases>,
)
    requires
        a.dom() == b.dom(),
        forall|n: Seq<char>| #[trigger] a.dom().contains(n) ==> a[n]@ == b[n]@,
    ensures
        advertised_by(daemons, a) == advertised_by(daemons, b),
{
    assert forall|i: int| 0 <= i < daemons.len() implies advertised_by(daemons, a)[i]
        == advertised_by(daemons, b)[i] by {
        let n = daemons[i].name@;
        if a.dom().contains(n) {
            assert(a[n]@ == b[n]@);
            assert(a[n]@.dumbarpd_id == b[n]@.dumbarpd_id);
        }
    }
    assert(advertised_by(daemons, a) =~= advertised_by(daemons, b));
}

proof fn lemma_same_specs(
    daemons: Seq<DaemonEntry>,
    a: Map<Seq<char>, Leases>,
    b: Map<Seq<char>, Leases>,
    ids: Map<Seq<char>, u8>,
)
    requires
        a.dom() == b.dom(),
        forall|n: Seq<char>| #[trigger] a.dom().contains(n) ==> a[n]@ == b[n]@,
    ensures
        daemon_specs(daemons, a, ids) == daemon_specs(daemons, b, ids),
    decreases daemons.len(),
{
    if daemons.len() > 0 {
        lemma_same_specs(daemons.drop_last(), a, b, ids);
        let n = daemons.last().name@;
        if a.dom().contains(n) {
            assert(a[n]@.ips == b[n]@.ips);
        }
    }
}

/// The gateway's daemons that are cached, none if nothing is.
pub open spec fn cached_daemons(
    cached: Map<Seq<char>, CachedEntry<Vec<DaemonRoutes>>>,
) -> Seq<DaemonRoutesView> {
    if cached.dom().contains(GATEWAY_CACHE_KEY@) {
        api::routes_views(cached[GATEWAY_CACHE_KEY@].value@)
    } else {
        Seq::empty()
    }
}

/// Plans a pass from a gateway's answer. `fetched_at` is when the answer was
/// in, `now` when the identifiers are decided.
pub fn plan_via_gateway(
    fetched: Option<Vec<DaemonRoutes>>,
    device_overrides: &NameMap<String>,
    cache: &mut Cache<Vec<DaemonRoutes>>,
    known: &mut NameMap<RememberedId>,
    stale: u128,
    fetched_at: u128,
    now: u128,
) -> (plan: RoundPlan)
    ensures
        ({
            let round = seq![(GATEWAY_CACHE_KEY@, fetched)];
            let cached = cache::cached_after(old(cache)@, round, fetched_at, stale);
            let daemons = cached_daemons(cached);
            let resolved = ids::ids_of(advertised_in(daemons), old(known)@, stale, now);
            &&& final(cache)@ == cached
            &&& final(known)@ == ids::fresh_only(resolved.remembered, stale, now)
            &&& routing::spec_views(plan.desired@) == gateway_specs(
                daemons,
                device_overrides@,
                resolved.out,
            )
            &&& plan.ids@ == gateway_ids(daemons, resolved.out)
            &&& plan.src_marks@ == marks_of(routing::spec_views(plan.desired@))
            &&& plan.stats.fetched_ok == cache::count_ok(round)
            &&& plan.stats.used_cache == cache::count_cached(old(cache)@, round, fetched_at, stale)
            &&& plan.stats.fetched_ok + plan.stats.used_cache + plan.stats.dropped == 1
        }),
{
    let mut results: Vec<(String, Option<Vec<DaemonRoutes>>)> = Vec::new();
    results.push((GATEWAY_CACHE_KEY.to_string(), fetched));
    assert(cache::round_view(results@) =~= seq![(GATEWAY_CACHE_KEY@, fetched)]);
    let stats = cache.apply_results(results, stale, fetched_at);
    let empty: Vec<DaemonRoutes> = Vec::new();
    assert(api::routes_views(empty@) =~= Seq::<DaemonRoutesView>::empty());
    let daemons: &Vec<DaemonRoutes> = match cache.get(GATEWAY_CACHE_KEY) {
        Some(daemons) => daemons,
        None => &empty,
    };
    let offered: Vec<(String, Option<u8>)> = advertised_of(daemons);
    let ids: NameMap<u8> = ids::resolve_ids(&offered, known, stale, now);
    let (desired, id_set) = build_gateway_specs(daemons, device_overrides, &ids);
    let marks: HashMap<u32, u32> = src_marks(&desired);
    RoundPlan { stats, desired, ids: id_set, src_marks: marks }
}

/// Every route that a gateway's answer leads to carries the mark of a valid
/// identifier, as long as the identifiers are valid.
pub proof fn law_gateway_routes_are_marked(
    daemons: Seq<DaemonRoutesView>,
    overrides: Map<Seq<char>, String>,
    ids: Map<Seq<char>, u8>,
    i: int,
)
    requires
        forall|n: Seq<char>| #[trigger] ids.dom().contains(n) ==> 1 <= ids[n] <= 63,
        0 <= i < gateway_specs(daemons, overrides, ids).len(),
    ensures
        ({
            let mark = gateway_specs(daemons, overrides, ids)[i].fwmark;
            &&& mark is Some
            &&& 0 < mark.unwrap() <= 63
            &&& gateway_ids(daemons, ids).contains(mark.unwrap() as u8)
        }),
    decreases daemons.len(),
{
    if daemons.len() > 0 {
        let before = gateway_specs(daemons.drop_last(), overrides, ids);
        if i < before.len() {
            law_gateway_routes_are_marked(daemons.drop_last(), overrides, ids, i);
        } else {
            let d = daemons.last();
            assert(ids.dom().contains(d.name));
        }
    }
}

/// The marks agree with the routes: a source address has the mark of the last
/// marked route from it, and none if there is none.
pub proof fn law_marks_cover_the_marked_routes(specs: Seq<RouteSpecView>, i: int)
    requires
        0 <= i < specs.len(),
        specs[i].fwmark is Some,
        forall|j: int|
            i < j < specs.len() && (#[trigger] specs[j]).fwmark is Some ==> specs[j].src
                != specs[i].src,
    ensures
        marks_of(specs).dom().contains(specs[i].src.bits),
        marks_of(specs)[specs[i].src.bits] == specs[i].fwmark.unwrap(),
    decreases specs.len(),
{
    let rest = specs.drop_last();
    let last = specs.len() - 1;
    if i < last {
        assert forall|j: int| i < j < rest.len() && (#[trigger] rest[j]).fwmark is Some implies rest[j].src
            != rest[i].src by {
            assert(specs[j].fwmark is Some);
        }
        law_marks_cover_the_marked_routes(rest, i);
        assert(specs[last].fwmark is Some ==> specs[last].src != specs[i].src);
    }
}

/// Only the sources of marked routes have a mark.
pub proof fn law_unmarked_sources_have_no_mark(specs: Seq<RouteSpecView>, src: Ipv4Addr)
    requires
        forall|i: int|
            0 <= i < specs.len() && (#[trigger] specs[i]).fwmark is Some ==> specs[i].src != src,
    ensures
        !marks_of(specs).dom().contains(src.bits),
    decreases specs.len(),
{
    if specs.len() > 0 {
        let rest = specs.drop_last();
        assert forall|i: int| 0 <= i < rest.len() && (#[trigger] rest[i]).fwmark is Some implies rest[i].src
            != src by {
            assert(specs[i].fwmark is Some);
        }
        law_unmarked_sources_have_no_mark(rest, src);
        assert(specs[specs.len() - 1].fwmark is Some ==> specs.last().src != src);
    }
}

/// Each daemon of a gateway that has an identifier gets a route for each of
/// its leases, in order: through its next hop, out of the configured device
/// if there is one for its name and else of its own, marked with the
/// identifier. A daemon without an identifier gets none.
pub proof fn law_every_lease_behind_a_gateway_is_routed(
    first: Seq<DaemonRoutesView>,
    second: Seq<DaemonRoutesView>,
    one: DaemonRoutesView,
    overrides: Map<Seq<char>, String>,
    ids: Map<Seq<char>, u8>,
)
    ensures
        gateway_specs(first + second, overrides, ids) == gateway_specs(first, overrides, ids)
            + gateway_specs(second, overrides, ids),
        !ids.dom().contains(one.name) ==> gateway_specs(seq![one], overrides, ids).len() == 0,
        ids.dom().contains(one.name) ==> ({
            let specs = gateway_specs(seq![one], overrides, ids);
            &&& specs.len() == one.ips.len()
            &&& forall|i: int|
                0 <= i < specs.len() ==> (#[trigger] specs[i]).src == one.ips[i] && specs[i].gateway
                    == one.nexthop && specs[i].fwmark == Some(ids[one.name] as u32)
                    && specs[i].iface == (if overrides.dom().contains(one.name) {
                    overrides[one.name]@
                } else {
                    one.device
                })
        }),
    decreases second.len(),
{
    reveal_with_fuel(gateway_specs, 2);
    assert(seq![one].drop_last() =~= Seq::<DaemonRoutesView>::empty());
    let a = gateway_specs(first, overrides, ids);
    let b = gateway_specs(second, overrides, ids);
    if second.len() > 0 {
        law_every_lease_behind_a_gateway_is_routed(first, second.drop_last(), one, overrides, ids);
        assert((first + second).drop_last() =~= first + second.drop_last());
        assert((first + second).last() == second.last());
        assert(gateway_specs(first + second, overrides, ids) =~= a + b);
    } else {
        assert(first + second =~= first);
        assert(a + b =~= a);
    }
}

/// The identifiers in use behind a gateway are those of its daemons.
pub proof fn law_ids_behind_a_gateway_are_those_of_its_daemons(
    daemons: Seq<DaemonRoutesView>,
    ids: Map<Seq<char>, u8>,
    id: u8,
)
    ensures
        gateway_ids(daemons, ids).contains(id) <==> exists|i: int|
            0 <= i < daemons.len() && ids.dom().contains((#[trigger] daemons[i]).name)
                && ids[daemons[i].name] == id,
    decreases daemons.len(),
{
    if daemons.len() > 0 {
        let rest = daemons.drop_last();
        let last = daemons.len() - 1;
        law_ids_behind_a_gateway_are_those_of_its_daemons(rest, ids, id);
        assert(daemons[last] == daemons.last());
        if gateway_ids(rest, ids).contains(id) {
            let i = choose|i: int|
                0 <= i < rest.len() && ids.dom().contains((#[trigger] rest[i]).name)
                    && ids[rest[i].name] == id;
            assert(daemons[i] == rest[i]);
        }
        if exists|i: int|
            0 <= i < daemons.len() && ids.dom().contains((#[trigger] daemons[i]).name)
                && ids[daemons[i].name] == id {
            let i = choose|i: int|
                0 <= i < daemons.len() && ids.dom().contains((#[trigger] daemons[i]).name)
                    && ids[daemons[i].name] == id;
            if i < last {
                assert(rest[i] == daemons[i]);
            }
        }
    }
}

/// Each configured daemon that has leases and an identifier gets a route for
/// each lease, in order: through its next hop, out of its device, marked with
/// the identifier. A daemon without either gets none.
pub proof fn law_every_lease_of_a_daemon_is_routed(
    first: Seq<DaemonEntry>,
    second: Seq<DaemonEntry>,
    one: DaemonEntry,
    leases: Map<Seq<char>, Leases>,
    ids: Map<Seq<char>, u8>,
)
    ensures
        daemon_specs(first + second, leases, ids) == daemon_specs(first, leases, ids)
            + daemon_specs(second, leases, ids),
        !(leases.dom().contains(one.name@) && ids.dom().contains(one.name@)) ==> daemon_specs(
            seq![one],
            leases,
            ids,
        ).len() == 0,
        leases.dom().contains(one.name@) && ids.dom().contains(one.name@) ==> ({
            let specs = daemon_specs(seq![one], leases, ids);
            let ips = leases[one.name@].ips@;
            &&& specs.len() == ips.len()
            &&& forall|i: int|
                0 <= i < specs.len() ==> (#[trigger] specs[i]).src == ips[i] && specs[i].gateway
                    == one.nexthop && specs[i].iface == one.device@ && specs[i].fwmark == Some(
                    ids[one.name@] as u32,
                )
        }),
    decreases second.len(),
{
    reveal_with_fuel(daemon_specs, 2);
    assert(seq![one].drop_last() =~= Seq::<DaemonEntry>::empty());
    let a = daemon_specs(first, leases, ids);
    let b = daemon_specs(second, leases, ids);
    if second.len() > 0 {
        law_every_lease_of_a_daemon_is_routed(first, second.drop_last(), one, leases, ids);
        assert((first + second).drop_last() =~= first + second.drop_last());
        assert((first + second).last() == second.last());
        assert(daemon_specs(first + second, leases, ids) =~= a + b);
    } else {
        assert(first + second =~= first);
        assert(a + b =~= a);
    }
}

/// Every daemon is listed with what it advertises: a configured one with the
/// identifier in its leases, if it has any, and one behind a gateway with the
/// identifier that the gateway tells.
pub proof fn law_every_daemon_is_listed_with_its_id(
    configured: Seq<DaemonEntry>,
    leases: Map<Seq<char>, Leases>,
    told: Seq<DaemonRoutesView>,
    i: int,
)
    ensures
        advertised_by(configured, leases).len() == configured.len(),
        0 <= i < configured.len() ==> ({
            let (name, id) = advertised_by(configured, leases)[i];
            &&& name == configured[i].name@
            &&& leases.dom().contains(name) ==> id == leases[name].dumbarpd_id
            &&& !leases.dom().contains(name) ==> id is None
        }),
        advertised_in(told).len() == told.len(),
        0 <= i < told.len() ==> advertised_in(told)[i].0 == told[i].name && advertised_in(told)[i].1
            == told[i].dumbarpd_id,
{
}

/// What a gateway told is cached under the name `gateway`.
pub proof fn law_answers_of_a_gateway_are_cached_by_name(
    cached: Map<Seq<char>, CachedEntry<Vec<DaemonRoutes>>>,
)
    ensures
        cached.dom().contains("gateway"@) ==> cached_daemons(cached) == api::routes_views(
            cached["gateway"@].value@,
        ),
        !cached.dom().contains("gateway"@) ==> cached_daemons(cached).len() == 0,
{
}

/// An identifier is in use exactly if a daemon has it.
pub proof fn law_ids_in_use_belong_to_daemons(ids: Map<Seq<char>, u8>, name: Seq<char>, id: u8)
    ensures
        ids.dom().contains(name) ==> ids_in_use(ids).contains(ids[name]),
        ids_in_use(ids).contains(id) ==> exists|n: Seq<char>| #[trigger]
            ids.dom().contains(n) && ids[n] == id,
{
}

} // verus!
